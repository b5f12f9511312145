//! Strings as sequences of characters: the small operations everything else
//! builds on.

use vstd::prelude::*;
use vstd::string::*;

verus! {

/// `String::push`: the character goes to the end.
pub assume_specification[ String::push ](s: &mut String, c: char)
    ensures
        final(s)@ == old(s)@.push(c),
;

/// The characters of `s`, in order.
pub fn chars_of(s: &str) -> (r: Vec<char>)
    ensures
        r@ == s@,
{
    let mut out: Vec<char> = Vec::new();
    for c in it: s.chars()
        invariant
            out@ =~= s@.take(it.index() as int),
            it.seq() == s@,
    {
        out.push(c);
    }
    assert(s@.take(s@.len() as int) =~= s@);
    out
}

/// The string made of these characters.
pub fn string_of(chars: &Vec<char>) -> (r: String)
    ensures
        r@ == chars@,
{
    let mut out: String = String::new();
    let mut i: usize = 0;
    while i < chars.len()
        invariant
            i <= chars.len(),
            out@ =~= chars@.take(i as int),
        decreases chars.len() - i,
    {
        out.push(chars[i]);
        i = i + 1;
    }
    assert(chars@.take(chars@.len() as int) =~= chars@);
    out
}

/// Whether the stretch of `chars` at `at` reads `part`.
fn reads_at(chars: &Vec<char>, at: usize, part: &Vec<char>) -> (r: bool)
    requires
        at + part@.len() <= chars@.len(),
    ensures
        r == (chars@.subrange(at as int, at + part@.len()) == part@),
{
    let mut i: usize = 0;
    while i < part.len()
        invariant
            i <= part@.len(),
            at + part@.len() <= chars.len(),
            forall|j: int| 0 <= j < i ==> chars@[at + j] == part@[j],
        decreases part.len() - i,
    {
        if chars[at + i] != part[i] {
            assert(chars@.subrange(at as int, at + part@.len())[i as int] != part@[i as int]);
            return false;
        }
        i = i + 1;
    }
    assert(chars@.subrange(at as int, at + part@.len()) =~= part@);
    true
}

/// Whether two strings hold the same characters.
pub fn same(a: &str, b: &str) -> (r: bool)
    ensures
        r == (a@ == b@),
{
    let xs: Vec<char> = chars_of(a);
    let ys: Vec<char> = chars_of(b);
    if xs.len() != ys.len() {
        return false;
    }
    assert(xs@.subrange(0, ys@.len() as int) =~= xs@);
    reads_at(&xs, 0, &ys)
}

/// `s` begins with `part`.
pub open spec fn begins(s: Seq<char>, part: Seq<char>) -> bool {
    part.len() <= s.len() && s.subrange(0, part.len() as int) == part
}

/// `s` ends with `part`.
pub open spec fn ends(s: Seq<char>, part: Seq<char>) -> bool {
    part.len() <= s.len() && s.subrange(s.len() - part.len(), s.len() as int) == part
}

/// `part` stands somewhere in `s`.
pub open spec fn holds(s: Seq<char>, part: Seq<char>) -> bool {
    exists|at: int|
        0 <= at <= s.len() - part.len() && #[trigger] s.subrange(at, at + part.len()) == part
}

/// `a` comes strictly before `b` in code point order.
pub open spec fn before(a: Seq<char>, b: Seq<char>) -> bool
    decreases a.len(),
{
    if b.len() == 0 {
        false
    } else if a.len() == 0 {
        true
    } else if a[0] == b[0] {
        before(a.skip(1), b.skip(1))
    } else {
        a[0] < b[0]
    }
}

pub fn starts_with(s: &str, part: &str) -> (r: bool)
    ensures
        r == begins(s@, part@),
{
    let xs: Vec<char> = chars_of(s);
    let ys: Vec<char> = chars_of(part);
    ys.len() <= xs.len() && reads_at(&xs, 0, &ys)
}

pub fn ends_with(s: &str, part: &str) -> (r: bool)
    ensures
        r == ends(s@, part@),
{
    let xs: Vec<char> = chars_of(s);
    let ys: Vec<char> = chars_of(part);
    ys.len() <= xs.len() && reads_at(&xs, xs.len() - ys.len(), &ys)
}

pub fn contains(s: &str, part: &str) -> (r: bool)
    ensures
        r == holds(s@, part@),
{
    let xs: Vec<char> = chars_of(s);
    let ys: Vec<char> = chars_of(part);
    if ys.len() > xs.len() {
        return false;
    }
    let last: usize = xs.len() - ys.len();
    let mut at: usize = 0;
    loop
        invariant
            xs@ == s@,
            ys@ == part@,
            at <= last == xs@.len() - ys@.len(),
            forall|k: int|
                0 <= k < at ==> #[trigger] xs@.subrange(k, k + ys@.len()) != ys@,
        decreases last - at,
    {
        if reads_at(&xs, at, &ys) {
            return true;
        }
        if at == last {
            return false;
        }
        at = at + 1;
    }
}

/// Whether `a` comes strictly before `b` in code point order.
pub fn precedes(a: &str, b: &str) -> (r: bool)
    ensures
        r == before(a@, b@),
{
    let xs: Vec<char> = chars_of(a);
    let ys: Vec<char> = chars_of(b);
    let mut i: usize = 0;
    assert(xs@.skip(0) =~= xs@);
    assert(ys@.skip(0) =~= ys@);
    while i < xs.len() && i < ys.len()
        invariant
            xs@ == a@,
            ys@ == b@,
            i <= xs@.len(),
            i <= ys@.len(),
            before(a@, b@) == before(xs@.skip(i as int), ys@.skip(i as int)),
        decreases xs.len() - i,
    {
        if xs[i] != ys[i] {
            return xs[i] < ys[i];
        }
        assert(xs@.skip(i as int).skip(1) =~= xs@.skip(i + 1));
        assert(ys@.skip(i as int).skip(1) =~= ys@.skip(i + 1));
        i = i + 1;
    }
    i < ys.len()
}

/// What `char::is_whitespace` says of a character beyond ASCII.
pub uninterp spec fn unicode_white_space(c: char) -> bool;

/// What `char::is_lowercase` says of a character beyond ASCII.
pub uninterp spec fn unicode_lowercase_letter(c: char) -> bool;

/// What `char::is_uppercase` says of a character beyond ASCII.
pub uninterp spec fn unicode_uppercase_letter(c: char) -> bool;

/// What `char::to_lowercase` gives for a character beyond ASCII.
pub uninterp spec fn unicode_lower(c: char) -> Seq<char>;

/// What `char::to_uppercase` gives for a character beyond ASCII.
pub uninterp spec fn unicode_upper(c: char) -> Seq<char>;

/// What `str::to_lowercase` gives for a string that is not all ASCII.
pub uninterp spec fn unicode_lowercased(s: Seq<char>) -> Seq<char>;

pub open spec fn is_ascii_char(c: char) -> bool {
    (c as u32) < 0x80
}

pub open spec fn is_ascii_upper(c: char) -> bool {
    'A' <= c && c <= 'Z'
}

pub open spec fn is_ascii_lower(c: char) -> bool {
    'a' <= c && c <= 'z'
}

/// The small letter of an ASCII capital, any other ASCII character itself.
pub open spec fn ascii_lower(c: char) -> char {
    if is_ascii_upper(c) {
        ((c as u32) + 32) as char
    } else {
        c
    }
}

/// The capital of a small ASCII letter, any other ASCII character itself.
pub open spec fn ascii_upper(c: char) -> char {
    if is_ascii_lower(c) {
        ((c as u32) - 32) as char
    } else {
        c
    }
}

/// White space: of the ASCII characters, the space and U+0009 to U+000D.
pub open spec fn is_white(c: char) -> bool {
    if is_ascii_char(c) {
        c == ' ' || (9 <= (c as u32) && (c as u32) <= 13)
    } else {
        unicode_white_space(c)
    }
}

/// A small letter: of the ASCII characters, `a` to `z`.
pub open spec fn is_small(c: char) -> bool {
    if is_ascii_char(c) {
        is_ascii_lower(c)
    } else {
        unicode_lowercase_letter(c)
    }
}

/// A capital letter: of the ASCII characters, `A` to `Z`.
pub open spec fn is_capital(c: char) -> bool {
    if is_ascii_char(c) {
        is_ascii_upper(c)
    } else {
        unicode_uppercase_letter(c)
    }
}

pub open spec fn lower(c: char) -> Seq<char> {
    if is_ascii_char(c) {
        seq![ascii_lower(c)]
    } else {
        unicode_lower(c)
    }
}

pub open spec fn upper(c: char) -> Seq<char> {
    if is_ascii_char(c) {
        seq![ascii_upper(c)]
    } else {
        unicode_upper(c)
    }
}

pub open spec fn all_ascii(s: Seq<char>) -> bool {
    forall|i: int| 0 <= i < s.len() ==> is_ascii_char(#[trigger] s[i])
}

/// ASCII capitals as small letters, anything else as it is.
pub open spec fn ascii_lowered(s: Seq<char>) -> Seq<char> {
    s.map_values(|c: char| ascii_lower(c))
}

/// Small ASCII letters as capitals, anything else as it is.
pub open spec fn ascii_uppered(s: Seq<char>) -> Seq<char> {
    s.map_values(|c: char| ascii_upper(c))
}

/// A string in small letters. ASCII letters go first, so that their case makes
/// no difference to the rest.
pub open spec fn lowercase(s: Seq<char>) -> Seq<char> {
    if all_ascii(s) {
        ascii_lowered(s)
    } else {
        unicode_lowercased(ascii_lowered(s))
    }
}

/// `char::is_whitespace`: has the character the Unicode property `White_Space`?
/// Of the ASCII characters those are the space and U+0009 to U+000D; beyond
/// ASCII the answer only has a name.
pub assume_specification[ char::is_whitespace ](c: char) -> (r: bool)
    ensures
        is_ascii_char(c) ==> r == is_white(c),
        !is_ascii_char(c) ==> r == unicode_white_space(c),
;

/// `char::is_lowercase`: has the character the Unicode property `Lowercase`? Of
/// the ASCII characters those are the small letters; beyond ASCII the answer
/// only has a name.
pub assume_specification[ char::is_lowercase ](c: char) -> (r: bool)
    ensures
        is_ascii_char(c) ==> r == is_small(c),
        !is_ascii_char(c) ==> r == unicode_lowercase_letter(c),
;

/// `char::is_uppercase`: has the character the Unicode property `Uppercase`? Of
/// the ASCII characters those are the capitals; beyond ASCII the answer only
/// has a name.
pub assume_specification[ char::is_uppercase ](c: char) -> (r: bool)
    ensures
        is_ascii_char(c) ==> r == is_capital(c),
        !is_ascii_char(c) ==> r == unicode_uppercase_letter(c),
;

/// `char::to_lowercase`, as a list. An ASCII capital becomes its small letter,
/// any other ASCII character stays; beyond ASCII the result only has a name.
#[verifier::external_body]
fn lower_of(c: char) -> (r: Vec<char>)
    ensures
        is_ascii_char(c) ==> r@ == lower(c),
        !is_ascii_char(c) ==> r@ == unicode_lower(c),
{
    c.to_lowercase().collect()
}

/// `char::to_uppercase`, as a list. A small ASCII letter becomes its capital,
/// any other ASCII character stays; beyond ASCII the result only has a name.
#[verifier::external_body]
fn upper_of(c: char) -> (r: Vec<char>)
    ensures
        is_ascii_char(c) ==> r@ == upper(c),
        !is_ascii_char(c) ==> r@ == unicode_upper(c),
{
    c.to_uppercase().collect()
}

/// `str::to_lowercase`. In an ASCII string each capital becomes its small
/// letter; the result for any other string only has a name.
#[verifier::external_body]
fn lowercased(s: &str) -> (r: String)
    ensures
        all_ascii(s@) ==> r@ == ascii_lowered(s@),
        !all_ascii(s@) ==> r@ == unicode_lowercased(s@),
{
    s.to_lowercase()
}

/// These characters in small letters.
pub(crate) fn lowercase_of(chars: &Vec<char>) -> (r: String)
    ensures
        r@ == lowercase(chars@),
{
    let mut plain: Vec<char> = Vec::new();
    let mut i: usize = 0;
    while i < chars.len()
        invariant
            i <= chars@.len(),
            plain@ =~= ascii_lowered(chars@).take(i as int),
        decreases chars.len() - i,
    {
        let c: char = chars[i];
        if (c as u32) < 0x80 {
            plain.push(lower_of(c)[0]);
        } else {
            plain.push(c);
        }
        i = i + 1;
    }
    proof {
        assert(plain@ =~= ascii_lowered(chars@));
        lemma_ascii_case(chars@);
    }
    lowercased(string_of(&plain).as_str())
}

proof fn lemma_ascii_case(s: Seq<char>)
    ensures
        all_ascii(ascii_lowered(s)) == all_ascii(s),
        all_ascii(ascii_uppered(s)) == all_ascii(s),
        ascii_lowered(ascii_lowered(s)) == ascii_lowered(s),
        ascii_lowered(ascii_uppered(s)) == ascii_lowered(s),
{
    assert forall|i: int| 0 <= i < s.len() implies is_ascii_char(#[trigger] s[i])
        == is_ascii_char(ascii_lowered(s)[i]) && is_ascii_char(s[i]) == is_ascii_char(
        ascii_uppered(s)[i],
    ) by {}
    if all_ascii(ascii_lowered(s)) {
        assert forall|i: int| 0 <= i < s.len() implies is_ascii_char(#[trigger] s[i]) by {
            assert(is_ascii_char(ascii_lowered(s)[i]));
        }
    }
    if all_ascii(ascii_uppered(s)) {
        assert forall|i: int| 0 <= i < s.len() implies is_ascii_char(#[trigger] s[i]) by {
            assert(is_ascii_char(ascii_uppered(s)[i]));
        }
    }
    assert(ascii_lowered(ascii_lowered(s)) =~= ascii_lowered(s));
    assert(ascii_lowered(ascii_uppered(s)) =~= ascii_lowered(s));
}

/// In small letters, the case that ASCII letters had is gone.
pub proof fn law_lowercase_forgets_ascii_case(s: Seq<char>)
    ensures
        lowercase(ascii_uppered(s)) == lowercase(s),
        lowercase(ascii_lowered(s)) == lowercase(s),
{
    lemma_ascii_case(s);
}

proof fn lemma_trimmed_start_of_capitals(s: Seq<char>)
    ensures
        trimmed_start(ascii_uppered(s)) == ascii_uppered(trimmed_start(s)),
    decreases s.len(),
{
    if s.len() > 0 && is_white(s[0]) {
        lemma_trimmed_start_of_capitals(s.skip(1));
        assert(ascii_uppered(s).skip(1) =~= ascii_uppered(s.skip(1)));
    }
}

proof fn lemma_trimmed_end_of_capitals(s: Seq<char>)
    ensures
        trimmed_end(ascii_uppered(s)) == ascii_uppered(trimmed_end(s)),
    decreases s.len(),
{
    if s.len() > 0 && is_white(s.last()) {
        lemma_trimmed_end_of_capitals(s.drop_last());
        assert(ascii_uppered(s).drop_last() =~= ascii_uppered(s.drop_last()));
    }
}

/// White space around a string is the same in capitals.
pub(crate) proof fn lemma_trimmed_capitals(s: Seq<char>)
    ensures
        trimmed(ascii_uppered(s)) == ascii_uppered(trimmed(s)),
{
    lemma_trimmed_start_of_capitals(s);
    lemma_trimmed_end_of_capitals(trimmed_start(s));
}

/// `s` without the white space it begins with.
pub open spec fn trimmed_start(s: Seq<char>) -> Seq<char>
    decreases s.len(),
{
    if s.len() > 0 && is_white(s[0]) {
        trimmed_start(s.skip(1))
    } else {
        s
    }
}

/// `s` without the white space it ends with.
pub open spec fn trimmed_end(s: Seq<char>) -> Seq<char>
    decreases s.len(),
{
    if s.len() > 0 && is_white(s.last()) {
        trimmed_end(s.drop_last())
    } else {
        s
    }
}

/// `s` without white space at either end.
pub open spec fn trimmed(s: Seq<char>) -> Seq<char> {
    trimmed_end(trimmed_start(s))
}

/// The characters of `chars` from `from` up to `to`.
pub(crate) fn slice(chars: &Vec<char>, from: usize, to: usize) -> (r: Vec<char>)
    requires
        from <= to <= chars@.len(),
    ensures
        r@ == chars@.subrange(from as int, to as int),
{
    let mut r: Vec<char> = Vec::new();
    let mut i: usize = from;
    while i < to
        invariant
            from <= i <= to <= chars@.len(),
            r@ =~= chars@.subrange(from as int, i as int),
        decreases to - i,
    {
        r.push(chars[i]);
        i = i + 1;
    }
    r
}

/// The characters without white space at either end.
pub(crate) fn trim(chars: &Vec<char>) -> (r: Vec<char>)
    ensures
        r@ == trimmed(chars@),
{
    let mut from: usize = 0;
    assert(chars@.skip(0) =~= chars@);
    while from < chars.len() && chars[from].is_whitespace()
        invariant
            from <= chars@.len(),
            trimmed_start(chars@) == trimmed_start(chars@.skip(from as int)),
        decreases chars.len() - from,
    {
        assert(chars@.skip(from as int).skip(1) =~= chars@.skip(from + 1));
        from = from + 1;
    }
    let ghost rest = chars@.skip(from as int);
    let mut to: usize = chars.len();
    assert(chars@.subrange(from as int, to as int) =~= rest);
    while from < to && chars[to - 1].is_whitespace()
        invariant
            from <= to <= chars@.len(),
            trimmed_end(rest) == trimmed_end(chars@.subrange(from as int, to as int)),
        decreases to - from,
    {
        assert(chars@.subrange(from as int, to as int).drop_last() =~= chars@.subrange(
            from as int,
            to - 1,
        ));
        to = to - 1;
    }
    slice(chars, from, to)
}

/// The title case form of a character that has one of its own: the digraphs
/// that are letters, Georgian letters, whose capitals do not begin words, and
/// Greek vowels with an iota to their side or below.
pub open spec fn own_title(c: char) -> Option<char> {
    let n = c as u32;
    if 0x1c4 <= n <= 0x1c6 {
        Some('\u{1c5}')
    } else if 0x1c7 <= n <= 0x1c9 {
        Some('\u{1c8}')
    } else if 0x1ca <= n <= 0x1cc {
        Some('\u{1cb}')
    } else if 0x1f1 <= n <= 0x1f3 {
        Some('\u{1f2}')
    } else if 0x10d0 <= n <= 0x10fa || 0x10fd <= n <= 0x10ff {
        Some(c)
    } else if 0x1f80 <= n <= 0x1faf && n % 16 < 8 {
        Some((n + 8) as char)
    } else if n == 0x1fb3 || n == 0x1fc3 || n == 0x1ff3 {
        Some((n + 9) as char)
    } else if is_title_letter(c) {
        Some(c)
    } else {
        None
    }
}

/// A letter that is neither small nor a capital but in title case.
pub open spec fn is_title_letter(c: char) -> bool {
    let n = c as u32;
    ||| n == 0x1c5 || n == 0x1c8 || n == 0x1cb || n == 0x1f2
    ||| 0x1f80 <= n <= 0x1faf && n % 16 >= 8
    ||| n == 0x1fbc || n == 0x1fcc || n == 0x1ffc
}

/// A letter that has case, one way or another.
pub open spec fn is_cased(c: char) -> bool {
    is_small(c) || is_capital(c) || is_title_letter(c)
}

/// What follows a capital, in small letters. A capital iota is one that stands
/// to the side of a vowel, and goes below it.
pub open spec fn small_tail(s: Seq<char>) -> Seq<char>
    decreases s.len(),
{
    if s.len() == 0 {
        seq![]
    } else {
        small_tail(s.drop_last()) + (if s.last() == '\u{399}' {
            seq!['\u{345}']
        } else {
            lower(s.last())
        })
    }
}

/// A character at the front of a word: where its capital form is several
/// characters, only the first stays a capital. U+0149 begins with an
/// apostrophe, and keeps the capital behind it.
pub open spec fn title(c: char) -> Seq<char> {
    match own_title(c) {
        Some(form) => seq![form],
        None => if c == '\u{149}' || upper(c).len() == 0 {
            upper(c)
        } else {
            seq![upper(c)[0]] + small_tail(upper(c).skip(1))
        },
    }
}

/// Whether a capital sigma between these stands at the end of a word, which
/// shows in what becomes of one behind `before` and of one before `after`.
pub open spec fn sigma_is_final(before: Seq<char>, after: Seq<char>) -> bool {
    let left = lowercase(before.push('\u{3a3}'));
    let right = lowercase(seq!['a', '\u{3a3}'] + after);
    &&& left.len() > 0 && left.last() == '\u{3c2}'
    &&& right.len() > 1 && right[1] == '\u{3c2}'
}

/// Character `i` of a string as a small letter.
pub open spec fn lower_in(s: Seq<char>, i: int) -> Seq<char> {
    if s[i] == '\u{3a3}' {
        if sigma_is_final(s.take(i), s.skip(i + 1)) {
            seq!['\u{3c2}']
        } else {
            seq!['\u{3c3}']
        }
    } else {
        lower(s[i])
    }
}

/// A string in title case, from character `i` on: a character right behind a
/// letter that has case is in small letters, any other in title case.
pub open spec fn titled_from(s: Seq<char>, i: int) -> Seq<char>
    decreases s.len() - i,
{
    if i >= s.len() {
        seq![]
    } else {
        (if i > 0 && is_cased(s[i - 1]) {
            lower_in(s, i)
        } else {
            title(s[i])
        }) + titled_from(s, i + 1)
    }
}

/// A string in title case: every run of letters that have case begins with a
/// capital and goes on in small letters.
pub open spec fn titled(s: Seq<char>) -> Seq<char> {
    titled_from(s, 0)
}

fn find_title(c: char) -> (r: Option<char>)
    ensures
        r == own_title(c),
{
    match c {
        '\u{1c4}' | '\u{1c5}' | '\u{1c6}' => Some('\u{1c5}'),
        '\u{1c7}' | '\u{1c8}' | '\u{1c9}' => Some('\u{1c8}'),
        '\u{1ca}' | '\u{1cb}' | '\u{1cc}' => Some('\u{1cb}'),
        '\u{1f1}' | '\u{1f2}' | '\u{1f3}' => Some('\u{1f2}'),
        '\u{1f80}' => Some('\u{1f88}'),
        '\u{1f81}' => Some('\u{1f89}'),
        '\u{1f82}' => Some('\u{1f8a}'),
        '\u{1f83}' => Some('\u{1f8b}'),
        '\u{1f84}' => Some('\u{1f8c}'),
        '\u{1f85}' => Some('\u{1f8d}'),
        '\u{1f86}' => Some('\u{1f8e}'),
        '\u{1f87}' => Some('\u{1f8f}'),
        '\u{1f90}' => Some('\u{1f98}'),
        '\u{1f91}' => Some('\u{1f99}'),
        '\u{1f92}' => Some('\u{1f9a}'),
        '\u{1f93}' => Some('\u{1f9b}'),
        '\u{1f94}' => Some('\u{1f9c}'),
        '\u{1f95}' => Some('\u{1f9d}'),
        '\u{1f96}' => Some('\u{1f9e}'),
        '\u{1f97}' => Some('\u{1f9f}'),
        '\u{1fa0}' => Some('\u{1fa8}'),
        '\u{1fa1}' => Some('\u{1fa9}'),
        '\u{1fa2}' => Some('\u{1faa}'),
        '\u{1fa3}' => Some('\u{1fab}'),
        '\u{1fa4}' => Some('\u{1fac}'),
        '\u{1fa5}' => Some('\u{1fad}'),
        '\u{1fa6}' => Some('\u{1fae}'),
        '\u{1fa7}' => Some('\u{1faf}'),
        '\u{1fb3}' => Some('\u{1fbc}'),
        '\u{1fc3}' => Some('\u{1fcc}'),
        '\u{1ff3}' => Some('\u{1ffc}'),
        _ => {
            let n: u32 = c as u32;
            if (0x10d0 <= n && n <= 0x10fa) || (0x10fd <= n && n <= 0x10ff) || has_title_case(c) {
                Some(c)
            } else {
                None
            }
        },
    }
}

fn has_title_case(c: char) -> (r: bool)
    ensures
        r == is_title_letter(c),
{
    let n: u32 = c as u32;
    n == 0x1c5 || n == 0x1c8 || n == 0x1cb || n == 0x1f2 || (0x1f80 <= n && n <= 0x1faf && n % 16
        >= 8) || n == 0x1fbc || n == 0x1fcc || n == 0x1ffc
}

fn has_case(c: char) -> (r: bool)
    ensures
        r == is_cased(c),
{
    c.is_lowercase() || c.is_uppercase() || has_title_case(c)
}

fn title_of(c: char) -> (r: Vec<char>)
    ensures
        r@ == title(c),
{
    if let Some(form) = find_title(c) {
        let mut r: Vec<char> = Vec::new();
        r.push(form);
        assert(r@ =~= seq![form]);
        return r;
    }
    let capitals: Vec<char> = upper_of(c);
    if c == '\u{149}' || capitals.len() == 0 {
        return capitals;
    }
    let ghost tail = capitals@.skip(1);
    let mut r: Vec<char> = Vec::new();
    r.push(capitals[0]);
    let mut i: usize = 1;
    assert(r@ =~= seq![capitals@[0]] + small_tail(tail.take(0)));
    while i < capitals.len()
        invariant
            1 <= i <= capitals@.len(),
            tail == capitals@.skip(1),
            r@ == seq![capitals@[0]] + small_tail(tail.take(i - 1)),
        decreases capitals.len() - i,
    {
        let ghost before = r@;
        assert(tail.take(i as int).drop_last() =~= tail.take(i - 1));
        assert(tail.take(i as int).last() == capitals@[i as int]);
        if capitals[i] == '\u{399}' {
            r.push('\u{345}');
            assert(r@ =~= before + seq!['\u{345}']);
        } else {
            let mut small: Vec<char> = lower_of(capitals[i]);
            let ghost these = small@;
            r.append(&mut small);
            assert(r@ =~= before + these);
        }
        assert(r@ =~= seq![capitals@[0]] + small_tail(tail.take(i as int)));
        i = i + 1;
    }
    assert(tail.take(i - 1) =~= tail);
    r
}

fn finds_final_sigma(chars: &Vec<char>, i: usize) -> (r: bool)
    requires
        i < chars@.len(),
    ensures
        r == sigma_is_final(chars@.take(i as int), chars@.skip(i + 1)),
{
    let mut left: Vec<char> = slice(chars, 0, i);
    left.push('\u{3a3}');
    assert(left@ =~= chars@.take(i as int).push('\u{3a3}'));
    let left: Vec<char> = chars_of(lowercase_of(&left).as_str());
    let mut right: Vec<char> = Vec::new();
    right.push('a');
    right.push('\u{3a3}');
    let end: usize = chars.len();
    let mut after: Vec<char> = slice(chars, i + 1, end);
    let ghost rest = after@;
    right.append(&mut after);
    assert(right@ =~= seq!['a', '\u{3a3}'] + rest);
    assert(rest =~= chars@.skip(i + 1));
    let right: Vec<char> = chars_of(lowercase_of(&right).as_str());
    left.len() > 0 && left[left.len() - 1] == '\u{3c2}' && right.len() > 1 && right[1] == '\u{3c2}'
}

fn lower_at(chars: &Vec<char>, i: usize) -> (r: Vec<char>)
    requires
        i < chars@.len(),
    ensures
        r@ == lower_in(chars@, i as int),
{
    if chars[i] == '\u{3a3}' {
        let mut r: Vec<char> = Vec::new();
        if finds_final_sigma(chars, i) {
            r.push('\u{3c2}');
        } else {
            r.push('\u{3c3}');
        }
        assert(r@ =~= lower_in(chars@, i as int));
        r
    } else {
        lower_of(chars[i])
    }
}

/// A string in title case: every run of letters that have case begins with a
/// capital and goes on in small letters. A letter without case is part of no
/// run.
pub fn title_case(raw: &str) -> (r: String)
    ensures
        r@ == titled(raw@),
{
    let chars: Vec<char> = chars_of(raw);
    let mut out: Vec<char> = Vec::new();
    let mut i: usize = 0;
    assert(out@ + titled_from(chars@, 0) =~= titled(raw@));
    while i < chars.len()
        invariant
            i <= chars@.len(),
            chars@ == raw@,
            titled(raw@) == out@ + titled_from(chars@, i as int),
        decreases chars.len() - i,
    {
        let ghost done = out@;
        let mut cased: Vec<char> = if i > 0 && has_case(chars[i - 1]) {
            lower_at(&chars, i)
        } else {
            title_of(chars[i])
        };
        let ghost these = cased@;
        out.append(&mut cased);
        assert(done + (these + titled_from(chars@, i + 1)) =~= out@ + titled_from(chars@, i + 1));
        i = i + 1;
    }
    assert(out@ + titled_from(chars@, i as int) =~= out@);
    string_of(&out)
}

/// The decimal digit of value `d`.
pub open spec fn digit(d: nat) -> char {
    (('0' as u32) + d) as char
}

/// `n` in decimal, without leading zeros.
pub open spec fn decimal(n: nat) -> Seq<char>
    decreases n,
{
    if n < 10 {
        seq![digit(n)]
    } else {
        decimal(n / 10).push(digit(n % 10))
    }
}

/// `n` in decimal, with a minus sign if it is negative.
pub open spec fn signed_decimal(n: int) -> Seq<char> {
    if n < 0 {
        seq!['-'] + decimal((-n) as nat)
    } else {
        decimal(n as nat)
    }
}

/// Different numbers read differently.
pub proof fn law_decimal_is_injective(a: nat, b: nat)
    requires
        decimal(a) == decimal(b),
    ensures
        a == b,
    decreases a,
{
    if a < 10 && b < 10 {
        assert(decimal(a)[0] == digit(a));
        assert(decimal(b)[0] == digit(b));
    } else if a < 10 {
        lemma_decimal_len(b / 10);
        assert(decimal(b).len() >= 2);
    } else if b < 10 {
        lemma_decimal_len(a / 10);
        assert(decimal(a).len() >= 2);
    } else {
        assert(decimal(a).drop_last() =~= decimal(a / 10));
        assert(decimal(b).drop_last() =~= decimal(b / 10));
        assert(decimal(a).last() == digit(a % 10));
        assert(decimal(b).last() == digit(b % 10));
        law_decimal_is_injective(a / 10, b / 10);
    }
}

proof fn lemma_decimal_len(n: nat)
    ensures
        decimal(n).len() >= 1,
{
}

fn digit_of(d: u64) -> (r: char)
    requires
        d < 10,
    ensures
        r == digit(d as nat),
{
    match d {
        0 => '0',
        1 => '1',
        2 => '2',
        3 => '3',
        4 => '4',
        5 => '5',
        6 => '6',
        7 => '7',
        8 => '8',
        _ => '9',
    }
}

fn decimal_chars(n: u64) -> (r: Vec<char>)
    ensures
        r@ == decimal(n as nat),
    decreases n,
{
    if n < 10 {
        let mut r: Vec<char> = Vec::new();
        r.push(digit_of(n));
        assert(r@ =~= seq![digit(n as nat)]);
        r
    } else {
        let mut r: Vec<char> = decimal_chars(n / 10);
        r.push(digit_of(n % 10));
        r
    }
}

/// `n` in decimal.
pub fn decimal_of(n: u64) -> (r: String)
    ensures
        r@ == decimal(n as nat),
{
    string_of(&decimal_chars(n))
}

/// `n` in decimal, with a minus sign if it is negative.
pub fn signed_decimal_of(n: i64) -> (r: String)
    ensures
        r@ == signed_decimal(n as int),
{
    if n < 0 {
        let mut r: String = String::new();
        r.push('-');
        let magnitude: u64 = if n == i64::MIN {
            0x8000_0000_0000_0000u64
        } else {
            (-n) as u64
        };
        r.append(decimal_of(magnitude).as_str());
        r
    } else {
        decimal_of(n as u64)
    }
}

/// The strings of a list, one after the other with `separator` in between.
pub open spec fn joined(items: Seq<Seq<char>>, separator: Seq<char>) -> Seq<char>
    decreases items.len(),
{
    if items.len() == 0 {
        seq![]
    } else if items.len() == 1 {
        items[0]
    } else {
        joined(items.drop_last(), separator) + separator + items.last()
    }
}

/// What each string of a list holds.
pub open spec fn texts(items: Seq<String>) -> Seq<Seq<char>> {
    items.map_values(|s: String| s@)
}

/// The strings of a list, one after the other with `separator` in between.
pub fn join(items: &Vec<String>, separator: &str) -> (r: String)
    ensures
        r@ == joined(texts(items@), separator@),
{
    let mut out: String = String::new();
    let mut i: usize = 0;
    while i < items.len()
        invariant
            i <= items@.len(),
            out@ == joined(texts(items@).take(i as int), separator@),
        decreases items.len() - i,
    {
        if i > 0 {
            out.append(separator);
        }
        out.append(items[i].as_str());
        proof {
            let upto = texts(items@).take(i + 1);
            assert(upto.drop_last() =~= texts(items@).take(i as int));
            assert(upto.last() == items@[i as int]@);
            if i == 0 {
                assert(out@ =~= items@[0]@);
            }
        }
        i = i + 1;
    }
    assert(texts(items@).take(items@.len() as int) =~= texts(items@));
    out
}

/// Where a character first stands in a string.
pub open spec fn first_at(s: Seq<char>, c: char) -> Option<int>
    decreases s.len(),
{
    if s.len() == 0 {
        None
    } else {
        match first_at(s.drop_last(), c) {
            Some(i) => Some(i),
            None => if s.last() == c {
                Some(s.len() - 1)
            } else {
                None
            },
        }
    }
}

/// The parts of a string between separators.
pub open spec fn split(s: Seq<char>, separator: char) -> Seq<Seq<char>>
    decreases s.len(),
{
    if s.len() == 0 {
        seq![seq![]]
    } else {
        let rest = split(s.drop_last(), separator);
        if s.last() == separator {
            rest.push(seq![])
        } else {
            rest.drop_last().push(rest.last().push(s.last()))
        }
    }
}

pub proof fn lemma_first_at(s: Seq<char>, c: char)
    ensures
        match first_at(s, c) {
            Some(i) => 0 <= i < s.len() && s[i] == c && forall|j: int| 0 <= j < i ==> s[j] != c,
            None => forall|j: int| 0 <= j < s.len() ==> s[j] != c,
        },
    decreases s.len(),
{
    if s.len() > 0 {
        let rest = s.drop_last();
        lemma_first_at(rest, c);
        assert(forall|j: int| 0 <= j < rest.len() ==> rest[j] == s[j]);
    }
}

pub(crate) fn find_char(chars: &Vec<char>, c: char) -> (r: Option<usize>)
    ensures
        first_at(chars@, c) == (match r {
            Some(i) => Some(i as int),
            None => None,
        }),
        r is Some ==> r->0 < chars@.len(),
        r is Some <==> chars@.contains(c),
{
    proof {
        lemma_first_at(chars@, c);
    }
    let mut i: usize = 0;
    while i < chars.len()
        invariant
            i <= chars@.len(),
            forall|j: int| 0 <= j < i ==> chars@[j] != c,
            match first_at(chars@, c) {
                Some(i) => 0 <= i < chars@.len() && chars@[i] == c && forall|j: int|
                    0 <= j < i ==> chars@[j] != c,
                None => forall|j: int| 0 <= j < chars@.len() ==> chars@[j] != c,
            },
        decreases chars.len() - i,
    {
        if chars[i] == c {
            return Some(i);
        }
        i = i + 1;
    }
    None
}

/// What each part of a list holds.
pub open spec fn parts(list: Seq<Vec<char>>) -> Seq<Seq<char>> {
    list.map_values(|p: Vec<char>| p@)
}

pub(crate) fn split_at(chars: &Vec<char>, separator: char) -> (r: Vec<Vec<char>>)
    ensures
        parts(r@) == split(chars@, separator),
{
    let mut done: Vec<Vec<char>> = Vec::new();
    let mut current: Vec<char> = Vec::new();
    let mut i: usize = 0;
    assert(parts(done@).push(current@) =~= split(chars@.take(0), separator));
    while i < chars.len()
        invariant
            i <= chars@.len(),
            parts(done@).push(current@) == split(chars@.take(i as int), separator),
        decreases chars.len() - i,
    {
        let ghost before = parts(done@).push(current@);
        proof {
            assert(chars@.take(i + 1).drop_last() =~= chars@.take(i as int));
            assert(before.drop_last() =~= parts(done@));
            assert(before.last() == current@);
        }
        if chars[i] == separator {
            let ghost was = done@;
            let ghost part = current@;
            done.push(current);
            current = Vec::new();
            assert(parts(done@) =~= parts(was).push(part));
        } else {
            current.push(chars[i]);
        }
        i = i + 1;
    }
    assert(chars@.take(i as int) =~= chars@);
    let ghost was = done@;
    let ghost part = current@;
    done.push(current);
    assert(parts(done@) =~= parts(was).push(part));
    done
}

/// Strings are in order by the first character in which they differ, and one
/// that the other begins with comes first. No string comes before itself.
pub proof fn law_strings_are_in_order_by_the_first_difference(
    common: Seq<char>,
    a: Seq<char>,
    b: Seq<char>,
)
    ensures
        before(common + a, common + b) <==> before(a, b),
        !before(common, common),
        a.len() > 0 ==> before(common, common + a) && !before(common + a, common),
        a.len() > 0 && b.len() > 0 && a[0] < b[0] ==> before(common + a, common + b) && !before(
            common + b,
            common + a,
        ),
    decreases common.len(),
{
    if common.len() == 0 {
        assert(common + a =~= a);
        assert(common + b =~= b);
    } else {
        let rest = common.skip(1);
        assert((common + a).skip(1) =~= rest + a);
        assert((common + b).skip(1) =~= rest + b);
        assert((common + a)[0] == common[0] && (common + b)[0] == common[0]);
        law_strings_are_in_order_by_the_first_difference(rest, a, b);
    }
}

/// Of two different strings exactly one comes before the other.
pub proof fn law_of_two_strings_one_comes_first(a: Seq<char>, b: Seq<char>)
    ensures
        a != b ==> (before(a, b) <==> !before(b, a)),
        a == b ==> !before(a, b),
    decreases a.len(),
{
    if a.len() > 0 && b.len() > 0 {
        law_of_two_strings_one_comes_first(a.skip(1), b.skip(1));
        if a[0] == b[0] && a.skip(1) == b.skip(1) {
            assert(a =~= seq![a[0]] + a.skip(1));
            assert(b =~= seq![b[0]] + b.skip(1));
        }
    } else if a.len() == b.len() {
        assert(a =~= b);
    }
}

/// A string begins with another exactly if it is that one with something put
/// behind it, ends with it if with something put in front, and holds it if with
/// something put on either side.
pub proof fn law_parts_of_strings(s: Seq<char>, part: Seq<char>)
    ensures
        begins(s, part) <==> exists|rest: Seq<char>| s == #[trigger] (part + rest),
        ends(s, part) <==> exists|rest: Seq<char>| s == #[trigger] (rest + part),
        holds(s, part) <==> exists|front: Seq<char>, back: Seq<char>| s == #[trigger] (front + part
            + back),
{
    lemma_begins_is_a_front(s, part);
    lemma_ends_is_a_back(s, part);
    lemma_holds_is_a_middle(s, part);
}

proof fn lemma_begins_is_a_front(s: Seq<char>, part: Seq<char>)
    ensures
        begins(s, part) <==> exists|rest: Seq<char>| s == #[trigger] (part + rest),
{
    if begins(s, part) {
        assert(s =~= part + s.skip(part.len() as int));
    }
    if exists|rest: Seq<char>| s == #[trigger] (part + rest) {
        let rest = choose|rest: Seq<char>| s == #[trigger] (part + rest);
        assert(s.subrange(0, part.len() as int) =~= part);
    }
}

proof fn lemma_ends_is_a_back(s: Seq<char>, part: Seq<char>)
    ensures
        ends(s, part) <==> exists|rest: Seq<char>| s == #[trigger] (rest + part),
{
    if ends(s, part) {
        assert(s =~= s.take(s.len() - part.len()) + part);
    }
    if exists|rest: Seq<char>| s == #[trigger] (rest + part) {
        let rest = choose|rest: Seq<char>| s == #[trigger] (rest + part);
        assert(s.subrange(s.len() - part.len(), s.len() as int) =~= part);
    }
}

proof fn lemma_holds_is_a_middle(s: Seq<char>, part: Seq<char>)
    ensures
        holds(s, part) <==> exists|front: Seq<char>, back: Seq<char>| s == #[trigger] (front + part
            + back),
{
    if holds(s, part) {
        let at = choose|at: int|
            0 <= at <= s.len() - part.len() && #[trigger] s.subrange(at, at + part.len()) == part;
        lemma_middle_is_cut_out(s, part, at);
    }
    if exists|front: Seq<char>, back: Seq<char>| s == #[trigger] (front + part + back) {
        let (front, back) = choose|front: Seq<char>, back: Seq<char>|
            s == #[trigger] (front + part + back);
        let at = front.len() as int;
        assert(s.subrange(at, at + part.len()) =~= part);
    }
}

proof fn lemma_middle_is_cut_out(s: Seq<char>, part: Seq<char>, at: int)
    requires
        0 <= at <= s.len() - part.len(),
        s.subrange(at, at + part.len()) == part,
    ensures
        s == s.take(at) + part + s.skip(at + part.len()),
{
    let whole = s.take(at) + part + s.skip(at + part.len());
    assert forall|i: int| 0 <= i < s.len() implies s[i] == whole[i] by {
        if at <= i < at + part.len() {
            assert(s.subrange(at, at + part.len())[i - at] == s[i]);
        }
    }
    assert(s =~= whole);
}

/// White space around text is all that is trimmed off, and of the ASCII
/// characters only the space and U+0009 to U+000D are white space.
pub proof fn law_only_white_space_around_text_is_trimmed(
    front: Seq<char>,
    core: Seq<char>,
    back: Seq<char>,
)
    requires
        forall|i: int| 0 <= i < front.len() ==> is_white(#[trigger] front[i]),
        forall|i: int| 0 <= i < back.len() ==> is_white(#[trigger] back[i]),
        core.len() > 0 ==> !is_white(core[0]) && !is_white(core.last()),
    ensures
        trimmed(front + core + back) == core,
        forall|c: char|
            (c as u32) < 0x80 ==> (#[trigger] is_white(c) <==> c == ' ' || 9 <= (c as u32) <= 13),
{
    let all = front + core + back;
    lemma_white_front_goes(front, core + back);
    assert(all =~= front + (core + back));
    if core.len() > 0 {
        assert((core + back)[0] == core[0]);
        assert(trimmed_start(core + back) == core + back);
        lemma_white_back_goes(core, back);
        assert(trimmed_end(core) == core);
    } else {
        assert(core + back =~= back + Seq::<char>::empty());
        lemma_white_front_goes(back, Seq::empty());
        assert(trimmed_start(Seq::<char>::empty()) =~= Seq::empty());
        assert(core =~= Seq::empty());
    }
}

proof fn lemma_white_front_goes(front: Seq<char>, rest: Seq<char>)
    requires
        forall|i: int| 0 <= i < front.len() ==> is_white(#[trigger] front[i]),
    ensures
        trimmed_start(front + rest) == trimmed_start(rest),
    decreases front.len(),
{
    if front.len() == 0 {
        assert(front + rest =~= rest);
    } else {
        assert((front + rest)[0] == front[0]);
        assert((front + rest).skip(1) =~= front.skip(1) + rest);
        lemma_white_front_goes(front.skip(1), rest);
    }
}

proof fn lemma_white_back_goes(rest: Seq<char>, back: Seq<char>)
    requires
        forall|i: int| 0 <= i < back.len() ==> is_white(#[trigger] back[i]),
    ensures
        trimmed_end(rest + back) == trimmed_end(rest),
    decreases back.len(),
{
    if back.len() == 0 {
        assert(rest + back =~= rest);
    } else {
        assert((rest + back).last() == back.last());
        assert(back.last() == back[back.len() - 1]);
        assert((rest + back).drop_last() =~= rest + back.drop_last());
        lemma_white_back_goes(rest, back.drop_last());
    }
}

/// `s` spells `small` in any mixture of small and capital letters.
pub open spec fn spelled_in_any_case(s: Seq<char>, small: Seq<char>, capital: Seq<char>) -> bool {
    &&& s.len() == small.len()
    &&& s.len() == capital.len()
    &&& forall|i: int| 0 <= i < s.len() ==> #[trigger] s[i] == small[i] || s[i] == capital[i]
}

/// Text of ASCII letters, and characters that have no case, reads the same in
/// small letters however its letters were spelled.
pub proof fn law_ascii_text_is_put_in_small_letters(
    s: Seq<char>,
    small: Seq<char>,
    capital: Seq<char>,
)
    requires
        spelled_in_any_case(s, small, capital),
        forall|i: int|
            0 <= i < small.len() ==> {
                ||| 'a' <= #[trigger] small[i] && small[i] <= 'z' && (capital[i] as u32) + 32 == (
                small[i] as u32)
                ||| (small[i] as u32) < 0x80 && capital[i] == small[i] && !('A' <= small[i]
                    && small[i] <= 'Z')
            },
    ensures
        lowercase(s) == small,
{
    assert forall|i: int| 0 <= i < s.len() implies is_ascii_char(#[trigger] s[i]) && ascii_lower(s[i])
        == small[i] by {
        assert(s[i] == small[i] || s[i] == capital[i]);
    }
    assert(ascii_lowered(s) =~= small);
}

/// ASCII text in title case has a capital wherever a letter does not follow
/// another, a small letter wherever one does, and everything else as it was.
pub proof fn law_ascii_words_begin_with_a_capital(s: Seq<char>, i: int)
    requires
        forall|k: int| 0 <= k < s.len() ==> (#[trigger] s[k] as u32) < 0x80,
        0 <= i < s.len(),
    ensures
        titled(s).len() == s.len(),
        ({
            let is_letter = |c: char| ('a' <= c && c <= 'z') || ('A' <= c && c <= 'Z');
            if !is_letter(s[i]) {
                titled(s)[i] == s[i]
            } else if i > 0 && is_letter(s[i - 1]) {
                'a' <= titled(s)[i] && titled(s)[i] <= 'z' && (titled(s)[i] == s[i] || (s[i] as u32)
                    + 32 == (titled(s)[i] as u32))
            } else {
                'A' <= titled(s)[i] && titled(s)[i] <= 'Z' && (titled(s)[i] == s[i] || (titled(
                    s,
                )[i] as u32) + 32 == (s[i] as u32))
            }
        }),
{
    lemma_ascii_title_from(s, 0, i);
}

proof fn lemma_ascii_title_from(s: Seq<char>, from: int, i: int)
    requires
        forall|k: int| 0 <= k < s.len() ==> (#[trigger] s[k] as u32) < 0x80,
        0 <= from <= s.len(),
        0 <= i < s.len(),
    ensures
        titled_from(s, from).len() == s.len() - from,
        from <= i ==> titled_from(s, from)[i - from] == (if i > 0 && is_cased(s[i - 1]) {
            ascii_lower(s[i])
        } else {
            ascii_upper(s[i])
        }),
        i > 0 ==> is_cased(s[i - 1]) == (is_ascii_lower(s[i - 1]) || is_ascii_upper(s[i - 1])),
    decreases s.len() - from,
{
    if i > 0 {
        assert((s[i - 1] as u32) < 0x80);
    }
    if from < s.len() {
        lemma_ascii_title_from(s, from + 1, i);
        assert((s[from] as u32) < 0x80);
        let c = s[from];
        assert(upper(c).skip(1) =~= seq![]);
        assert(small_tail(upper(c).skip(1)) =~= seq![]);
        assert(title(c) =~= seq![ascii_upper(c)]);
        assert(lower_in(s, from) =~= seq![ascii_lower(c)]);
    }
}

/// Numbers are written digit by digit, the last digit last.
pub proof fn law_numbers_are_written_digit_by_digit(n: nat, d: nat)
    requires
        d < 10,
    ensures
        decimal(d) == seq![(48 + d) as char],
        n > 0 ==> decimal(10 * n + d) == decimal(n).push((48 + d) as char),
        signed_decimal(n as int) == decimal(n),
        n > 0 ==> signed_decimal(-n) == seq!['-'] + decimal(n),
{
    assert((10 * n + d) / 10 == n);
    assert((10 * n + d) % 10 == d);
}

/// Strings are joined one after the other, the separator in between and
/// nowhere else.
pub proof fn law_separators_go_between(items: Seq<Seq<char>>, item: Seq<char>, separator: Seq<char>)
    ensures
        joined(Seq::empty(), separator).len() == 0,
        joined(seq![item], separator) == item,
        items.len() > 0 ==> joined(items.push(item), separator) == joined(items, separator)
            + separator + item,
{
    assert(items.push(item).drop_last() =~= items);
}

/// A string is split at every separator and nowhere else: what comes behind
/// the last one is a part of its own, and the parts before it are those of what
/// comes before it.
pub proof fn law_strings_are_split_at_separators(
    front: Seq<char>,
    separator: char,
    back: Seq<char>,
)
    requires
        !back.contains(separator),
    ensures
        split(back, separator) == seq![back],
        split(front.push(separator) + back, separator) == split(front, separator).push(back),
    decreases back.len(),
{
    if back.len() == 0 {
        assert(back =~= seq![]);
        assert(front.push(separator) + back =~= front.push(separator));
        assert(front.push(separator).drop_last() =~= front);
    } else {
        let rest = back.drop_last();
        assert(!rest.contains(separator)) by {
            if rest.contains(separator) {
                let i = choose|i: int| 0 <= i < rest.len() && rest[i] == separator;
                assert(back[i] == separator);
            }
        }
        assert(back.last() != separator) by {
            assert(back[back.len() - 1] == back.last());
        }
        law_strings_are_split_at_separators(front, separator, rest);
        assert(rest.push(back.last()) =~= back);
        let all = front.push(separator) + back;
        assert(all.drop_last() =~= front.push(separator) + rest);
        assert(all.last() == back.last());
        assert(split(front, separator).push(rest).drop_last() =~= split(front, separator));
        assert(seq![rest].drop_last() =~= seq![]);
        assert(split(back, separator) =~= seq![back]);
    }
}

} // verus!
