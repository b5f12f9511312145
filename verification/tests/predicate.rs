use fontc::predicate::{
    evaluate_predicate, fnmatch, op_matches, Connective, GlyphPredicateAttr, GlyphsAppPredicate,
    PredicateClause, PredicateOp,
};
use fontc::static_metadata::GlyphPredicateAttrs;

/// The words of a predicate: quoted values without their quotes, everything
/// else as it stands. Operators need no space around them.
fn words(inner: &str) -> Vec<(String, bool)> {
    let chars: Vec<char> = inner.chars().collect();
    let mut out: Vec<(String, bool)> = Vec::new();
    let mut i = 0;
    while i < chars.len() {
        let c = chars[i];
        if c.is_whitespace() {
            i += 1;
        } else if c == '"' || c == '\'' {
            let end = (i + 1..chars.len()).find(|k| chars[*k] == c).unwrap();
            out.push((chars[i + 1..end].iter().collect(), true));
            i = end + 1;
        } else {
            let symbol = |c: char| "=!<>&|".contains(c);
            let mut end = i;
            while end < chars.len() && !chars[end].is_whitespace() && symbol(chars[end]) == symbol(c)
            {
                end += 1;
            }
            out.push((chars[i..end].iter().collect(), false));
            i = end;
        }
    }
    out
}

fn parse_predicate(inner: &str) -> GlyphsAppPredicate {
    let words = words(inner);
    let mut node = GlyphsAppPredicate {
        clauses: Vec::new(),
        connectives: Vec::new(),
    };
    let mut at = 0;
    while at < words.len() {
        if at > 0 {
            let connective = match words[at].0.to_lowercase().as_str() {
                "and" | "&&" => Connective::And,
                "or" | "||" => Connective::Or,
                other => panic!("not a connective: {other}"),
            };
            node.connectives.push(connective);
            at += 1;
        }
        let op = match words[at + 1].0.to_lowercase().as_str() {
            "beginswith" => PredicateOp::BeginsWith,
            "endswith" => PredicateOp::EndsWith,
            "contains" => PredicateOp::Contains,
            "like" => PredicateOp::Like,
            "=" | "==" => PredicateOp::Eq,
            "!=" | "<>" => PredicateOp::Ne,
            "<" => PredicateOp::Lt,
            "<=" => PredicateOp::Le,
            ">" => PredicateOp::Gt,
            ">=" => PredicateOp::Ge,
            other => panic!("not an operator: {other}"),
        };
        node.clauses.push(PredicateClause {
            attr: words[at].0.clone(),
            op,
            value: words[at + 2].0.clone(),
        });
        at += 3;
    }
    node
}

fn eval(inner: &str, glyphs: &[(u16, &str)]) -> Vec<u16> {
    eval_with_attrs(inner, glyphs, &[])
}

/// evaluate with a source that answers attributes from `attrs`, given as
/// (glyph name, attribute, value) triples; anything absent is unset.
fn eval_with_attrs(
    inner: &str,
    glyphs: &[(u16, &str)],
    attrs: &[(&str, GlyphPredicateAttr, &str)],
) -> Vec<u16> {
    let stated = |glyph: &str, attr: GlyphPredicateAttr| {
        attrs
            .iter()
            .find(|(g, a, _)| *g == glyph && *a == attr)
            .map(|(_, _, value)| value.to_string())
    };
    let table: Vec<(String, GlyphPredicateAttrs)> = glyphs
        .iter()
        .map(|(_, name)| {
            (
                name.to_string(),
                GlyphPredicateAttrs {
                    category: stated(name, GlyphPredicateAttr::Category),
                    sub_category: stated(name, GlyphPredicateAttr::SubCategory),
                    case: stated(name, GlyphPredicateAttr::Case),
                    unicode: stated(name, GlyphPredicateAttr::Unicode),
                },
            )
        })
        .collect();
    let glyphs = glyphs.iter().map(|(id, name)| (*id, name.to_string())).collect();
    evaluate_predicate(&parse_predicate(inner), &glyphs, &table)
}

fn names<'a>(inner: &str, glyphs: &[(u16, &'a str)]) -> Vec<&'a str> {
    let ids = eval(inner, glyphs);
    ids.iter()
        .map(|id| glyphs.iter().find(|(g, _)| g == id).unwrap().1)
        .collect()
}

fn sample() -> Vec<(u16, &'static str)> {
    [
        "A",
        "A.sc",
        "B",
        "behDotless-ar.init",
        "behDotless-ar.init.fbeh2",
        "behDotless-ar.medi",
        "meem-ar.init",
        "meem-ar.medi",
        "ss01.a",
        "x.ss01",
    ]
    .iter()
    .enumerate()
    .map(|(i, n)| (i as u16, *n))
    .collect()
}

#[test]
fn endswith_single_quote() {
    let glyphs = sample();
    assert_eq!(names("name endswith 'ss01'", &glyphs), vec!["x.ss01"]);
}

#[test]
fn contains_double_quote() {
    let glyphs = sample();
    assert_eq!(
        names("name contains \"meem-ar\"", &glyphs),
        vec!["meem-ar.init", "meem-ar.medi"]
    );
}

#[test]
fn beginswith() {
    let glyphs = sample();
    assert_eq!(
        names("name beginswith \"behDotless\"", &glyphs),
        vec![
            "behDotless-ar.init",
            "behDotless-ar.init.fbeh2",
            "behDotless-ar.medi"
        ]
    );
}

#[test]
fn flat_and_with_not_equal() {
    let glyphs = sample();
    assert_eq!(
        names(
            "name contains \"behDotless-ar.init\" and name != \"behDotless-ar.init.fbeh2\"",
            &glyphs
        ),
        vec!["behDotless-ar.init"]
    );
}

#[test]
fn flat_or() {
    let glyphs = sample();
    assert_eq!(
        names(
            "name contains \"meem-ar.init\" or name contains \"meem-ar.medi\"",
            &glyphs
        ),
        vec!["meem-ar.init", "meem-ar.medi"]
    );
}

#[test]
fn or_preserves_clause_order_not_glyph_order() {
    let glyphs = [(0u16, "x.medi"), (1u16, "x.init")];
    assert_eq!(
        eval(
            "name endswith \".init\" or name endswith \".medi\"",
            &glyphs
        ),
        vec![1, 0]
    );
}

#[test]
fn or_dedups() {
    let glyphs = [(0u16, "ab"), (1u16, "ba")];
    assert_eq!(
        eval("name contains \"a\" or name contains \"b\"", &glyphs),
        vec![0, 1]
    );
}

#[test]
fn empty_result_is_empty() {
    let glyphs = sample();
    assert!(eval("name endswith \"zzzz\"", &glyphs).is_empty());
}

#[test]
fn operator_keywords_case_insensitive() {
    let glyphs = sample();
    assert_eq!(names("name ENDSWITH 'ss01'", &glyphs), vec!["x.ss01"]);
    assert_eq!(
        names(
            "name contains \"meem-ar.init\" OR name contains \"meem-ar.medi\"",
            &glyphs
        ),
        vec!["meem-ar.init", "meem-ar.medi"]
    );
}

#[test]
fn value_case_sensitive() {
    let glyphs = [(0u16, "A.sc"), (1u16, "a.sc")];
    assert_eq!(eval("name beginswith \"A\"", &glyphs), vec![0]);
}

#[test]
fn symbolic_aliases() {
    let glyphs = [(0u16, "a"), (1u16, "b")];
    assert_eq!(eval("name = \"a\"", &glyphs), vec![0]);
    assert_eq!(eval("name == \"a\"", &glyphs), vec![0]);
    assert_eq!(eval("name != \"a\"", &glyphs), vec![1]);
    assert_eq!(eval("name <> \"a\"", &glyphs), vec![1]);
}

#[test]
fn relational_operators_are_lexicographic() {
    let glyphs = [(0u16, "a"), (1u16, "m"), (2u16, "z")];
    assert_eq!(eval("name < \"m\"", &glyphs), vec![0]);
    assert_eq!(eval("name <= \"m\"", &glyphs), vec![0, 1]);
    assert_eq!(eval("name > \"m\"", &glyphs), vec![2]);
    assert_eq!(eval("name >= \"m\"", &glyphs), vec![1, 2]);
}


/// (glyph, category, case) triples flattened into the attribute table
fn letters() -> Vec<(&'static str, GlyphPredicateAttr, &'static str)> {
    vec![
        ("a", GlyphPredicateAttr::Category, "Letter"),
        ("a", GlyphPredicateAttr::Case, "lower"),
        ("A", GlyphPredicateAttr::Category, "Letter"),
        ("A", GlyphPredicateAttr::Case, "upper"),
        ("one", GlyphPredicateAttr::Category, "Number"),
    ]
}

fn attr_sample() -> Vec<(u16, &'static str)> {
    vec![(0, "a"), (1, "A"), (2, "one"), (3, "space")]
}

#[test]
fn borel_predicate() {
    let mut attrs = letters();
    attrs.push(("a", GlyphPredicateAttr::Unicode, "0061"));
    attrs.push(("A", GlyphPredicateAttr::Unicode, "0041"));
    assert_eq!(
        eval_with_attrs(
            "category like \"Letter\" && case==lower && unicode != nil",
            &attr_sample(),
            &attrs,
        ),
        vec![0]
    );
}

#[test]
fn unset_attribute_matches_nothing_but_is_not_an_error() {
    assert_eq!(
        eval_with_attrs("category == \"Letter\"", &attr_sample(), &letters()),
        vec![0, 1]
    );
    assert_eq!(
        eval_with_attrs("category != \"Letter\"", &attr_sample(), &letters()),
        vec![2, 3]
    );
}

#[test]
fn unset_attribute_stringifies_to_none() {
    assert_eq!(
        eval_with_attrs("category beginswith \"No\"", &attr_sample(), &letters()),
        vec![3]
    );
    assert_eq!(
        eval_with_attrs("category like \"N*e\"", &attr_sample(), &letters()),
        vec![3]
    );
}

#[test]
fn nil_is_a_string_so_matches_all() {
    let attrs = vec![("a", GlyphPredicateAttr::Unicode, "0061")];
    assert_eq!(
        eval_with_attrs("unicode != nil", &attr_sample(), &attrs),
        vec![0, 1, 2, 3]
    );
}

#[test]
fn bare_value_is_a_string() {
    assert_eq!(
        eval_with_attrs("case == lower", &attr_sample(), &letters()),
        vec![0]
    );
    assert_eq!(
        eval_with_attrs("case == \"lower\"", &attr_sample(), &letters()),
        vec![0]
    );
}


#[test]
fn like_without_wildcards_is_equality() {
    let glyphs = [(0u16, "a.init"), (1u16, "a")];
    assert_eq!(eval("name like \"a\"", &glyphs), vec![1]);
}

#[test]
fn like_wildcards() {
    let glyphs = [
        (0u16, "a.init"),
        (1u16, "a.medi"),
        (2u16, "ab.init"),
        (3u16, "a"),
    ];
    assert_eq!(eval("name like \"*.init\"", &glyphs), vec![0, 2]);
    assert_eq!(eval("name like \"a.*\"", &glyphs), vec![0, 1]);
    assert_eq!(eval("name like \"a?init\"", &glyphs), vec![0]);
    assert_eq!(eval("name like \"*\"", &glyphs), vec![0, 1, 2, 3]);
    assert_eq!(eval("name like \"*.*i*\"", &glyphs), vec![0, 1, 2]);
}

#[test]
fn fnmatch_matches_python() {
    for (text, pat, expected) in [
        ("", "", true),
        ("", "*", true),
        ("", "?", false),
        ("abc", "abc", true),
        ("abc", "ABC", false),
        ("abc", "a*", true),
        ("abc", "*c", true),
        ("abc", "*b*", true),
        ("abc", "a?c", true),
        ("abc", "a?", false),
        ("abc", "*d*", false),
        ("abc", "**a**b**c**", true),
        ("a.b.c", "a.*.c", true),
        ("é", "?", true),
        ("[a", "[a", true),
    ] {
        assert_eq!(fnmatch(text, pat), expected, "fnmatch({text:?}, {pat:?})");
    }
}

#[test]
fn quoted_boolean_word_is_a_plain_string() {
    let glyphs = [(0u16, "noon"), (1u16, "a")];
    assert_eq!(eval("name == \"noon\"", &glyphs), vec![0]);
}

#[test]
fn a_star_in_the_text_is_still_matched_by_a_star() {
    assert!(fnmatch("*b", "*"));
    assert!(fnmatch("*ab", "*b"));
    assert!(fnmatch("a*c", "a*c"));
    assert!(!fnmatch("*b", "?"));
}

#[test]
fn and_selects_each_glyph_once_in_glyph_order() {
    let glyphs = [(4u16, "ab"), (4u16, "ab"), (2u16, "abc")];
    assert_eq!(
        eval("name contains \"a\" and name contains \"b\"", &glyphs),
        vec![4, 2]
    );
}

#[test]
fn operators_see_an_unset_value_as_none() {
    assert!(op_matches(PredicateOp::Contains, None, "on"));
    assert!(!op_matches(PredicateOp::Eq, None, "None"));
    assert!(op_matches(PredicateOp::Ne, None, "None"));
}

#[test]
fn attribute_names_are_case_sensitive() {
    assert_eq!(
        GlyphPredicateAttr::from_token("subCategory"),
        Some(GlyphPredicateAttr::SubCategory)
    );
    assert_eq!(GlyphPredicateAttr::from_token("subcategory"), None);
    assert_eq!(GlyphPredicateAttr::from_token("name"), None);
}
