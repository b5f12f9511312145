//! What a comparison run over many fonts was asked to build.

use crate::text;
use vstd::prelude::*;
use vstd::string::*;

verus! {

/// Which outline flavor is compiled and compared.
#[derive(Debug, Default, Clone, Copy, PartialEq, Eq, Structural)]
pub enum Flavor {
    #[default]
    Ttf,
    /// PostScript outlines from a static source: a `CFF ` table.
    Otf,
    /// PostScript outlines from a variable source: a `CFF2` table.
    ///
    /// It is compared the way [`Flavor::Otf`] is; only what it names the cache
    /// and the report is different.
    Cff2,
}

/// What a flavor is called.
pub open spec fn flavor_name(flavor: Flavor) -> Seq<char> {
    match flavor {
        Flavor::Ttf => "ttf"@,
        Flavor::Otf => "otf"@,
        Flavor::Cff2 => "cff2"@,
    }
}

/// What the comparison calls a flavor. CFF and CFF2 are one mode there.
pub open spec fn compared_as(flavor: Flavor) -> Seq<char> {
    match flavor {
        Flavor::Ttf => "ttf"@,
        Flavor::Otf | Flavor::Cff2 => "otf"@,
    }
}

/// The flavor with a name.
pub open spec fn flavor_called(name: Seq<char>) -> Option<Flavor> {
    if name == "ttf"@ {
        Some(Flavor::Ttf)
    } else if name == "otf"@ {
        Some(Flavor::Otf)
    } else if name == "cff2"@ {
        Some(Flavor::Cff2)
    } else {
        None
    }
}

impl Flavor {
    /// What the comparison calls this flavor. CFF and CFF2 are one mode there.
    pub fn ttx_diff_arg(self) -> (r: &'static str)
        ensures
            r@ == compared_as(self),
    {
        match self {
            Flavor::Ttf => "ttf",
            Flavor::Otf => "otf",
            Flavor::Cff2 => "otf",
        }
    }

    /// The extension of the font file this flavor produces. A variable CFF2 is
    /// still an OpenType font with PostScript outlines, so still `otf`.
    pub fn font_extension(self) -> (r: &'static str)
        ensures
            r@ == compared_as(self),
    {
        self.ttx_diff_arg()
    }

    /// What this flavor is called.
    pub fn name(self) -> (r: &'static str)
        ensures
            r@ == flavor_name(self),
    {
        match self {
            Flavor::Ttf => "ttf",
            Flavor::Otf => "otf",
            Flavor::Cff2 => "cff2",
        }
    }

    /// The flavor with this name.
    pub fn from_name(name: &str) -> (r: Option<Flavor>)
        ensures
            r == flavor_called(name@),
    {
        if text::same(name, "ttf") {
            Some(Flavor::Ttf)
        } else if text::same(name, "otf") {
            Some(Flavor::Otf)
        } else if text::same(name, "cff2") {
            Some(Flavor::Cff2)
        } else {
            None
        }
    }
}

/// Every flavor is found again by its name.
pub proof fn law_flavors_have_names_of_their_own(flavor: Flavor)
    ensures
        flavor_called(flavor_name(flavor)) == Some(flavor),
{
    reveal_strlit("ttf");
    reveal_strlit("otf");
    reveal_strlit("cff2");
    assert("ttf"@[0] != "otf"@[0]);
    assert("ttf"@.len() != "cff2"@.len());
    assert("otf"@.len() != "cff2"@.len());
}

/// The arguments of a run.
#[derive(Debug, PartialEq, Eq)]
pub struct CiArgs {
    /// A list of repositories and revisions to run.
    pub to_run: String,
    /// Where font sources are kept between runs.
    pub cache_dir: Option<String>,
    /// Where results are written.
    pub out_dir: String,
    /// Whether gftools builds run too.
    pub gftools: bool,
    pub flavor: Flavor,
    /// Build one static instance of each variable source instead of a variable
    /// font: an instance name, or `@default`.
    pub instance: Option<String>,
    /// Only generate the report.
    pub html_only: bool,
}

impl CiArgs {
    /// A run of these targets with nothing else asked for.
    pub fn new(to_run: String, out_dir: String) -> (r: CiArgs)
        ensures
            r == (CiArgs {
                to_run,
                cache_dir: None,
                out_dir,
                gftools: true,
                flavor: Flavor::Ttf,
                instance: None,
                html_only: false,
            }),
    {
        CiArgs {
            to_run,
            cache_dir: None,
            out_dir,
            gftools: true,
            flavor: Flavor::Ttf,
            instance: None,
            html_only: false,
        }
    }

    /// Reject flags that together name a build nobody can make: pinning a
    /// variable source produces a static font, whose PostScript outlines are
    /// CFF and not CFF2.
    pub fn validate(&self) -> (r: Result<(), String>)
        ensures
            r is Err <==> self.flavor == Flavor::Cff2 && self.instance is Some,
            r matches Err(problem) ==> problem@
                == "--flavor cff2 builds variable fonts; use --flavor otf with --instance"@,
    {
        if self.flavor == Flavor::Cff2 && self.instance.is_some() {
            return Err(
                "--flavor cff2 builds variable fonts; use --flavor otf with --instance".to_string(),
            );
        }
        Ok(())
    }
}

/// Where the directory for caching checkouts comes from.
#[derive(Debug, Clone, Copy, PartialEq, Eq, Structural)]
pub enum CacheDir {
    /// What was passed at the command line.
    Argument,
    /// What the environment says.
    Environment,
    /// A directory of our own under the home directory.
    Default,
}

/// Determine the directory to use for caching checkouts: the command line
/// comes before the environment, and both before the default.
pub fn cache_dir(argument: bool, environment: bool) -> (r: CacheDir)
    ensures
        r == (if argument {
            CacheDir::Argument
        } else if environment {
            CacheDir::Environment
        } else {
            CacheDir::Default
        }),
{
    if argument {
        CacheDir::Argument
    } else if environment {
        CacheDir::Environment
    } else {
        CacheDir::Default
    }
}

/// One step in putting a path together again.
#[derive(Debug, Clone, Copy, PartialEq, Eq, Structural)]
pub enum PathStep {
    /// The home directory.
    Home,
    /// A component of the path as it was, by number.
    Component(usize),
}

/// Whether a component stands for the home directory.
pub open spec fn is_home(component: String) -> bool {
    component@ == "~"@
}

/// Each component of a path, the home directory in place of those that stand
/// for it.
pub open spec fn with_home(components: Seq<String>) -> Seq<PathStep> {
    Seq::new(
        components.len(),
        |i: int|
            if is_home(components[i]) {
                PathStep::Home
            } else {
                PathStep::Component(i as usize)
            },
    )
}

/// How to put a path together again with the home directory in it, or `None`
/// if it stays as it is: no component asks for the home directory, or nobody
/// knows one.
pub fn resolve_home(components: &Vec<String>, home_is_known: bool) -> (r: Option<Vec<PathStep>>)
    ensures
        r is Some <==> home_is_known && exists|i: int|
            0 <= i < components@.len() && is_home(#[trigger] components@[i]),
        r matches Some(steps) ==> steps@ == with_home(components@),
{
    let mut steps: Vec<PathStep> = Vec::new();
    let mut found: bool = false;
    let mut i: usize = 0;
    while i < components.len()
        invariant
            i <= components@.len(),
            found <==> exists|j: int| 0 <= j < i && is_home(#[trigger] components@[j]),
            steps@ =~= with_home(components@).take(i as int),
        decreases components.len() - i,
    {
        if text::same(components[i].as_str(), "~") {
            assert(is_home(components@[i as int]));
            steps.push(PathStep::Home);
            found = true;
        } else {
            assert(!is_home(components@[i as int]));
            steps.push(PathStep::Component(i));
        }
        i = i + 1;
    }
    assert(steps@ =~= with_home(components@));
    if found && home_is_known {
        Some(steps)
    } else {
        None
    }
}

/// Whether a character can stand in a directory name as it is.
pub open spec fn is_plain(c: char) -> bool {
    ('a' <= c <= 'z') || ('A' <= c <= 'Z') || ('0' <= c <= '9') || c == '@' || c == '.' || c == '_'
        || c == '-'
}

/// A name as part of a directory name.
pub open spec fn plain(name: Seq<char>) -> Seq<char> {
    name.map_values(
        |c: char|
            if is_plain(c) {
                c
            } else {
                '_'
            },
    )
}

/// The name of a flavor and an instance together.
pub open spec fn mode_text(flavor: Flavor, instance: Option<Seq<char>>) -> Seq<char> {
    let first = if flavor == Flavor::Ttf {
        seq![]
    } else {
        flavor_name(flavor)
    };
    match instance {
        Some(name) => {
            let joint = if flavor == Flavor::Ttf {
                seq![]
            } else {
                seq!['-']
            };
            first + joint + "instance"@ + plain(name)
        },
        None => first,
    }
}

/// The cache and report component naming this combination of build modes.
///
/// `None` for a plain variable ttf run; otherwise flavor and instance compose
/// into one name, such as `otf`, `cff2`, `instance@default` or
/// `otf-instance@default`.
pub fn mode_name(flavor: Flavor, instance: Option<&str>) -> (r: Option<String>)
    ensures
        r is None <==> flavor == Flavor::Ttf && instance is None,
        r matches Some(name) ==> name@ == mode_text(
            flavor,
            match instance {
                Some(instance) => Some(instance@),
                None => None,
            },
        ),
{
    let mut name: String = String::new();
    if flavor != Flavor::Ttf {
        name.append(flavor.name());
        assert(name@ =~= flavor_name(flavor));
    }
    match instance {
        None => {
            if flavor == Flavor::Ttf {
                None
            } else {
                Some(name)
            }
        },
        Some(instance) => {
            if flavor != Flavor::Ttf {
                name.push('-');
            }
            name.append("instance");
            let ghost stem = name@;
            let chars: Vec<char> = text::chars_of(instance);
            let mut i: usize = 0;
            while i < chars.len()
                invariant
                    i <= chars@.len(),
                    chars@ == instance@,
                    name@ =~= stem + plain(instance@).take(i as int),
                decreases chars.len() - i,
            {
                let c: char = chars[i];
                if ('a' <= c && c <= 'z') || ('A' <= c && c <= 'Z') || ('0' <= c && c <= '9') || c
                    == '@' || c == '.' || c == '_' || c == '-' {
                    name.push(c);
                } else {
                    name.push('_');
                }
                i = i + 1;
            }
            assert(plain(instance@).take(i as int) =~= plain(instance@));
            assert(name@ =~= mode_text(flavor, Some(instance@)));
            Some(name)
        },
    }
}

/// The flags that name a run's build mode.
pub open spec fn flags_text(flavor: Flavor, instance: Option<Seq<char>>) -> Seq<char> {
    let first = if flavor == Flavor::Ttf {
        seq![]
    } else {
        " --flavor "@ + compared_as(flavor)
    };
    match instance {
        Some(name) => first + " --instance '"@ + name + seq!['\''],
        None => first,
    }
}

/// The flags that name this run's build mode: a reproduction has to ask for
/// the same build that the report is about.
pub fn mode_flags(flavor: Flavor, instance: Option<&str>) -> (r: String)
    ensures
        r@ == flags_text(
            flavor,
            match instance {
                Some(instance) => Some(instance@),
                None => None,
            },
        ),
{
    let mut flags: String = String::new();
    if flavor != Flavor::Ttf {
        flags.append(" --flavor ");
        flags.append(flavor.ttx_diff_arg());
        assert(flags@ =~= " --flavor "@ + compared_as(flavor));
    }
    if let Some(instance) = instance {
        flags.append(" --instance '");
        flags.append(instance);
        flags.push('\'');
        assert(flags@ =~= flags_text(flavor, Some(instance@)));
    }
    flags
}

/// Two flavors never share a cache, whatever instances they build.
pub proof fn law_mode_names_tell_flavors_apart(
    a: Flavor,
    b: Flavor,
    first: Option<Seq<char>>,
    second: Option<Seq<char>>,
)
    requires
        mode_text(a, first) == mode_text(b, second),
    ensures
        a == b,
{
    reveal_strlit("otf");
    reveal_strlit("cff2");
    reveal_strlit("instance");
    lemma_mode_text(a, first);
    lemma_mode_text(b, second);
}

/// A mode name begins with the flavor, or with the instance, or is empty.
proof fn lemma_mode_text(flavor: Flavor, instance: Option<Seq<char>>)
    ensures
        flavor == Flavor::Otf ==> mode_text(flavor, instance).len() > 0 && mode_text(
            flavor,
            instance,
        )[0] == 'o',
        flavor == Flavor::Cff2 ==> mode_text(flavor, instance).len() > 0 && mode_text(
            flavor,
            instance,
        )[0] == 'c',
        flavor == Flavor::Ttf && instance is Some ==> mode_text(flavor, instance).len() > 0
            && mode_text(flavor, instance)[0] == 'i',
        flavor == Flavor::Ttf && instance is None ==> mode_text(flavor, instance).len() == 0,
{
    reveal_strlit("otf");
    reveal_strlit("cff2");
    reveal_strlit("instance");
}

/// A mode name is one directory name and cannot lead out of the cache: it has
/// no separator in it, and is neither of the two names that mean something
/// else.
pub proof fn law_mode_names_stay_in_the_cache(flavor: Flavor, instance: Option<Seq<char>>)
    ensures
        forall|i: int|
            0 <= i < mode_text(flavor, instance).len() ==> is_plain(
                #[trigger] mode_text(flavor, instance)[i],
            ),
        mode_text(flavor, instance).len() > 0 ==> mode_text(flavor, instance)[0] != '.',
{
    reveal_strlit("otf");
    reveal_strlit("cff2");
    reveal_strlit("instance");
    lemma_mode_text(flavor, instance);
}

/// What flavors are called, and what they are compared as.
pub proof fn law_flavors_go_by_these_names()
    ensures
        flavor_name(Flavor::Ttf) == seq!['t', 't', 'f'],
        flavor_name(Flavor::Otf) == seq!['o', 't', 'f'],
        flavor_name(Flavor::Cff2) == seq!['c', 'f', 'f', '2'],
        compared_as(Flavor::Ttf) == seq!['t', 't', 'f'],
        compared_as(Flavor::Otf) == seq!['o', 't', 'f'],
        compared_as(Flavor::Cff2) == seq!['o', 't', 'f'],
{
    reveal_strlit("ttf");
    reveal_strlit("otf");
    reveal_strlit("cff2");
}

/// A flavor is found only by its own name.
pub proof fn law_flavors_are_found_only_by_name(name: Seq<char>, flavor: Flavor)
    ensures
        flavor_called(name) == Some(flavor) <==> name == flavor_name(flavor),
{
    law_flavors_go_by_these_names();
    reveal_strlit("ttf");
    reveal_strlit("otf");
    reveal_strlit("cff2");
    if name == flavor_name(Flavor::Cff2) {
        assert(name.len() == 4);
        assert(name != "ttf"@);
        assert(name != "otf"@);
    }
    if name == flavor_name(Flavor::Otf) {
        assert(name[0] == 'o');
        assert("ttf"@[0] == 't');
    }
}

/// A component that is a tilde and nothing else is the home directory, and
/// every other component is itself.
pub proof fn law_only_a_lone_tilde_is_the_home_directory(components: Seq<String>, i: int)
    requires
        0 <= i < components.len(),
    ensures
        with_home(components).len() == components.len(),
        components[i]@ == seq!['~'] ==> with_home(components)[i] == PathStep::Home,
        components[i]@ != seq!['~'] ==> with_home(components)[i] == PathStep::Component(i as usize),
{
    reveal_strlit("~");
    assert("~"@ =~= seq!['~']);
}

/// In a directory name a character of an instance stays if it is a letter or a
/// digit of ASCII or one of `@`, `.`, `_` and `-`. Any other is an underscore.
pub proof fn law_directory_names_are_made_character_by_character(name: Seq<char>, i: int)
    requires
        0 <= i < name.len(),
    ensures
        plain(name).len() == name.len(),
        'a' <= name[i] <= 'z' || 'A' <= name[i] <= 'Z' || '0' <= name[i] <= '9' || name[i] == '@'
            || name[i] == '.' || name[i] == '_' || name[i] == '-' ==> plain(name)[i] == name[i],
        !('a' <= name[i] <= 'z' || 'A' <= name[i] <= 'Z' || '0' <= name[i] <= '9' || name[i] == '@'
            || name[i] == '.' || name[i] == '_' || name[i] == '-') ==> plain(name)[i] == '_',
{
}

/// What modes are called, by flavor and instance.
pub proof fn law_modes_are_called_by_flavor_and_instance(instance: Seq<char>)
    ensures
        mode_text(Flavor::Ttf, None).len() == 0,
        mode_text(Flavor::Otf, None) == "otf"@,
        mode_text(Flavor::Cff2, None) == "cff2"@,
        mode_text(Flavor::Ttf, Some(instance)) == "instance"@ + plain(instance),
        mode_text(Flavor::Otf, Some(instance)) == "otf-instance"@ + plain(instance),
        mode_text(Flavor::Cff2, Some(instance)) == "cff2-instance"@ + plain(instance),
{
    reveal_strlit("otf");
    reveal_strlit("cff2");
    reveal_strlit("instance");
    reveal_strlit("otf-instance");
    reveal_strlit("cff2-instance");
    assert(mode_text(Flavor::Ttf, Some(instance)) =~= "instance"@ + plain(instance));
    assert(mode_text(Flavor::Otf, Some(instance)) =~= "otf-instance"@ + plain(instance));
    assert(mode_text(Flavor::Cff2, Some(instance)) =~= "cff2-instance"@ + plain(instance));
}

/// The flags that ask for a mode again, by flavor and instance.
pub proof fn law_flags_ask_for_the_same_mode(instance: Seq<char>)
    ensures
        flags_text(Flavor::Ttf, None).len() == 0,
        flags_text(Flavor::Otf, None) == " --flavor otf"@,
        flags_text(Flavor::Cff2, None) == " --flavor otf"@,
        flags_text(Flavor::Ttf, Some(instance)) == " --instance '"@ + instance + "'"@,
        flags_text(Flavor::Otf, Some(instance)) == " --flavor otf --instance '"@ + instance + "'"@,
        flags_text(Flavor::Cff2, Some(instance)) == " --flavor otf --instance '"@ + instance + "'"@,
{
    reveal_strlit("otf");
    reveal_strlit("'");
    reveal_strlit(" --flavor ");
    reveal_strlit(" --flavor otf");
    reveal_strlit(" --instance '");
    reveal_strlit(" --flavor otf --instance '");
    assert(flags_text(Flavor::Otf, None) =~= " --flavor otf"@);
    assert(flags_text(Flavor::Ttf, Some(instance)) =~= " --instance '"@ + instance + "'"@);
    assert(flags_text(Flavor::Otf, Some(instance)) =~= " --flavor otf --instance '"@ + instance
        + "'"@);
    assert(flags_text(Flavor::Cff2, Some(instance)) =~= " --flavor otf --instance '"@ + instance
        + "'"@);
}

} // verus!
