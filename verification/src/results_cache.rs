//! Which of another compiler's files are kept between runs, and where.

use crate::args;
use crate::args::Flavor;
use vstd::prelude::*;
use vstd::string::*;

verus! {

/// The directory that holds the cache.
pub open spec fn cache_name() -> Seq<char> {
    "crater_cached_results"@
}

/// Where within a directory the cache of a mode is, component by component.
pub open spec fn cache_path(
    path: Seq<char>,
    flavor: Flavor,
    instance: Option<Seq<char>>,
) -> Seq<Seq<char>> {
    if flavor == Flavor::Ttf && instance is None {
        seq![path, cache_name()]
    } else {
        seq![path, cache_name(), args::mode_text(flavor, instance)]
    }
}

/// The files that are cached for each target.
pub open spec fn cached_files(flavor: Flavor) -> Seq<Seq<char>> {
    seq![
        "fontmake."@ + args::compared_as(flavor),
        "fontmake.ttx"@,
        "fontmake.markkern.txt"@,
    ]
}

/// A cache of files on disk.
///
/// The names of two of the files are shared, so each flavor gets a cache of its
/// own.
#[derive(Debug, PartialEq, Eq)]
pub struct ResultsCache {
    /// The directory that the cache was made in, and where in it the cache is,
    /// component by component.
    pub base_results_cache_dir: Vec<String>,
    /// `fontmake.ttf` or `fontmake.otf`.
    pub font_file: String,
}

/// What to do with files on disk.
#[derive(Debug, Clone, PartialEq, Eq)]
pub enum FileAction {
    /// Create the directory that is copied to.
    CreateDir,
    /// Copy the file with this name.
    Copy(String),
}

/// What an action is.
pub enum ActionView {
    CreateDir,
    Copy(Seq<char>),
}

impl View for FileAction {
    type V = ActionView;

    open spec fn view(&self) -> ActionView {
        match *self {
            FileAction::CreateDir => ActionView::CreateDir,
            FileAction::Copy(name) => ActionView::Copy(name@),
        }
    }
}

pub open spec fn actions(list: Seq<FileAction>) -> Seq<ActionView> {
    list.map_values(|a: FileAction| a@)
}

/// Which of the files are there.
#[derive(Debug, Clone, Copy, PartialEq, Eq, Structural)]
pub struct Present {
    pub font: bool,
    pub ttx: bool,
    pub markkern: bool,
}

impl Present {
    pub open spec fn complete(self) -> bool {
        self.font && self.ttx && self.markkern
    }

    /// Whether all of the files are there.
    pub fn all(self) -> (r: bool)
        ensures
            r == self.complete(),
    {
        self.font && self.ttx && self.markkern
    }
}

impl ResultsCache {
    pub open spec fn files(&self) -> Seq<Seq<char>> {
        seq![self.font_file@, "fontmake.ttx"@, "fontmake.markkern.txt"@]
    }

    /// What copying the files takes: nothing unless all of them are there.
    pub open spec fn copies(&self, from: Present, to_exists: bool) -> Seq<ActionView> {
        if !from.complete() {
            seq![]
        } else {
            let make = if to_exists {
                seq![]
            } else {
                seq![ActionView::CreateDir]
            };
            make + self.files().map_values(|f: Seq<char>| ActionView::Copy(f))
        }
    }

    /// The cache of a flavor in the directory `path`.
    ///
    /// The ttf cache has a place of its own; other flavors get a directory
    /// within it, since some of the files are named the same but their contents
    /// differ.
    pub fn in_dir(path: &str, flavor: Flavor) -> (r: ResultsCache)
        ensures
            crate::text::texts(r.base_results_cache_dir@) == cache_path(path@, flavor, None),
            r.files() == cached_files(flavor),
    {
        ResultsCache::for_mode(path, flavor, None)
    }

    /// The cache of a flavor and an instance, whose results are kept apart from
    /// those of other modes.
    pub fn for_mode(path: &str, flavor: Flavor, instance: Option<&str>) -> (r: ResultsCache)
        ensures
            crate::text::texts(r.base_results_cache_dir@) == cache_path(
                path@,
                flavor,
                match instance {
                    Some(instance) => Some(instance@),
                    None => None,
                },
            ),
            r.files() == cached_files(flavor),
    {
        let ghost asked_for = match instance {
            Some(instance) => Some(instance@),
            None => None,
        };
        let mut base: Vec<String> = Vec::new();
        base.push(path.to_string());
        base.push("crater_cached_results".to_string());
        if let Some(mode) = args::mode_name(flavor, instance) {
            base.push(mode);
        }
        assert(crate::text::texts(base@) =~= cache_path(path@, flavor, asked_for));
        let mut font_file: String = "fontmake.".to_string();
        font_file.append(flavor.font_extension());
        assert(font_file@ =~= "fontmake."@ + args::compared_as(flavor));
        ResultsCache { base_results_cache_dir: base, font_file }
    }

    fn copy_cache_files(&self, from: Present, to_exists: bool) -> (r: Vec<FileAction>)
        ensures
            actions(r@) == self.copies(from, to_exists),
    {
        let mut r: Vec<FileAction> = Vec::new();
        if from.all() {
            if !to_exists {
                r.push(FileAction::CreateDir);
            }
            r.push(FileAction::Copy(self.font_file.clone()));
            r.push(FileAction::Copy("fontmake.ttx".to_string()));
            r.push(FileAction::Copy("fontmake.markkern.txt".to_string()));
        }
        assert(actions(r@) =~= self.copies(from, to_exists));
        r
    }

    /// If all the files of a target are cached, copy them into the build
    /// directory.
    pub fn copy_cached_files_to_build_dir(
        &self,
        cache_exists: bool,
        cached: Present,
        build_dir_exists: bool,
    ) -> (r: Vec<FileAction>)
        ensures
            actions(r@) == (if cache_exists {
                self.copies(cached, build_dir_exists)
            } else {
                seq![]
            }),
    {
        if !cache_exists {
            let none: Vec<FileAction> = Vec::new();
            assert(actions(none@) =~= seq![]);
            return none;
        }
        self.copy_cache_files(cached, build_dir_exists)
    }

    /// Copy the files of a build into the cache, once it has a directory for
    /// the target, and unless they are all there.
    pub fn save_built_files_to_cache(
        &self,
        cache_exists: bool,
        cached: Present,
        built: Present,
    ) -> (r: Vec<FileAction>)
        ensures
            actions(r@) == (if cache_exists {
                seq![]
            } else {
                seq![ActionView::CreateDir]
            }) + (if cached.complete() {
                seq![]
            } else {
                self.copies(built, true)
            }),
    {
        let mut r: Vec<FileAction> = Vec::new();
        if !cache_exists {
            r.push(FileAction::CreateDir);
        }
        let ghost first = actions(r@);
        assert(first =~= if cache_exists {
            seq![]
        } else {
            seq![ActionView::CreateDir]
        });
        if cached.all() {
            assert(first + Seq::<ActionView>::empty() =~= first);
            return r;
        }
        let ghost made = r@;
        let mut more: Vec<FileAction> = self.copy_cache_files(built, true);
        let ghost rest = more@;
        r.append(&mut more);
        assert(r@ =~= made + rest);
        assert(actions(r@) =~= actions(made) + actions(rest));
        r
    }
}

/// Two flavors never share a cache, whatever instances they build.
pub proof fn law_caches_are_told_apart(
    path: Seq<char>,
    a: Flavor,
    b: Flavor,
    first: Option<Seq<char>>,
    second: Option<Seq<char>>,
)
    requires
        cache_path(path, a, first) == cache_path(path, b, second),
    ensures
        a == b,
{
    let p = cache_path(path, a, first);
    let q = cache_path(path, b, second);
    assert(p.len() == q.len());
    if p.len() == 3 {
        assert(p[2] == q[2]);
        args::law_mode_names_tell_flavors_apart(a, b, first, second);
    }
}

/// What is saved is what is found again: once a complete build has been
/// saved, a target's files are copied back, the same ones.
pub proof fn law_saved_files_are_reused(cache: ResultsCache, complete: Present)
    requires
        complete.complete(),
    ensures
        cache.copies(complete, true) == cache.files().map_values(
            |f: Seq<char>| ActionView::Copy(f),
        ),
{
    assert(cache.copies(complete, true) =~= cache.files().map_values(
        |f: Seq<char>| ActionView::Copy(f),
    ));
}

/// The cache of a plain run is right in the cache directory, and that of any
/// other mode in a directory of its own within.
pub proof fn law_modes_have_directories_of_their_own(
    path: Seq<char>,
    flavor: Flavor,
    instance: Option<Seq<char>>,
)
    ensures
        cache_path(path, Flavor::Ttf, None) == seq![path, "crater_cached_results"@],
        flavor != Flavor::Ttf || instance is Some ==> cache_path(path, flavor, instance)
            == seq![path, "crater_cached_results"@, args::mode_text(flavor, instance)],
{
}

/// The files that are kept, by flavor.
pub proof fn law_these_files_are_kept(flavor: Flavor)
    ensures
        cached_files(flavor).len() == 3,
        cached_files(Flavor::Ttf)[0] == "fontmake.ttf"@,
        cached_files(Flavor::Otf)[0] == "fontmake.otf"@,
        cached_files(Flavor::Cff2)[0] == "fontmake.otf"@,
        cached_files(flavor)[1] == "fontmake.ttx"@,
        cached_files(flavor)[2] == "fontmake.markkern.txt"@,
{
    reveal_strlit("fontmake.");
    reveal_strlit("ttf");
    reveal_strlit("otf");
    reveal_strlit("fontmake.ttf");
    reveal_strlit("fontmake.otf");
    assert("fontmake."@ + "ttf"@ =~= "fontmake.ttf"@);
    assert("fontmake."@ + "otf"@ =~= "fontmake.otf"@);
}

/// Files are copied all together or not at all. The directory that they are
/// copied to is made first if it is not there.
pub proof fn law_files_are_copied_all_together(cache: ResultsCache, from: Present, to_exists: bool)
    ensures
        !from.font || !from.ttx || !from.markkern ==> cache.copies(from, to_exists).len() == 0,
        from.font && from.ttx && from.markkern ==> cache.copies(from, true) == seq![
            ActionView::Copy(cache.font_file@),
            ActionView::Copy("fontmake.ttx"@),
            ActionView::Copy("fontmake.markkern.txt"@),
        ],
        from.font && from.ttx && from.markkern ==> cache.copies(from, false) == seq![
            ActionView::CreateDir,
            ActionView::Copy(cache.font_file@),
            ActionView::Copy("fontmake.ttx"@),
            ActionView::Copy("fontmake.markkern.txt"@),
        ],
{
    if from.complete() {
        assert(cache.copies(from, true) =~= seq![
            ActionView::Copy(cache.font_file@),
            ActionView::Copy("fontmake.ttx"@),
            ActionView::Copy("fontmake.markkern.txt"@),
        ]);
        assert(cache.copies(from, false) =~= seq![
            ActionView::CreateDir,
            ActionView::Copy(cache.font_file@),
            ActionView::Copy("fontmake.ttx"@),
            ActionView::Copy("fontmake.markkern.txt"@),
        ]);
    }
}

} // verus!
