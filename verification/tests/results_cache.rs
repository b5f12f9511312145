use fontc::args::Flavor;
use fontc::results_cache::{FileAction, Present, ResultsCache};

const ALL: Present = Present {
    font: true,
    ttx: true,
    markkern: true,
};

const SOME: Present = Present {
    font: true,
    ttx: false,
    markkern: true,
};

fn copies(font: &str) -> Vec<FileAction> {
    [font, "fontmake.ttx", "fontmake.markkern.txt"]
        .iter()
        .map(|name| FileAction::Copy(name.to_string()))
        .collect()
}

#[test]
fn each_flavor_has_a_cache_of_its_own() {
    let dir = |flavor| ResultsCache::in_dir("home", flavor).base_results_cache_dir;
    assert_eq!(dir(Flavor::Ttf), ["home", "crater_cached_results"]);
    assert_eq!(dir(Flavor::Otf), ["home", "crater_cached_results", "otf"]);
    assert_eq!(dir(Flavor::Cff2), ["home", "crater_cached_results", "cff2"]);
}

#[test]
fn instances_are_cached_separately() {
    let cache = ResultsCache::for_mode("home", Flavor::Ttf, Some("@default"));
    assert_eq!(
        cache.base_results_cache_dir,
        ["home", "crater_cached_results", "instance@default"]
    );
    assert_eq!(
        ResultsCache::for_mode("home", Flavor::Otf, None),
        ResultsCache::in_dir("home", Flavor::Otf)
    );
}

#[test]
fn the_font_file_is_named_by_its_extension() {
    let file = |flavor| ResultsCache::in_dir("home", flavor).font_file;
    assert_eq!(file(Flavor::Ttf), "fontmake.ttf");
    assert_eq!(file(Flavor::Otf), "fontmake.otf");
    assert_eq!(file(Flavor::Cff2), "fontmake.otf");
}

#[test]
fn cached_files_are_copied_only_when_all_are_there() {
    let cache = ResultsCache::in_dir("home", Flavor::Ttf);
    assert_eq!(cache.copy_cached_files_to_build_dir(false, ALL, true), []);
    assert_eq!(cache.copy_cached_files_to_build_dir(true, SOME, false), []);
    assert_eq!(
        cache.copy_cached_files_to_build_dir(true, ALL, true),
        copies("fontmake.ttf")
    );
    let mut expected = vec![FileAction::CreateDir];
    expected.extend(copies("fontmake.ttf"));
    assert_eq!(
        cache.copy_cached_files_to_build_dir(true, ALL, false),
        expected
    );
}

#[test]
fn a_complete_cache_is_not_overwritten() {
    let cache = ResultsCache::in_dir("home", Flavor::Otf);
    assert_eq!(cache.save_built_files_to_cache(true, ALL, ALL), []);
    assert_eq!(
        cache.save_built_files_to_cache(true, SOME, ALL),
        copies("fontmake.otf")
    );
    assert_eq!(cache.save_built_files_to_cache(true, SOME, SOME), []);
}

#[test]
fn a_target_gets_a_directory_whatever_was_built() {
    let cache = ResultsCache::in_dir("home", Flavor::Otf);
    let none = Present {
        font: false,
        ttx: false,
        markkern: false,
    };
    assert_eq!(
        cache.save_built_files_to_cache(false, none, SOME),
        [FileAction::CreateDir]
    );
    let mut expected = vec![FileAction::CreateDir];
    expected.extend(copies("fontmake.otf"));
    assert_eq!(cache.save_built_files_to_cache(false, none, ALL), expected);
}
