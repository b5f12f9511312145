use clap::{Arg, Command};
use fontc::args::{
    cache_dir, mode_flags, mode_name, resolve_home, CacheDir, CiArgs, Flavor, PathStep,
};

fn parse_ci(extra: &[&str]) -> CiArgs {
    let mut argv = vec!["fontc_crater", "ci", "targets.json", "-o", "out"];
    argv.extend_from_slice(extra);
    let ci = Command::new("ci")
        .arg(Arg::new("to_run").required(true))
        .arg(Arg::new("out").short('o').long("out").required(true))
        .arg(Arg::new("flavor").long("flavor").value_parser(["ttf", "otf", "cff2"]))
        .arg(Arg::new("instance").long("instance"));
    let mut all = Command::new("fontc_crater")
        .subcommand_required(true)
        .subcommand(ci)
        .try_get_matches_from(argv)
        .unwrap();
    let (command, found) = all.remove_subcommand().unwrap();
    assert_eq!(command, "ci");
    let text = |name: &str| found.get_one::<String>(name).cloned();
    let mut args = CiArgs::new(text("to_run").unwrap(), text("out").unwrap());
    if let Some(flavor) = text("flavor") {
        args.flavor = Flavor::from_name(&flavor).unwrap();
    }
    args.instance = text("instance");
    args
}

#[test]
fn instance_defaults_to_off() {
    let args = parse_ci(&[]);
    assert_eq!(args.instance, None);
    assert_eq!(args.flavor, Flavor::Ttf);
}

#[test]
fn instance_is_a_global_flag() {
    let args = parse_ci(&["--instance", "@default"]);
    assert_eq!(args.instance.as_deref(), Some("@default"));
}

#[test]
fn instance_composes_with_flavor() {
    let args = parse_ci(&["--instance", "@default", "--flavor", "otf"]);
    assert_eq!(args.instance.as_deref(), Some("@default"));
    assert_eq!(args.flavor, Flavor::Otf);
}

/// CFF and CFF2 are one mode to the comparison and two to the caches, so that
/// the static and variable PostScript corpora are kept apart.
#[test]
fn cff2_is_the_otf_flavor_under_another_name() {
    let args = parse_ci(&["--flavor", "cff2"]);
    assert_eq!(args.flavor, Flavor::Cff2);
    assert_eq!(args.flavor.ttx_diff_arg(), "otf");
    assert_eq!(args.flavor.font_extension(), "otf");
    assert_ne!(mode_name(Flavor::Cff2, None), mode_name(Flavor::Otf, None));
}

/// Pinning a variable source produces a static font, whose PostScript
/// outlines are CFF.
#[test]
fn cff2_does_not_compose_with_instance() {
    assert!(parse_ci(&["--flavor", "cff2"]).validate().is_ok());
    assert!(parse_ci(&["--flavor", "otf", "--instance", "@default"])
        .validate()
        .is_ok());
    let problem = parse_ci(&["--flavor", "cff2", "--instance", "@default"])
        .validate()
        .unwrap_err();
    assert!(
        problem.contains("--flavor otf with --instance"),
        "{problem}"
    );
}

/// The report is about one mode; its repro command has to name it.
#[test]
fn repro_flags_name_the_mode() {
    assert_eq!(mode_flags(Flavor::Ttf, None), "");
    assert_eq!(mode_flags(Flavor::Otf, None), " --flavor otf");
    assert_eq!(mode_flags(Flavor::Cff2, None), " --flavor otf");
    assert_eq!(
        mode_flags(Flavor::Otf, Some("@default")),
        " --flavor otf --instance '@default'"
    );
    // an instance name can contain spaces, so it is quoted
    assert_eq!(
        mode_flags(Flavor::Ttf, Some("Bona Nova Bold")),
        " --instance 'Bona Nova Bold'"
    );
}

#[test]
fn mode_names() {
    assert_eq!(mode_name(Flavor::Ttf, None), None);
    assert_eq!(mode_name(Flavor::Otf, None).as_deref(), Some("otf"));
    assert_eq!(mode_name(Flavor::Cff2, None).as_deref(), Some("cff2"));
    assert_eq!(
        mode_name(Flavor::Ttf, Some("@default")).as_deref(),
        Some("instance@default")
    );
    assert_eq!(
        mode_name(Flavor::Otf, Some("@default")).as_deref(),
        Some("otf-instance@default")
    );
    // an instance name is arbitrary text; it cannot escape the cache dir
    assert_eq!(
        mode_name(Flavor::Ttf, Some("../Bona Nova Bold")).as_deref(),
        Some("instance.._Bona_Nova_Bold")
    );
}

#[test]
fn an_empty_instance_name_is_still_a_mode() {
    assert_eq!(mode_name(Flavor::Ttf, Some("")).as_deref(), Some("instance"));
    assert_eq!(
        mode_name(Flavor::Cff2, Some("é/")).as_deref(),
        Some("cff2-instance__")
    );
}

#[test]
fn flavors_are_found_by_name() {
    for flavor in [Flavor::Ttf, Flavor::Otf, Flavor::Cff2] {
        assert_eq!(Flavor::from_name(flavor.name()), Some(flavor));
    }
    assert_eq!(Flavor::from_name("TTF"), None);
    assert_eq!(Flavor::default(), Flavor::Ttf);
}

#[test]
fn a_run_asks_for_nothing_special_by_default() {
    let args = CiArgs::new("targets.json".to_string(), "out".to_string());
    assert!(args.gftools);
    assert!(!args.html_only);
    assert_eq!(args.cache_dir, None);
    assert_eq!(args.validate(), Ok(()));
}

#[test]
fn the_command_line_comes_before_the_environment() {
    assert_eq!(cache_dir(true, true), CacheDir::Argument);
    assert_eq!(cache_dir(false, true), CacheDir::Environment);
    assert_eq!(cache_dir(false, false), CacheDir::Default);
}

#[test]
fn only_a_whole_component_is_the_home_directory() {
    let path = |parts: &[&str]| parts.iter().map(|s| s.to_string()).collect::<Vec<_>>();
    assert_eq!(
        resolve_home(&path(&["~", ".fontc_crater_cache"]), true),
        Some(vec![PathStep::Home, PathStep::Component(1)])
    );
    assert_eq!(resolve_home(&path(&["~", "cache"]), false), None);
    assert_eq!(resolve_home(&path(&["a~", "~b"]), true), None);
}
