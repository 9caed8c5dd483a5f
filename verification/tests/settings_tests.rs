//! The command line, the config file's values, and how they combine.

use narratarr::settings::{
    combine, listenarr_problem, parse_args, source_problem, AbsConfig, Config, GeneralConfig,
    ListenarrConfig, SetupError, EXAMPLE,
};

fn args(v: &[&str]) -> Vec<String> {
    v.iter().map(|s| s.to_string()).collect()
}

fn example_like() -> Config {
    let mut c = Config::defaults();
    c.general.interval = Some("6h".into());
    c.general.limit = 25;
    c.general.state_file = Some("/config/narratarr.db".into());
    c.audiobookshelf = Some(AbsConfig {
        url: "http://audiobookshelf:80".into(),
        token: "secret".into(),
        library: "Books".into(),
    });
    c.listenarr = Some(ListenarrConfig { url: "http://listenarr:4545".into(), api_key: "k".into() });
    c
}

#[test]
fn defaults_are_a_dry_run_in_english() {
    let g = GeneralConfig::default();
    assert_eq!(g.language, "en");
    assert!(!g.apply && !g.auto_search);
    assert_eq!(g.limit, 0);
    let c = Config::defaults();
    assert!(c.audiobookshelf.is_none() && c.listenarr.is_none());
    let s = combine(&parse_args(&args(&[])), &c);
    assert!(!s.apply);
    assert_eq!(s.limit, usize::MAX);
    assert_eq!(s.lang, "en");
    assert_eq!(source_problem(&s), Some(SetupError::NoSource));
}

#[test]
fn flags_are_read_in_order() {
    let c = parse_args(&args(&[
        "--limit", "10", "--verbose", "/books", "--abs", "http://abs", "--abs-token", "t",
        "--apply", "--interval", "30m", "--lang",
    ]));
    assert_eq!(c.limit, Some(10));
    assert!(c.verbose && c.apply && !c.auto_search && !c.init);
    assert_eq!(c.books_dir.as_deref(), Some("/books"));
    assert_eq!(c.abs_url.as_deref(), Some("http://abs"));
    assert_eq!(c.abs_token.as_deref(), Some("t"));
    assert_eq!(c.interval.as_deref(), Some("30m"));
    // a value flag at the end has no value
    assert_eq!(c.lang, None);
    // a value flag takes the next argument, whatever it is
    let c = parse_args(&args(&["--lang", "--apply", "--limit", "many", "--init"]));
    assert_eq!(c.lang.as_deref(), Some("--apply"));
    assert!(!c.apply);
    assert_eq!(c.limit, None);
    assert!(c.init);
}

#[test]
fn flags_win_over_the_file() {
    let f = example_like();
    let s = combine(&parse_args(&args(&["--interval", "90s", "--lang", "de"])), &f);
    assert_eq!(s.interval.as_deref(), Some("90s"));
    assert_eq!(s.lang, "de");
    assert_eq!(s.limit, 25);
    assert_eq!(s.state_path.as_deref(), Some("/config/narratarr.db"));
    assert_eq!(s.abs_url.as_deref(), Some("http://audiobookshelf:80"));
    assert_eq!(s.abs_library.as_deref(), Some("Books"));
    assert_eq!(s.listenarr_key.as_deref(), Some("k"));
    assert_eq!(source_problem(&s), None);
    assert_eq!(listenarr_problem(&s), None);

    // the library flag still wins over the file's table
    let s = combine(&parse_args(&args(&["--abs-library", "Ebooks"])), &f);
    assert_eq!(s.abs_library.as_deref(), Some("Ebooks"));
    // a URL flag replaces the whole table
    let s = combine(&parse_args(&args(&["--abs", "http://other"])), &f);
    assert_eq!(s.abs_url.as_deref(), Some("http://other"));
    assert_eq!(s.abs_token, None);
    assert_eq!(source_problem(&s), Some(SetupError::AbsIncomplete));
    let s = combine(&parse_args(&args(&["--listenarr-key", "x"])), &f);
    assert_eq!(s.listenarr_url, None);
    assert_eq!(listenarr_problem(&s), Some(SetupError::ListenarrUnpaired));
}

#[test]
fn placeholders_stop_the_run() {
    let mut f = example_like();
    f.listenarr = Some(ListenarrConfig { url: "u".into(), api_key: "CHANGEME".into() });
    let s = combine(&parse_args(&args(&[])), &f);
    assert_eq!(source_problem(&s), Some(SetupError::Placeholder));
    assert_eq!(
        SetupError::Placeholder.message(),
        "config still contains CHANGEME placeholders — edit your narratarr.toml"
    );
    assert_eq!(SetupError::ListenarrUnpaired.message(), "--listenarr and --listenarr-key must be given together");
    assert!(SetupError::NoSource.message().starts_with("no book source configured."));
}

#[test]
fn example_ships_a_dry_run() {
    assert!(EXAMPLE.contains("apply = false"));
    assert!(EXAMPLE.contains("interval = \"6h\""));
    assert!(EXAMPLE.contains("library = \"Books\""));
    assert!(EXAMPLE.contains("api_key = \"CHANGEME\""));
}

#[test]
fn example_config_is_valid_toml() {
    let v: toml::Value = toml::from_str(EXAMPLE).expect("EXAMPLE must always parse");
    assert_eq!(v["general"]["interval"].as_str(), Some("6h"));
    assert_eq!(v["general"]["apply"].as_bool(), Some(false));
    assert_eq!(v["audiobookshelf"]["library"].as_str(), Some("Books"));
    assert_eq!(v["listenarr"]["api_key"].as_str(), Some("CHANGEME"));
}
