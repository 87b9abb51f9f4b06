use pi_watcher::cli::config_path;

fn path(args: &[&str]) -> Option<String> {
    config_path(&args.iter().map(|a| a.to_string()).collect())
}

#[test]
fn the_config_path_is_named_in_several_ways() {
    assert_eq!(path(&[]).as_deref(), Some("config.toml"));
    assert_eq!(path(&["a.toml"]).as_deref(), Some("a.toml"));
    assert_eq!(path(&["--config", "a.toml"]).as_deref(), Some("a.toml"));
    assert_eq!(path(&["-c", "-a.toml"]).as_deref(), Some("-a.toml"));
    // The last --config wins, also over a bare path before it.
    assert_eq!(path(&["a", "-c", "b"]).as_deref(), Some("b"));
    assert_eq!(path(&["-c", "a", "--config", "b"]).as_deref(), Some("b"));
    assert_eq!(path(&[""]).as_deref(), Some(""));
}

#[test]
fn nonsense_shows_the_usage() {
    assert_eq!(path(&["--help"]), None);
    assert_eq!(path(&["a", "-h"]), None);
    assert_eq!(path(&["--config"]), None);
    assert_eq!(path(&["a", "b"]), None);
    assert_eq!(path(&["-c", "a", "b"]), None);
    assert_eq!(path(&["-x"]), None);
}
