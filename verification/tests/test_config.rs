use lazydot::config::{
    config_source, default_duplicate_behavior, default_on_delink_behavior, global_config_path,
    init_config_with_paths, local_config_path, Config, ConfigError, ConfigSource, Defaults,
    DuplicateBehavior, OnDelinkBehavior,
};
use lazydot::utils::PathEnv;

fn env() -> PathEnv {
    PathEnv { home: "/home/u".to_string(), cwd: "/home/u".to_string() }
}

fn config(paths: &[&str]) -> Config {
    Config {
        defaults: Defaults {
            on_duplicate: DuplicateBehavior::Ask,
            on_delink: OnDelinkBehavior::Remove,
        },
        dotfolder_path: "~/.dotfiles".to_string(),
        paths: paths.iter().map(|p| p.to_string()).collect(),
    }
}

#[test]
fn defaults_are_ask_and_remove() {
    assert_eq!(default_duplicate_behavior(), DuplicateBehavior::Ask);
    assert_eq!(default_on_delink_behavior(), OnDelinkBehavior::Remove);
}

#[test]
fn behavior_names_are_lowercase_variants() {
    assert_eq!(DuplicateBehavior::Ask.name(), "ask");
    assert_eq!(DuplicateBehavior::OverwriteHome.name(), "overwritehome");
    assert_eq!(DuplicateBehavior::OverwriteDotfile.name(), "overwritedotfile");
    assert_eq!(DuplicateBehavior::BackupHome.name(), "backuphome");
    assert_eq!(DuplicateBehavior::Skip.name(), "skip");
    assert_eq!(OnDelinkBehavior::Remove.name(), "remove");
    assert_eq!(OnDelinkBehavior::Keep.name(), "keep");
}

#[test]
fn add_path_stores_tilde_form_once() {
    let mut c = config(&[]);
    assert_eq!(c.add_path("/home/u/.bashrc".to_string(), &env(), true), Ok(()));
    assert_eq!(c.paths, vec!["~/.bashrc"]);
    assert_eq!(c.add_path("~/.bashrc".to_string(), &env(), true), Ok(()));
    assert_eq!(c.paths, vec!["~/.bashrc"]);
}

#[test]
fn add_path_refuses_missing_and_outside_paths() {
    let mut c = config(&["~/a"]);
    assert_eq!(
        c.add_path("~/missing".to_string(), &env(), false),
        Err("path ~/missing does not exist".to_string())
    );
    assert_eq!(
        c.add_path("/etc/passwd".to_string(), &env(), true),
        Err("path /etc/passwd is not in the home directory".to_string())
    );
    assert_eq!(c.paths, vec!["~/a"]);
}

#[test]
fn add_path_maps_dotfolder_copies_back_home() {
    let mut c = config(&[]);
    assert_eq!(c.add_path("~/.dotfiles/.config/nvim".to_string(), &env(), true), Ok(()));
    assert_eq!(c.paths, vec!["~/.config/nvim"]);
}

#[test]
fn remove_path_removes_first_match() {
    let mut c = config(&["~/a", "~/b", "~/a"]);
    c.remove_path("/home/u/a".to_string(), &env(), true);
    assert_eq!(c.paths, vec!["~/b", "~/a"]);
    c.remove_path("~/b".to_string(), &env(), false);
    assert_eq!(c.paths, vec!["~/a"]);
    c.remove_path("~/zzz".to_string(), &env(), false);
    assert_eq!(c.paths, vec!["~/a"]);
}

#[test]
fn remove_undoes_add() {
    let mut c = config(&["~/x"]);
    c.add_path("~/.vimrc".to_string(), &env(), true).unwrap();
    c.remove_path("~/.vimrc".to_string(), &env(), true);
    assert_eq!(c.paths, vec!["~/x"]);
}

#[test]
fn validate_accepts_home_paths() {
    let c = config(&["~/a", "/home/u/b"]);
    assert!(c.validate_config(&env()).is_ok());
}

#[test]
fn validate_reports_first_problem() {
    let c = config(&["~/a", "rel/b", "/etc/c"]);
    match c.validate_config(&env()) {
        Err(e @ ConfigError::RelativePath(_)) => {
            assert_eq!(e.message(), "Invalid path: \"rel/b\" paths should not be relative.")
        }
        other => panic!("unexpected {:?}", other),
    }
    let c = config(&["/etc/c"]);
    match c.validate_config(&env()) {
        Err(e @ ConfigError::OutsideHome(_)) => assert_eq!(
            e.message(),
            "Invalid path: \"/etc/c\" paths should be in the home directory."
        ),
        other => panic!("unexpected {:?}", other),
    }
    let mut c = config(&[]);
    c.dotfolder_path = "/dots".to_string();
    match c.validate_config(&env()) {
        Err(e @ ConfigError::DotfolderOutsideHome(_)) => assert_eq!(
            e.message(),
            "Invalid path: \"/dots\" the dotfolder path should be in the home directory."
        ),
        other => panic!("unexpected {:?}", other),
    }
}

#[test]
fn init_config_adds_samples() {
    let e = PathEnv { home: "/home/u".to_string(), cwd: "/home/u".to_string() };
    let c = init_config_with_paths(config(&[]), &e, &vec![true, true, true]);
    assert_eq!(c.paths, vec!["~/.bashrc", "~/.config/app1", "~/.config/app2/app_config2.toml"]);
}

#[test]
fn config_file_locations() {
    let e = PathEnv { home: "/home/u".to_string(), cwd: "/work".to_string() };
    assert_eq!(global_config_path(&e), "/home/u/.config/lazydot.toml");
    assert_eq!(local_config_path(&e), "/work/.config/lazydot.toml");
    assert_eq!(config_source(true, true), ConfigSource::Global);
    assert_eq!(config_source(false, true), ConfigSource::Local);
    assert_eq!(config_source(false, false), ConfigSource::CreateDefault);
}

#[test]
fn added_paths_keep_config_valid() {
    let mut c = config(&["~/a"]);
    assert!(c.validate_config(&env()).is_ok());
    c.add_path("/home/u/.profile".to_string(), &env(), true).unwrap();
    c.add_path("sub/dir".to_string(), &env(), true).unwrap();
    assert_eq!(c.paths, vec!["~/a", "~/.profile", "~/sub/dir"]);
    assert!(c.validate_config(&env()).is_ok());
}

#[test]
fn restrict_failure_is_detected() {
    let c = config(&[]);
    assert!(c.restrict_would_fail("~/.dotfiles2/x", &env(), true));
    assert!(!c.restrict_would_fail("~/.dotfiles/x", &env(), true));
    assert!(!c.restrict_would_fail("~/.dotfiles2/x", &env(), false));
}
