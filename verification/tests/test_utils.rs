use lazydot::utils::{
    check_path, copy_kind, copy_missing_message, copy_unsupported_message, delete_kind,
    expand_path, get_home_and_dot_path, get_home_dir, get_path_in_dotfolder,
    invalid_delete_message, mock_dotfile_paths, nested_target, CopyKind, DeleteKind, PathEnv,
};
use std::path::Path;
use tempfile::TempDir;

fn env_in(dir: &TempDir) -> PathEnv {
    let p = dir.path().to_str().unwrap().to_string();
    PathEnv { home: p.clone(), cwd: p }
}

fn path_exists(p: &str) -> bool {
    Path::new(p).exists()
}

fn env(home: &str, cwd: &str) -> PathEnv {
    PathEnv { home: home.to_string(), cwd: cwd.to_string() }
}

#[test]
fn test_expand_path_with_tilde() {
    let tmp_home = tempfile::tempdir().unwrap();
    let env = env_in(&tmp_home);
    let test_path = "~/some/path";
    let expected = tmp_home.path().join("some/path");
    let expanded = expand_path(test_path, &env);
    assert_eq!(Path::new(&expanded), expected.as_path());
}

#[test]
fn test_expand_path_relative() {
    let tmp_home = tempfile::tempdir().unwrap();
    let env = env_in(&tmp_home);
    let cwd = Path::new(&env.cwd).to_path_buf();
    let rel_path = "some/relative/path";
    let expanded = expand_path(rel_path, &env);
    assert_eq!(Path::new(&expanded), cwd.join(rel_path).as_path());
}

#[test]
fn test_check_path_valid() {
    let tmp_home = tempfile::tempdir().unwrap();
    let env = env_in(&tmp_home);
    let _file = tempfile::Builder::new()
        .prefix(".testfile")
        .rand_bytes(0)
        .tempfile_in(tmp_home.path())
        .unwrap();
    let found = path_exists(&expand_path("~/.testfile", &env));
    let result = check_path("~/.testfile", &env, found);
    assert!(result.is_ok());
    assert_eq!(result.unwrap(), "~/.testfile");
}

#[test]
fn test_check_path_invalid_outside_home() {
    let tmp_home = tempfile::tempdir().unwrap();
    let env = env_in(&tmp_home);
    let outside_path = "/etc/passwd";
    let found = path_exists(&expand_path(outside_path, &env));
    let result = check_path(outside_path, &env, found);
    assert!(result.is_err());
    assert!(result.err().unwrap().contains("is not in the home directory"));
}

#[test]
fn test_get_home_dir() {
    let tmp_home = tempfile::tempdir().unwrap();
    let env = env_in(&tmp_home);
    let path = get_home_dir(&env);
    assert_eq!(Path::new(&path), tmp_home.path());
}

#[test]
fn expand_keeps_absolute_and_joins_home() {
    let e = env("/home/u", "/work");
    assert_eq!(expand_path("/etc/hosts", &e), "/etc/hosts");
    assert_eq!(expand_path("~/a/b", &e), "/home/u/a/b");
    assert_eq!(expand_path("a/b", &e), "/work/a/b");
    assert_eq!(expand_path("~", &e), "/work/~");
    assert_eq!(expand_path("~//etc", &e), "/etc");
    let trailing = env("/home/u/", "/work/");
    assert_eq!(expand_path("~/x", &trailing), "/home/u/x");
    assert_eq!(expand_path("x", &trailing), "/work/x");
}

#[test]
fn check_path_reports_each_error() {
    let e = env("/home/u", "/home/u");
    assert_eq!(check_path("~/gone", &e, false), Err("path ~/gone does not exist".to_string()));
    assert_eq!(check_path("~/", &e, true), Err("path ~/ is the home directory".to_string()));
    assert_eq!(check_path("/home/u//", &e, true), Err("path /home/u// is the home directory".to_string()));
    assert_eq!(
        check_path("/home/user2/x", &e, true),
        Err("path /home/user2/x is not in the home directory".to_string())
    );
}

#[test]
fn check_path_normalizes_into_tilde_form() {
    let e = env("/home/u", "/home/u/work");
    assert_eq!(check_path("/home/u/.bashrc", &e, true), Ok("~/.bashrc".to_string()));
    assert_eq!(check_path(".config/app", &e, true), Ok("~/work/.config/app".to_string()));
    assert_eq!(check_path("~/.config//nvim/", &e, true), Ok("~/.config//nvim".to_string()));
    assert_eq!(check_path("/home/u/./a/./", &e, true), Ok("~/a".to_string()));
}

#[test]
fn check_path_result_expands_to_same_path() {
    let e = env("/home/u", "/home/u/work");
    for p in ["/home/u/.bashrc", "../x/y", "~/.config//nvim/", "/home/u/./a/./b"] {
        let q = check_path(p, &e, true).unwrap();
        assert!(q.starts_with("~/"));
        let a = expand_path(&q, &e);
        let b = expand_path(p, &e);
        assert_eq!(Path::new(&a), Path::new(&b));
    }
}

#[test]
fn path_in_dotfolder_follows_home_rest() {
    let e = env("/home/u", "/home/u");
    let r = get_path_in_dotfolder(&"/home/u/.config/app".to_string(), &e, "~/.dotfiles");
    assert_eq!(r, Ok("/home/u/.dotfiles/.config/app".to_string()));
    let (home, dot) = get_home_and_dot_path(&"~/.bashrc".to_string(), &e, "~/.dotfiles");
    assert_eq!(home, "/home/u/.bashrc");
    assert_eq!(dot, "/home/u/.dotfiles/.bashrc");
}

#[test]
fn mock_paths_are_the_three_samples() {
    let e = env("/home/u", "/tmp");
    let paths = mock_dotfile_paths(&e);
    assert_eq!(paths, vec!["~/.bashrc", ".config/app1", "/home/u/.config/app2/app_config2.toml"]);
}

#[test]
fn delete_kind_by_file_type() {
    assert_eq!(delete_kind(true, false, false), DeleteKind::File);
    assert_eq!(delete_kind(false, true, true), DeleteKind::File);
    assert_eq!(delete_kind(false, false, true), DeleteKind::Directory);
    assert_eq!(delete_kind(false, false, false), DeleteKind::Invalid);
    assert_eq!(
        invalid_delete_message("/x"),
        "Path \"/x\" is not a valid file or directory"
    );
}

#[test]
fn copy_kind_by_file_type() {
    assert_eq!(copy_kind(false, true, false), CopyKind::Missing);
    assert_eq!(copy_kind(true, true, false), CopyKind::File);
    assert_eq!(copy_kind(true, false, true), CopyKind::Directory);
    assert_eq!(copy_kind(true, false, false), CopyKind::Unsupported);
    assert_eq!(copy_missing_message("/a"), "/a can't copy path dose not exists");
    assert_eq!(copy_unsupported_message("/a"), "Failed to copy /a is not a file or directory");
}

#[test]
fn nested_target_keeps_relative_part() {
    assert_eq!(nested_target("/src", "/dst", "/src/nested/file.txt"), "/dst/nested/file.txt");
    assert_eq!(nested_target("/src/", "/dst/", "/src//a"), "/dst/a");
}

#[test]
fn check_path_is_idempotent() {
    let e = env("/home/u/", "/home/u/work");
    for p in ["/home/u/.bashrc", "x/./y//", "~/.config//nvim/", "/home/u//a"] {
        let q = check_path(p, &e, true).unwrap();
        assert_eq!(check_path(&q, &e, true), Ok(q.clone()));
    }
}

#[test]
fn expansion_is_absolute_and_stable() {
    let e = env("/home/u", "/work");
    for p in ["a", "~/b", "/c", "", "~", "./d"] {
        let x = expand_path(p, &e);
        assert!(x.starts_with('/'));
        assert_eq!(expand_path(&x, &e), x);
    }
}
