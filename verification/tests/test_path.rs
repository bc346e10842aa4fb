use lazydot::path::{
    components_of, join_path_exec, path_eq_exec, split_segments, starts_with_exec,
    strip_prefix_exec, with_bak_extension_exec,
};
use std::path::Path;

fn chars(s: &str) -> Vec<char> {
    s.chars().collect()
}

fn text(v: &[char]) -> String {
    v.iter().collect()
}

const SAMPLES: [&str; 22] = [
    "", "/", "//", "/a", "/a/", "/a//b", "/a/./b/", "a", "a/b", "./a", ".", "./", "../x",
    "/home/u", "/home/u/", "/home/u/.bashrc", "/home/u//.config/./nvim//", "/home/user2",
    "~/x", "a/.", "/a/..", ".hidden/file.tar.gz",
];

#[test]
fn segments_split_on_separators() {
    let segs = split_segments(&chars("/a//b/"));
    let texts: Vec<String> = segs.iter().map(|s| text(s)).collect();
    assert_eq!(texts, vec!["", "a", "", "b", ""]);
}

#[test]
fn components_count_matches_std() {
    for s in SAMPLES {
        let mine = components_of(&chars(s));
        assert_eq!(mine.len(), Path::new(s).components().count(), "components of {:?}", s);
    }
}

#[test]
fn equality_matches_std() {
    for a in SAMPLES {
        for b in SAMPLES {
            assert_eq!(path_eq_exec(&chars(a), &chars(b)), Path::new(a) == Path::new(b), "{:?} == {:?}", a, b);
        }
    }
}

#[test]
fn starts_with_matches_std() {
    for a in SAMPLES {
        for b in SAMPLES {
            assert_eq!(
                starts_with_exec(&chars(a), &chars(b)),
                Path::new(a).starts_with(b),
                "{:?} starts with {:?}",
                a,
                b
            );
        }
    }
}

#[test]
fn strip_prefix_matches_std() {
    for a in SAMPLES {
        for b in SAMPLES {
            let mine = strip_prefix_exec(&chars(a), &chars(b)).map(|v| text(&v));
            let theirs = Path::new(a).strip_prefix(b).ok().map(|p| p.to_str().unwrap().to_string());
            assert_eq!(mine, theirs, "{:?} without {:?}", a, b);
        }
    }
}

#[test]
fn join_matches_std() {
    for a in SAMPLES {
        for b in SAMPLES {
            let mine = text(&join_path_exec(&chars(a), &chars(b)));
            let theirs = Path::new(a).join(b).to_str().unwrap().to_string();
            assert_eq!(mine, theirs, "{:?} joined with {:?}", a, b);
        }
    }
}

#[test]
fn backup_extension_matches_std() {
    let extra = ["/home/u/.bashrc", "/home/u/a.txt", "/home/u/a.tar.gz", "/home/u/a.", "/home/u/dir/", "/home/u/..", "x.y/z"];
    for s in SAMPLES.iter().chain(extra.iter()) {
        let mine = text(&with_bak_extension_exec(&chars(s)));
        let theirs = Path::new(s).with_extension("bak").to_str().unwrap().to_string();
        assert_eq!(mine, theirs, "{:?} with extension bak", s);
    }
}

