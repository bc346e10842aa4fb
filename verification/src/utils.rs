//! Path helpers of the dotfile manager: expanding user paths, checking that a path
//! lies in the home directory, and locating a home path's copy in the dotfolder.

use vstd::prelude::*;

use crate::path::{
    clean_pieces, is_absolute, join, join_path, join_path_exec, lemma_rest_in_home,
    lemma_rest_of_joined, path_eq, path_eq_exec, path_starts_with, starts_with_exec, strip_prefix,
    strip_prefix_exec,
};
use crate::text::{chars_of, string_of};

verus! {

/// What the process environment tells the path helpers: the home directory (the
/// `HOME` variable) and the current working directory.
pub struct PathEnv {
    pub home: String,
    pub cwd: String,
}

/// `input` starts with `~/`.
pub open spec fn has_tilde(input: Seq<char>) -> bool {
    input.len() >= 2 && input[0] == '~' && input[1] == '/'
}

/// The absolute form of a user-supplied path: a leading `~/` stands for the home
/// directory, and a relative path is taken from the current working directory.
pub open spec fn expanded(input: Seq<char>, home: Seq<char>, cwd: Seq<char>) -> Seq<char> {
    let p = if has_tilde(input) {
        join_path(home, input.skip(2))
    } else {
        input
    };
    if is_absolute(p) {
        p
    } else {
        join_path(cwd, p)
    }
}

/// The text after the home directory in `path`, when `path` lies in it.
pub open spec fn home_relative(path: Seq<char>, env: PathEnv) -> Option<Seq<char>> {
    strip_prefix(expanded(path, env.home@, env.cwd@), env.home@)
}

/// What `check_path` gives back for `path`, where `exists` tells whether the
/// expanded path exists.
pub open spec fn checked_path(path: Seq<char>, env: PathEnv, exists: bool) -> Result<
    Seq<char>,
    Seq<char>,
> {
    let input = expanded(path, env.home@, env.cwd@);
    if !exists {
        Err("path "@ + path + " does not exist"@)
    } else if path_eq(input, env.home@) {
        Err("path "@ + path + " is the home directory"@)
    } else if !path_starts_with(input, env.home@) {
        Err("path "@ + path + " is not in the home directory"@)
    } else {
        Ok("~/"@ + strip_prefix(input, env.home@).unwrap())
    }
}

/// The texts of a string result.
pub open spec fn result_view(r: Result<String, String>) -> Result<Seq<char>, Seq<char>> {
    match r {
        Ok(s) => Ok(s@),
        Err(e) => Err(e@),
    }
}

/// `text` followed by `more`.
fn concat_str(text: &str, more: &str) -> (r: String)
    ensures
        r@ == text@ + more@,
{
    let mut r = String::from_str(text);
    r.append(more);
    r
}

/// `"path " + path + tail`, the form of `check_path`'s errors.
fn path_message(path: &str, tail: &str) -> (r: String)
    ensures
        r@ == "path "@ + path@ + tail@,
{
    let mut r = concat_str("path ", path);
    r.append(tail);
    r
}

/// The absolute form of `input`: `~/` is replaced by the home directory and a
/// relative path is taken from the current working directory.
pub fn expand_path(input: &str, env: &PathEnv) -> (r: String)
    ensures
        r@ == expanded(input@, env.home@, env.cwd@),
{
    let chars = chars_of(input);
    let home = chars_of(env.home.as_str());
    let cwd = chars_of(env.cwd.as_str());
    let p = if chars.len() >= 2 && chars[0] == '~' && chars[1] == '/' {
        let mut rest: Vec<char> = Vec::new();
        let mut i: usize = 2;
        while i < chars.len()
            invariant
                2 <= i <= chars.len(),
                rest@ == chars@.subrange(2, i as int),
            decreases chars.len() - i,
        {
            proof {
                assert(chars@.subrange(2, i as int).push(chars@[i as int]) =~= chars@.subrange(
                    2,
                    i + 1,
                ));
            }
            rest.push(chars[i]);
            i = i + 1;
        }
        proof {
            assert(chars@.subrange(2, chars.len() as int) =~= input@.skip(2));
        }
        join_path_exec(&home, &rest)
    } else {
        chars
    };
    let full = if p.len() > 0 && p[0] == '/' {
        p
    } else {
        join_path_exec(&cwd, &p)
    };
    string_of(&full)
}

/// The home directory.
pub fn get_home_dir(env: &PathEnv) -> (r: String)
    ensures
        r@ == env.home@,
{
    env.home.clone()
}

/// Checks that `path` names an existing path strictly inside the home directory and
/// gives it back in the form `~/<rest>`. `exists` tells whether the expanded path
/// exists on disk.
#[verifier::spinoff_prover]
pub fn check_path(path: &str, env: &PathEnv, exists: bool) -> (r: Result<String, String>)
    ensures
        result_view(r) == checked_path(path@, *env, exists),
{
    let input = chars_of(expand_path(path, env).as_str());
    if !exists {
        return Err(path_message(path, " does not exist"));
    }
    let home = chars_of(env.home.as_str());
    if path_eq_exec(&input, &home) {
        return Err(path_message(path, " is the home directory"));
    }
    if !starts_with_exec(&input, &home) {
        return Err(path_message(path, " is not in the home directory"));
    }
    match strip_prefix_exec(&input, &home) {
        Some(rel) => {
            let rel = string_of(&rel);
            Ok(concat_str("~/", rel.as_str()))
        },
        None => {
            Err(path_message(path, " is not in the home directory"))
        },
    }
}


/// The rest of `path` (expanded) after the home directory. The path must lie in
/// the home directory.
fn get_relative_path(path: &String, env: &PathEnv) -> (r: Result<String, String>)
    requires
        home_relative(path@, *env) is Some,
    ensures
        r is Ok,
        r->Ok_0@ == home_relative(path@, *env)->Some_0,
{
    let path_in_home = chars_of(expand_path(path.as_str(), env).as_str());
    let home = chars_of(env.home.as_str());
    match strip_prefix_exec(&path_in_home, &home) {
        Some(rel) => Ok(string_of(&rel)),
        None => {
            assert(false);
            Err(String::new())
        },
    }
}

/// Whether `path` (expanded) lies in the home directory, so that its rest after the
/// home directory can be taken.
pub fn in_home(path: &str, env: &PathEnv) -> (r: bool)
    ensures
        r == home_relative(path@, *env) is Some,
{
    let p = chars_of(expand_path(path, env).as_str());
    let home = chars_of(env.home.as_str());
    starts_with_exec(&p, &home)
}

/// Where the copy of `path_in_home` lives in the dotfolder: the dotfolder (expanded)
/// followed by the path's rest after the home directory.
pub open spec fn dotfolder_path_of(path_in_home: Seq<char>, env: PathEnv, dotfolder_path: Seq<char>) -> Seq<char> {
    join_path(
        expanded(dotfolder_path, env.home@, env.cwd@),
        home_relative(path_in_home, env)->Some_0,
    )
}

/// The path in the dotfolder that corresponds to `path_in_home`, a path in the home
/// directory; `dotfolder_path` is the configured dotfolder.
pub fn get_path_in_dotfolder(path_in_home: &String, env: &PathEnv, dotfolder_path: &str) -> (r:
    Result<String, String>)
    requires
        home_relative(path_in_home@, *env) is Some,
    ensures
        r is Ok,
        r->Ok_0@ == dotfolder_path_of(path_in_home@, *env, dotfolder_path@),
{
    let relative_path = match get_relative_path(path_in_home, env) {
        Ok(rel) => rel,
        Err(e) => {
            return Err(e);
        },
    };
    let dotfolder = chars_of(expand_path(dotfolder_path, env).as_str());
    let rel = chars_of(relative_path.as_str());
    Ok(string_of(&join_path_exec(&dotfolder, &rel)))
}

/// The expanded form of `path` and its counterpart in the dotfolder. The expanded
/// path must lie in the home directory.
pub fn get_home_and_dot_path(path: &String, env: &PathEnv, dotfolder_path: &str) -> (r: (
    String,
    String,
))
    requires
        home_relative(expanded(path@, env.home@, env.cwd@), *env) is Some,
    ensures
        r.0@ == expanded(path@, env.home@, env.cwd@),
        r.1@ == dotfolder_path_of(r.0@, *env, dotfolder_path@),
{
    let home = expand_path(path.as_str(), env);
    let dot = match get_path_in_dotfolder(&home, env, dotfolder_path) {
        Ok(d) => d,
        Err(_) => {
            assert(false);
            String::new()
        },
    };
    (home, dot)
}

/// The three paths used to exercise the configuration: a `~/` path, a relative path
/// and an absolute path in the home directory.
pub open spec fn mock_paths(env: PathEnv) -> Seq<Seq<char>> {
    seq![
        "~/.bashrc"@,
        ".config/app1"@,
        join_path(env.home@, ".config/app2/app_config2.toml"@),
    ]
}

/// Sample dotfile paths: `~/.bashrc`, `.config/app1`, and the home directory joined
/// with `.config/app2/app_config2.toml`.
pub fn mock_dotfile_paths(env: &PathEnv) -> (r: Vec<String>)
    ensures
        r@.len() == 3,
        forall|i: int| 0 <= i < 3 ==> #[trigger] r@[i]@ == mock_paths(*env)[i],
{
    let home = chars_of(env.home.as_str());
    let extra = chars_of(".config/app2/app_config2.toml");
    let third = string_of(&join_path_exec(&home, &extra));
    let mut r: Vec<String> = Vec::new();
    r.push(String::from_str("~/.bashrc"));
    r.push(String::from_str(".config/app1"));
    r.push(third);
    r
}

/// How a path is deleted, from what it is on disk.
#[derive(PartialEq, Eq, Structural, Clone, Copy, Debug)]
pub enum DeleteKind {
    /// A file or a symbolic link: removed as a file.
    File,
    /// A directory: removed with everything in it.
    Directory,
    /// Neither: nothing is removed and the deletion fails.
    Invalid,
}

/// How `delete` removes a path: a file or a symbolic link as a file, else a directory
/// with its contents, else not at all.
pub fn delete_kind(is_file: bool, is_symlink: bool, is_dir: bool) -> (r: DeleteKind)
    ensures
        r == (if is_file || is_symlink {
            DeleteKind::File
        } else if is_dir {
            DeleteKind::Directory
        } else {
            DeleteKind::Invalid
        }),
{
    if is_file || is_symlink {
        DeleteKind::File
    } else if is_dir {
        DeleteKind::Directory
    } else {
        DeleteKind::Invalid
    }
}

/// The message of a deletion that finds neither a file nor a directory.
pub fn invalid_delete_message(path: &str) -> (r: String)
    ensures
        r@ == "Path \""@ + path@ + "\" is not a valid file or directory"@,
{
    let mut r = concat_str("Path \"", path);
    r.append("\" is not a valid file or directory");
    r
}

/// How `copy_all` copies a source path, from what it is on disk.
#[derive(PartialEq, Eq, Structural, Clone, Copy, Debug)]
pub enum CopyKind {
    /// The source does not exist: the copy fails.
    Missing,
    /// A file: copied after its target's parent directories are created.
    File,
    /// A directory: each entry is copied to the same place under the target.
    Directory,
    /// Neither a file nor a directory: the copy fails.
    Unsupported,
}

/// How `copy_all` handles a source path.
pub fn copy_kind(exists: bool, is_file: bool, is_dir: bool) -> (r: CopyKind)
    ensures
        r == (if !exists {
            CopyKind::Missing
        } else if is_file {
            CopyKind::File
        } else if is_dir {
            CopyKind::Directory
        } else {
            CopyKind::Unsupported
        }),
{
    if !exists {
        CopyKind::Missing
    } else if is_file {
        CopyKind::File
    } else if is_dir {
        CopyKind::Directory
    } else {
        CopyKind::Unsupported
    }
}

/// The message of a copy whose source does not exist.
pub fn copy_missing_message(source: &str) -> (r: String)
    ensures
        r@ == source@ + " can't copy path dose not exists"@,
{
    concat_str(source, " can't copy path dose not exists")
}

/// The message of a copy whose source is neither a file nor a directory.
pub fn copy_unsupported_message(source: &str) -> (r: String)
    ensures
        r@ == "Failed to copy "@ + source@ + " is not a file or directory"@,
{
    let mut r = concat_str("Failed to copy ", source);
    r.append(" is not a file or directory");
    r
}

/// Where an entry of a copied directory goes: the target followed by the entry's
/// rest after the source directory. The entry must lie in the source directory.
pub fn nested_target(source: &str, target: &str, entry: &str) -> (r: String)
    requires
        strip_prefix(entry@, source@) is Some,
    ensures
        r@ == join_path(target@, strip_prefix(entry@, source@)->Some_0),
{
    let e = chars_of(entry);
    let s = chars_of(source);
    let t = chars_of(target);
    match strip_prefix_exec(&e, &s) {
        Some(rel) => string_of(&join_path_exec(&t, &rel)),
        None => {
            assert(false);
            String::new()
        },
    }
}

/// `expand_path` always gives an absolute path (the working directory is absolute).
pub proof fn law_expand_path_absolute(input: Seq<char>, env: PathEnv)
    requires
        is_absolute(env.cwd@),
    ensures
        is_absolute(expanded(input, env.home@, env.cwd@)),
{
}

/// Expanding an expanded path changes nothing.
pub proof fn law_expand_path_idempotent(input: Seq<char>, env: PathEnv)
    requires
        is_absolute(env.cwd@),
    ensures
        expanded(expanded(input, env.home@, env.cwd@), env.home@, env.cwd@) == expanded(
            input,
            env.home@,
            env.cwd@,
        ),
{
}

/// Checking a path keeps what it names: when `check_path` accepts `path`, the `~/`
/// form it gives back expands to the same path (component for component) as `path`.
#[verifier::spinoff_prover]
pub proof fn law_check_path_keeps_target(path: Seq<char>, env: PathEnv, exists: bool)
    requires
        is_absolute(env.home@),
        checked_path(path, env, exists) is Ok,
    ensures
        has_tilde(checked_path(path, env, exists)->Ok_0),
        path_eq(
            expanded(checked_path(path, env, exists)->Ok_0, env.home@, env.cwd@),
            expanded(path, env.home@, env.cwd@),
        ),
{
    let h = env.home@;
    let input = expanded(path, h, env.cwd@);
    let rel = strip_prefix(input, h).unwrap();
    lemma_rest_in_home(input, h);
    reveal_strlit("~/");
    let q = "~/"@ + rel;
    assert(q.skip(2) =~= rel);
    assert(has_tilde(q));
    assert(expanded(q, h, env.cwd@) == join_path(h, rel));
}


/// `check_path` accepts exactly the existing paths that lie strictly inside the home
/// directory; each refusal names the path, and a missing path is refused first.
pub proof fn law_check_path_accepts_exactly(path: Seq<char>, env: PathEnv, exists: bool)
    ensures
        ({
            let input = expanded(path, env.home@, env.cwd@);
            &&& (checked_path(path, env, exists) is Ok) <==> (exists && path_starts_with(
                input,
                env.home@,
            ) && !path_eq(input, env.home@))
            &&& !exists ==> checked_path(path, env, exists) == Err::<Seq<char>, Seq<char>>(
                "path "@ + path + " does not exist"@,
            )
            &&& checked_path(path, env, exists) matches Err(e) ==> e.take(5) == "path "@
                && e.subrange(5, 5 + path.len() as int) == path
        }),
{
    reveal_strlit("path ");
    let input = expanded(path, env.home@, env.cwd@);
    if checked_path(path, env, exists) is Err {
        let e = checked_path(path, env, exists)->Err_0;
        let tail = if !exists {
            " does not exist"@
        } else if path_eq(input, env.home@) {
            " is the home directory"@
        } else {
            " is not in the home directory"@
        };
        assert(e == "path "@ + path + tail);
        assert(e.take(5) =~= "path "@);
        assert(e.subrange(5, 5 + path.len() as int) =~= path);
    }
}

/// `expand_path` replaces a leading `~/` by the home directory, keeps any other
/// absolute path as it is, and takes any other relative path from the working
/// directory.
pub proof fn law_expand_path_cases(input: Seq<char>, env: PathEnv)
    requires
        is_absolute(env.home@),
    ensures
        has_tilde(input) ==> expanded(input, env.home@, env.cwd@) == join_path(
            env.home@,
            input.skip(2),
        ),
        !has_tilde(input) && is_absolute(input) ==> expanded(input, env.home@, env.cwd@) == input,
        !has_tilde(input) && !is_absolute(input) ==> expanded(input, env.home@, env.cwd@)
            == join_path(env.cwd@, input),
{
}

/// Checking is idempotent: the `~/` form that `check_path` gives back is accepted by it
/// again (it names the same existing path) and comes back unchanged.
#[verifier::spinoff_prover]
pub proof fn law_check_path_idempotent(path: Seq<char>, env: PathEnv, exists: bool)
    requires
        is_absolute(env.home@),
        checked_path(path, env, exists) is Ok,
    ensures
        checked_path(checked_path(path, env, exists)->Ok_0, env, true) == checked_path(
            path,
            env,
            exists,
        ),
{
    let h = env.home@;
    let input = expanded(path, h, env.cwd@);
    let rel = strip_prefix(input, h).unwrap();
    lemma_rest_in_home(input, h);
    let t = choose|t: Seq<Seq<char>>| clean_pieces(t) && #[trigger] join(t) == rel;
    lemma_rest_of_joined(h, t);
    reveal_strlit("~/");
    let q = "~/"@ + rel;
    assert(q.skip(2) =~= rel);
    assert(has_tilde(q));
    assert(expanded(q, h, env.cwd@) == join_path(h, rel));
}

} // verus!
