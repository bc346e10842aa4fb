//! The configuration of the dotfile manager: where the dotfolder is, which paths are
//! managed, and what to do with duplicates and unlinked files; with the rules that
//! keep managed paths in the home directory.

use vstd::prelude::*;

use crate::path::{is_absolute, join_path, path_starts_with, strip_prefix, strip_prefix_exec};
use crate::text::{chars_of, starts_with_str, str_eq, string_of};
use crate::utils::{
    check_path, checked_path, expand_path, expanded, has_tilde, mock_dotfile_paths, mock_paths,
    PathEnv,
};

verus! {

/// What `sync` does with a path that exists both in the home directory and in the
/// dotfolder.
#[derive(PartialEq, Eq, Structural, Clone, Copy, Debug)]
pub enum DuplicateBehavior {
    /// Collect the duplicates and let the user choose.
    Ask,
    /// Replace the home copy with a link to the dotfolder copy.
    OverwriteHome,
    /// Replace the dotfolder copy with the home copy, then link.
    OverwriteDotfile,
    /// Move the home copy aside (extension `bak`), then link.
    BackupHome,
    /// Leave both as they are.
    Skip,
}

/// What unlinking does with the dotfolder copy once the home path holds the file
/// again.
#[derive(PartialEq, Eq, Structural, Clone, Copy, Debug)]
pub enum OnDelinkBehavior {
    /// Delete the dotfolder copy.
    Remove,
    /// Keep the dotfolder copy.
    Keep,
}

/// The duplicate behavior used when the configuration names none.
pub fn default_duplicate_behavior() -> (r: DuplicateBehavior)
    ensures
        r == DuplicateBehavior::Ask,
{
    DuplicateBehavior::Ask
}

/// The unlink behavior used when the configuration names none.
pub fn default_on_delink_behavior() -> (r: OnDelinkBehavior)
    ensures
        r == OnDelinkBehavior::Remove,
{
    OnDelinkBehavior::Remove
}

impl DuplicateBehavior {
    /// The name of the behavior in the configuration file: its variant name in lower
    /// case.
    pub open spec fn spec_name(self) -> Seq<char> {
        match self {
            DuplicateBehavior::Ask => "ask"@,
            DuplicateBehavior::OverwriteHome => "overwritehome"@,
            DuplicateBehavior::OverwriteDotfile => "overwritedotfile"@,
            DuplicateBehavior::BackupHome => "backuphome"@,
            DuplicateBehavior::Skip => "skip"@,
        }
    }

    /// The name of the behavior in the configuration file.
    pub fn name(&self) -> (r: String)
        ensures
            r@ == self.spec_name(),
    {
        match self {
            DuplicateBehavior::Ask => String::from_str("ask"),
            DuplicateBehavior::OverwriteHome => String::from_str("overwritehome"),
            DuplicateBehavior::OverwriteDotfile => String::from_str("overwritedotfile"),
            DuplicateBehavior::BackupHome => String::from_str("backuphome"),
            DuplicateBehavior::Skip => String::from_str("skip"),
        }
    }
}

impl OnDelinkBehavior {
    /// The name of the behavior in the configuration file: its variant name in lower
    /// case.
    pub open spec fn spec_name(self) -> Seq<char> {
        match self {
            OnDelinkBehavior::Remove => "remove"@,
            OnDelinkBehavior::Keep => "keep"@,
        }
    }

    /// The name of the behavior in the configuration file.
    pub fn name(&self) -> (r: String)
        ensures
            r@ == self.spec_name(),
    {
        match self {
            OnDelinkBehavior::Remove => String::from_str("remove"),
            OnDelinkBehavior::Keep => String::from_str("keep"),
        }
    }
}

/// The behaviors of a configuration.
#[derive(Clone, Copy, Debug)]
pub struct Defaults {
    pub on_duplicate: DuplicateBehavior,
    pub on_delink: OnDelinkBehavior,
}

/// The configuration. Paths are kept unexpanded (usually in the form `~/<rest>`);
/// `expand_path` gives the path they name.
#[derive(Debug)]
pub struct Config {
    pub defaults: Defaults,
    pub dotfolder_path: String,
    pub paths: Vec<String>,
}

/// The texts of a list of strings.
pub open spec fn texts(v: Seq<String>) -> Seq<Seq<char>> {
    v.map_values(|s: String| s@)
}

/// What `restrict_to_home` gives back for `path`: `check_path`'s result, except that a
/// path inside the dotfolder is put back under the home directory (`~/<rest after the
/// dotfolder>`).
pub open spec fn restricted(path: Seq<char>, dotfolder: Seq<char>, env: PathEnv, exists: bool) -> Result<
    Seq<char>,
    Seq<char>,
> {
    match checked_path(path, env, exists) {
        Err(e) => Err(e),
        Ok(p) => if dotfolder.is_prefix_of(p) {
            Ok(
                "~/"@ + strip_prefix(
                    expanded(p, env.home@, env.cwd@),
                    expanded(dotfolder, env.home@, env.cwd@),
                )->Some_0,
            )
        } else {
            Ok(p)
        },
    }
}

/// `restrict_to_home` fails on `path`: the checked path begins with the dotfolder's
/// text, but not with the dotfolder as a path (for example `~/.dotfiles` and
/// `~/.dotfiles2/a`).
pub open spec fn restrict_fails(path: Seq<char>, dotfolder: Seq<char>, env: PathEnv, exists: bool) -> bool {
    match checked_path(path, env, exists) {
        Err(_) => false,
        Ok(p) => dotfolder.is_prefix_of(p) && strip_prefix(
            expanded(p, env.home@, env.cwd@),
            expanded(dotfolder, env.home@, env.cwd@),
        ) is None,
    }
}

/// The managed paths after adding `p`: unchanged when `p` is already there, else `p`
/// at the end.
pub open spec fn with_path(paths: Seq<Seq<char>>, p: Seq<char>) -> Seq<Seq<char>> {
    if paths.contains(p) {
        paths
    } else {
        paths.push(p)
    }
}

/// Whether entry `v` of the managed paths is the one `remove_path` looks for: equal to
/// the restricted form of the input, or to the input itself.
pub open spec fn removal_match(v: Seq<char>, normalized: Option<Seq<char>>, raw: Seq<char>) -> bool {
    normalized == Some(v) || v == raw
}

/// The restricted form of a path, when restricting succeeds.
pub open spec fn normalized_form(path: Seq<char>, dotfolder: Seq<char>, env: PathEnv, exists: bool) -> Option<
    Seq<char>,
> {
    match restricted(path, dotfolder, env, exists) {
        Ok(p) => Some(p),
        Err(_) => None,
    }
}

/// The managed paths after `remove_path`: without the first entry that matches.
pub open spec fn without_path(paths: Seq<Seq<char>>, normalized: Option<Seq<char>>, raw: Seq<char>) -> Seq<
    Seq<char>,
>
    decreases paths.len(),
{
    if paths.len() == 0 {
        paths
    } else if removal_match(paths[0], normalized, raw) {
        paths.drop_first()
    } else {
        seq![paths[0]] + without_path(paths.drop_first(), normalized, raw)
    }
}

/// A problem found by `validate_config`.
#[derive(Debug)]
pub enum ConfigError {
    /// A managed path is neither `~/...` nor absolute.
    RelativePath(String),
    /// A managed absolute path is not in the home directory.
    OutsideHome(String),
    /// The dotfolder path does not begin with `~/`.
    DotfolderOutsideHome(String),
}

/// The kind of a configuration problem and the path it is about.
pub enum ConfigProblem {
    RelativePath(Seq<char>),
    OutsideHome(Seq<char>),
    DotfolderOutsideHome(Seq<char>),
}

impl View for ConfigError {
    type V = ConfigProblem;

    open spec fn view(&self) -> ConfigProblem {
        match self {
            ConfigError::RelativePath(p) => ConfigProblem::RelativePath(p@),
            ConfigError::OutsideHome(p) => ConfigProblem::OutsideHome(p@),
            ConfigError::DotfolderOutsideHome(p) => ConfigProblem::DotfolderOutsideHome(p@),
        }
    }
}

impl ConfigError {
    /// The text that describes the problem.
    pub open spec fn spec_message(self) -> Seq<char> {
        match self@ {
            ConfigProblem::RelativePath(p) => "Invalid path: \""@ + p
                + "\" paths should not be relative."@,
            ConfigProblem::OutsideHome(p) => "Invalid path: \""@ + p
                + "\" paths should be in the home directory."@,
            ConfigProblem::DotfolderOutsideHome(p) => "Invalid path: \""@ + p
                + "\" the dotfolder path should be in the home directory."@,
        }
    }

    /// The text that describes the problem.
    pub fn message(&self) -> (r: String)
        ensures
            r@ == self.spec_message(),
    {
        let (path, tail) = match self {
            ConfigError::RelativePath(p) => (p, "\" paths should not be relative."),
            ConfigError::OutsideHome(p) => (p, "\" paths should be in the home directory."),
            ConfigError::DotfolderOutsideHome(p) => (
                p,
                "\" the dotfolder path should be in the home directory.",
            ),
        };
        let mut r = String::from_str("Invalid path: \"");
        r.append(path.as_str());
        r.append(tail);
        r
    }
}

/// A managed path is acceptable when it begins with `~/`, or is absolute and in the
/// home directory.
pub open spec fn path_acceptable(p: Seq<char>, home: Seq<char>) -> bool {
    has_tilde(p) || (is_absolute(p) && path_starts_with(p, home))
}

/// The problem with an unacceptable managed path.
pub open spec fn path_problem(p: Seq<char>) -> ConfigProblem {
    if !is_absolute(p) {
        ConfigProblem::RelativePath(p)
    } else {
        ConfigProblem::OutsideHome(p)
    }
}

/// The first problem of a configuration, if any: the first unacceptable managed path,
/// else a dotfolder path that does not begin with `~/`.
pub open spec fn first_problem(paths: Seq<Seq<char>>, dotfolder: Seq<char>, home: Seq<char>) -> Option<
    ConfigProblem,
>
    decreases paths.len(),
{
    if paths.len() == 0 {
        if has_tilde(dotfolder) {
            None
        } else {
            Some(ConfigProblem::DotfolderOutsideHome(dotfolder))
        }
    } else if !path_acceptable(paths[0], home) {
        Some(path_problem(paths[0]))
    } else {
        first_problem(paths.drop_first(), dotfolder, home)
    }
}

/// Where the configuration file is read from.
#[derive(PartialEq, Eq, Structural, Clone, Copy, Debug)]
pub enum ConfigSource {
    /// The global file `~/.config/lazydot.toml`.
    Global,
    /// The file `.config/lazydot.toml` under the working directory, which the global
    /// path is then made to link to.
    Local,
    /// Neither exists: a default file is written at the global path.
    CreateDefault,
}

/// Which configuration file is used: the global one when it exists, else the local
/// one when it exists, else a new default one.
pub fn config_source(global_exists: bool, local_exists: bool) -> (r: ConfigSource)
    ensures
        r == (if global_exists {
            ConfigSource::Global
        } else if local_exists {
            ConfigSource::Local
        } else {
            ConfigSource::CreateDefault
        }),
{
    if global_exists {
        ConfigSource::Global
    } else if local_exists {
        ConfigSource::Local
    } else {
        ConfigSource::CreateDefault
    }
}

/// The global configuration file: `.config/lazydot.toml` in the home directory.
pub fn global_config_path(env: &PathEnv) -> (r: String)
    ensures
        r@ == join_path(env.home@, ".config/lazydot.toml"@),
{
    let home = chars_of(env.home.as_str());
    let rel = chars_of(".config/lazydot.toml");
    string_of(&crate::path::join_path_exec(&home, &rel))
}

/// The local configuration file: `.config/lazydot.toml` expanded.
pub fn local_config_path(env: &PathEnv) -> (r: String)
    ensures
        r@ == expanded(".config/lazydot.toml"@, env.home@, env.cwd@),
{
    expand_path(".config/lazydot.toml", env)
}

impl Config {
    /// The managed paths' texts.
    pub open spec fn path_texts(&self) -> Seq<Seq<char>> {
        texts(self.paths@)
    }

    /// Whether the managed paths hold `p`.
    fn contains_path(&self, p: &String) -> (r: bool)
        ensures
            r == self.path_texts().contains(p@),
    {
        let mut i: usize = 0;
        while i < self.paths.len()
            invariant
                i <= self.paths.len(),
                forall|j: int| 0 <= j < i ==> self.paths@[j]@ != p@,
            decreases self.paths.len() - i,
        {
            if str_eq(self.paths[i].as_str(), p.as_str()) {
                assert(self.path_texts()[i as int] == p@);
                return true;
            }
            i = i + 1;
        }
        proof {
            if self.path_texts().contains(p@) {
                let k = choose|k: int| 0 <= k < self.path_texts().len() && self.path_texts()[k] == p@;
                assert(self.paths@[k]@ == p@);
            }
        }
        false
    }

    /// `check_path`'s result for `path`, with a path inside the dotfolder put back
    /// under the home directory. `exists` tells whether the expanded path exists.
    fn restrict_to_home(&mut self, path: String, env: &PathEnv, exists: bool) -> (r: Result<
        String,
        String,
    >)
        requires
            !restrict_fails(path@, old(self).dotfolder_path@, *env, exists),
        ensures
            *final(self) == *old(self),
            crate::utils::result_view(r) == restricted(path@, old(self).dotfolder_path@, *env, exists),
    {
        let checked = check_path(path.as_str(), env, exists);
        let mut path = match checked {
            Ok(p) => p,
            Err(e) => {
                return Err(e);
            },
        };
        if starts_with_str(path.as_str(), self.dotfolder_path.as_str()) {
            let path_buf = chars_of(expand_path(path.as_str(), env).as_str());
            let dotfolder_buf = chars_of(expand_path(self.dotfolder_path.as_str(), env).as_str());
            let relative_path = match strip_prefix_exec(&path_buf, &dotfolder_buf) {
                Some(rel) => string_of(&rel),
                None => {
                    assert(false);
                    String::new()
                },
            };
            let mut p = String::from_str("~/");
            p.append(relative_path.as_str());
            path = p;
        }
        Ok(path)
    }

    /// Whether restricting `path` to the home directory fails: its checked form begins
    /// with the dotfolder's text but does not lie in the dotfolder as a path.
    pub fn restrict_would_fail(&self, path: &str, env: &PathEnv, exists: bool) -> (r: bool)
        ensures
            r == restrict_fails(path@, self.dotfolder_path@, *env, exists),
    {
        match check_path(path, env, exists) {
            Err(_) => false,
            Ok(p) => {
                if starts_with_str(p.as_str(), self.dotfolder_path.as_str()) {
                    let path_buf = chars_of(expand_path(p.as_str(), env).as_str());
                    let dotfolder_buf = chars_of(expand_path(self.dotfolder_path.as_str(), env).as_str());
                    strip_prefix_exec(&path_buf, &dotfolder_buf).is_none()
                } else {
                    false
                }
            },
        }
    }

    /// Adds `path` (in its restricted form) to the managed paths unless it is already
    /// there. Fails, changing nothing, when the path is refused by `check_path`.
    /// `exists` tells whether the expanded path exists.
    pub fn add_path(&mut self, path: String, env: &PathEnv, exists: bool) -> (r: Result<(), String>)
        requires
            !restrict_fails(path@, old(self).dotfolder_path@, *env, exists),
        ensures
            final(self).defaults == old(self).defaults,
            final(self).dotfolder_path == old(self).dotfolder_path,
            match restricted(path@, old(self).dotfolder_path@, *env, exists) {
                Err(e) => r matches Err(m) && m@ == e && final(self).paths == old(self).paths,
                Ok(p) => r is Ok && final(self).path_texts() == with_path(old(self).path_texts(), p),
            },
    {
        let path = match self.restrict_to_home(path, env, exists) {
            Ok(p) => p,
            Err(e) => {
                return Err(e);
            },
        };
        if self.contains_path(&path) {
            return Ok(());
        }
        let ghost before = self.path_texts();
        self.paths.push(path);
        proof {
            assert(self.path_texts() =~= before.push(path@));
        }
        Ok(())
    }

    /// Removes the first managed path equal to the restricted form of `path` or to
    /// `path` itself; changes nothing when there is none. `exists` tells whether the
    /// expanded path exists.
    #[verifier::spinoff_prover]
    pub fn remove_path(&mut self, path: String, env: &PathEnv, exists: bool)
        requires
            !restrict_fails(path@, old(self).dotfolder_path@, *env, exists),
        ensures
            final(self).defaults == old(self).defaults,
            final(self).dotfolder_path == old(self).dotfolder_path,
            final(self).path_texts() == without_path(
                old(self).path_texts(),
                normalized_form(path@, old(self).dotfolder_path@, *env, exists),
                path@,
            ),
    {
        let ghost all = self.path_texts();
        let ghost norm = normalized_form(path@, self.dotfolder_path@, *env, exists);
        let normalized = match self.restrict_to_home(path.clone(), env, exists) {
            Ok(p) => Some(p),
            Err(_) => None,
        };
        proof {
            lemma_without_path_prefix(all, norm, path@, 0);
        }
        let mut i: usize = 0;
        while i < self.paths.len()
            invariant
                i <= self.paths.len(),
                all == self.path_texts(),
                self.defaults == old(self).defaults,
                self.dotfolder_path == old(self).dotfolder_path,
                all == old(self).path_texts(),
                norm == normalized_form(path@, old(self).dotfolder_path@, *env, exists),
                match normalized {
                    Some(p) => norm == Some(p@),
                    None => norm is None,
                },
                forall|j: int| 0 <= j < i ==> !removal_match(all[j], norm, path@),
                without_path(all, norm, path@) == all.take(i as int) + without_path(
                    all.skip(i as int),
                    norm,
                    path@,
                ),
            decreases self.paths.len() - i,
        {
            let hit = match &normalized {
                Some(p) => str_eq(self.paths[i].as_str(), p.as_str()),
                None => false,
            } || str_eq(self.paths[i].as_str(), path.as_str());
            proof {
                assert(all[i as int] == self.paths@[i as int]@);
                assert(all.skip(i as int)[0] == all[i as int]);
                assert(all.skip(i as int).drop_first() =~= all.skip(i + 1));
            }
            if hit {
                assert(removal_match(all[i as int], norm, path@));
                self.paths.remove(i);
                proof {
                    assert(self.path_texts() =~= all.take(i as int) + all.skip(i + 1));
                    assert(without_path(all.skip(i as int), norm, path@) == all.skip(
                        i as int,
                    ).drop_first());
                }
                return;
            }
            proof {
                assert(all.take(i as int) + (seq![all[i as int]] + without_path(
                    all.skip(i + 1),
                    norm,
                    path@,
                )) =~= all.take(i + 1) + without_path(all.skip(i + 1), norm, path@));
            }
            i = i + 1;
        }
        proof {
            assert(all.skip(i as int).len() == 0);
            assert(all.take(i as int) =~= all);
        }
    }

    /// Checks that every managed path begins with `~/` or is an absolute path in the
    /// home directory, and that the dotfolder path begins with `~/`; reports the first
    /// problem found, managed paths first.
    #[verifier::spinoff_prover]
    pub fn validate_config(&self, env: &PathEnv) -> (r: Result<(), ConfigError>)
        ensures
            match first_problem(self.path_texts(), self.dotfolder_path@, env.home@) {
                None => r is Ok,
                Some(problem) => r matches Err(e) && e@ == problem,
            },
    {
        let home = chars_of(env.home.as_str());
        let ghost all = self.path_texts();
        let mut i: usize = 0;
        proof {
            assert(all.skip(0) =~= all);
        }
        while i < self.paths.len()
            invariant
                i <= self.paths.len(),
                all == self.path_texts(),
                home@ == env.home@,
                first_problem(all, self.dotfolder_path@, env.home@) == first_problem(
                    all.skip(i as int),
                    self.dotfolder_path@,
                    env.home@,
                ),
            decreases self.paths.len() - i,
        {
            let path = &self.paths[i];
            proof {
                assert(all.skip(i as int)[0] == path@);
                assert(all.skip(i as int).drop_first() =~= all.skip(i + 1));
            }
            if !starts_with_str(path.as_str(), "~/") {
                let p = chars_of(path.as_str());
                proof {
                    reveal_strlit("~/");
                    assert("~/"@.is_prefix_of(path@) == has_tilde(path@)) by {
                        if has_tilde(path@) {
                            assert("~/"@ =~= path@.subrange(0, 2));
                        }
                    }
                }
                if !(p.len() > 0 && p[0] == '/') {
                    return Err(ConfigError::RelativePath(path.clone()));
                }
                if !crate::path::starts_with_exec(&p, &home) {
                    return Err(ConfigError::OutsideHome(path.clone()));
                }
            } else {
                proof {
                    reveal_strlit("~/");
                    assert(path@.subrange(0, 2) =~= "~/"@);
                    assert(path@[0] == "~/"@[0] && path@[1] == "~/"@[1]);
                }
            }
            i = i + 1;
        }
        proof {
            assert(all.skip(i as int).len() == 0);
        }
        let tilde = starts_with_str(self.dotfolder_path.as_str(), "~/");
        proof {
            reveal_strlit("~/");
            if tilde {
                assert(self.dotfolder_path@.subrange(0, 2) =~= "~/"@);
                assert(self.dotfolder_path@[0] == "~/"@[0]);
                assert(self.dotfolder_path@[1] == "~/"@[1]);
            } else if has_tilde(self.dotfolder_path@) {
                assert("~/"@ =~= self.dotfolder_path@.subrange(0, 2));
            }
        }
        if !tilde {
            return Err(ConfigError::DotfolderOutsideHome(self.dotfolder_path.clone()));
        }
        Ok(())
    }
}

/// The restricted form of sample path `i`.
pub open spec fn mock_restricted(config: Config, env: PathEnv, exists: Seq<bool>, i: int) -> Result<
    Seq<char>,
    Seq<char>,
> {
    restricted(mock_paths(env)[i], config.dotfolder_path@, env, exists[i])
}

/// `config` with the sample paths of `mock_dotfile_paths` added, in order. `exists[i]`
/// tells whether sample path `i` (expanded) exists; each must be accepted.
#[verifier::spinoff_prover]
pub fn init_config_with_paths(config: Config, env: &PathEnv, exists: &Vec<bool>) -> (r: Config)
    requires
        exists@.len() == 3,
        forall|i: int|
            0 <= i < 3 ==> #[trigger] mock_restricted(config, *env, exists@, i) is Ok
                && !restrict_fails(
                mock_paths(*env)[i],
                config.dotfolder_path@,
                *env,
                exists@[i],
            ),
    ensures
        r.defaults == config.defaults,
        r.dotfolder_path == config.dotfolder_path,
        r.path_texts() == with_path(
            with_path(
                with_path(config.path_texts(), mock_restricted(config, *env, exists@, 0)->Ok_0),
                mock_restricted(config, *env, exists@, 1)->Ok_0,
            ),
            mock_restricted(config, *env, exists@, 2)->Ok_0,
        ),
{
    let mut config = config;
    let paths = mock_dotfile_paths(env);
    let ghost c0 = config;
    let mut i: usize = 0;
    while i < 3
        invariant
            i <= 3,
            paths@.len() == 3,
            exists@.len() == 3,
            forall|j: int| 0 <= j < 3 ==> #[trigger] paths@[j]@ == mock_paths(*env)[j],
            config.defaults == c0.defaults,
            config.dotfolder_path == c0.dotfolder_path,
            forall|j: int|
                0 <= j < 3 ==> #[trigger] mock_restricted(c0, *env, exists@, j) is Ok
                    && !restrict_fails(mock_paths(*env)[j], c0.dotfolder_path@, *env, exists@[j]),
            config.path_texts() == added_mocks(c0, *env, exists@, i as int),
        decreases 3 - i,
    {
        assert(mock_restricted(c0, *env, exists@, i as int) is Ok);
        let r = config.add_path(paths[i].clone(), env, exists[i]);
        i = i + 1;
    }
    proof {
        reveal_with_fuel(added_mocks, 4);
    }
    config
}

/// `config`'s managed paths after adding the first `n` sample paths.
pub open spec fn added_mocks(config: Config, env: PathEnv, exists: Seq<bool>, n: int) -> Seq<Seq<char>>
    decreases n,
{
    if n <= 0 {
        config.path_texts()
    } else {
        with_path(
            added_mocks(config, env, exists, n - 1),
            mock_restricted(config, env, exists, n - 1)->Ok_0,
        )
    }
}

/// Adding keeps every managed path in order and leaves the new one managed, at the
/// end when it was not managed before.
pub proof fn law_add_path_appends(paths: Seq<Seq<char>>, p: Seq<char>)
    ensures
        with_path(paths, p).contains(p),
        with_path(paths, p).take(paths.len() as int) == paths,
        paths.contains(p) ==> with_path(paths, p) == paths,
        !paths.contains(p) ==> with_path(paths, p).len() == paths.len() + 1 && with_path(paths, p).last()
            == p,
{
    if !paths.contains(p) {
        assert(paths.push(p)[paths.len() as int] == p);
        assert(paths.push(p).take(paths.len() as int) =~= paths);
    } else {
        assert(paths.take(paths.len() as int) =~= paths);
    }
}

/// A configuration is valid exactly when every managed path begins with `~/` or is
/// an absolute path in the home directory and the dotfolder path begins with `~/`;
/// a reported problem is about one of the managed paths or the dotfolder, and of the
/// kind that path has.
pub proof fn law_validation(paths: Seq<Seq<char>>, dotfolder: Seq<char>, home: Seq<char>)
    ensures
        (first_problem(paths, dotfolder, home) is None) <==> ((forall|i: int|
            0 <= i < paths.len() ==> #[trigger] has_tilde(paths[i]) || (is_absolute(paths[i])
                && path_starts_with(paths[i], home))) && has_tilde(dotfolder)),
        first_problem(paths, dotfolder, home) matches Some(ConfigProblem::RelativePath(q)) ==> paths.contains(q)
            && !has_tilde(q) && !is_absolute(q),
        first_problem(paths, dotfolder, home) matches Some(ConfigProblem::OutsideHome(q)) ==> paths.contains(q)
            && !has_tilde(q) && is_absolute(q) && !path_starts_with(q, home),
        first_problem(paths, dotfolder, home) matches Some(ConfigProblem::DotfolderOutsideHome(q)) ==> q
            == dotfolder && !has_tilde(dotfolder),
    decreases paths.len(),
{
    if paths.len() > 0 {
        let rest = paths.drop_first();
        law_validation(rest, dotfolder, home);
        assert forall|x: Seq<char>| rest.contains(x) implies paths.contains(x) by {
            let k = choose|k: int| 0 <= k < rest.len() && rest[k] == x;
            assert(paths[k + 1] == x);
        }
        assert(paths.contains(paths[0]));
        if path_acceptable(paths[0], home) {
            assert((forall|i: int|
                0 <= i < paths.len() ==> #[trigger] has_tilde(paths[i]) || (is_absolute(paths[i])
                    && path_starts_with(paths[i], home))) <==> (forall|i: int|
                0 <= i < rest.len() ==> #[trigger] has_tilde(rest[i]) || (is_absolute(rest[i])
                    && path_starts_with(rest[i], home)))) by {
                assert forall|i: int| 0 <= i < rest.len() implies rest[i] == paths[i + 1] by {}
                assert forall|i: int| 1 <= i < paths.len() implies paths[i] == rest[i - 1] by {}
            }
        }
    }
}

/// Adding a path a second time changes nothing: `add_path` is idempotent.
pub proof fn law_add_path_idempotent(
    paths: Seq<Seq<char>>,
    path: Seq<char>,
    dotfolder: Seq<char>,
    env: PathEnv,
    exists: bool,
)
    requires
        restricted(path, dotfolder, env, exists) is Ok,
    ensures
        ({
            let p = restricted(path, dotfolder, env, exists)->Ok_0;
            with_path(with_path(paths, p), p) == with_path(paths, p)
        }),
{
    let p = restricted(path, dotfolder, env, exists)->Ok_0;
    if !paths.contains(p) {
        assert(paths.push(p)[paths.len() as int] == p);
    }
}

/// Removing a path that was just added restores the managed paths, provided neither
/// its restricted form nor its raw text was managed before.
pub proof fn law_remove_undoes_add(
    paths: Seq<Seq<char>>,
    path: Seq<char>,
    dotfolder: Seq<char>,
    env: PathEnv,
    exists: bool,
)
    requires
        restricted(path, dotfolder, env, exists) is Ok,
        !paths.contains(restricted(path, dotfolder, env, exists)->Ok_0),
        !paths.contains(path),
    ensures
        without_path(
            with_path(paths, restricted(path, dotfolder, env, exists)->Ok_0),
            normalized_form(path, dotfolder, env, exists),
            path,
        ) == paths,
{
    let p = restricted(path, dotfolder, env, exists)->Ok_0;
    lemma_without_pushed(paths, p, path);
}

proof fn lemma_without_pushed(paths: Seq<Seq<char>>, p: Seq<char>, raw: Seq<char>)
    requires
        !paths.contains(p),
        !paths.contains(raw),
    ensures
        without_path(paths.push(p), Some(p), raw) == paths,
    decreases paths.len(),
{
    if paths.len() == 0 {
        assert(paths.push(p).drop_first() =~= paths);
    } else {
        let rest = paths.drop_first();
        assert(paths.push(p).drop_first() =~= rest.push(p));
        assert(paths.push(p)[0] == paths[0]);
        assert(paths.contains(paths[0]));
        assert forall|x: Seq<char>| rest.contains(x) implies paths.contains(x) by {
            let k = choose|k: int| 0 <= k < rest.len() && rest[k] == x;
            assert(paths[k + 1] == x);
        }
        lemma_without_pushed(rest, p, raw);
        assert(seq![paths[0]] + rest =~= paths);
    }
}

/// Every path that `restrict_to_home` accepts is given back in the form `~/<rest>`.
pub proof fn law_restricted_has_tilde(path: Seq<char>, dotfolder: Seq<char>, env: PathEnv, exists: bool)
    requires
        restricted(path, dotfolder, env, exists) is Ok,
    ensures
        has_tilde(restricted(path, dotfolder, env, exists)->Ok_0),
{
    reveal_strlit("~/");
}

/// Adding a path keeps a valid configuration valid.
pub proof fn law_add_path_keeps_valid(
    paths: Seq<Seq<char>>,
    path: Seq<char>,
    dotfolder: Seq<char>,
    env: PathEnv,
    exists: bool,
)
    requires
        restricted(path, dotfolder, env, exists) is Ok,
        first_problem(paths, dotfolder, env.home@) is None,
    ensures
        first_problem(
            with_path(paths, restricted(path, dotfolder, env, exists)->Ok_0),
            dotfolder,
            env.home@,
        ) is None,
{
    let p = restricted(path, dotfolder, env, exists)->Ok_0;
    law_restricted_has_tilde(path, dotfolder, env, exists);
    if !paths.contains(p) {
        lemma_first_problem_push(paths, p, dotfolder, env.home@);
    }
}

proof fn lemma_first_problem_push(
    paths: Seq<Seq<char>>,
    p: Seq<char>,
    dotfolder: Seq<char>,
    home: Seq<char>,
)
    requires
        has_tilde(p),
        first_problem(paths, dotfolder, home) is None,
    ensures
        first_problem(paths.push(p), dotfolder, home) is None,
    decreases paths.len(),
{
    if paths.len() == 0 {
        assert(paths.push(p).drop_first() =~= paths);
    } else {
        assert(paths.push(p).drop_first() =~= paths.drop_first().push(p));
        lemma_first_problem_push(paths.drop_first(), p, dotfolder, home);
    }
}

/// What `remove_path` removes: when some managed path equals the raw argument or its
/// restricted form, exactly one entry goes, the first such one, and the others stay in
/// order; otherwise nothing changes.
pub proof fn law_remove_path_removes_first_match(
    paths: Seq<Seq<char>>,
    normalized: Option<Seq<char>>,
    raw: Seq<char>,
)
    ensures
        ({
            let r = without_path(paths, normalized, raw);
            let hit = |v: Seq<char>| v == raw || normalized == Some(v);
            &&& (paths.contains(raw) || (normalized is Some && paths.contains(normalized->Some_0)))
                ==> exists|k: int|
                0 <= k < paths.len() && #[trigger] hit(paths[k]) && (forall|j: int|
                    0 <= j < k ==> !hit(paths[j])) && r == paths.remove(k)
            &&& !paths.contains(raw) && !(normalized is Some && paths.contains(normalized->Some_0))
                ==> r == paths
        }),
    decreases paths.len(),
{
    let r = without_path(paths, normalized, raw);
    let hit = |v: Seq<char>| v == raw || normalized == Some(v);
    if paths.len() == 0 {
        return;
    }
    let rest = paths.drop_first();
    law_remove_path_removes_first_match(rest, normalized, raw);
    assert(paths =~= seq![paths[0]] + rest);
    if hit(paths[0]) {
        assert(r == rest);
        assert(r =~= paths.remove(0));
        if paths.contains(raw) || (normalized is Some && paths.contains(normalized->Some_0)) {
            assert(hit(paths[0]));
        }
    } else {
        let rr = without_path(rest, normalized, raw);
        assert(r == seq![paths[0]] + rr);
        if paths.contains(raw) || (normalized is Some && paths.contains(normalized->Some_0)) {
            assert(rest.contains(raw) || (normalized is Some && rest.contains(normalized->Some_0))) by {
                if paths.contains(raw) {
                    let k = choose|k: int| 0 <= k < paths.len() && paths[k] == raw;
                    assert(k != 0);
                    assert(rest[k - 1] == raw);
                } else {
                    let k = choose|k: int| 0 <= k < paths.len() && paths[k] == normalized->Some_0;
                    assert(k != 0);
                    assert(rest[k - 1] == normalized->Some_0);
                }
            }
            let k = choose|k: int|
                0 <= k < rest.len() && #[trigger] hit(rest[k]) && (forall|j: int|
                    0 <= j < k ==> !hit(rest[j])) && rr == rest.remove(k);
            assert(paths[k + 1] == rest[k]);
            assert(hit(paths[k + 1]));
            assert forall|j: int| 0 <= j < k + 1 implies !hit(paths[j]) by {
                if j > 0 {
                    assert(paths[j] == rest[j - 1]);
                }
            }
            assert(r =~= paths.remove(k + 1));
        } else {
            assert(!rest.contains(raw) && !(normalized is Some && rest.contains(normalized->Some_0))) by {
                if rest.contains(raw) {
                    let k = choose|k: int| 0 <= k < rest.len() && rest[k] == raw;
                    assert(paths[k + 1] == raw);
                }
                if normalized is Some && rest.contains(normalized->Some_0) {
                    let k = choose|k: int| 0 <= k < rest.len() && rest[k] == normalized->Some_0;
                    assert(paths[k + 1] == normalized->Some_0);
                }
            }
            assert(r =~= paths);
        }
    }
    if !paths.contains(raw) && !(normalized is Some && paths.contains(normalized->Some_0)) {
        assert(!hit(paths[0])) by {
            assert(paths.contains(paths[0]));
        }
    }
}

proof fn lemma_without_path_prefix(
    all: Seq<Seq<char>>,
    norm: Option<Seq<char>>,
    raw: Seq<char>,
    i: int,
)
    requires
        i == 0,
    ensures
        without_path(all, norm, raw) == all.take(i) + without_path(all.skip(i), norm, raw),
{
    assert(all.take(0) =~= Seq::<Seq<char>>::empty());
    assert(all.skip(0) =~= all);
    assert(all.take(0) + without_path(all, norm, raw) =~= without_path(all, norm, raw));
}

} // verus!
