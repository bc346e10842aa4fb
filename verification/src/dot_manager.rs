//! The decisions of the dotfile manager: which paths a sync adds or unlinks, the file
//! operations that link a path into the dotfolder or restore it, how duplicates are
//! resolved, and how the state of a managed path is reported.

use vstd::prelude::*;

use crate::args::DisableLinkArgs;
use crate::config::{texts, Config, DuplicateBehavior, OnDelinkBehavior};
use crate::path::{path_eq, path_eq_exec, with_bak_extension, with_bak_extension_exec};
use crate::text::{chars_of, str_eq, string_of};

verus! {

/// The managed paths as recorded by the last sync.
#[derive(Debug)]
pub struct CurrentState {
    pub paths: Vec<String>,
}

/// The configuration and the state recorded by the last sync.
#[derive(Debug)]
pub struct DotManager {
    pub config: Config,
    pub current_state: CurrentState,
}

/// Whether `v` holds a string with the text `s`.
fn contains_text(v: &Vec<String>, s: &String) -> (r: bool)
    ensures
        r == texts(v@).contains(s@),
{
    let mut i: usize = 0;
    while i < v.len()
        invariant
            i <= v.len(),
            forall|j: int| 0 <= j < i ==> v@[j]@ != s@,
        decreases v.len() - i,
    {
        if str_eq(v[i].as_str(), s.as_str()) {
            assert(texts(v@)[i as int] == s@);
            return true;
        }
        i = i + 1;
    }
    proof {
        if texts(v@).contains(s@) {
            let k = choose|k: int| 0 <= k < texts(v@).len() && texts(v@)[k] == s@;
            assert(v@[k]@ == s@);
        }
    }
    false
}

/// The paths of `from` that are not in `other`, each once, in the order of their
/// first occurrence in `from`.
#[verifier::spinoff_prover]
fn difference(from: &Vec<String>, other: &Vec<String>) -> (r: Vec<String>)
    ensures
        texts(r@).no_duplicates(),
        forall|x: Seq<char>| #[trigger]
            texts(r@).contains(x) <==> (texts(from@).contains(x) && !texts(other@).contains(x)),
{
    let mut r: Vec<String> = Vec::new();
    let mut i: usize = 0;
    while i < from.len()
        invariant
            i <= from.len(),
            texts(r@).no_duplicates(),
            forall|x: Seq<char>| #[trigger]
                texts(r@).contains(x) <==> (texts(from@.take(i as int)).contains(x)
                    && !texts(other@).contains(x)),
        decreases from.len() - i,
    {
        let s = &from[i];
        let ghost t0 = texts(from@.take(i as int));
        let ghost t1 = texts(from@.take(i + 1));
        proof {
            assert(t1 =~= t0.push(s@));
        }
        if !contains_text(other, s) && !contains_text(&r, s) {
            let ghost before = texts(r@);
            r.push(s.clone());
            proof {
                assert(texts(r@) =~= before.push(s@));
                assert forall|a: int, b: int|
                    0 <= a < b < texts(r@).len() implies texts(r@)[a] != texts(r@)[b] by {
                    if b == before.len() {
                        assert(before.contains(before[a]));
                    }
                }
                assert forall|x: Seq<char>| #[trigger]
                    texts(r@).contains(x) <==> (t1.contains(x) && !texts(other@).contains(x)) by {
                    if x == s@ {
                        assert(texts(r@)[before.len() as int] == x);
                        assert(t1[i as int] == x);
                    } else {
                        if texts(r@).contains(x) {
                            let k = choose|k: int| 0 <= k < texts(r@).len() && texts(r@)[k] == x;
                            assert(before[k] == x);
                            assert(before.contains(x));
                            let m = choose|m: int| 0 <= m < t0.len() && t0[m] == x;
                            assert(t1[m] == x);
                        }
                        if t1.contains(x) && !texts(other@).contains(x) {
                            let k = choose|k: int| 0 <= k < t1.len() && t1[k] == x;
                            assert(t0[k] == x);
                            assert(t0.contains(x));
                            assert(before.contains(x));
                            let m = choose|m: int| 0 <= m < before.len() && before[m] == x;
                            assert(texts(r@)[m] == x);
                        }
                    }
                }
            }
        } else {
            proof {
                assert forall|x: Seq<char>| #[trigger]
                    texts(r@).contains(x) <==> (texts(from@.take(i + 1)).contains(x)
                        && !texts(other@).contains(x)) by {
                    if texts(from@.take(i + 1)).contains(x) && x != s@ {
                        let k = choose|k: int| 0 <= k < t1.len() && t1[k] == x;
                        assert(t0[k] == x);
                    }
                    if texts(from@.take(i as int)).contains(x) {
                        let k = choose|k: int| 0 <= k < t0.len() && t0[k] == x;
                        assert(t1[k] == x);
                    }
                }
            }
        }
        i = i + 1;
    }
    proof {
        assert(from@.take(from.len() as int) =~= from@);
    }
    r
}

/// The paths recorded by the last sync that the configuration no longer names: they
/// are unlinked by the next sync. Each appears once; the order is that of the recorded
/// paths.
pub fn find_paths_to_removed(current_paths: &Vec<String>, config_paths: &Vec<String>) -> (r: Vec<
    String,
>)
    ensures
        texts(r@).no_duplicates(),
        forall|x: Seq<char>| #[trigger]
            texts(r@).contains(x) <==> (texts(current_paths@).contains(x) && !texts(
                config_paths@,
            ).contains(x)),
{
    difference(current_paths, config_paths)
}

/// The paths the configuration names that the last sync did not record: they are
/// linked by the next sync. Each appears once; the order is that of the configuration.
pub fn find_paths_to_be_added(current_paths: &Vec<String>, config_paths: &Vec<String>) -> (r: Vec<
    String,
>)
    ensures
        texts(r@).no_duplicates(),
        forall|x: Seq<char>| #[trigger]
            texts(r@).contains(x) <==> (texts(config_paths@).contains(x) && !texts(
                current_paths@,
            ).contains(x)),
{
    difference(config_paths, current_paths)
}

/// What a sync would change: the paths it would link and those it would unlink.
#[derive(Debug)]
pub struct StatusReport {
    pub added: Vec<String>,
    pub removed: Vec<String>,
}

impl DotManager {
    /// The paths the next sync would link (`added`) and unlink (`removed`).
    pub fn status(&self) -> (r: StatusReport)
        ensures
            texts(r.added@).no_duplicates(),
            texts(r.removed@).no_duplicates(),
            forall|x: Seq<char>| #[trigger]
                texts(r.added@).contains(x) <==> (texts(self.config.paths@).contains(x) && !texts(
                    self.current_state.paths@,
                ).contains(x)),
            forall|x: Seq<char>| #[trigger]
                texts(r.removed@).contains(x) <==> (texts(self.current_state.paths@).contains(x)
                    && !texts(self.config.paths@).contains(x)),
    {
        let removed = find_paths_to_removed(&self.current_state.paths, &self.config.paths);
        let added = find_paths_to_be_added(&self.current_state.paths, &self.config.paths);
        StatusReport { added, removed }
    }
}

/// A copy of a list of strings.
fn copy_strings(v: &Vec<String>) -> (r: Vec<String>)
    ensures
        r@ == v@,
{
    let mut r: Vec<String> = Vec::new();
    let mut i: usize = 0;
    while i < v.len()
        invariant
            i <= v.len(),
            r@ == v@.take(i as int),
        decreases v.len() - i,
    {
        r.push(v[i].clone());
        proof {
            assert(v@.take(i + 1) =~= v@.take(i as int).push(v@[i as int]));
        }
        i = i + 1;
    }
    proof {
        assert(v@.take(v.len() as int) =~= v@);
    }
    r
}

/// The paths to unlink and what to do with their dotfolder copies.
pub struct DelinkRequest {
    pub paths: Vec<String>,
    pub on_delink: OnDelinkBehavior,
}

impl DotManager {
    /// The paths that the next sync unlinks first: those recorded by the last sync that
    /// the configuration no longer names.
    pub fn paths_to_unlink(&self) -> (r: Vec<String>)
        ensures
            texts(r@).no_duplicates(),
            forall|x: Seq<char>| #[trigger]
                texts(r@).contains(x) <==> (texts(self.current_state.paths@).contains(x)
                    && !texts(self.config.paths@).contains(x)),
    {
        find_paths_to_removed(&self.current_state.paths, &self.config.paths)
    }

    /// What `disable-link` unlinks: with `all`, every managed path, keeping the
    /// dotfolder copies; otherwise the given paths, with the configured behavior.
    pub fn delink_request(&self, args: &DisableLinkArgs) -> (r: DelinkRequest)
        ensures
            args.all ==> r.paths@ == self.config.paths@ && r.on_delink == OnDelinkBehavior::Keep,
            !args.all ==> r.paths@ == args.paths@ && r.on_delink == self.config.defaults.on_delink,
    {
        if args.all {
            DelinkRequest { paths: copy_strings(&self.config.paths), on_delink: OnDelinkBehavior::Keep }
        } else {
            DelinkRequest { paths: copy_strings(&args.paths), on_delink: self.config.defaults.on_delink }
        }
    }
}

/// A file operation on a managed path (`home`) and its copy in the dotfolder (`dot`).
#[derive(PartialEq, Eq, Structural, Clone, Copy, Debug)]
pub enum FsStep {
    /// Delete the home path.
    DeleteHome,
    /// Delete the dotfolder copy.
    DeleteDot,
    /// Copy the home path into the dotfolder.
    CopyHomeToDot,
    /// Copy the dotfolder copy back to the home path.
    CopyDotToHome,
    /// Rename the home path to its backup (extension `bak`).
    BackupHome,
    /// Make the home path a symbolic link to the dotfolder copy.
    LinkHomeToDot,
}

/// Whether a failure of `step` stops the program (copies and backups) rather than
/// only the handling of the current path (deletions and links).
pub fn step_failure_is_fatal(step: FsStep) -> (r: bool)
    ensures
        r == (step == FsStep::CopyHomeToDot || step == FsStep::CopyDotToHome || step
            == FsStep::BackupHome),
{
    match step {
        FsStep::CopyHomeToDot | FsStep::CopyDotToHome | FsStep::BackupHome => true,
        _ => false,
    }
}

/// What is left to decide once the steps of a sync have run.
#[derive(PartialEq, Eq, Structural, Clone, Copy, Debug)]
pub enum LinkOutcome {
    /// The path is handled.
    Done,
    /// Both copies exist and the behavior is `Ask`: unless the home path already
    /// resolves to the dotfolder copy, the pair is kept for the user to choose.
    CheckDuplicate,
    /// Neither copy exists: a warning is printed.
    Missing,
}

/// The file operations that a sync performs on one managed path, in order; each
/// failure stops the handling of the path.
pub struct LinkPlan {
    pub steps: Vec<FsStep>,
    pub outcome: LinkOutcome,
}

/// The steps that follow from which copies exist.
pub open spec fn main_link_steps(behavior: DuplicateBehavior, home_exists: bool, dot_exists: bool) -> Seq<
    FsStep,
> {
    if home_exists && !dot_exists {
        seq![FsStep::CopyHomeToDot, FsStep::DeleteHome, FsStep::LinkHomeToDot]
    } else if !home_exists && dot_exists {
        seq![FsStep::LinkHomeToDot]
    } else if home_exists && dot_exists {
        match behavior {
            DuplicateBehavior::Ask => Seq::<FsStep>::empty(),
            DuplicateBehavior::OverwriteHome => seq![FsStep::DeleteHome, FsStep::LinkHomeToDot],
            DuplicateBehavior::OverwriteDotfile => seq![
                FsStep::DeleteDot,
                FsStep::CopyHomeToDot,
                FsStep::DeleteHome,
                FsStep::LinkHomeToDot,
            ],
            DuplicateBehavior::BackupHome => seq![FsStep::BackupHome, FsStep::LinkHomeToDot],
            DuplicateBehavior::Skip => Seq::<FsStep>::empty(),
        }
    } else {
        Seq::<FsStep>::empty()
    }
}

/// The steps of a sync on one path: a broken symbolic link at the home path is deleted
/// first, then the steps that follow from which copies exist.
pub open spec fn link_steps(
    behavior: DuplicateBehavior,
    home_is_symlink: bool,
    home_exists: bool,
    dot_exists: bool,
) -> Seq<FsStep> {
    (if home_is_symlink && !home_exists {
        seq![FsStep::DeleteHome]
    } else {
        Seq::<FsStep>::empty()
    }) + main_link_steps(behavior, home_exists, dot_exists)
}

/// What is left to decide after the steps of a sync on one path.
pub open spec fn link_outcome(behavior: DuplicateBehavior, home_exists: bool, dot_exists: bool) -> LinkOutcome {
    if home_exists && dot_exists && behavior == DuplicateBehavior::Ask {
        LinkOutcome::CheckDuplicate
    } else if !home_exists && !dot_exists {
        LinkOutcome::Missing
    } else {
        LinkOutcome::Done
    }
}

fn push_all(v: &mut Vec<FsStep>, steps: &[FsStep])
    ensures
        final(v)@ == old(v)@ + steps@,
{
    let mut i: usize = 0;
    let ghost start = v@;
    while i < steps.len()
        invariant
            i <= steps.len(),
            v@ == start + steps@.take(i as int),
        decreases steps.len() - i,
    {
        v.push(steps[i]);
        proof {
            assert(start + steps@.take(i + 1) =~= (start + steps@.take(i as int)).push(
                steps@[i as int],
            ));
        }
        i = i + 1;
    }
    proof {
        assert(steps@.take(steps.len() as int) =~= steps@);
    }
}

/// The plan of a sync for one managed path, from the duplicate behavior and what is on
/// disk: whether the home path is a symbolic link, whether it exists (a broken link
/// does not), and whether the dotfolder copy exists.
pub fn link_plan(behavior: DuplicateBehavior, home_is_symlink: bool, home_exists: bool, dot_exists: bool) -> (r: LinkPlan)
    ensures
        r.steps@ == link_steps(behavior, home_is_symlink, home_exists, dot_exists),
        r.outcome == link_outcome(behavior, home_exists, dot_exists),
{
    let mut steps: Vec<FsStep> = Vec::new();
    if home_is_symlink && !home_exists {
        steps.push(FsStep::DeleteHome);
    }
    let ghost pre = steps@;
    let outcome = if home_exists && !dot_exists {
        push_all(&mut steps, &[FsStep::CopyHomeToDot, FsStep::DeleteHome, FsStep::LinkHomeToDot]);
        LinkOutcome::Done
    } else if !home_exists && dot_exists {
        push_all(&mut steps, &[FsStep::LinkHomeToDot]);
        LinkOutcome::Done
    } else if home_exists && dot_exists {
        match behavior {
            DuplicateBehavior::Ask => LinkOutcome::CheckDuplicate,
            DuplicateBehavior::OverwriteHome => {
                push_all(&mut steps, &[FsStep::DeleteHome, FsStep::LinkHomeToDot]);
                LinkOutcome::Done
            },
            DuplicateBehavior::OverwriteDotfile => {
                push_all(
                    &mut steps,
                    &[
                        FsStep::DeleteDot,
                        FsStep::CopyHomeToDot,
                        FsStep::DeleteHome,
                        FsStep::LinkHomeToDot,
                    ],
                );
                LinkOutcome::Done
            },
            DuplicateBehavior::BackupHome => {
                push_all(&mut steps, &[FsStep::BackupHome, FsStep::LinkHomeToDot]);
                LinkOutcome::Done
            },
            DuplicateBehavior::Skip => LinkOutcome::Done,
        }
    } else {
        LinkOutcome::Missing
    };
    proof {
        assert(steps@ =~= link_steps(behavior, home_is_symlink, home_exists, dot_exists));
    }
    LinkPlan { steps, outcome }
}

/// Whether a path that a home path resolves to is the dotfolder copy (std's `Path`
/// equality).
pub fn resolves_to(resolved: &str, dot: &str) -> (r: bool)
    ensures
        r == path_eq(resolved@, dot@),
{
    let a = chars_of(resolved);
    let b = chars_of(dot);
    path_eq_exec(&a, &b)
}

/// Why unlinking leaves a path alone.
#[derive(PartialEq, Eq, Structural, Clone, Copy, Debug)]
pub enum DelinkSkip {
    /// The home path is not a symbolic link.
    NotSymlink,
    /// The dotfolder copy does not exist.
    MissingInDotfolder,
    /// The home path does not resolve to the dotfolder copy.
    NotLinkedToDotfolder,
}

impl DelinkSkip {
    /// The text printed after the path.
    pub open spec fn spec_reason(self) -> Seq<char> {
        match self {
            DelinkSkip::NotSymlink => " is not a symlink"@,
            DelinkSkip::MissingInDotfolder => " doesn't exist in dotfolder"@,
            DelinkSkip::NotLinkedToDotfolder => " is not a symlink to dotfolder"@,
        }
    }

    /// The text printed after the path.
    pub fn reason(&self) -> (r: String)
        ensures
            r@ == self.spec_reason(),
    {
        match self {
            DelinkSkip::NotSymlink => String::from_str(" is not a symlink"),
            DelinkSkip::MissingInDotfolder => String::from_str(" doesn't exist in dotfolder"),
            DelinkSkip::NotLinkedToDotfolder => String::from_str(" is not a symlink to dotfolder"),
        }
    }
}

/// The first checks of unlinking a path: the home path must be a symbolic link and
/// the dotfolder copy must exist. `None` means the checks pass.
pub fn delink_precheck(home_is_symlink: bool, dot_exists: bool) -> (r: Option<DelinkSkip>)
    ensures
        r == (if !home_is_symlink {
            Some(DelinkSkip::NotSymlink)
        } else if !dot_exists {
            Some(DelinkSkip::MissingInDotfolder)
        } else {
            None::<DelinkSkip>
        }),
{
    if !home_is_symlink {
        Some(DelinkSkip::NotSymlink)
    } else if !dot_exists {
        Some(DelinkSkip::MissingInDotfolder)
    } else {
        None
    }
}

/// The steps that unlinking performs on a path that passed the first checks.
pub open spec fn delink_steps_spec(resolves_to_dot: bool, on_delink: OnDelinkBehavior) -> Result<
    Seq<FsStep>,
    DelinkSkip,
> {
    if !resolves_to_dot {
        Err(DelinkSkip::NotLinkedToDotfolder)
    } else if on_delink == OnDelinkBehavior::Remove {
        Ok(seq![FsStep::DeleteHome, FsStep::CopyDotToHome, FsStep::DeleteDot])
    } else {
        Ok(seq![FsStep::DeleteHome, FsStep::CopyDotToHome])
    }
}

/// The file operations that unlink a path once it passed the first checks: the link
/// at the home path is replaced by a copy of the dotfolder copy, which is then deleted
/// when the behavior is `Remove`. A home path that does not resolve to the dotfolder
/// copy is left alone.
pub fn delink_steps(resolves_to_dot: bool, on_delink: OnDelinkBehavior) -> (r: Result<
    Vec<FsStep>,
    DelinkSkip,
>)
    ensures
        match (r, delink_steps_spec(resolves_to_dot, on_delink)) {
            (Ok(v), Ok(s)) => v@ == s,
            (Err(a), Err(b)) => a == b,
            _ => false,
        },
{
    if !resolves_to_dot {
        return Err(DelinkSkip::NotLinkedToDotfolder);
    }
    let mut steps: Vec<FsStep> = Vec::new();
    steps.push(FsStep::DeleteHome);
    steps.push(FsStep::CopyDotToHome);
    match on_delink {
        OnDelinkBehavior::Remove => steps.push(FsStep::DeleteDot),
        OnDelinkBehavior::Keep => {},
    }
    proof {
        match on_delink {
            OnDelinkBehavior::Remove => assert(steps@ =~= seq![
                FsStep::DeleteHome,
                FsStep::CopyDotToHome,
                FsStep::DeleteDot,
            ]),
            OnDelinkBehavior::Keep => assert(steps@ =~= seq![
                FsStep::DeleteHome,
                FsStep::CopyDotToHome,
            ]),
        }
    }
    Ok(steps)
}


/// Where `BackupHome` moves a home path: the path with its extension replaced by
/// `bak`.
pub fn backup_path(home: &str) -> (r: String)
    ensures
        r@ == with_bak_extension(home@),
{
    let p = chars_of(home);
    string_of(&with_bak_extension_exec(&p))
}

/// The duplicates whose home version the user keeps, from the choices made in a list
/// whose first entry is "Select All" followed by the `n` duplicates: all of them when
/// "Select All" is chosen, else the chosen entries' positions among the duplicates.
pub open spec fn chosen_duplicates(selected: Seq<usize>, n: nat) -> Seq<usize> {
    if selected.len() > 0 && selected[0] == 0 {
        Seq::new(n, |i: int| i as usize)
    } else {
        selected.map_values(|i: usize| (i - 1) as usize)
    }
}

/// The duplicates below `n` that are not chosen, in increasing order.
pub open spec fn unchosen_duplicates(chosen: Seq<usize>, n: nat) -> Seq<usize>
    decreases n,
{
    if n == 0 {
        Seq::<usize>::empty()
    } else {
        let r = unchosen_duplicates(chosen, (n - 1) as nat);
        if chosen.contains((n - 1) as usize) {
            r
        } else {
            r.push((n - 1) as usize)
        }
    }
}

/// The order in which duplicates are resolved: the chosen ones (their home version is
/// kept), then the others (their dotfolder version is kept).
pub open spec fn duplicate_order_spec(selected: Seq<usize>, n: nat) -> Seq<(usize, bool)> {
    let chosen = chosen_duplicates(selected, n);
    chosen.map_values(|i: usize| (i, true)) + unchosen_duplicates(chosen, n).map_values(
        |i: usize| (i, false),
    )
}

/// A choice list is well formed when every choice is an entry of the list ("Select
/// All" and `n` duplicates) and "Select All" can only come first.
pub open spec fn selection_ok(selected: Seq<usize>, n: nat) -> bool {
    &&& forall|k: int| 0 <= k < selected.len() ==> #[trigger] selected[k] <= n
    &&& forall|k: int| 0 < k < selected.len() ==> #[trigger] selected[k] != 0
}

fn contains_index(v: &Vec<usize>, x: usize) -> (r: bool)
    ensures
        r == v@.contains(x),
{
    let mut i: usize = 0;
    while i < v.len()
        invariant
            i <= v.len(),
            forall|j: int| 0 <= j < i ==> v@[j] != x,
        decreases v.len() - i,
    {
        if v[i] == x {
            return true;
        }
        i = i + 1;
    }
    false
}

/// How the `n` duplicates are resolved, given the entries chosen in the list whose
/// first entry is "Select All": pairs of a duplicate's position and whether its home
/// version is kept, in the order they are handled.
#[verifier::spinoff_prover]
pub fn duplicate_order(selected: &Vec<usize>, n: usize) -> (r: Vec<(usize, bool)>)
    requires
        selection_ok(selected@, n as nat),
    ensures
        r@ == duplicate_order_spec(selected@, n as nat),
{
    let mut chosen: Vec<usize> = Vec::new();
    if selected.len() > 0 && selected[0] == 0 {
        let mut i: usize = 0;
        while i < n
            invariant
                i <= n,
                chosen@ == Seq::new(i as nat, |k: int| k as usize),
            decreases n - i,
        {
            chosen.push(i);
            proof {
                assert(chosen@ =~= Seq::new((i + 1) as nat, |k: int| k as usize));
            }
            i = i + 1;
        }
    } else {
        let mut i: usize = 0;
        while i < selected.len()
            invariant
                i <= selected.len(),
                selection_ok(selected@, n as nat),
                selected.len() > 0 ==> selected@[0] != 0,
                chosen@ == selected@.take(i as int).map_values(|x: usize| (x - 1) as usize),
            decreases selected.len() - i,
        {
            assert(selected@[i as int] != 0);
            chosen.push(selected[i] - 1);
            proof {
                assert(selected@.take(i + 1).map_values(|x: usize| (x - 1) as usize) =~= selected@.take(
                    i as int,
                ).map_values(|x: usize| (x - 1) as usize).push((selected@[i as int] - 1) as usize));
            }
            i = i + 1;
        }
        proof {
            assert(selected@.take(selected.len() as int) =~= selected@);
        }
    }
    let ghost ch = chosen@;
    assert(ch == chosen_duplicates(selected@, n as nat));
    let mut r: Vec<(usize, bool)> = Vec::new();
    let mut i: usize = 0;
    while i < chosen.len()
        invariant
            i <= chosen.len(),
            ch == chosen@,
            r@ == ch.take(i as int).map_values(|x: usize| (x, true)),
        decreases chosen.len() - i,
    {
        r.push((chosen[i], true));
        proof {
            assert(ch.take(i + 1).map_values(|x: usize| (x, true)) =~= ch.take(i as int).map_values(
                |x: usize| (x, true),
            ).push((ch[i as int], true)));
        }
        i = i + 1;
    }
    proof {
        assert(ch.take(ch.len() as int) =~= ch);
    }
    let ghost first = r@;
    let mut j: usize = 0;
    while j < n
        invariant
            j <= n,
            ch == chosen@,
            r@ == first + unchosen_duplicates(ch, j as nat).map_values(|x: usize| (x, false)),
        decreases n - j,
    {
        let c = contains_index(&chosen, j);
        if !c {
            r.push((j, false));
        }
        proof {
            let u0 = unchosen_duplicates(ch, j as nat);
            assert(((j + 1) - 1) as usize == j);
            if !c {
                assert(u0.push(j).map_values(|x: usize| (x, false)) =~= u0.map_values(
                    |x: usize| (x, false),
                ).push((j, false)));
                assert(first + u0.map_values(|x: usize| (x, false)).push((j, false)) =~= (first
                    + u0.map_values(|x: usize| (x, false))).push((j, false)));
            }
        }
        j = j + 1;
    }
    r
}

/// The file operations that resolve one duplicate: keeping the home version replaces
/// the dotfolder copy with it and links; otherwise the home version is deleted and
/// linked to the dotfolder copy.
pub open spec fn duplicate_steps_spec(keep_home: bool) -> Seq<FsStep> {
    if keep_home {
        seq![FsStep::DeleteDot, FsStep::CopyHomeToDot, FsStep::DeleteHome, FsStep::LinkHomeToDot]
    } else {
        seq![FsStep::DeleteHome, FsStep::LinkHomeToDot]
    }
}

/// The file operations that resolve one duplicate.
pub fn duplicate_steps(keep_home: bool) -> (r: Vec<FsStep>)
    ensures
        r@ == duplicate_steps_spec(keep_home),
{
    let mut v: Vec<FsStep> = Vec::new();
    if keep_home {
        push_all(
            &mut v,
            &[FsStep::DeleteDot, FsStep::CopyHomeToDot, FsStep::DeleteHome, FsStep::LinkHomeToDot],
        );
    } else {
        push_all(&mut v, &[FsStep::DeleteHome, FsStep::LinkHomeToDot]);
    }
    proof {
        if keep_home {
            assert(v@ =~= duplicate_steps_spec(keep_home));
        } else {
            assert(v@ =~= duplicate_steps_spec(keep_home));
        }
    }
    v
}

/// The state of a managed path, as the check command reports it.
#[derive(PartialEq, Eq, Structural, Clone, Copy, Debug)]
pub enum LinkStatus {
    /// The home path is a link that resolves to the dotfolder copy.
    Linked,
    /// The home path is a link that resolves elsewhere.
    WrongTarget,
    /// The home path is a link that does not resolve.
    BrokenLink,
    /// Both exist and only one of them is a directory.
    TypeMismatch,
    /// Both exist, not linked.
    Disabled,
    /// Only one of them exists.
    Unlinked,
    /// Neither exists.
    BothMissing,
}

/// The color in which a status label is printed.
#[derive(PartialEq, Eq, Structural, Clone, Copy, Debug)]
pub enum StatusColor {
    Green,
    Red,
    Yellow,
    Blue,
    Grey,
}

impl LinkStatus {
    /// The label printed for the status.
    pub open spec fn spec_label(self) -> Seq<char> {
        match self {
            LinkStatus::Linked => "[LINKED]"@,
            LinkStatus::WrongTarget => "[WRONG-TGT]"@,
            LinkStatus::BrokenLink => "[BROKEN-LNK]"@,
            LinkStatus::TypeMismatch => "[TYPE-MISM]"@,
            LinkStatus::Disabled => "[DISABLED]"@,
            LinkStatus::Unlinked => "[UNLINKED]"@,
            LinkStatus::BothMissing => "[BOTH-MISS]"@,
        }
    }

    /// The label printed for the status.
    pub fn label(&self) -> (r: String)
        ensures
            r@ == self.spec_label(),
    {
        match self {
            LinkStatus::Linked => String::from_str("[LINKED]"),
            LinkStatus::WrongTarget => String::from_str("[WRONG-TGT]"),
            LinkStatus::BrokenLink => String::from_str("[BROKEN-LNK]"),
            LinkStatus::TypeMismatch => String::from_str("[TYPE-MISM]"),
            LinkStatus::Disabled => String::from_str("[DISABLED]"),
            LinkStatus::Unlinked => String::from_str("[UNLINKED]"),
            LinkStatus::BothMissing => String::from_str("[BOTH-MISS]"),
        }
    }

    /// The color of the label: green when linked, red for a wrong or broken link,
    /// yellow for a type mismatch or an unlinked path, blue when disabled, grey when
    /// both are missing.
    pub fn color(&self) -> (r: StatusColor)
        ensures
            r == (match self {
                LinkStatus::Linked => StatusColor::Green,
                LinkStatus::WrongTarget | LinkStatus::BrokenLink => StatusColor::Red,
                LinkStatus::TypeMismatch | LinkStatus::Unlinked => StatusColor::Yellow,
                LinkStatus::Disabled => StatusColor::Blue,
                LinkStatus::BothMissing => StatusColor::Grey,
            }),
    {
        match self {
            LinkStatus::Linked => StatusColor::Green,
            LinkStatus::WrongTarget | LinkStatus::BrokenLink => StatusColor::Red,
            LinkStatus::TypeMismatch | LinkStatus::Unlinked => StatusColor::Yellow,
            LinkStatus::Disabled => StatusColor::Blue,
            LinkStatus::BothMissing => StatusColor::Grey,
        }
    }
}

/// What the disk says about a managed path and its dotfolder copy.
pub struct PathFacts {
    /// The home path is a symbolic link.
    pub home_is_symlink: bool,
    /// What the home path resolves to, when it resolves.
    pub resolved: Option<String>,
    pub home_exists: bool,
    pub dot_exists: bool,
    pub home_is_dir: bool,
    pub dot_is_dir: bool,
}

/// The status of a managed path whose dotfolder copy is `dot`.
pub open spec fn link_status(facts: PathFacts, dot: Seq<char>) -> LinkStatus {
    if facts.home_is_symlink {
        match facts.resolved {
            Some(target) => if path_eq(target@, dot) {
                LinkStatus::Linked
            } else {
                LinkStatus::WrongTarget
            },
            None => LinkStatus::BrokenLink,
        }
    } else if facts.dot_exists && facts.home_exists {
        if facts.dot_is_dir != facts.home_is_dir {
            LinkStatus::TypeMismatch
        } else {
            LinkStatus::Disabled
        }
    } else if facts.dot_exists || facts.home_exists {
        LinkStatus::Unlinked
    } else {
        LinkStatus::BothMissing
    }
}

/// The status of a managed path whose dotfolder copy is `dot`: for a link, whether it
/// resolves to the dotfolder copy; otherwise which of the two exist and whether they
/// are of the same kind.
pub fn classify_link(facts: &PathFacts, dot: &str) -> (r: LinkStatus)
    ensures
        r == link_status(*facts, dot@),
{
    if facts.home_is_symlink {
        match &facts.resolved {
            Some(target) => if resolves_to(target.as_str(), dot) {
                LinkStatus::Linked
            } else {
                LinkStatus::WrongTarget
            },
            None => LinkStatus::BrokenLink,
        }
    } else if facts.dot_exists && facts.home_exists {
        if facts.dot_is_dir != facts.home_is_dir {
            LinkStatus::TypeMismatch
        } else {
            LinkStatus::Disabled
        }
    } else if facts.dot_exists || facts.home_exists {
        LinkStatus::Unlinked
    } else {
        LinkStatus::BothMissing
    }
}


/// A sync never loses the home version of a file unless told to: every deletion of the
/// home path removes a broken link, follows a copy of it into the dotfolder, or comes
/// from the `OverwriteHome` behavior; the dotfolder copy is deleted only to be replaced
/// at once by the home version; the home path is linked only to a dotfolder copy that
/// exists or was just made; and whatever a sync does to a path it ends by linking it.
#[verifier::spinoff_prover]
pub proof fn law_sync_keeps_data(
    behavior: DuplicateBehavior,
    home_is_symlink: bool,
    home_exists: bool,
    dot_exists: bool,
)
    ensures
        ({
            let s = link_steps(behavior, home_is_symlink, home_exists, dot_exists);
            &&& forall|i: int|
                0 <= i < s.len() && #[trigger] s[i] == FsStep::DeleteHome ==> (i == 0
                    && home_is_symlink && !home_exists) || behavior == DuplicateBehavior::OverwriteHome
                    || (exists|j: int| 0 <= j < i && s[j] == FsStep::CopyHomeToDot)
            &&& forall|i: int|
                0 <= i < s.len() && #[trigger] s[i] == FsStep::DeleteDot ==> i + 1 < s.len() && s[i
                    + 1] == FsStep::CopyHomeToDot
            &&& forall|i: int|
                0 <= i < s.len() && #[trigger] s[i] == FsStep::LinkHomeToDot ==> dot_exists || (exists|
                    j: int,
                | 0 <= j < i && s[j] == FsStep::CopyHomeToDot)
            &&& main_link_steps(behavior, home_exists, dot_exists).len() > 0 ==> s.len() > 0
                && s.last() == FsStep::LinkHomeToDot
        }),
{
    let s = link_steps(behavior, home_is_symlink, home_exists, dot_exists);
    let pre = if home_is_symlink && !home_exists {
        seq![FsStep::DeleteHome]
    } else {
        Seq::<FsStep>::empty()
    };
    let m = main_link_steps(behavior, home_exists, dot_exists);
    assert(s == pre + m);
    if home_is_symlink && !home_exists {
        assert(!home_exists);
        if dot_exists {
            assert(s =~= seq![FsStep::DeleteHome, FsStep::LinkHomeToDot]);
        } else {
            assert(s =~= seq![FsStep::DeleteHome]);
        }
    } else {
        assert(s =~= m);
        if home_exists && !dot_exists {
            assert(s[0] == FsStep::CopyHomeToDot);
        } else if home_exists && dot_exists && behavior == DuplicateBehavior::OverwriteDotfile {
            assert(s[1] == FsStep::CopyHomeToDot);
        }
    }
}

/// What a sync does when the home path exists and is not a broken link: with no
/// dotfolder copy, it copies the home path into the dotfolder, deletes it and links
/// it; with a dotfolder copy, `Ask` and `Skip` do nothing, `OverwriteHome` deletes the
/// home path and links it, `OverwriteDotfile` replaces the dotfolder copy with the
/// home version and links, `BackupHome` moves the home path aside and links. Every
/// behavior but `Ask` and `Skip` ends by linking the home path.
pub proof fn law_sync_on_existing_home(behavior: DuplicateBehavior, home_is_symlink: bool, dot_exists: bool)
    ensures
        ({
            let s = link_steps(behavior, home_is_symlink, true, dot_exists);
            &&& !dot_exists ==> s == seq![FsStep::CopyHomeToDot, FsStep::DeleteHome, FsStep::LinkHomeToDot]
            &&& dot_exists && behavior == DuplicateBehavior::OverwriteHome ==> s == seq![
                FsStep::DeleteHome,
                FsStep::LinkHomeToDot,
            ]
            &&& dot_exists && behavior == DuplicateBehavior::OverwriteDotfile ==> s == seq![
                FsStep::DeleteDot,
                FsStep::CopyHomeToDot,
                FsStep::DeleteHome,
                FsStep::LinkHomeToDot,
            ]
            &&& dot_exists && behavior == DuplicateBehavior::BackupHome ==> s == seq![
                FsStep::BackupHome,
                FsStep::LinkHomeToDot,
            ]
            &&& dot_exists ==> ((s.len() == 0) <==> (behavior == DuplicateBehavior::Ask || behavior
                == DuplicateBehavior::Skip))
            &&& s.len() > 0 ==> s.last() == FsStep::LinkHomeToDot
            &&& link_outcome(behavior, true, dot_exists) == (if dot_exists && behavior
                == DuplicateBehavior::Ask {
                LinkOutcome::CheckDuplicate
            } else {
                LinkOutcome::Done
            })
        }),
{
    let s = link_steps(behavior, home_is_symlink, true, dot_exists);
    assert(s == Seq::<FsStep>::empty() + main_link_steps(behavior, true, dot_exists));
    assert(s =~= main_link_steps(behavior, true, dot_exists));
}

/// What a sync does when the home path is missing: a broken link there is deleted
/// first; then the home path is linked to the dotfolder copy when that exists, and
/// nothing more is done (a warning) when it does not.
pub proof fn law_sync_on_missing_home(behavior: DuplicateBehavior, home_is_symlink: bool, dot_exists: bool)
    ensures
        ({
            let s = link_steps(behavior, home_is_symlink, false, dot_exists);
            let pre = if home_is_symlink {
                seq![FsStep::DeleteHome]
            } else {
                Seq::<FsStep>::empty()
            };
            &&& dot_exists ==> s == pre.push(FsStep::LinkHomeToDot)
            &&& !dot_exists ==> s == pre
            &&& link_outcome(behavior, false, dot_exists) == (if dot_exists {
                LinkOutcome::Done
            } else {
                LinkOutcome::Missing
            })
        }),
{
    let s = link_steps(behavior, home_is_symlink, false, dot_exists);
    let pre = if home_is_symlink {
        seq![FsStep::DeleteHome]
    } else {
        Seq::<FsStep>::empty()
    };
    assert(s == pre + main_link_steps(behavior, false, dot_exists));
    if dot_exists {
        assert(s =~= pre.push(FsStep::LinkHomeToDot));
    } else {
        assert(s =~= pre);
    }
}

/// What the check reports: a link is `Linked` exactly when it resolves to the
/// dotfolder copy, `WrongTarget` when it resolves elsewhere, `BrokenLink` when it does
/// not resolve; a path that is not a link and exists in exactly one of the two places
/// is `Unlinked`; `BothMissing` is reported exactly when it is not a link and neither
/// exists; when both exist it is `TypeMismatch` exactly when one is a directory and
/// the other is not, else `Disabled`.
pub proof fn law_check_status(facts: PathFacts, dot: Seq<char>)
    ensures
        (link_status(facts, dot) == LinkStatus::Linked) <==> (facts.home_is_symlink
            && facts.resolved is Some && path_eq(facts.resolved->Some_0@, dot)),
        (link_status(facts, dot) == LinkStatus::WrongTarget) <==> (facts.home_is_symlink
            && facts.resolved is Some && !path_eq(facts.resolved->Some_0@, dot)),
        (link_status(facts, dot) == LinkStatus::BrokenLink) <==> (facts.home_is_symlink
            && facts.resolved is None),
        (link_status(facts, dot) == LinkStatus::Unlinked) <==> (!facts.home_is_symlink
            && facts.home_exists != facts.dot_exists),
        (link_status(facts, dot) == LinkStatus::BothMissing) <==> (!facts.home_is_symlink
            && !facts.home_exists && !facts.dot_exists),
        (link_status(facts, dot) == LinkStatus::TypeMismatch) <==> (!facts.home_is_symlink
            && facts.home_exists && facts.dot_exists && facts.home_is_dir != facts.dot_is_dir),
        (link_status(facts, dot) == LinkStatus::Disabled) <==> (!facts.home_is_symlink
            && facts.home_exists && facts.dot_exists && facts.home_is_dir == facts.dot_is_dir),
{
}

/// Unlinking touches only a link to the dotfolder copy: whatever the behavior, a home
/// path that does not resolve to its dotfolder copy is left alone (`NotLinkedToDotfolder`),
/// and one that does is replaced by a copy of the dotfolder copy, which is then removed
/// exactly under `Remove`.
pub proof fn law_delink_only_links_to_dotfolder(resolves_to_dot: bool, on_delink: OnDelinkBehavior)
    ensures
        !resolves_to_dot ==> delink_steps_spec(resolves_to_dot, on_delink) == Err::<
            Seq<FsStep>,
            DelinkSkip,
        >(DelinkSkip::NotLinkedToDotfolder),
        resolves_to_dot ==> delink_steps_spec(resolves_to_dot, on_delink) == Ok::<
            Seq<FsStep>,
            DelinkSkip,
        >(
            if on_delink == OnDelinkBehavior::Remove {
                seq![FsStep::DeleteHome, FsStep::CopyDotToHome, FsStep::DeleteDot]
            } else {
                seq![FsStep::DeleteHome, FsStep::CopyDotToHome]
            },
        ),
{
}

/// Unlinking never loses the file: the link is replaced by a copy of the dotfolder
/// copy, and the dotfolder copy is deleted only after that copy back.
pub proof fn law_delink_restores_before_removing(resolves_to_dot: bool, on_delink: OnDelinkBehavior)
    ensures
        delink_steps_spec(resolves_to_dot, on_delink) matches Ok(s) ==> {
            &&& s.len() >= 2
            &&& s[0] == FsStep::DeleteHome
            &&& s[1] == FsStep::CopyDotToHome
            &&& forall|i: int|
                0 <= i < s.len() && #[trigger] s[i] == FsStep::DeleteDot ==> (exists|j: int|
                    0 <= j < i && s[j] == FsStep::CopyDotToHome)
            &&& (exists|i: int| 0 <= i < s.len() && s[i] == FsStep::DeleteDot) <==> on_delink
                == OnDelinkBehavior::Remove
        },
{
    if resolves_to_dot {
        let s = delink_steps_spec(resolves_to_dot, on_delink)->Ok_0;
        if on_delink == OnDelinkBehavior::Remove {
            assert(s[2] == FsStep::DeleteDot);
        }
    }
}

/// Choosing "Select All" keeps the home version of every duplicate; choosing nothing
/// keeps the dotfolder version of every duplicate; either way they are handled in
/// their order.
pub proof fn law_select_all_or_nothing(selected: Seq<usize>, n: nat)
    requires
        n <= usize::MAX,
        selection_ok(selected, n),
    ensures
        selected.len() > 0 && selected[0] == 0 ==> duplicate_order_spec(selected, n) == Seq::new(
            n,
            |i: int| (i as usize, true),
        ),
        selected.len() == 0 ==> duplicate_order_spec(selected, n) == Seq::new(
            n,
            |i: int| (i as usize, false),
        ),
{
    let chosen = chosen_duplicates(selected, n);
    lemma_unchosen(chosen, n);
    if selected.len() > 0 && selected[0] == 0 {
        lemma_unchosen_all(n);
        assert(unchosen_duplicates(chosen, n).len() == 0);
        assert(duplicate_order_spec(selected, n) =~= Seq::new(n, |i: int| (i as usize, true)));
    }
    if selected.len() == 0 {
        lemma_unchosen_none(chosen, n);
        assert(duplicate_order_spec(selected, n) =~= Seq::new(n, |i: int| (i as usize, false)));
    }
}

proof fn lemma_unchosen_all(n: nat)
    requires
        n <= usize::MAX,
    ensures
        unchosen_duplicates(Seq::new(n, |i: int| i as usize), n).len() == 0,
{
    let all = Seq::new(n, |i: int| i as usize);
    lemma_unchosen_all_upto(all, n, n);
}

proof fn lemma_unchosen_all_upto(all: Seq<usize>, n: nat, m: nat)
    requires
        n <= usize::MAX,
        m <= n,
        all == Seq::new(n, |i: int| i as usize),
    ensures
        unchosen_duplicates(all, m).len() == 0,
    decreases m,
{
    if m > 0 {
        lemma_unchosen_all_upto(all, n, (m - 1) as nat);
        assert(all[m - 1] == (m - 1) as usize);
        assert(all.contains((m - 1) as usize));
    }
}

proof fn lemma_unchosen_none(chosen: Seq<usize>, n: nat)
    requires
        chosen.len() == 0,
        n <= usize::MAX,
    ensures
        unchosen_duplicates(chosen, n) == Seq::new(n, |i: int| i as usize),
    decreases n,
{
    if n > 0 {
        lemma_unchosen_none(chosen, (n - 1) as nat);
        assert(!chosen.contains((n - 1) as usize));
        assert(Seq::new((n - 1) as nat, |i: int| i as usize).push((n - 1) as usize) =~= Seq::new(
            n,
            |i: int| i as usize,
        ));
    } else {
        assert(unchosen_duplicates(chosen, 0) =~= Seq::new(0, |i: int| i as usize));
    }
}

/// Without "Select All", the home version of a duplicate is kept exactly when the
/// entry showing it (one place after it, behind "Select All") was chosen.
pub proof fn law_duplicate_choice(selected: Seq<usize>, n: nat)
    requires
        n <= usize::MAX,
        selection_ok(selected, n),
        selected.len() > 0 ==> selected[0] != 0,
    ensures
        forall|k: int|
            0 <= k < duplicate_order_spec(selected, n).len() ==> (#[trigger] duplicate_order_spec(
                selected,
                n,
            )[k].1 <==> selected.contains((duplicate_order_spec(selected, n)[k].0 + 1) as usize)),
{
    let chosen = chosen_duplicates(selected, n);
    let order = duplicate_order_spec(selected, n);
    law_duplicates_handled_once_keep(selected, n);
    assert forall|k: int| 0 <= k < order.len() implies (#[trigger] order[k].1 <==> selected.contains(
        (order[k].0 + 1) as usize,
    )) by {
        let i = order[k].0;
        lemma_unchosen(chosen, n);
        let u = unchosen_duplicates(chosen, n);
        let left = chosen.map_values(|x: usize| (x, true));
        let right = u.map_values(|x: usize| (x, false));
        assert(order == left + right);
        assert(i < n) by {
            if k < left.len() {
                assert(order[k] == left[k]);
                assert(selected[k] != 0);
            } else {
                assert(order[k] == right[k - left.len()]);
            }
        }
        if chosen.contains(i) {
            let j = choose|j: int| 0 <= j < chosen.len() && chosen[j] == i;
            assert(selected[j] != 0);
            assert(selected[j] == (i + 1) as usize);
        }
        if selected.contains((i + 1) as usize) {
            let j = choose|j: int| 0 <= j < selected.len() && selected[j] == (i + 1) as usize;
            assert(chosen[j] == i);
        }
    }
}

proof fn law_duplicates_handled_once_keep(selected: Seq<usize>, n: nat)
    requires
        n <= usize::MAX,
        selection_ok(selected, n),
    ensures
        forall|k: int|
            0 <= k < duplicate_order_spec(selected, n).len() ==> (#[trigger] duplicate_order_spec(
                selected,
                n,
            )[k].1 <==> chosen_duplicates(selected, n).contains(duplicate_order_spec(selected, n)[k].0)),
{
    let chosen = chosen_duplicates(selected, n);
    lemma_unchosen(chosen, n);
    let u = unchosen_duplicates(chosen, n);
    let order = duplicate_order_spec(selected, n);
    let left = chosen.map_values(|i: usize| (i, true));
    let right = u.map_values(|i: usize| (i, false));
    assert(order == left + right);
    assert forall|k: int| 0 <= k < order.len() implies (#[trigger] order[k].1 <==> chosen.contains(order[k].0)) by {
        if k < left.len() {
            assert(order[k] == left[k]);
            assert(chosen.contains(chosen[k]));
        } else {
            assert(order[k] == right[k - left.len()]);
        }
    }
}

/// The positions below `n` that are not chosen: each once, increasing, none of them
/// chosen, and every position that is not chosen is among them.
proof fn lemma_unchosen(chosen: Seq<usize>, n: nat)
    requires
        n <= usize::MAX + 1,
    ensures
        ({
            let u = unchosen_duplicates(chosen, n);
            &&& forall|k: int| 0 <= k < u.len() ==> #[trigger] u[k] < n && !chosen.contains(u[k])
            &&& forall|a: int, b: int| 0 <= a < b < u.len() ==> #[trigger] u[a] < #[trigger] u[b]
            &&& forall|i: usize| i < n && !chosen.contains(i) ==> #[trigger] u.contains(i)
        }),
    decreases n,
{
    if n > 0 {
        lemma_unchosen(chosen, (n - 1) as nat);
        let r = unchosen_duplicates(chosen, (n - 1) as nat);
        let u = unchosen_duplicates(chosen, n);
        let last = (n - 1) as usize;
        if !chosen.contains(last) {
            assert(u == r.push(last));
            assert forall|i: usize| i < n && !chosen.contains(i) implies #[trigger] u.contains(i) by {
                if i == last {
                    assert(u[r.len() as int] == i);
                } else {
                    assert(r.contains(i));
                    let k = choose|k: int| 0 <= k < r.len() && r[k] == i;
                    assert(u[k] == i);
                }
            }
        } else {
            assert forall|i: usize| i < n && !chosen.contains(i) implies #[trigger] u.contains(i) by {
                assert(i != last);
                assert(r.contains(i));
            }
        }
    }
}

/// Position `i` is handled somewhere in `order`.
pub open spec fn handled(order: Seq<(usize, bool)>, i: usize) -> bool {
    exists|k: int| 0 <= k < order.len() && order[k].0 == i
}

/// Resolving duplicates handles each of them exactly once: with a well formed choice
/// list whose entries increase (as a multi-selection prompt gives them), the positions
/// in the order are all below `n`, none is repeated, and none is missing; a position's
/// home version is kept exactly when it was chosen.
#[verifier::spinoff_prover]
pub proof fn law_duplicates_handled_once(selected: Seq<usize>, n: nat)
    requires
        n <= usize::MAX,
        selection_ok(selected, n),
        forall|a: int, b: int| 0 <= a < b < selected.len() ==> #[trigger] selected[a] < #[trigger] selected[b],
    ensures
        ({
            let order = duplicate_order_spec(selected, n);
            &&& forall|k: int| 0 <= k < order.len() ==> #[trigger] order[k].0 < n
            &&& forall|a: int, b: int|
                0 <= a < b < order.len() ==> #[trigger] order[a].0 != #[trigger] order[b].0
            &&& forall|i: usize| i < n ==> #[trigger] handled(order, i)
            &&& forall|k: int|
                0 <= k < order.len() ==> (#[trigger] order[k].1 <==> chosen_duplicates(selected, n).contains(
                    order[k].0,
                ))
        }),
{
    let chosen = chosen_duplicates(selected, n);
    lemma_unchosen(chosen, n);
    let u = unchosen_duplicates(chosen, n);
    let order = duplicate_order_spec(selected, n);
    let left = chosen.map_values(|i: usize| (i, true));
    let right = u.map_values(|i: usize| (i, false));
    assert(order == left + right);
    // the chosen positions are below `n` and increase
    assert(forall|k: int| 0 <= k < chosen.len() ==> #[trigger] chosen[k] < n);
    assert(forall|a: int, b: int| 0 <= a < b < chosen.len() ==> #[trigger] chosen[a] < #[trigger] chosen[b]);
    assert forall|k: int| 0 <= k < order.len() implies #[trigger] order[k].0 < n by {
        if k < left.len() {
            assert(order[k] == left[k]);
        } else {
            assert(order[k] == right[k - left.len()]);
        }
    }
    assert forall|a: int, b: int| 0 <= a < b < order.len() implies #[trigger] order[a].0 != #[trigger] order[b].0 by {
        if b < left.len() {
            assert(order[a] == left[a] && order[b] == left[b]);
        } else if a >= left.len() {
            assert(order[a] == right[a - left.len()] && order[b] == right[b - left.len()]);
        } else {
            assert(order[a] == left[a] && order[b] == right[b - left.len()]);
            assert(chosen.contains(chosen[a]));
        }
    }
    assert forall|i: usize| i < n implies #[trigger] handled(order, i) by {
        if chosen.contains(i) {
            let k = choose|k: int| 0 <= k < chosen.len() && chosen[k] == i;
            assert(order[k] == left[k]);
        } else {
            assert(u.contains(i));
            let k = choose|k: int| 0 <= k < u.len() && u[k] == i;
            assert(order[left.len() + k] == right[k]);
        }
    }
    assert forall|k: int| 0 <= k < order.len() implies (#[trigger] order[k].1 <==> chosen.contains(order[k].0)) by {
        if k < left.len() {
            assert(order[k] == left[k]);
        } else {
            assert(order[k] == right[k - left.len()]);
        }
    }
}

} // verus!
