use lazydot::args::DisableLinkArgs;
use lazydot::config::{Config, Defaults, DuplicateBehavior, OnDelinkBehavior};
use lazydot::dot_manager::{
    backup_path, classify_link, delink_precheck, delink_steps, duplicate_order, duplicate_steps,
    find_paths_to_be_added, find_paths_to_removed, link_plan, resolves_to, step_failure_is_fatal,
    CurrentState, DelinkSkip, DotManager, FsStep, LinkOutcome, LinkStatus, PathFacts,
    StatusColor,
};

fn strings(v: &[&str]) -> Vec<String> {
    v.iter().map(|s| s.to_string()).collect()
}

fn manager(current: &[&str], configured: &[&str]) -> DotManager {
    DotManager {
        config: Config {
            defaults: Defaults {
                on_duplicate: DuplicateBehavior::Ask,
                on_delink: OnDelinkBehavior::Remove,
            },
            dotfolder_path: "~/.dotfiles".to_string(),
            paths: strings(configured),
        },
        current_state: CurrentState { paths: strings(current) },
    }
}

#[test]
fn differences_of_path_lists() {
    let current = strings(&["~/a", "~/b", "~/a", "~/c"]);
    let configured = strings(&["~/b", "~/d", "~/d"]);
    assert_eq!(find_paths_to_removed(&current, &configured), strings(&["~/a", "~/c"]));
    assert_eq!(find_paths_to_be_added(&current, &configured), strings(&["~/d"]));
}

#[test]
fn status_lists_added_and_removed() {
    let m = manager(&["~/old", "~/kept"], &["~/kept", "~/new"]);
    let report = m.status();
    assert_eq!(report.added, strings(&["~/new"]));
    assert_eq!(report.removed, strings(&["~/old"]));
    assert_eq!(m.paths_to_unlink(), strings(&["~/old"]));
}

#[test]
fn delink_request_all_keeps_dotfiles() {
    let m = manager(&[], &["~/a", "~/b"]);
    let all = m.delink_request(&DisableLinkArgs { all: true, paths: vec![] });
    assert_eq!(all.paths, strings(&["~/a", "~/b"]));
    assert_eq!(all.on_delink, OnDelinkBehavior::Keep);
    let some = m.delink_request(&DisableLinkArgs { all: false, paths: strings(&["~/b"]) });
    assert_eq!(some.paths, strings(&["~/b"]));
    assert_eq!(some.on_delink, OnDelinkBehavior::Remove);
}

#[test]
fn link_plans_by_state() {
    let p = link_plan(DuplicateBehavior::Ask, false, true, false);
    assert_eq!(p.steps, vec![FsStep::CopyHomeToDot, FsStep::DeleteHome, FsStep::LinkHomeToDot]);
    assert_eq!(p.outcome, LinkOutcome::Done);
    let p = link_plan(DuplicateBehavior::Ask, true, false, true);
    assert_eq!(p.steps, vec![FsStep::DeleteHome, FsStep::LinkHomeToDot]);
    let p = link_plan(DuplicateBehavior::Ask, false, true, true);
    assert_eq!(p.steps, vec![]);
    assert_eq!(p.outcome, LinkOutcome::CheckDuplicate);
    let p = link_plan(DuplicateBehavior::OverwriteDotfile, false, true, true);
    assert_eq!(p.steps, vec![FsStep::DeleteDot, FsStep::CopyHomeToDot, FsStep::DeleteHome, FsStep::LinkHomeToDot]);
    let p = link_plan(DuplicateBehavior::BackupHome, false, true, true);
    assert_eq!(p.steps, vec![FsStep::BackupHome, FsStep::LinkHomeToDot]);
    let p = link_plan(DuplicateBehavior::Skip, false, true, true);
    assert_eq!(p.steps, vec![]);
    assert_eq!(p.outcome, LinkOutcome::Done);
    let p = link_plan(DuplicateBehavior::OverwriteHome, false, false, false);
    assert_eq!(p.steps, vec![]);
    assert_eq!(p.outcome, LinkOutcome::Missing);
}

#[test]
fn fatal_steps_are_copies_and_backups() {
    assert!(step_failure_is_fatal(FsStep::CopyHomeToDot));
    assert!(step_failure_is_fatal(FsStep::CopyDotToHome));
    assert!(step_failure_is_fatal(FsStep::BackupHome));
    assert!(!step_failure_is_fatal(FsStep::DeleteHome));
    assert!(!step_failure_is_fatal(FsStep::LinkHomeToDot));
}

#[test]
fn delink_checks_and_steps() {
    assert_eq!(delink_precheck(false, true), Some(DelinkSkip::NotSymlink));
    assert_eq!(delink_precheck(true, false), Some(DelinkSkip::MissingInDotfolder));
    assert_eq!(delink_precheck(true, true), None);
    assert_eq!(delink_steps(false, OnDelinkBehavior::Remove), Err(DelinkSkip::NotLinkedToDotfolder));
    assert_eq!(
        delink_steps(true, OnDelinkBehavior::Remove),
        Ok(vec![FsStep::DeleteHome, FsStep::CopyDotToHome, FsStep::DeleteDot])
    );
    assert_eq!(
        delink_steps(true, OnDelinkBehavior::Keep),
        Ok(vec![FsStep::DeleteHome, FsStep::CopyDotToHome])
    );
    assert_eq!(DelinkSkip::NotLinkedToDotfolder.reason(), " is not a symlink to dotfolder");
}

#[test]
fn duplicates_resolved_in_order() {
    assert_eq!(duplicate_order(&vec![0], 3), vec![(0, true), (1, true), (2, true)]);
    assert_eq!(duplicate_order(&vec![], 2), vec![(0, false), (1, false)]);
    assert_eq!(duplicate_order(&vec![2], 3), vec![(1, true), (0, false), (2, false)]);
    assert_eq!(duplicate_steps(true), vec![FsStep::DeleteDot, FsStep::CopyHomeToDot, FsStep::DeleteHome, FsStep::LinkHomeToDot]);
    assert_eq!(duplicate_steps(false), vec![FsStep::DeleteHome, FsStep::LinkHomeToDot]);
}

#[test]
fn backup_paths() {
    assert_eq!(backup_path("/home/u/.bashrc"), "/home/u/.bashrc.bak");
    assert_eq!(backup_path("/home/u/a.conf"), "/home/u/a.bak");
    assert_eq!(backup_path("/home/u/dir/"), "/home/u/dir.bak");
}

#[test]
fn check_statuses() {
    let facts = |sym: bool, resolved: Option<&str>, he: bool, de: bool, hd: bool, dd: bool| PathFacts {
        home_is_symlink: sym,
        resolved: resolved.map(|s| s.to_string()),
        home_exists: he,
        dot_exists: de,
        home_is_dir: hd,
        dot_is_dir: dd,
    };
    let dot = "/home/u/.dotfiles/a";
    assert_eq!(classify_link(&facts(true, Some("/home/u/.dotfiles//a/"), true, true, false, false), dot), LinkStatus::Linked);
    assert_eq!(classify_link(&facts(true, Some("/elsewhere"), true, true, false, false), dot), LinkStatus::WrongTarget);
    assert_eq!(classify_link(&facts(true, None, false, true, false, false), dot), LinkStatus::BrokenLink);
    assert_eq!(classify_link(&facts(false, None, true, true, true, false), dot), LinkStatus::TypeMismatch);
    assert_eq!(classify_link(&facts(false, None, true, true, false, false), dot), LinkStatus::Disabled);
    assert_eq!(classify_link(&facts(false, None, false, true, false, false), dot), LinkStatus::Unlinked);
    assert_eq!(classify_link(&facts(false, None, false, false, false, false), dot), LinkStatus::BothMissing);
    assert_eq!(LinkStatus::Linked.label(), "[LINKED]");
    assert_eq!(LinkStatus::BothMissing.color(), StatusColor::Grey);
    assert!(resolves_to("/a/b/", "/a//b"));
}

#[test]
fn select_all_or_nothing() {
    let all = duplicate_order(&vec![0, 2], 2);
    assert!(all.iter().all(|(_, keep)| *keep));
    assert_eq!(all.len(), 2);
    let none = duplicate_order(&vec![], 3);
    assert!(none.iter().all(|(_, keep)| !*keep));
    let mixed = duplicate_order(&vec![1, 3], 3);
    let mut seen: Vec<usize> = mixed.iter().map(|(i, _)| *i).collect();
    seen.sort();
    assert_eq!(seen, vec![0, 1, 2]);
}

#[test]
fn sync_plans_never_drop_home_data_unasked() {
    let behaviors = [
        DuplicateBehavior::Ask,
        DuplicateBehavior::OverwriteHome,
        DuplicateBehavior::OverwriteDotfile,
        DuplicateBehavior::BackupHome,
        DuplicateBehavior::Skip,
    ];
    for b in behaviors {
        for mask in 0..8u8 {
            let (sym, he, de) = (mask & 1 != 0, mask & 2 != 0, mask & 4 != 0);
            let steps = link_plan(b, sym, he, de).steps;
            for (i, s) in steps.iter().enumerate() {
                if *s == FsStep::DeleteHome && !(i == 0 && sym && !he) && b != DuplicateBehavior::OverwriteHome {
                    assert!(steps[..i].contains(&FsStep::CopyHomeToDot));
                }
            }
        }
    }
}
