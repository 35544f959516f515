use stackgit::error::Error;
use stackgit::execute::{Action, PushOutcome};
use stackgit::goto::{goto_patch, patches_to_push};
use stackgit::merge::{check_merged, MergeOutcome};
use stackgit::new::check_new_name;
use stackgit::patchname::PatchName;
use stackgit::resolve::resolve;
use stackgit::stack::{PatchDesc, StackState};
use stackgit::transaction::{ConflictMode, Intent, StackTransaction};

fn pn(s: &str) -> PatchName {
    PatchName::parse(s).unwrap()
}

fn names(v: &[PatchName]) -> Vec<String> {
    v.iter().map(|p| p.as_str().to_string()).collect()
}

fn state(applied: &[&str], unapplied: &[&str], hidden: &[&str], commits: &[(&str, &str)]) -> StackState {
    let applied: Vec<PatchName> = applied.iter().map(|s| pn(s)).collect();
    let head = match applied.last() {
        Some(top) => commits.iter().find(|(n, _)| *n == top.as_str()).unwrap().1.to_string(),
        None => "base0000".to_string(),
    };
    StackState {
        applied,
        unapplied: unapplied.iter().map(|s| pn(s)).collect(),
        hidden: hidden.iter().map(|s| pn(s)).collect(),
        patches: commits
            .iter()
            .map(|(n, c)| PatchDesc { name: pn(n), commit: c.to_string() })
            .collect(),
        base: "base0000".to_string(),
        head,
    }
}

fn similar_flags(st: &StackState, input: &str) -> Vec<bool> {
    st.patches
        .iter()
        .map(|d| strsim::jaro_winkler(d.name.as_str(), input) > 0.75)
        .collect()
}

fn three() -> StackState {
    state(
        &["p1", "p2", "p3"],
        &[],
        &[],
        &[("p1", "c1"), ("p2", "c2"), ("p3", "c3")],
    )
}

#[test]
fn parse_accepts_valid_names() {
    assert_eq!(pn("feature-a_2").as_str(), "feature-a_2");
    assert_eq!(pn("x").len(), 1);
}

#[test]
fn parse_refuses_empty_and_bad_characters() {
    assert!(matches!(PatchName::parse(""), Err(Error::InvalidName)));
    assert!(matches!(PatchName::parse("a b"), Err(Error::InvalidName)));
    assert!(matches!(PatchName::parse("a/b"), Err(Error::InvalidName)));
}

#[test]
fn resolve_exact_name_returns_itself() {
    let st = three();
    let r = resolve(&pn("p2"), &st, &similar_flags(&st, "p2")).unwrap();
    assert_eq!(r.as_str(), "p2");
}

#[test]
fn resolve_hidden_name_is_refused() {
    let st = state(&["p1"], &[], &["secret"], &[("p1", "c1"), ("secret", "c9")]);
    let r = resolve(&pn("secret"), &st, &similar_flags(&st, "secret"));
    assert!(matches!(r, Err(Error::HiddenPatchAccess)));
}

#[test]
fn resolve_similar_names_are_ambiguous() {
    let st = state(
        &["feature-a", "feature-b"],
        &[],
        &[],
        &[("feature-a", "aaaa1111"), ("feature-b", "bbbb2222")],
    );
    let flags = similar_flags(&st, "feature");
    match resolve(&pn("feature"), &st, &flags) {
        Err(Error::AmbiguousName(v)) => assert_eq!(names(&v), vec!["feature-a", "feature-b"]),
        other => panic!("unexpected {:?}", other),
    }
}

#[test]
fn resolve_commit_prefix_unique() {
    let st = state(
        &["one", "two"],
        &[],
        &[],
        &[("one", "abcd1234ffff"), ("two", "9876aaaa")],
    );
    let r = resolve(&pn("abcd"), &st, &similar_flags(&st, "abcd")).unwrap();
    assert_eq!(r.as_str(), "one");
}

#[test]
fn resolve_commit_prefix_in_capitals() {
    let st = state(
        &["one", "two"],
        &[],
        &[],
        &[("one", "abcd1234ffff"), ("two", "9876aaaa")],
    );
    let r = resolve(&pn("ABCD12"), &st, &similar_flags(&st, "ABCD12")).unwrap();
    assert_eq!(r.as_str(), "one");
}

#[test]
fn resolve_short_input_is_not_a_prefix() {
    let st = state(
        &["one", "two"],
        &[],
        &[],
        &[("one", "abcd1234ffff"), ("two", "9876aaaa")],
    );
    let r = resolve(&pn("ab"), &st, &similar_flags(&st, "ab"));
    assert!(matches!(r, Err(Error::NotFound)));
}

#[test]
fn resolve_shared_prefix_is_ambiguous() {
    let st = state(
        &["one", "two"],
        &[],
        &[],
        &[("one", "abcd1234"), ("two", "abcd5678")],
    );
    match resolve(&pn("abcd"), &st, &similar_flags(&st, "abcd")) {
        Err(Error::AmbiguousCommitPrefix(v)) => assert_eq!(names(&v), vec!["one", "two"]),
        other => panic!("unexpected {:?}", other),
    }
}

#[test]
fn resolve_unmatched_prefix_is_not_found() {
    let st = state(&["one"], &[], &[], &[("one", "abcd1234")]);
    let r = resolve(&pn("eeee"), &st, &similar_flags(&st, "eeee"));
    assert!(matches!(r, Err(Error::NotFound)));
}

#[test]
fn resolve_non_hex_input_is_not_found() {
    let st = state(&["one"], &[], &[], &[("one", "abcd1234")]);
    let r = resolve(&pn("zzzzzz"), &st, &similar_flags(&st, "zzzzzz"));
    assert!(matches!(r, Err(Error::NotFound)));
}

#[test]
fn goto_applied_pops_above_target() {
    let mut t = StackTransaction::make_context(three(), ConflictMode::Disallow, false, true);
    goto_patch(&mut t, &pn("p1"), &Vec::new()).unwrap();
    assert_eq!(names(t.applied()), vec!["p1"]);
    assert_eq!(names(t.unapplied()), vec!["p2", "p3"]);
    let popped: Vec<String> = t
        .intents
        .iter()
        .map(|i| match i {
            Intent::Pop { name } => name.as_str().to_string(),
            _ => panic!("not a pop"),
        })
        .collect();
    assert_eq!(popped, vec!["p3", "p2"]);
}

#[test]
fn goto_unapplied_pushes_in_order() {
    let st = state(&["p1"], &["p2", "p3"], &[], &[("p1", "c1"), ("p2", "c2"), ("p3", "c3")]);
    let mut t = StackTransaction::make_context(st, ConflictMode::Disallow, false, true);
    assert_eq!(names(&patches_to_push(&t, &pn("p3"))), vec!["p2", "p3"]);
    goto_patch(&mut t, &pn("p3"), &vec![pn("p2")]).unwrap();
    assert_eq!(names(t.applied()), vec!["p1", "p2", "p3"]);
    assert!(t.unapplied().is_empty());
    let pushed: Vec<(String, bool)> = t
        .intents
        .iter()
        .map(|i| match i {
            Intent::Push { name, merged } => (name.as_str().to_string(), *merged),
            _ => panic!("not a push"),
        })
        .collect();
    assert_eq!(pushed, vec![("p2".to_string(), true), ("p3".to_string(), false)]);
}

#[test]
fn goto_unknown_patch_is_not_found() {
    let mut t = StackTransaction::make_context(three(), ConflictMode::Disallow, false, true);
    assert!(matches!(goto_patch(&mut t, &pn("nope"), &Vec::new()), Err(Error::NotFound)));
    assert!(t.intents.is_empty());
}

#[test]
fn disallowed_conflict_aborts_and_writes_nothing() {
    let st = state(&["p1"], &["p2", "p3"], &[], &[("p1", "c1"), ("p2", "c2"), ("p3", "c3")]);
    let before = format!("{:?}", st);
    let mut t = StackTransaction::make_context(st, ConflictMode::Disallow, false, true);
    goto_patch(&mut t, &pn("p3"), &Vec::new()).unwrap();
    let mut ex = t.execute(true, true).unwrap();
    assert!(matches!(ex.next_action(), Action::Push { .. }));
    ex.record_push(PushOutcome::Clean("n2".to_string())).unwrap();
    let r = ex.record_push(PushOutcome::Conflict("n3".to_string()));
    assert!(matches!(r, Err(Error::MergeConflict { written: 1 })));
    assert!(matches!(ex.next_action(), Action::Stop));
    assert_eq!(format!("{:?}", ex.stored), before);
    assert!(!ex.restore_worktree());
}

#[test]
fn conflict_before_any_commit_restores_worktree() {
    let st = state(&["p1"], &["p2"], &[], &[("p1", "c1"), ("p2", "c2")]);
    let mut t = StackTransaction::make_context(st, ConflictMode::Disallow, false, true);
    goto_patch(&mut t, &pn("p2"), &Vec::new()).unwrap();
    let mut ex = t.execute(true, true).unwrap();
    let r = ex.record_push(PushOutcome::Conflict("n2".to_string()));
    assert!(matches!(r, Err(Error::MergeConflict { written: 0 })));
    assert!(ex.restore_worktree());
}

#[test]
fn allowed_conflict_stops_and_persists() {
    let st = state(&["p1"], &["p2", "p3"], &[], &[("p1", "c1"), ("p2", "c2"), ("p3", "c3")]);
    let mut t = StackTransaction::make_context(st, ConflictMode::Allow, false, true);
    goto_patch(&mut t, &pn("p3"), &Vec::new()).unwrap();
    let mut ex = t.execute(true, true).unwrap();
    ex.record_push(PushOutcome::Conflict("n2".to_string())).unwrap();
    assert!(ex.conflicted);
    match ex.next_action() {
        Action::Persist(s) => {
            assert_eq!(names(&s.applied), vec!["p1", "p2"]);
            assert_eq!(names(&s.unapplied), vec!["p3"]);
            assert_eq!(s.head, "n2");
        }
        other => panic!("unexpected {:?}", other),
    }
}

#[test]
fn write_failure_reports_written_count() {
    let st = state(&[], &["p1", "p2"], &[], &[("p1", "c1"), ("p2", "c2")]);
    let mut t = StackTransaction::make_context(st, ConflictMode::Allow, false, true);
    goto_patch(&mut t, &pn("p2"), &Vec::new()).unwrap();
    let mut ex = t.execute(true, true).unwrap();
    ex.record_push(PushOutcome::Clean("n1".to_string())).unwrap();
    let r = ex.record_push(PushOutcome::Failed);
    assert!(matches!(r, Err(Error::RepositoryWriteFailure { written: 1 })));
    assert!(matches!(ex.next_action(), Action::Stop));
}

#[test]
fn clean_pushes_persist_new_commits() {
    let st = state(&["p1"], &["p2", "p3"], &[], &[("p1", "c1"), ("p2", "c2"), ("p3", "c3")]);
    let mut t = StackTransaction::make_context(st, ConflictMode::Disallow, false, true);
    goto_patch(&mut t, &pn("p3"), &Vec::new()).unwrap();
    let mut ex = t.execute(true, true).unwrap();
    match ex.next_action() {
        Action::Push { name, merged, onto } => {
            assert_eq!(name.as_str(), "p2");
            assert!(!merged);
            assert_eq!(onto, "c1");
        }
        other => panic!("unexpected {:?}", other),
    }
    ex.record_push(PushOutcome::Clean("n2".to_string())).unwrap();
    assert_eq!(ex.commit_of(&pn("p2")), Some("n2".to_string()));
    ex.record_push(PushOutcome::Clean("n3".to_string())).unwrap();
    match ex.next_action() {
        Action::Persist(s) => {
            assert_eq!(names(&s.applied), vec!["p1", "p2", "p3"]);
            assert!(s.unapplied.is_empty());
            assert_eq!(s.head, "n3");
        }
        other => panic!("unexpected {:?}", other),
    }
}

#[test]
fn pops_move_head_down() {
    let mut t = StackTransaction::make_context(three(), ConflictMode::Disallow, false, true);
    goto_patch(&mut t, &pn("p1"), &Vec::new()).unwrap();
    let mut ex = t.execute(true, true).unwrap();
    ex.record_pop().unwrap();
    assert_eq!(ex.work.head, "c2");
    ex.record_pop().unwrap();
    assert_eq!(ex.work.head, "c1");
    match ex.next_action() {
        Action::Persist(s) => {
            assert_eq!(names(&s.applied), vec!["p1"]);
            assert_eq!(names(&s.unapplied), vec!["p2", "p3"]);
        }
        other => panic!("unexpected {:?}", other),
    }
}

#[test]
fn push_then_pop_restores_lists_and_head() {
    let mut st = state(&["p1"], &["p2", "p3"], &[], &[("p1", "c1"), ("p2", "c2"), ("p3", "c3")]);
    st.record_push(0, "n2".to_string());
    assert_eq!(st.head, "n2");
    st.record_pop();
    assert_eq!(names(&st.applied), vec!["p1"]);
    assert_eq!(names(&st.unapplied), vec!["p2", "p3"]);
    assert_eq!(st.head, "c1");
}

#[test]
fn pop_to_empty_stack_goes_to_base() {
    let mut st = state(&["p1"], &[], &[], &[("p1", "c1")]);
    st.record_pop();
    assert!(st.applied.is_empty());
    assert_eq!(st.head, "base0000");
}

#[test]
fn dirty_index_and_worktree_stop_execution() {
    let t = StackTransaction::make_context(three(), ConflictMode::Disallow, false, true);
    assert!(matches!(t.execute(false, true), Err(Error::DirtyIndex)));
    let t = StackTransaction::make_context(three(), ConflictMode::Disallow, false, true);
    assert!(matches!(t.execute(true, false), Err(Error::DirtyWorktree)));
    let t = StackTransaction::make_context(three(), ConflictMode::Disallow, true, true);
    assert!(t.execute(false, false).is_ok());
    let t = StackTransaction::make_context(three(), ConflictMode::Disallow, false, false);
    assert!(t.execute(false, false).is_ok());
}

#[test]
fn check_merged_reports_no_op_patches() {
    let cands = vec![pn("a"), pn("b"), pn("c")];
    let outcomes = vec![
        MergeOutcome::Clean("tree0".to_string()),
        MergeOutcome::Clean("tree1".to_string()),
        MergeOutcome::Conflict,
    ];
    assert_eq!(names(&check_merged(&cands, &outcomes, "tree0")), vec!["a"]);
    assert!(check_merged(&cands, &outcomes, "tree9").is_empty());
}

#[test]
fn from_branch_accepts_consistent_record() {
    let st = three();
    let r = StackState::from_branch(st, true).unwrap();
    assert_eq!(r.head, "c3");
}

#[test]
fn from_branch_refuses_repository_in_progress() {
    assert!(matches!(
        StackState::from_branch(three(), false),
        Err(Error::RepositoryStateConflict)
    ));
}

#[test]
fn from_branch_refuses_corrupt_record() {
    let dup = state(&["p1"], &["p1"], &[], &[("p1", "c1")]);
    assert!(matches!(StackState::from_branch(dup, true), Err(Error::CorruptState)));
    let missing = state(&["p1"], &["p2"], &[], &[("p1", "c1")]);
    assert!(matches!(StackState::from_branch(missing, true), Err(Error::CorruptState)));
    let extra = state(&["p1"], &[], &[], &[("p1", "c1"), ("p2", "c2")]);
    assert!(matches!(StackState::from_branch(extra, true), Err(Error::CorruptState)));
}

#[test]
fn from_branch_refuses_head_mismatch() {
    let mut st = three();
    st.head = "elsewhere".to_string();
    assert!(matches!(StackState::from_branch(st, true), Err(Error::HeadMismatch)));
}

#[test]
fn new_patch_goes_on_top() {
    let st = three();
    assert!(matches!(check_new_name(&st, Some(pn("p2"))), Err(Error::PatchExists)));
    assert!(matches!(check_new_name(&st, None), Ok(None)));
    let name = check_new_name(&st, Some(pn("p4"))).unwrap().unwrap();
    let mut t = StackTransaction::make_context(st, ConflictMode::Disallow, false, true);
    t.new_applied(&name, "c4".to_string()).unwrap();
    assert!(matches!(t.new_applied(&name, "c5".to_string()), Err(Error::PatchExists)));
    let mut ex = t.execute(true, true).unwrap();
    assert!(matches!(ex.next_action(), Action::New { .. }));
    ex.record_new().unwrap();
    match ex.next_action() {
        Action::Persist(s) => {
            assert_eq!(names(&s.applied), vec!["p1", "p2", "p3", "p4"]);
            assert_eq!(s.head, "c4");
        }
        other => panic!("unexpected {:?}", other),
    }
}

#[test]
fn commands_have_their_names() {
    assert_eq!(stackgit::goto::get_command().0, "goto");
    assert_eq!(stackgit::new::get_command().0, "new");
}

#[test]
fn resolve_prefix_needs_hex_digits() {
    let st = state(&["odd"], &[], &[], &[("odd", "zzzz1234")]);
    let r = resolve(&pn("zzzz"), &st, &similar_flags(&st, "zzzz"));
    assert!(matches!(r, Err(Error::NotFound)));
}

#[test]
fn resolve_prefix_longer_than_an_id_is_not_tried() {
    let long = "a".repeat(41);
    let commit = "a".repeat(41);
    let st = state(&["one"], &[], &[], &[("one", commit.as_str())]);
    let r = resolve(&pn(&long), &st, &vec![false]);
    assert!(matches!(r, Err(Error::NotFound)));
    let exact = "a".repeat(40);
    let r = resolve(&pn(&exact), &st, &vec![false]).unwrap();
    assert_eq!(r.as_str(), "one");
}
