use herdr_hunks::engine::marks::{
    after_ancestry, after_unread, ancestry, begin, unread_answer, unread_paths, AfterAncestry, Classify, MarkRecord,
};
use herdr_hunks::engine::{Mark, MarkState};

fn sorted(mut v: Vec<String>) -> Vec<String> {
    v.sort();
    v
}

#[test]
fn unread_paths_are_the_named_fields_each_once() {
    assert_eq!(sorted(unread_paths(b"d.txt\0a.txt\0c.txt\0")), ["a.txt", "c.txt", "d.txt"]);
    assert!(unread_paths(b"").is_empty(), "the set is empty against itself");
    assert_eq!(unread_paths(b"a\0a\0\0b\0"), ["a", "b"]);
    assert_eq!(
        unread_answer(false, b"", b"  fatal: bad object\n"),
        Err("git diff --name-only failed: fatal: bad object".to_string())
    );
}

#[test]
fn ancestry_answers_only_on_exit_zero_and_one() {
    assert_eq!(ancestry(Some(0)), Ok(true));
    assert_eq!(ancestry(Some(1)), Ok(false));
    assert_eq!(ancestry(Some(128)), Err("merge-base --is-ancestor exited 128".to_string()));
    assert_eq!(ancestry(Some(-2)), Err("merge-base --is-ancestor exited -2".to_string()));
    assert_eq!(ancestry(None), Err("merge-base --is-ancestor was killed".to_string()));
}

fn record(commit: &str, at: u64) -> MarkRecord {
    MarkRecord { commit: commit.into(), at }
}

fn mark(commit: &str, state: MarkState, classified_at: Option<&str>) -> Mark {
    Mark { commit: commit.into(), at: 1, state, classified_at: classified_at.map(String::from) }
}

#[test]
fn an_answered_pair_is_not_asked_again() {
    let previous = mark("c2", MarkState::Current, Some("head"));
    let set = vec!["c.txt".to_string()];
    match begin(&record("c2", 61), "head", Some(&previous), Some(("head", &set))) {
        Classify::Done(m, s) => {
            assert_eq!(m, Mark { at: 61, ..previous.clone() }, "a newer record takes its time");
            assert_eq!(s, set);
        },
        Classify::AskAncestry(_) => panic!("a cached pair needs no repository access"),
    }
    // Returning from worktree scope requires a fresh set.
    assert!(matches!(begin(&record("c2", 1), "head", Some(&previous), None), Classify::AskAncestry(_)));
    // A set from another head cannot supply the current dots.
    assert!(matches!(
        begin(&record("c2", 1), "head", Some(&previous), Some(("earlier", &set))),
        Classify::AskAncestry(_)
    ));
}

#[test]
fn an_unanswered_ancestry_keeps_the_previous_classification_and_retries() {
    let previous = mark("tree", MarkState::Current, Some("second"));
    let set = vec!["c.txt".to_string()];
    let m = match begin(&record("tree", 1), "head", Some(&previous), Some(("head", &set))) {
        Classify::AskAncestry(m) => m,
        Classify::Done(..) => panic!("an unclassified pair must retry"),
    };
    assert_eq!(m.classified_at.as_deref(), Some("second"));
    let (m, dated) = match after_ancestry(m, "head", Err("exited 128".into())) {
        AfterAncestry::AskUnread { mark, dated } => (mark, dated),
        AfterAncestry::Done(..) => panic!("the diff is still read"),
    };
    assert!(!dated);
    let (m, s) = after_unread(m, "head", dated, Ok(set.clone()));
    assert_eq!(m.state, MarkState::Current, "the previous classification survives");
    assert_eq!(m.classified_at.as_deref(), Some("second"), "the pair is left undated");
    assert_eq!(s, set, "the rows come from the read that did answer");
}

#[test]
fn classify_reports_current_rewritten_and_unreadable() {
    // An ancestor: current, dated at the head, with its unread rows.
    let m = match begin(&record("c2", 1), "head", None, None) {
        Classify::AskAncestry(m) => m,
        Classify::Done(..) => panic!(),
    };
    let (m2, dated) = match after_ancestry(m.clone(), "head", Ok(true)) {
        AfterAncestry::AskUnread { mark, dated } => (mark, dated),
        AfterAncestry::Done(..) => panic!(),
    };
    let (done, set) = after_unread(m2, "head", dated, Ok(vec!["c.txt".into()]));
    assert_eq!(done.state, MarkState::Current);
    assert_eq!(done.classified_at.as_deref(), Some("head"));
    assert_eq!(set, ["c.txt"]);
    // Rewritten returns no set; the caller flags every row from the state.
    match after_ancestry(m.clone(), "side", Ok(false)) {
        AfterAncestry::Done(r, set) => {
            assert_eq!(r.state, MarkState::Rewritten);
            assert_eq!(r.classified_at.as_deref(), Some("side"));
            assert!(set.is_empty());
        },
        AfterAncestry::AskUnread { .. } => panic!(),
    }
    // A failed read yields a dated Unreadable answer.
    let (u, set) = after_unread(m, "side", false, Err("bad object".into()));
    assert_eq!(u.state, MarkState::Unreadable("bad object".into()));
    assert_eq!(u.classified_at.as_deref(), Some("side"), "a dated answer, so it warns");
    assert!(set.is_empty());
    // A mark equal to the head needs no command and is Current.
    match begin(&record("side", 1), "side", Some(&mark("side", MarkState::Rewritten, None)), None) {
        Classify::Done(m, set) => {
            assert_eq!(m.state, MarkState::Current);
            assert!(set.is_empty());
        },
        Classify::AskAncestry(_) => panic!(),
    }
}
