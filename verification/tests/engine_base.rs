use herdr_hunks::engine::picks::{pick_from_text, picks_text_with, PICKS_FILE};
use herdr_hunks::engine::base::{
    check_text, commit_spec_of, merge_base_answer, refs_answer, verify_answer, Ask, Resolution, ResolveInputs, Resolver,
    Step, REFS_CAP,
};
use herdr_hunks::engine::BaseSource;

/// Drives a resolution with a fake repository: `commit_of` answers verifications, `picks`
/// is the picks file's answer, `origin` where `origin/HEAD` points.
fn resolve(
    inputs: ResolveInputs,
    picks: (Option<&str>, Option<&str>),
    origin: Option<&str>,
    commit_of: &dyn Fn(&str) -> Option<String>,
    asked: &mut Vec<String>,
) -> Resolution {
    let (mut resolver, mut step) = Resolver::start(inputs);
    loop {
        step = match step {
            Step::Done => return resolver.finish(),
            Step::Ask(Ask::LoadPicks) => {
                resolver.answer_picks(picks.0.map(String::from), picks.1.map(String::from))
            },
            Step::Ask(Ask::OriginHead) => resolver.answer_origin_head(origin.map(String::from)),
            Step::Ask(Ask::Verify(text)) => {
                asked.push(text.clone());
                let answer = match commit_of(&text) {
                    Some(id) => Ok(id),
                    None => Err(format!("not a commit: {text}")),
                };
                resolver.answer_verify(answer)
            },
        };
    }
}

fn repo(names: &'static [&'static str]) -> impl Fn(&str) -> Option<String> {
    move |text: &str| names.contains(&text).then(|| format!("id-of-{text}"))
}

#[test]
fn option_like_text_is_refused_before_git_runs() {
    assert_eq!(check_text("-x"), Err("not a commit: -x".into()));
    assert_eq!(check_text("--output=x"), Err("not a commit: --output=x".into()));
    assert_eq!(check_text(""), Err("not a commit: ".into()));
    assert_eq!(check_text("HEAD~1"), Ok(()));
    // No verification is asked for a refused text.
    let mut asked = Vec::new();
    let inputs = ResolveInputs { session_pick: Some(Some("-x".into())), ..Default::default() };
    let r = resolve(inputs, (None, None), None, &repo(&[]), &mut asked);
    assert!(!asked.contains(&"-x".to_string()));
    assert_eq!(r.skipped, ["remembered pick: not a commit: -x"]);
}

#[test]
fn verify_prints_the_object_id_or_names_the_text() {
    assert_eq!(commit_spec_of("HEAD"), "HEAD^{commit}");
    assert_eq!(verify_answer("HEAD", true, b"0123abcd\n"), Ok("0123abcd".to_string()));
    assert_eq!(verify_answer("nope", false, b""), Err("not a commit: nope".to_string()));
    assert_eq!(merge_base_answer("0123456789", true, b"fedcba\n", b""), Ok("fedcba".to_string()));
    assert_eq!(merge_base_answer("0123456789", false, b"", b""), Err("no merge-base with 0123456".to_string()));
    assert_eq!(
        merge_base_answer("abc", false, b"", b"fatal: unrelated\n"),
        Err("no merge-base with abc: fatal: unrelated".to_string())
    );
}

#[test]
fn resolution_takes_main_then_origin_head_then_master() {
    let mut asked = Vec::new();
    let r = resolve(ResolveInputs::default(), (None, None), None, &repo(&["refs/heads/main"]), &mut asked);
    let base = r.base.unwrap();
    assert_eq!(base.requested, "refs/heads/main");
    assert_eq!(base.source, BaseSource::Default);
    assert_eq!(base.merge_base, None);
    assert_eq!(r.default.as_deref(), Some("refs/heads/main"));
    assert!(r.skipped.is_empty());

    let r = resolve(
        ResolveInputs::default(),
        (None, None),
        Some("refs/remotes/origin/trunk\n"),
        &repo(&["refs/remotes/origin/trunk", "refs/heads/master"]),
        &mut asked,
    );
    assert_eq!(r.base.unwrap().requested, "refs/remotes/origin/trunk");
    let r = resolve(ResolveInputs::default(), (None, None), Some(""), &repo(&["refs/heads/master"]), &mut asked);
    assert_eq!(r.base.unwrap().requested, "refs/heads/master");
    let r = resolve(ResolveInputs::default(), (None, None), None, &repo(&[]), &mut asked);
    assert!(r.base.is_none() && r.default.is_none() && r.skipped.is_empty());
}

#[test]
fn config_and_picks_come_first_and_bad_values_are_skipped_with_a_reason() {
    let commits = repo(&["refs/heads/main", "feat", "refs/tags/v1"]);
    let mut asked = Vec::new();
    let config = ResolveInputs { config: Some("feat".into()), state_dir: Some("/state".into()), ..Default::default() };
    let r = resolve(config.clone(), (None, None), None, &commits, &mut asked);
    let base = r.base.unwrap();
    assert_eq!((base.requested.as_str(), base.source), ("feat", BaseSource::Config));
    assert_eq!(r.default.as_deref(), Some("feat"));

    let r = resolve(config.clone(), (Some("refs/tags/v1"), None), None, &commits, &mut asked);
    let base = r.base.unwrap();
    assert_eq!((base.requested.as_str(), base.source), ("refs/tags/v1", BaseSource::Picked));
    assert_eq!(r.default.as_deref(), Some("feat"), "the reset row names the configured and default bases");

    // A session override beats the file; a reset override ignores it.
    let over = ResolveInputs { session_pick: Some(Some("refs/heads/main".into())), ..config.clone() };
    assert_eq!(resolve(over, (Some("refs/tags/v1"), None), None, &commits, &mut asked).base.unwrap().requested, "refs/heads/main");
    let reset = ResolveInputs { session_pick: Some(None), ..config.clone() };
    assert_eq!(resolve(reset, (Some("refs/tags/v1"), None), None, &commits, &mut asked).base.unwrap().requested, "feat");

    // Bad values are skipped, in order, and the reason is kept.
    let bad = ResolveInputs { config: Some("-x".into()), ..config.clone() };
    let r = resolve(bad, (Some("gone"), None), None, &commits, &mut asked);
    assert_eq!(r.base.unwrap().requested, "refs/heads/main");
    assert_eq!(
        r.skipped,
        vec!["remembered pick: not a commit: gone".to_string(), "[base] ref: not a commit: -x".to_string()]
    );
    // A problem reading the picks file is skipped first.
    let r = resolve(config, (None, Some("bases.json: expected value")), None, &commits, &mut asked);
    assert_eq!(r.skipped, ["bases.json: expected value"]);
}

#[test]
fn refs_are_listed_newest_first_without_symrefs_and_capped() {
    let out = b"refs/heads/feat\0\nrefs/remotes/origin/HEAD\0refs/remotes/origin/main\nrefs/heads/main\0\n\0\nnoseparator\n";
    let (refs, overflow) = refs_answer(true, out, b"").unwrap();
    assert_eq!(refs, ["refs/heads/feat", "refs/heads/main"]);
    assert!(!overflow);
    let many: String = (0..REFS_CAP + 5).map(|i| format!("refs/tags/t{i}\0\n")).collect();
    let (refs, overflow) = refs_answer(true, many.as_bytes(), b"").unwrap();
    assert_eq!(refs.len(), REFS_CAP);
    assert_eq!(refs[0], "refs/tags/t0");
    assert!(overflow);
    let (refs, overflow) = refs_answer(true, b"", b"").unwrap();
    assert!(refs.is_empty() && !overflow);
    assert_eq!(refs_answer(false, b"", b"fatal: x\n"), Err("for-each-ref failed: fatal: x".to_string()));
}

#[test]
fn picks_round_trip_are_removed_and_survive_a_malformed_file() {
    assert_eq!(pick_from_text(None, "/r/one"), (None, None));
    let one = picks_text_with(None, "/r/one", Some("refs/heads/x"));
    let two = picks_text_with(Some(&one), "/r/two", Some("HEAD~2"));
    assert_eq!(pick_from_text(Some(&two), "/r/one"), (Some("refs/heads/x".to_string()), None));
    assert_eq!(pick_from_text(Some(&two), "/r/two"), (Some("HEAD~2".to_string()), None));
    let removed = picks_text_with(Some(&two), "/r/one", None);
    assert_eq!(pick_from_text(Some(&removed), "/r/one").0, None);
    assert_eq!(pick_from_text(Some(&removed), "/r/two").0.as_deref(), Some("HEAD~2"));
    let (pick, problem) = pick_from_text(Some("{ not json"), "/r/one");
    assert!(pick.is_none());
    assert!(problem.unwrap().starts_with("bases.json: "));
    let three = picks_text_with(Some("{ not json"), "/r/three", Some("v1"));
    let written: std::collections::BTreeMap<String, String> = serde_json::from_str(&three).unwrap();
    assert_eq!(written.len(), 1, "the next pick rewrites it");
    assert_eq!(PICKS_FILE, "bases.json");
}
