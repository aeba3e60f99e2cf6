//! Base resolution and validation, and the picker's ref list.
//!
//! Resolution asks git one question at a time (is this text a commit? where does
//! `origin/HEAD` point?) and decides between the answers: the decisions are here, as a
//! resolver that says what to ask next and takes each answer.
use vstd::prelude::*;

use crate::bytes::{lossy, utf8_lossy};
use crate::engine::{Base, BaseSource};
use crate::strs::{cat, chars, copy, opt_view, own, push_str, split_on, trim, trim_spec};
use crate::strs::{lemma_newline_from, lines_from, newline_from};

verus! {

/// The most refs the picker lists.
pub const REFS_CAP: usize = 200;

pub open spec fn not_a_commit(text: Seq<char>) -> Seq<char> {
    "not a commit: "@ + text
}

/// Whether a text is refused as a base before git sees it: empty, or starting with `-`,
/// which git could take for an option.
pub open spec fn refused_text(text: Seq<char>) -> bool {
    text.len() == 0 || text[0] == '-'
}

/// A base that starts with `-` could become an option; refused before git sees it.
pub fn check_text(text: &str) -> (r: Result<(), String>)
    ensures
        r is Ok <==> !refused_text(text@),
        r matches Err(m) ==> m@ == not_a_commit(text@),
{
    let v = chars(text);
    if v.len() == 0 || v[0] == '-' {
        return Err(cat("not a commit: ", text));
    }
    Ok(())
}

/// The revision `rev-parse --verify` is given for a text: the commit it names.
pub fn commit_spec_of(text: &str) -> (r: String)
    ensures
        r@ == text@ + "^{commit}"@,
{
    cat(text, "^{commit}")
}

/// What `rev-parse --verify --quiet <text>^{commit}` answers: the object id it prints, or
/// `not a commit: <text>`.
pub fn verify_answer(text: &str, success: bool, stdout: &[u8]) -> (r: Result<String, String>)
    ensures
        success ==> (r matches Ok(id) && id@ == trim_spec(lossy(stdout@))),
        !success ==> (r matches Err(m) && m@ == not_a_commit(text@)),
{
    if success {
        Ok(trim(utf8_lossy(stdout).as_str()))
    } else {
        Err(cat("not a commit: ", text))
    }
}

/// At most the first seven characters of a commit id.
pub open spec fn short_id(commit: Seq<char>) -> Seq<char> {
    if commit.len() <= 7 {
        commit
    } else {
        commit.take(7)
    }
}

pub open spec fn merge_base_failure(commit: Seq<char>, stderr: Seq<u8>) -> Seq<char> {
    let err = trim_spec(lossy(stderr));
    if err.len() == 0 {
        "no merge-base with "@ + short_id(commit)
    } else {
        "no merge-base with "@ + short_id(commit) + ": "@ + err
    }
}

/// What `git merge-base HEAD <commit>` answers: the merge-base it prints, or, for unrelated
/// histories, a message naming the commit by its short id and giving git's reason.
pub fn merge_base_answer(commit: &str, success: bool, stdout: &[u8], stderr: &[u8]) -> (r: Result<String, String>)
    ensures
        success ==> (r matches Ok(id) && id@ == trim_spec(lossy(stdout@))),
        !success ==> (r matches Err(m) && m@ == merge_base_failure(commit@, stderr@)),
{
    if success {
        return Ok(trim(utf8_lossy(stdout).as_str()));
    }
    let v = chars(commit);
    let n = if v.len() <= 7 {
        v.len()
    } else {
        7
    };
    let short = crate::strs::collect(&v, 0, n);
    let err = trim(utf8_lossy(stderr).as_str());
    let mut m = cat("no merge-base with ", short.as_str());
    if err.unicode_len() > 0 {
        push_str(&mut m, ": ");
        push_str(&mut m, err.as_str());
    }
    proof {
        assert(v@.subrange(0, n as int) == short_id(commit@));
    }
    Err(m)
}

// ---------------------------------------------------------------------------
// The picker's refs.
// ---------------------------------------------------------------------------

/// The ref a `for-each-ref --format=%(refname)%00%(symref)` line lists: its name, unless the
/// line has no separator, an empty name, or names a symbolic ref.
pub open spec fn ref_of_line(line: Seq<char>) -> Option<Seq<char>> {
    match crate::engine::branch::index_from(line, '\0', 0) {
        Some(k) => if k > 0 && k + 1 == line.len() {
            Some(line.take(k))
        } else {
            None
        },
        None => None,
    }
}

/// The refs the lines from `i` on list, in order.
pub open spec fn refs_from(lines: Seq<Seq<char>>, i: int) -> Seq<Seq<char>>
    decreases lines.len() - i,
{
    if i < 0 || i >= lines.len() {
        seq![]
    } else {
        match ref_of_line(lines[i]) {
            Some(r) => seq![r] + refs_from(lines, i + 1),
            None => refs_from(lines, i + 1),
        }
    }
}

proof fn lemma_refs_shift(lines: Seq<Seq<char>>, i: int)
    requires
        0 <= i <= lines.len(),
    ensures
        refs_from(lines, i) == refs_from(lines.skip(i), 0),
    decreases lines.len() - i,
{
    if i < lines.len() {
        lemma_refs_shift(lines, i + 1);
        assert(lines.skip(i)[0] == lines[i]);
        assert(lines.skip(i).skip(1) =~= lines.skip(i + 1));
        lemma_refs_shift(lines.skip(i), 1);
    } else {
        assert(lines.skip(i).len() == 0);
    }
}

pub open spec fn listed_refs(stdout: Seq<u8>) -> Seq<Seq<char>> {
    refs_from(lines_from(lossy(stdout), 0), 0)
}

fn ref_in_line(line: &Vec<char>, start: usize, end: usize) -> (r: Option<String>)
    requires
        start <= end <= line@.len(),
    ensures
        match r {
            Some(x) => ref_of_line(line@.subrange(start as int, end as int)) == Some(x@),
            None => ref_of_line(line@.subrange(start as int, end as int)) is None,
        },
{
    let ghost l = line@.subrange(start as int, end as int);
    let mut k = start;
    while k < end && line[k] != '\0'
        invariant
            start <= k <= end <= line@.len(),
            l == line@.subrange(start as int, end as int),
            crate::engine::branch::index_from(l, '\0', 0) == crate::engine::branch::index_from(l, '\0', k - start),
        decreases end - k,
    {
        proof {
            assert(l[k - start] == line@[k as int]);
        }
        k = k + 1;
    }
    if k == end {
        return None;
    }
    proof {
        assert(l[k - start] == line@[k as int]);
    }
    if k > start && k + 1 == end {
        proof {
            assert(line@.subrange(start as int, k as int) == l.take(k - start));
        }
        Some(crate::strs::collect(line, start, k))
    } else {
        None
    }
}

/// What `for-each-ref` answers: the listed refs, newest first as git sorted them, at most
/// `REFS_CAP`, and whether more were listed; or git's reason.
pub fn refs_answer(success: bool, stdout: &[u8], stderr: &[u8]) -> (r: Result<(Vec<String>, bool), String>)
    ensures
        !success ==> (r matches Err(m) && m@ == "for-each-ref failed: "@ + trim_spec(lossy(stderr@))),
        success ==> (r matches Ok((refs, overflow)) && crate::strs::views(refs@) == if listed_refs(stdout@).len()
            > REFS_CAP {
            listed_refs(stdout@).take(REFS_CAP as int)
        } else {
            listed_refs(stdout@)
        } && overflow == (listed_refs(stdout@).len() > REFS_CAP)),
{
    if !success {
        return Err(cat("for-each-ref failed: ", trim(utf8_lossy(stderr).as_str()).as_str()));
    }
    let text = utf8_lossy(stdout);
    let v = chars(text.as_str());
    let n = v.len();
    let ghost s = v@;
    let ghost all = listed_refs(stdout@);
    let mut refs: Vec<String> = Vec::new();
    let mut start: usize = 0;
    proof {
        assert(s == lossy(stdout@));
        assert(crate::strs::views(refs@) + refs_from(lines_from(s, 0), 0) =~= all);
    }
    while start < n
        invariant
            s == v@,
            s == lossy(stdout@),
            all == refs_from(lines_from(s, 0), 0),
            n == s.len(),
            start <= n,
            all == crate::strs::views(refs@) + refs_from(lines_from(s, start as int), 0),
        decreases n - start,
    {
        let mut e = start;
        while e < n && v[e] != '\n'
            invariant
                n == v@.len(),
                start <= e <= n,
                newline_from(v@, start as int) == newline_from(v@, e as int),
            decreases n - e,
        {
            e = e + 1;
        }
        proof {
            lemma_newline_from(s, start as int);
        }
        let cut = if e < n && e > start && v[e - 1] == '\r' {
            e - 1
        } else {
            e
        };
        let found = ref_in_line(&v, start, cut);
        let ghost line = s.subrange(start as int, cut as int);
        let ghost rest = if e < n {
            lines_from(s, e + 1)
        } else {
            Seq::<Seq<char>>::empty()
        };
        proof {
            let raw = s.subrange(start as int, e as int);
            assert(lines_from(s, start as int)[0] == line) by {
                if e < n && raw.len() > 0 && raw[raw.len() - 1] == '\r' {
                    assert(raw.drop_last() == line);
                }
            }
            assert(lines_from(s, start as int) == seq![line] + rest);
            lemma_refs_shift(lines_from(s, start as int), 1);
            assert(lines_from(s, start as int).skip(1) =~= rest);
            assert(refs_from(rest, 0) == refs_from(lines_from(s, start as int), 1));
        }
        let ghost before = crate::strs::views(refs@);
        match found {
            Some(name) => {
                refs.push(name);
                proof {
                    assert(crate::strs::views(refs@) =~= before.push(ref_of_line(line)->0));
                    assert(before.push(ref_of_line(line)->0) + refs_from(rest, 0) =~= before + (seq![ref_of_line(
                        line,
                    )->0] + refs_from(rest, 0)));
                }
            },
            None => {},
        }
        start = if e < n {
            e + 1
        } else {
            n
        };
        proof {
            if e >= n {
                assert(lines_from(s, start as int) == Seq::<Seq<char>>::empty());
            }
            assert(refs_from(lines_from(s, start as int), 0) == refs_from(rest, 0));
        }
    }
    proof {
        assert(refs_from(lines_from(s, n as int), 0) == Seq::<Seq<char>>::empty());
        assert(crate::strs::views(refs@) =~= all);
    }
    let overflow = refs.len() > REFS_CAP;
    if overflow {
        refs.truncate(REFS_CAP);
        proof {
            assert(crate::strs::views(refs@) =~= all.take(REFS_CAP as int));
        }
    }
    Ok((refs, overflow))
}

// ---------------------------------------------------------------------------
// Resolution.
// ---------------------------------------------------------------------------

/// What resolution reads besides the repository.
#[derive(Debug, Clone, Default, PartialEq, Eq)]
pub struct ResolveInputs {
    /// `Some(Some(ref))` a pick, `Some(None)` a reset, kept in memory when the picks file
    /// could not be written.
    pub session_pick: Option<Option<String>>,
    /// `[base] ref`.
    pub config: Option<String>,
    pub state_dir: Option<String>,
}

#[derive(Debug)]
pub struct Resolution {
    pub base: Option<Base>,
    /// The first of the configured and default bases that names a commit: what the reset
    /// row shows.
    pub default: Option<String>,
    /// Steps that were skipped, each with its reason.
    pub skipped: Vec<String>,
}

/// What resolution needs to know next.
#[derive(Debug, PartialEq, Eq)]
pub enum Ask {
    /// The remembered pick for this toplevel, and a problem reading the picks file.
    LoadPicks,
    /// Whether this text names a commit (`rev-parse --verify`), and which.
    Verify(String),
    /// Where `origin/HEAD` points, if anywhere.
    OriginHead,
}

#[derive(Debug, PartialEq, Eq)]
pub enum Step {
    Ask(Ask),
    Done,
}

/// Which answer the resolver waits for.
#[derive(Debug, Clone, PartialEq, Eq)]
pub enum Stage {
    Picks,
    Pick(String),
    Config(String),
    OriginHead,
    Candidate(usize),
    Finished,
}

/// Resolution in progress: the remembered pick first, then `[base] ref`, then `main`,
/// `origin/HEAD` and `master`, the first that names a commit.
pub struct Resolver {
    pub config: Option<String>,
    pub skipped: Vec<String>,
    pub picked: Option<Base>,
    pub default: Option<Base>,
    pub candidates: Vec<String>,
    pub stage: Stage,
}

pub open spec fn views(v: Seq<String>) -> Seq<Seq<char>> {
    crate::strs::views(v)
}

/// The first candidate from `i` on that is not refused before git sees it.
pub open spec fn first_acceptable(cands: Seq<Seq<char>>, i: int) -> Option<int>
    decreases cands.len() - i,
{
    if i < 0 || i >= cands.len() {
        None
    } else if !refused_text(cands[i]) {
        Some(i)
    } else {
        first_acceptable(cands, i + 1)
    }
}

impl Resolver {
    /// Everything but the stage, the skipped reasons and the candidates is as before.
    pub open spec fn keeps_found(&self, old: Resolver) -> bool {
        &&& self.config == old.config
        &&& self.picked == old.picked
        &&& self.default == old.default
    }

    /// Trying the candidates from `i` on: the first one git may see is verified next;
    /// with none left, resolution is done.
    pub open spec fn candidate_step(old: Resolver, i: int, new: Resolver, step: Step) -> bool {
        &&& new.keeps_found(old)
        &&& views(new.skipped@) == views(old.skipped@)
        &&& new.candidates == old.candidates
        &&& match first_acceptable(views(old.candidates@), i) {
            Some(k) => new.stage == Stage::Candidate(k as usize) && (step matches Step::Ask(Ask::Verify(t)) && t@
                == old.candidates@[k]@),
            None => new.stage == Stage::Finished && step == Step::Done,
        }
    }

    fn try_candidate(&mut self, from: usize) -> (step: Step)
        ensures
            Self::candidate_step(*old(self), from as int, *final(self), step),
    {
        let mut i = if from < self.candidates.len() {
            from
        } else {
            self.candidates.len()
        };
        while i < self.candidates.len() && check_text(self.candidates[i].as_str()).is_err()
            invariant
                i <= self.candidates@.len(),
                first_acceptable(views(self.candidates@), from as int) == first_acceptable(views(self.candidates@), i as int),
            decreases self.candidates@.len() - i,
        {
            proof {
                assert(views(self.candidates@)[i as int] == self.candidates@[i as int]@);
            }
            i = i + 1;
        }
        if i == self.candidates.len() {
            self.stage = Stage::Finished;
            return Step::Done;
        }
        proof {
            assert(views(self.candidates@)[i as int] == self.candidates@[i as int]@);
        }
        self.stage = Stage::Candidate(i);
        Step::Ask(Ask::Verify(copy(&self.candidates[i])))
    }

    /// The defaults: nothing to do when the configured base named a commit; otherwise
    /// `main` first, then, once `origin/HEAD` is known, it and `master`.
    pub open spec fn default_step(old: Resolver, new: Resolver, step: Step) -> bool {
        &&& new.keeps_found(old)
        &&& views(new.skipped@) == views(old.skipped@)
        &&& if old.default is Some {
            new.stage == Stage::Finished && step == Step::Done
        } else {
            &&& views(new.candidates@) == seq!["refs/heads/main"@]
            &&& new.stage == Stage::OriginHead
            &&& step == Step::Ask(Ask::OriginHead)
        }
    }

    fn default_step_exec(&mut self) -> (step: Step)
        ensures
            Self::default_step(*old(self), *final(self), step),
    {
        if self.default.is_some() {
            self.stage = Stage::Finished;
            return Step::Done;
        }
        let mut candidates: Vec<String> = Vec::new();
        candidates.push(own("refs/heads/main"));
        self.candidates = candidates;
        proof {
            assert(views(self.candidates@) =~= seq!["refs/heads/main"@]);
        }
        self.stage = Stage::OriginHead;
        Step::Ask(Ask::OriginHead)
    }

    /// `[base] ref`: verified when git may see it, skipped with its reason otherwise.
    pub open spec fn config_step(old: Resolver, new: Resolver, step: Step) -> bool {
        match old.config {
            None => Self::default_step(old, new, step),
            Some(t) => if refused_text(t@) {
                exists|mid: Resolver|
                    #![trigger Self::default_step(mid, new, step)]
                    views(mid.skipped@) == views(old.skipped@).push("[base] ref: "@ + not_a_commit(t@))
                        && mid.keeps_found(old) && Self::default_step(mid, new, step)
            } else {
                &&& new.keeps_found(old)
                &&& views(new.skipped@) == views(old.skipped@)
                &&& new.stage matches Stage::Config(c) && c@ == t@
                &&& step matches Step::Ask(Ask::Verify(v)) && v@ == t@
            },
        }
    }

    fn config_step_exec(&mut self) -> (step: Step)
        ensures
            Self::config_step(*old(self), *final(self), step),
    {
        let text = match &self.config {
            Some(t) => copy(t),
            None => return self.default_step_exec(),
        };
        match check_text(text.as_str()) {
            Err(e) => {
                self.skipped.push(cat("[base] ref: ", e.as_str()));
                let ghost mid = *self;
                let step = self.default_step_exec();
                proof {
                    assert(views(mid.skipped@) =~= views(old(self).skipped@).push("[base] ref: "@ + not_a_commit(text@)));
                    assert(Self::default_step(mid, *self, step));
                }
                step
            },
            Ok(()) => {
                self.stage = Stage::Config(copy(&text));
                Step::Ask(Ask::Verify(text))
            },
        }
    }
}

pub open spec fn base_view(b: Base) -> (Seq<char>, Seq<char>, Option<Seq<char>>, BaseSource) {
    (b.requested@, b.commit@, opt_view(b.merge_base), b.source)
}

pub open spec fn opt_base_view(b: Option<Base>) -> Option<(Seq<char>, Seq<char>, Option<Seq<char>>, BaseSource)> {
    match b {
        Some(b) => Some(base_view(b)),
        None => None,
    }
}

impl Resolver {
    /// The remembered pick: verified when git may see it, skipped with its reason otherwise;
    /// then `[base] ref`.
    pub open spec fn pick_step(old: Resolver, pick: Option<Seq<char>>, new: Resolver, step: Step) -> bool {
        match pick {
            None => Self::config_step(old, new, step),
            Some(t) => if refused_text(t) {
                exists|mid: Resolver|
                    #![trigger Self::config_step(mid, new, step)]
                    views(mid.skipped@) == views(old.skipped@).push("remembered pick: "@ + not_a_commit(t))
                        && mid.keeps_found(old) && Self::config_step(mid, new, step)
            } else {
                &&& new.keeps_found(old)
                &&& views(new.skipped@) == views(old.skipped@)
                &&& new.stage matches Stage::Pick(p) && p@ == t
                &&& step matches Step::Ask(Ask::Verify(v)) && v@ == t
            },
        }
    }

    fn pick_step_exec(&mut self, pick: Option<String>) -> (step: Step)
        ensures
            Self::pick_step(*old(self), opt_view(pick), *final(self), step),
    {
        let text = match pick {
            Some(t) => t,
            None => return self.config_step_exec(),
        };
        match check_text(text.as_str()) {
            Err(e) => {
                self.skipped.push(cat("remembered pick: ", e.as_str()));
                let ghost mid = *self;
                let step = self.config_step_exec();
                proof {
                    assert(views(mid.skipped@) =~= views(old(self).skipped@).push(
                        "remembered pick: "@ + not_a_commit(text@),
                    ));
                    assert(Self::config_step(mid, *self, step));
                }
                step
            },
            Ok(()) => {
                self.stage = Stage::Pick(copy(&text));
                Step::Ask(Ask::Verify(text))
            },
        }
    }

    /// A new resolution: the session's pick (or reset) when there is one, else the
    /// remembered pick when a state directory is known, else the configured base.
    pub fn start(inputs: ResolveInputs) -> (r: (Resolver, Step))
        ensures
            exists|fresh: Resolver|
                #![trigger fresh.keeps_found(fresh)]
                fresh.keeps_found(fresh) && fresh.config == inputs.config && fresh.picked is None && fresh.default is None
                    && fresh.skipped@.len() == 0 && match inputs.session_pick {
                    Some(p) => Self::pick_step(fresh, opt_view(p), r.0, r.1),
                    None => match inputs.state_dir {
                        Some(_) => r.0.keeps_found(fresh) && r.0.skipped@.len() == 0 && r.0.stage == Stage::Picks
                            && r.1 == Step::Ask(Ask::LoadPicks),
                        None => Self::pick_step(fresh, None, r.0, r.1),
                    },
                },
    {
        let mut r = Resolver {
            config: inputs.config,
            skipped: Vec::new(),
            picked: None,
            default: None,
            candidates: Vec::new(),
            stage: Stage::Picks,
        };
        let ghost fresh = r;
        let step = match inputs.session_pick {
            Some(p) => r.pick_step_exec(p),
            None => match inputs.state_dir {
                Some(_) => Step::Ask(Ask::LoadPicks),
                None => r.pick_step_exec(None),
            },
        };
        proof {
            assert(fresh.keeps_found(fresh));
        }
        (r, step)
    }

    /// The picks file's answer: a problem reading it is skipped with its reason; then the
    /// pick it remembers for this toplevel, if any.
    pub fn answer_picks(&mut self, pick: Option<String>, problem: Option<String>) -> (step: Step)
        requires
            old(self).stage == Stage::Picks,
        ensures
            exists|mid: Resolver|
                #![trigger Self::pick_step(mid, opt_view(pick), *final(self), step)]
                views(mid.skipped@) == match problem {
                    Some(p) => views(old(self).skipped@).push(p@),
                    None => views(old(self).skipped@),
                } && mid.keeps_found(*old(self)) && Self::pick_step(mid, opt_view(pick), *final(self), step),
    {
        let ghost pv = opt_view(pick);
        match problem {
            Some(p) => {
                self.skipped.push(p);
            },
            None => {},
        }
        let ghost mid = *self;
        let step = self.pick_step_exec(pick);
        proof {
            assert(Self::pick_step(mid, pv, *self, step));
        }
        step
    }

    /// Whether the resolver waits for a verification.
    pub open spec fn awaits_verify(&self) -> bool {
        match self.stage {
            Stage::Pick(_) => true,
            Stage::Config(_) => true,
            Stage::Candidate(i) => i < self.candidates@.len(),
            _ => false,
        }
    }

    /// A verification answered.
    pub open spec fn verified(old: Resolver, result: Result<String, String>, new: Resolver, step: Step) -> bool {
        match old.stage {
            Stage::Pick(t) => exists|mid: Resolver|
                #![trigger Self::config_step(mid, new, step)]
                mid.config == old.config && mid.default == old.default && Self::config_step(mid, new, step) && match result {
                    Ok(c) => opt_base_view(mid.picked) == Some((t@, c@, None::<Seq<char>>, BaseSource::Picked))
                        && views(mid.skipped@) == views(old.skipped@),
                    Err(e) => mid.picked == old.picked && views(mid.skipped@) == views(old.skipped@).push(
                        "remembered pick: "@ + e@,
                    ),
                },
            Stage::Config(t) => exists|mid: Resolver|
                #![trigger Self::default_step(mid, new, step)]
                mid.config == old.config && mid.picked == old.picked && Self::default_step(mid, new, step) && match result {
                    Ok(c) => opt_base_view(mid.default) == Some((t@, c@, None::<Seq<char>>, BaseSource::Config))
                        && views(mid.skipped@) == views(old.skipped@),
                    Err(e) => mid.default == old.default && views(mid.skipped@) == views(old.skipped@).push(
                        "[base] ref: "@ + e@,
                    ),
                },
            Stage::Candidate(i) => match result {
                Ok(c) => {
                    &&& new.config == old.config
                    &&& new.picked == old.picked
                    &&& opt_base_view(new.default) == Some(
                        (old.candidates@[i as int]@, c@, None::<Seq<char>>, BaseSource::Default),
                    )
                    &&& views(new.skipped@) == views(old.skipped@)
                    &&& new.stage == Stage::Finished
                    &&& step == Step::Done
                },
                Err(_) => Self::candidate_step(old, i + 1, new, step),
            },
            _ => false,
        }
    }

    /// The answer to a `Verify` ask: a commit found, or the reason it was not.
    pub fn answer_verify(&mut self, result: Result<String, String>) -> (step: Step)
        requires
            old(self).awaits_verify(),
        ensures
            Self::verified(*old(self), result, *final(self), step),
    {
        let at: Option<usize> = match &self.stage {
            Stage::Candidate(i) => Some(*i),
            _ => None,
        };
        let count = self.candidates.len();
        if let Some(i) = at {
            proof {
                assert(i < count);
            }
            return match result {
                Ok(c) => {
                    self.default = Some(
                        Base { requested: copy(&self.candidates[i]), commit: c, merge_base: None, source: BaseSource::Default },
                    );
                    self.stage = Stage::Finished;
                    Step::Done
                },
                Err(_) => self.try_candidate(i + 1),
            };
        }
        let (kind, t): (u8, String) = match &self.stage {
            Stage::Pick(t) => (0, copy(t)),
            Stage::Config(t) => (1, copy(t)),
            _ => (3, String::new()),
        };
        match kind {
            0 => {
                match result {
                    Ok(c) => {
                        self.picked = Some(Base { requested: copy(&t), commit: c, merge_base: None, source: BaseSource::Picked });
                    },
                    Err(e) => {
                        self.skipped.push(cat("remembered pick: ", e.as_str()));
                        proof {
                            assert(views(self.skipped@) =~= views(old(self).skipped@).push("remembered pick: "@ + e@));
                        }
                    },
                }
                let ghost mid = *self;
                let step = self.config_step_exec();
                proof {
                    assert(Self::config_step(mid, *self, step));
                    assert(views(mid.skipped@) =~= views(mid.skipped@));
                }
                step
            },
            1 => {
                match result {
                    Ok(c) => {
                        self.default = Some(Base { requested: copy(&t), commit: c, merge_base: None, source: BaseSource::Config });
                    },
                    Err(e) => {
                        self.skipped.push(cat("[base] ref: ", e.as_str()));
                        proof {
                            assert(views(self.skipped@) =~= views(old(self).skipped@).push("[base] ref: "@ + e@));
                        }
                    },
                }
                let ghost mid = *self;
                let step = self.default_step_exec();
                proof {
                    assert(Self::default_step(mid, *self, step));
                }
                step
            },
            _ => Step::Done,
        }
    }

    /// Where `origin/HEAD` points (its `symbolic-ref` output, on success): a non-empty
    /// target is tried after `main`, and `master` last.
    pub fn answer_origin_head(&mut self, target: Option<String>) -> (step: Step)
        requires
            old(self).stage == Stage::OriginHead,
        ensures
            exists|mid: Resolver|
                #![trigger Self::candidate_step(mid, 0, *final(self), step)]
                mid.keeps_found(*old(self)) && views(mid.skipped@) == views(old(self).skipped@) && views(mid.candidates@)
                    == views(old(self).candidates@) + match target {
                    Some(t) => if trim_spec(t@).len() > 0 {
                        seq![trim_spec(t@), "refs/heads/master"@]
                    } else {
                        seq!["refs/heads/master"@]
                    },
                    None => seq!["refs/heads/master"@],
                } && Self::candidate_step(mid, 0, *final(self), step),
    {
        let ghost before = views(self.candidates@);
        match target {
            Some(t) => {
                let t = trim(t.as_str());
                if t.unicode_len() > 0 {
                    self.candidates.push(t);
                }
            },
            None => {},
        }
        self.candidates.push(own("refs/heads/master"));
        let ghost mid = *self;
        proof {
            reveal_strlit("refs/heads/master");
            assert(views(mid.candidates@) =~= before + match target {
                Some(t) => if trim_spec(t@).len() > 0 {
                    seq![trim_spec(t@), "refs/heads/master"@]
                } else {
                    seq!["refs/heads/master"@]
                },
                None => seq!["refs/heads/master"@],
            });
        }
        self.try_candidate(0)
    }

    /// The resolution: the verified pick, else the default; the default's name for the
    /// reset row; and every skipped step with its reason.
    pub fn finish(self) -> (r: Resolution)
        ensures
            r.base == if self.picked is Some {
                self.picked
            } else {
                self.default
            },
            opt_view(r.default) == match self.default {
                Some(b) => Some(b.requested@),
                None => None,
            },
            r.skipped == self.skipped,
    {
        let default = match &self.default {
            Some(b) => Some(copy(&b.requested)),
            None => None,
        };
        let base = match self.picked {
            Some(p) => Some(p),
            None => self.default,
        };
        Resolution { base, default, skipped: self.skipped }
    }
}

} // verus!
