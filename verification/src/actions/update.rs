//! Which release an update installs.
use vstd::prelude::*;

use crate::engine::gitver::{digits_value, is_digit, lemma_digits_value_grows};
use crate::strs::{
    chars, collect, ends_with, is_prefix, is_suffix, lemma_newline_from, lemma_split_on_nonempty, lines_from,
    newline_from, own, copy, split, split_on, strip_prefix, views,
};

verus! {

/// A run of decimal digits as a `u64`: none when empty, not all digits, or out of range.
pub open spec fn digits_u64(d: Seq<char>) -> Option<u64> {
    if d.len() > 0 && (forall|j: int| 0 <= j < d.len() ==> is_digit(#[trigger] d[j])) && digits_value(d)
        <= u64::MAX {
        Some(digits_value(d) as u64)
    } else {
        None
    }
}

/// `u64::from_str`: an optional `+`, then the digits.
pub open spec fn parse_u64_spec(s: Seq<char>) -> Option<u64> {
    digits_u64(
        if s.len() > 0 && s[0] == '+' {
            s.drop_first()
        } else {
            s
        },
    )
}

/// A release version: exactly three dot-separated numbers.
pub open spec fn version_spec(s: Seq<char>) -> Option<(u64, u64, u64)> {
    let parts = split_on(s, '.');
    if parts.len() == 3 {
        match (parse_u64_spec(parts[0]), parse_u64_spec(parts[1]), parse_u64_spec(parts[2])) {
            (Some(a), Some(b), Some(c)) => Some((a, b, c)),
            _ => None,
        }
    } else {
        None
    }
}

/// Versions in release order: by major, then minor, then patch.
pub open spec fn version_le(a: (u64, u64, u64), b: (u64, u64, u64)) -> bool {
    a.0 < b.0 || (a.0 == b.0 && (a.1 < b.1 || (a.1 == b.1 && a.2 <= b.2)))
}

pub open spec fn tags_prefix() -> Seq<char> {
    "refs/tags/"@
}

pub open spec fn peeled_suffix() -> Seq<char> {
    "^{}"@
}

/// The tag an `ls-remote` line names in its second tab-separated field, unless it is a
/// peeled entry.
pub open spec fn tag_of_line(line: Seq<char>) -> Option<Seq<char>> {
    let fields = split_on(line, '\t');
    if fields.len() < 2 || !is_prefix(tags_prefix(), fields[1]) {
        None
    } else {
        let t = fields[1].skip(tags_prefix().len() as int);
        if is_suffix(peeled_suffix(), t) {
            None
        } else {
            Some(t)
        }
    }
}

/// The version a tag names: `v` then a version.
pub open spec fn tag_version(t: Seq<char>) -> Option<(u64, u64, u64)> {
    if t.len() > 0 && t[0] == 'v' {
        version_spec(t.drop_first())
    } else {
        None
    }
}

/// The highest-versioned tag of `lines[i..]`, starting from `best`; of equal versions the
/// later one.
pub open spec fn best_tag(lines: Seq<Seq<char>>, i: int, best: Option<((u64, u64, u64), Seq<char>)>) -> Option<Seq<char>>
    decreases lines.len() - i,
{
    if i < 0 || i >= lines.len() {
        match best {
            Some((_, t)) => Some(t),
            None => None,
        }
    } else {
        let next = match tag_of_line(lines[i]) {
            Some(t) => match tag_version(t) {
                Some(v) => match best {
                    Some((bv, _)) => if version_le(bv, v) {
                        Some((v, t))
                    } else {
                        best
                    },
                    None => Some((v, t)),
                },
                None => best,
            },
            None => best,
        };
        best_tag(lines, i + 1, next)
    }
}

pub open spec fn best_view(b: Option<((u64, u64, u64), String)>) -> Option<((u64, u64, u64), Seq<char>)> {
    match b {
        Some((v, t)) => Some((v, t@)),
        None => None,
    }
}

proof fn lemma_parse_none(s: Seq<char>, d: Seq<char>)
    requires
        d == if s.len() > 0 && s[0] == '+' {
            s.drop_first()
        } else {
            s
        },
        !(forall|j: int| 0 <= j < d.len() ==> is_digit(#[trigger] d[j])) || digits_value(d) > u64::MAX,
    ensures
        parse_u64_spec(s) is None,
{
}

/// `u64::from_str`.
fn parse_u64(s: &str) -> (r: Option<u64>)
    ensures
        r == parse_u64_spec(s@),
{
    let v = chars(s);
    let mut from: usize = 0;
    if v.len() > 0 && v[0] == '+' {
        from = 1;
    }
    let ghost d = v@.skip(from as int);
    proof {
        assert(d == if s@.len() > 0 && s@[0] == '+' {
            s@.drop_first()
        } else {
            s@
        });
    }
    if from == v.len() {
        return None;
    }
    let mut value: u64 = 0;
    let mut j = from;
    while j < v.len()
        invariant
            v@ == s@,
            d == v@.skip(from as int),
            d == if s@.len() > 0 && s@[0] == '+' {
                s@.drop_first()
            } else {
                s@
            },
            from < v@.len(),
            from <= j <= v@.len(),
            forall|k: int| from <= k < j ==> is_digit(#[trigger] v@[k]),
            value == digits_value(v@.subrange(from as int, j as int)),
        decreases v@.len() - j,
    {
        if !('0' <= v[j] && v[j] <= '9') {
            proof {
                let k = j - from;
                assert(d[k] == v@[j as int]);
                assert(!is_digit(d[k]));
                assert(!(forall|k2: int| 0 <= k2 < d.len() ==> is_digit(#[trigger] d[k2])));
                lemma_parse_none(s@, d);
            }
            return None;
        }
        let dg = (v[j] as u32 - '0' as u32) as u64;
        proof {
            assert(v@.subrange(from as int, j + 1).drop_last() == v@.subrange(from as int, j as int));
            assert(v@.subrange(from as int, j + 1).last() == v@[j as int]);
        }
        if value > (u64::MAX - dg) / 10 {
            proof {
                assert(digits_value(v@.subrange(from as int, j + 1)) > u64::MAX) by (nonlinear_arith)
                    requires
                        digits_value(v@.subrange(from as int, j + 1)) == value * 10 + dg,
                        value > (u64::MAX - dg) / 10,
                        dg <= 9,
                ;
                let pre = v@.subrange(from as int, j + 1);
                assert(d.take((j + 1 - from) as int) =~= pre);
                if forall|k: int| 0 <= k < d.len() ==> is_digit(#[trigger] d[k]) {
                    lemma_digits_value_grows(d, (j + 1 - from) as int);
                    assert(digits_value(d) > u64::MAX);
                }
                lemma_parse_none(s@, d);
            }
            return None;
        }
        value = value * 10 + dg;
        j = j + 1;
    }
    proof {
        assert(v@.subrange(from as int, v@.len() as int) == d);
    }
    Some(value)
}

/// A release version: exactly three dot-separated numbers.
fn version(value: &str) -> (r: Option<(u64, u64, u64)>)
    ensures
        r == version_spec(value@),
{
    let parts = split(value, '.');
    proof {
        assert(views(parts@).len() == parts@.len());
    }
    if parts.len() != 3 {
        return None;
    }
    proof {
        assert(views(parts@)[0] == parts@[0]@);
        assert(views(parts@)[1] == parts@[1]@);
        assert(views(parts@)[2] == parts@[2]@);
    }
    let a = match parse_u64(parts[0].as_str()) {
        Some(a) => a,
        None => return None,
    };
    let b = match parse_u64(parts[1].as_str()) {
        Some(b) => b,
        None => return None,
    };
    let c = match parse_u64(parts[2].as_str()) {
        Some(c) => c,
        None => return None,
    };
    Some((a, b, c))
}

fn tag_in_line(line: &str) -> (r: Option<String>)
    ensures
        match r {
            Some(t) => tag_of_line(line@) == Some(t@),
            None => tag_of_line(line@) is None,
        },
{
    let fields = split(line, '\t');
    proof {
        lemma_split_on_nonempty(line@, '\t');
        assert(views(fields@).len() == fields@.len());
    }
    if fields.len() < 2 {
        return None;
    }
    proof {
        assert(views(fields@)[1] == fields@[1]@);
        reveal_strlit("refs/tags/");
        reveal_strlit("^{}");
    }
    let t = match strip_prefix(fields[1].as_str(), "refs/tags/") {
        Some(t) => t,
        None => return None,
    };
    if ends_with(t.as_str(), "^{}") {
        return None;
    }
    Some(t)
}

fn version_of_tag(t: &str) -> (r: Option<(u64, u64, u64)>)
    ensures
        r == tag_version(t@),
{
    let v = chars(t);
    if v.len() > 0 && v[0] == 'v' {
        let rest = collect(&v, 1, v.len());
        proof {
            assert(v@.subrange(1, v@.len() as int) == t@.drop_first());
        }
        version(rest.as_str())
    } else {
        None
    }
}

/// The newest release tag in `git ls-remote --tags` output: `v` and three numbers, compared
/// as numbers; peeled entries and other tags are ignored.
pub fn latest_tag(ls_remote_output: &str) -> (r: Option<String>)
    ensures
        match r {
            Some(t) => best_tag(lines_from(ls_remote_output@, 0), 0, None) == Some(t@),
            None => best_tag(lines_from(ls_remote_output@, 0), 0, None) is None,
        },
{
    let v = chars(ls_remote_output);
    let n = v.len();
    let ghost s = v@;
    let mut best: Option<((u64, u64, u64), String)> = None;
    let mut start: usize = 0;
    proof {
        assert(s == ls_remote_output@);
    }
    while start < n
        invariant
            s == v@,
            s == ls_remote_output@,
            n == s.len(),
            start <= n,
            best_tag(lines_from(s, 0), 0, None) == best_tag(
                lines_from(s, start as int),
                0,
                best_view(best),
            ),
        decreases n - start,
    {
        let mut e = start;
        while e < n && v[e] != '\n'
            invariant
                n == v@.len(),
                start <= e <= n,
                newline_from(v@, start as int) == newline_from(v@, e as int),
            decreases n - e,
        {
            e = e + 1;
        }
        proof {
            lemma_newline_from(s, start as int);
        }
        let cut = if e < n && e > start && v[e - 1] == '\r' {
            e - 1
        } else {
            e
        };
        let line = collect(&v, start, cut);
        let ghost bview = best_view(best);
        proof {
            let raw = s.subrange(start as int, e as int);
            assert(lines_from(s, start as int)[0] == line@) by {
                if e < n && raw.len() > 0 && raw[raw.len() - 1] == '\r' {
                    assert(raw.drop_last() == s.subrange(start as int, cut as int));
                }
            }
            let rest = if e < n {
                lines_from(s, e + 1)
            } else {
                Seq::<Seq<char>>::empty()
            };
            assert(lines_from(s, start as int) == seq![line@] + rest);
            assert(lines_from(s, start as int).drop_first() =~= rest);
            lemma_best_tag_step(lines_from(s, start as int), bview);
        }
        match tag_in_line(line.as_str()) {
            Some(t) => match version_of_tag(t.as_str()) {
                Some(tv) => {
                    let replace = match &best {
                        Some((bv, _)) => bv.0 < tv.0 || (bv.0 == tv.0 && (bv.1 < tv.1 || (bv.1 == tv.1
                            && bv.2 <= tv.2))),
                        None => true,
                    };
                    if replace {
                        best = Some((tv, t));
                    }
                },
                None => {},
            },
            None => {},
        }
        start = if e < n {
            e + 1
        } else {
            n
        };
        proof {
            if e >= n {
                assert(lines_from(s, start as int) == Seq::<Seq<char>>::empty());
            }
        }
    }
    match best {
        Some((_, t)) => Some(t),
        None => None,
    }
}

/// Taking one line: the best of the rest, from the best so far updated by that line.
proof fn lemma_best_tag_step(lines: Seq<Seq<char>>, best: Option<((u64, u64, u64), Seq<char>)>)
    requires
        lines.len() > 0,
    ensures
        best_tag(lines, 0, best) == best_tag(
            lines.drop_first(),
            0,
            match tag_of_line(lines[0]) {
                Some(t) => match tag_version(t) {
                    Some(v) => match best {
                        Some((bv, _)) => if version_le(bv, v) {
                            Some((v, t))
                        } else {
                            best
                        },
                        None => Some((v, t)),
                    },
                    None => best,
                },
                None => best,
            },
        ),
{
    let next = match tag_of_line(lines[0]) {
        Some(t) => match tag_version(t) {
            Some(v) => match best {
                Some((bv, _)) => if version_le(bv, v) {
                    Some((v, t))
                } else {
                    best
                },
                None => Some((v, t)),
            },
            None => best,
        },
        None => best,
    };
    lemma_best_tag_shift(lines, 1, next);
}

/// `best_tag` from index `i` is `best_tag` of the lines from `i` on.
proof fn lemma_best_tag_shift(lines: Seq<Seq<char>>, i: int, best: Option<((u64, u64, u64), Seq<char>)>)
    requires
        0 <= i <= lines.len(),
    ensures
        best_tag(lines, i, best) == best_tag(lines.skip(i), 0, best),
    decreases lines.len() - i,
{
    if i < lines.len() {
        let next = match tag_of_line(lines[i]) {
            Some(t) => match tag_version(t) {
                Some(v) => match best {
                    Some((bv, _)) => if version_le(bv, v) {
                        Some((v, t))
                    } else {
                        best
                    },
                    None => Some((v, t)),
                },
                None => best,
            },
            None => best,
        };
        lemma_best_tag_shift(lines, i + 1, next);
        assert(lines.skip(i)[0] == lines[i]);
        assert(lines.skip(i).skip(1) =~= lines.skip(i + 1));
        lemma_best_tag_shift(lines.skip(i), 1, next);
    } else {
        assert(lines.skip(i).len() == 0);
    }
}

/// The release version a line names, if any.
pub open spec fn release_of_line(line: Seq<char>) -> Option<(u64, u64, u64)> {
    match tag_of_line(line) {
        Some(u) => tag_version(u),
        None => None,
    }
}

/// The best tag from `i` on is the starting best or a tag of those lines, and its version
/// is at least every candidate's.
#[verifier::rlimit(40)]
proof fn lemma_best_tag_is_highest(lines: Seq<Seq<char>>, i: int, best: Option<((u64, u64, u64), Seq<char>)>)
    requires
        0 <= i <= lines.len(),
        best matches Some((bv, bt)) ==> tag_version(bt) == Some(bv),
    ensures
        match best_tag(lines, i, best) {
            Some(t) => tag_version(t) is Some && (best matches Some((bv, _)) ==> version_le(bv, tag_version(t)->0))
                && forall|k: int|
                i <= k < lines.len() ==> (release_of_line(#[trigger] lines[k]) is Some ==> version_le(
                    release_of_line(lines[k])->0,
                    tag_version(t)->0,
                )),
            None => best is None && forall|k: int|
                i <= k < lines.len() ==> release_of_line(#[trigger] lines[k]) is None,
        },
    decreases lines.len() - i,
{
    if i < lines.len() {
        let r = release_of_line(lines[i]);
        let next = match tag_of_line(lines[i]) {
            Some(t) => match tag_version(t) {
                Some(v) => match best {
                    Some((bv, _)) => if version_le(bv, v) {
                        Some((v, t))
                    } else {
                        best
                    },
                    None => Some((v, t)),
                },
                None => best,
            },
            None => best,
        };
        lemma_best_tag_is_highest(lines, i + 1, next);
        assert(best_tag(lines, i, best) == best_tag(lines, i + 1, next));
        match best_tag(lines, i + 1, next) {
            Some(t) => {
                let tv = tag_version(t)->0;
                assert(next matches Some((nv, _)) ==> version_le(nv, tv));
                assert(r matches Some(v) ==> next matches Some((nv, _)) && version_le(v, nv));
                assert(best matches Some((bv, _)) ==> next matches Some((nv, _)) && version_le(bv, nv));
                assert forall|k: int|
                    i <= k < lines.len() && release_of_line(#[trigger] lines[k]) is Some implies version_le(
                        release_of_line(lines[k])->0,
                        tv,
                    ) by {
                    if k == i && r is Some {
                        let v = r->0;
                        let nv = next.unwrap().0;
                        assert(version_le(v, nv));
                        assert(version_le(nv, tv));
                    }
                }
            },
            None => {
                assert(r is None);
            },
        }
    }
}

/// The update installs the highest release: the tag `latest_tag` picks has a version, and
/// no release tag listed has a higher one.
pub proof fn law_latest_tag_is_the_highest_release(lines: Seq<Seq<char>>, t: Seq<char>)
    requires
        best_tag(lines, 0, None) == Some(t),
    ensures
        tag_version(t) is Some,
        forall|k: int|
            0 <= k < lines.len() ==> (release_of_line(#[trigger] lines[k]) is Some ==> version_le(
                release_of_line(lines[k])->0,
                tag_version(t)->0,
            )),
{
    lemma_best_tag_is_highest(lines, 0, None);
}

/// The plugins the host's `plugin list --json` output lists, each as its `plugin_id` and its
/// `source.kind` where those are strings; serde_json's error text where the output is not JSON.
/// The list is empty where `result.plugins` is not an array. It depends on the output alone.
pub uninterp spec fn plugin_list(list_json: Seq<u8>) -> Result<Seq<(Option<Seq<char>>, Option<Seq<char>>)>, Seq<char>>;

pub open spec fn listed_view(v: Seq<(Option<String>, Option<String>)>) -> Seq<(Option<Seq<char>>, Option<Seq<char>>)> {
    v.map_values(|p: (Option<String>, Option<String>)| (crate::strs::opt_view(p.0), crate::strs::opt_view(p.1)))
}

/// `serde_json::from_slice::<Value>(list_json)`, then each entry of `result.plugins` as its
/// `plugin_id` and `source.kind` read with `as_str`. JSON's grammar and serde_json's wording are
/// left to the name `plugin_list`.
#[verifier::external_body]
fn listed_plugins(list_json: &[u8]) -> (r: Result<Vec<(Option<String>, Option<String>)>, String>)
    ensures
        match r {
            Ok(v) => plugin_list(list_json@) == Ok::<Seq<(Option<Seq<char>>, Option<Seq<char>>)>, Seq<char>>(listed_view(v@)),
            Err(e) => plugin_list(list_json@) == Err::<Seq<(Option<Seq<char>>, Option<Seq<char>>)>, Seq<char>>(e@),
        },
{
    let value: serde_json::Value = serde_json::from_slice(list_json).map_err(|e| e.to_string())?;
    let plugins = value["result"]["plugins"].as_array().cloned().unwrap_or_default();
    Ok(plugins
        .iter()
        .map(|p| (p["plugin_id"].as_str().map(str::to_owned), p["source"]["kind"].as_str().map(str::to_owned)))
        .collect())
}

/// The install kind of the first listed plugin named `plugin_id`, from entry `i` on; `None`
/// when none is listed or its kind is not a string.
pub open spec fn kind_of(list: Seq<(Option<Seq<char>>, Option<Seq<char>>)>, plugin_id: Seq<char>, i: int) -> Option<Seq<char>>
    decreases list.len() - i,
{
    if i < 0 || i >= list.len() {
        None
    } else if list[i].0 == Some(plugin_id) {
        list[i].1
    } else {
        kind_of(list, plugin_id, i + 1)
    }
}

fn find_kind(list: &Vec<(Option<String>, Option<String>)>, plugin_id: &str) -> (r: Option<String>)
    ensures
        crate::strs::opt_view(r) == kind_of(listed_view(list@), plugin_id@, 0),
{
    let mut i: usize = 0;
    while i < list.len()
        invariant
            i <= list@.len(),
            kind_of(listed_view(list@), plugin_id@, 0) == kind_of(listed_view(list@), plugin_id@, i as int),
        decreases list@.len() - i,
    {
        let matches = match &list[i].0 {
            Some(id) => crate::strs::same(id.as_str(), plugin_id),
            None => false,
        };
        if matches {
            return match &list[i].1 {
                Some(k) => Some(copy(k)),
                None => None,
            };
        }
        i = i + 1;
    }
    None
}

pub open spec fn not_github() -> Seq<char> {
    "update requires a GitHub install; linked or unknown installs must be updated locally"@
}

/// Only an install from GitHub is updated here: a linked or unknown install is refused, and
/// output that is not JSON is an error with serde_json's text.
pub fn check_github_install(list_json: &[u8], plugin_id: &str) -> (r: Result<(), String>)
    ensures
        match plugin_list(list_json@) {
            Err(e) => r matches Err(m) && m@ == e,
            Ok(list) => if kind_of(list, plugin_id@, 0) == Some("github"@) {
                r is Ok
            } else {
                (r matches Err(m) && m@ == not_github())
            },
        },
{
    match listed_plugins(list_json) {
        Err(e) => Err(e),
        Ok(list) => {
            let kind = find_kind(&list, plugin_id);
            let github = match &kind {
                Some(k) => crate::strs::same(k.as_str(), "github"),
                None => false,
            };
            if github {
                Ok(())
            } else {
                Err(own("update requires a GitHub install; linked or unknown installs must be updated locally"))
            }
        },
    }
}

/// What an update does once the release tags are listed: install the newest tag, or nothing
/// when the running version is as new.
#[derive(Debug, Clone, PartialEq, Eq)]
pub enum UpdatePlan {
    UpToDate,
    Install(String),
}

pub open spec fn no_tags() -> Seq<char> {
    "no release tags found (expected vMAJOR.MINOR.PATCH)"@
}

/// The plan for `ls-remote` output and the running version: `Some(tag)` to install it,
/// `None` when already up to date, or the error that stops the update.
pub open spec fn update_plan(ls_remote_output: Seq<char>, running: Seq<char>) -> Result<Option<Seq<char>>, Seq<char>> {
    match best_tag(lines_from(ls_remote_output, 0), 0, None) {
        None => Err(no_tags()),
        Some(tag) => match tag_version(tag) {
            None => Err("invalid release version"@),
            Some(newest) => match version_spec(running) {
                None => Err("invalid running version"@),
                Some(current) => if version_le(newest, current) { Ok(None) } else { Ok(Some(tag)) },
            },
        },
    }
}

/// Decides the update: the newest release tag against the running version.
pub fn plan_update(ls_remote_output: &str, running_version: &str) -> (r: Result<UpdatePlan, String>)
    ensures
        match update_plan(ls_remote_output@, running_version@) {
            Err(e) => r matches Err(m) && m@ == e,
            Ok(None) => r == Ok::<UpdatePlan, String>(UpdatePlan::UpToDate),
            Ok(Some(tag)) => r matches Ok(UpdatePlan::Install(t)) && t@ == tag,
        },
{
    let tag = match latest_tag(ls_remote_output) {
        Some(t) => t,
        None => return Err(own("no release tags found (expected vMAJOR.MINOR.PATCH)")),
    };
    let newest = match version_of_tag(tag.as_str()) {
        Some(v) => v,
        None => return Err(own("invalid release version")),
    };
    let current = match version(running_version) {
        Some(v) => v,
        None => return Err(own("invalid running version")),
    };
    let up_to_date = newest.0 < current.0 || (newest.0 == current.0 && (newest.1 < current.1
        || (newest.1 == current.1 && newest.2 <= current.2)));
    if up_to_date {
        Ok(UpdatePlan::UpToDate)
    } else {
        Ok(UpdatePlan::Install(tag))
    }
}

/// An update installs the newest release tag exactly when its version is greater than the
/// running one, comparing major, then minor, then patch; otherwise, with both versions read,
/// it installs nothing.
pub proof fn law_only_a_newer_release_is_installed(ls_remote_output: Seq<char>, running: Seq<char>)
    ensures
        update_plan(ls_remote_output, running) is Ok ==> (
            best_tag(lines_from(ls_remote_output, 0), 0, None) matches Some(tag)
            && tag_version(tag) matches Some(n)
            && version_spec(running) matches Some(c)
            && (update_plan(ls_remote_output, running) == Ok::<Option<Seq<char>>, Seq<char>>(Some(tag)) <==> (
                n.0 > c.0 || (n.0 == c.0 && (n.1 > c.1 || (n.1 == c.1 && n.2 > c.2)))))
            && (update_plan(ls_remote_output, running) == Ok::<Option<Seq<char>>, Seq<char>>(None) <==> !(
                n.0 > c.0 || (n.0 == c.0 && (n.1 > c.1 || (n.1 == c.1 && n.2 > c.2)))))),
{
}

} // verus!
