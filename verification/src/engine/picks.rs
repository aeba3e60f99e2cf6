//! The remembered base picks: `bases.json`, a JSON object from a repository's canonical
//! toplevel to the text picked as its base.
use vstd::prelude::*;

use crate::engine::branch::pairs_map;
use crate::strs::{cat, copy, opt_view, own, same};

verus! {

/// The file in the state directory that holds the picks.
pub const PICKS_FILE: &'static str = "bases.json";

/// What a picks file's text holds: serde_json's error text where it is not a JSON object of
/// strings, else that object. It depends on the text alone.
pub uninterp spec fn picks_json(text: Seq<char>) -> Result<Map<Seq<char>, Seq<char>>, Seq<char>>;

/// No two pairs share a key.
pub open spec fn distinct_keys(v: Seq<(String, String)>) -> bool {
    forall|i: int, j: int| 0 <= i < j < v.len() ==> #[trigger] v[i].0@ != #[trigger] v[j].0@
}

/// `serde_json::from_str::<BTreeMap<String, String>>(text)`, its entries handed out as pairs,
/// one per key, as a map holds them. JSON's grammar and serde_json's wording are left to the
/// name `picks_json`.
#[verifier::external_body]
fn parse_picks(text: &str) -> (r: Result<Vec<(String, String)>, String>)
    ensures
        match r {
            Ok(v) => picks_json(text@) == Ok::<Map<Seq<char>, Seq<char>>, Seq<char>>(pairs_map(v@)) && distinct_keys(v@),
            Err(e) => picks_json(text@) == Err::<Map<Seq<char>, Seq<char>>, Seq<char>>(e@),
        },
{
    let map: std::collections::BTreeMap<String, String> = serde_json::from_str(text).map_err(|e| e.to_string())?;
    Ok(map.into_iter().collect())
}

/// What serde_json writes, pretty-printed, for a map of strings. It depends on the map alone.
pub uninterp spec fn picks_written(picks: Map<Seq<char>, Seq<char>>) -> Seq<char>;

/// `serde_json::to_string_pretty` of the picks gathered in a `BTreeMap<String, String>`; the
/// keys are distinct, so the map holds every pair. Writing a map of strings cannot fail, and
/// serde_json reads its own output back as the same map: the text parses to the map written.
#[verifier::external_body]
fn write_picks(picks: &Vec<(String, String)>) -> (r: String)
    requires
        distinct_keys(picks@),
    ensures
        r@ == picks_written(pairs_map(picks@)),
        (picks_json(r@) == Ok::<Map<Seq<char>, Seq<char>>, Seq<char>>(pairs_map(picks@))),
{
    let map: std::collections::BTreeMap<&String, &String> = picks.iter().map(|(k, v)| (k, v)).collect();
    serde_json::to_string_pretty(&map).unwrap_or_default()
}

pub open spec fn lookup(m: Map<Seq<char>, Seq<char>>, key: Seq<char>) -> Option<Seq<char>> {
    if m.dom().contains(key) {
        Some(m[key])
    } else {
        None
    }
}

/// The picks a file's text gives, empty where it is missing (`None`) or malformed.
pub open spec fn picks_of(text: Option<Seq<char>>) -> Map<Seq<char>, Seq<char>> {
    match text {
        Some(t) => match picks_json(t) {
            Ok(m) => m,
            Err(_) => Map::empty(),
        },
        None => Map::empty(),
    }
}

/// The problem a file's text has: `bases.json: ` and serde_json's error where it is
/// malformed.
pub open spec fn picks_problem(text: Option<Seq<char>>) -> Option<Seq<char>> {
    match text {
        Some(t) => match picks_json(t) {
            Ok(_) => None,
            Err(e) => Some("bases.json: "@ + e),
        },
        None => None,
    }
}

/// The value of the last pair whose key is `key`: what the pairs gathered in a map hold.
fn find_pick(picks: &Vec<(String, String)>, key: &str) -> (r: Option<String>)
    ensures
        opt_view(r) == lookup(pairs_map(picks@), key@),
{
    let mut found: Option<String> = None;
    let mut i: usize = 0;
    while i < picks.len()
        invariant
            i <= picks@.len(),
            opt_view(found) == lookup(pairs_map(picks@.take(i as int)), key@),
        decreases picks@.len() - i,
    {
        proof {
            assert(picks@.take(i + 1).drop_last() =~= picks@.take(i as int));
        }
        if same(picks[i].0.as_str(), key) {
            found = Some(copy(&picks[i].1));
        }
        i = i + 1;
    }
    proof {
        assert(picks@.take(picks@.len() as int) =~= picks@);
    }
    found
}

/// What the picks file's text says for `toplevel`: the pick it remembers, and the problem
/// the file had. `text` is `None` when there is no file.
pub fn pick_from_text(text: Option<&str>, toplevel: &str) -> (r: (Option<String>, Option<String>))
    ensures
        opt_view(r.0) == lookup(picks_of(match text { Some(t) => Some(t@), None => None }), toplevel@),
        opt_view(r.1) == picks_problem(match text { Some(t) => Some(t@), None => None }),
{
    proof {
        reveal_strlit("bases.json: ");
    }
    match text {
        None => (None, None),
        Some(t) => match parse_picks(t) {
            Ok(picks) => (find_pick(&picks, toplevel), None),
            Err(e) => (None, Some(cat("bases.json: ", e.as_str()))),
        },
    }
}

/// The picks after remembering `pick` for `toplevel`, or forgetting it for `None`.
pub open spec fn with_pick(m: Map<Seq<char>, Seq<char>>, toplevel: Seq<char>, pick: Option<Seq<char>>) -> Map<Seq<char>, Seq<char>> {
    match pick {
        Some(p) => m.insert(toplevel, p),
        None => m.remove(toplevel),
    }
}

/// The pairs without those whose key is `key`.
fn without_key(picks: Vec<(String, String)>, key: &str) -> (r: Vec<(String, String)>)
    requires
        distinct_keys(picks@),
    ensures
        pairs_map(r@) == pairs_map(picks@).remove(key@),
        distinct_keys(r@),
        forall|j: int| 0 <= j < r@.len() ==> #[trigger] r@[j].0@ != key@,
{
    let mut kept: Vec<(String, String)> = Vec::new();
    let mut i: usize = 0;
    while i < picks.len()
        invariant
            i <= picks@.len(),
            distinct_keys(picks@),
            pairs_map(kept@) == pairs_map(picks@.take(i as int)).remove(key@),
            distinct_keys(kept@),
            forall|j: int| 0 <= j < kept@.len() ==> #[trigger] kept@[j].0@ != key@,
            forall|j: int| #![trigger kept@[j]] 0 <= j < kept@.len() ==> exists|m: int| 0 <= m < i && #[trigger] picks@[m].0@ == kept@[j].0@,
        decreases picks@.len() - i,
    {
        proof {
            assert(picks@.take(i + 1).drop_last() =~= picks@.take(i as int));
        }
        if !same(picks[i].0.as_str(), key) {
            let pair = (copy(&picks[i].0), copy(&picks[i].1));
            let ghost before = kept@;
            kept.push(pair);
            proof {
                assert forall|a: int, b: int| 0 <= a < b < kept@.len() implies #[trigger] kept@[a].0@ != #[trigger] kept@[b].0@ by {
                    if b == kept@.len() - 1 {
                        let m = choose|m: int| 0 <= m < i && #[trigger] picks@[m].0@ == kept@[a].0@;
                        assert(picks@[m].0@ != picks@[i as int].0@);
                    }
                }
                assert forall|j: int| #![trigger kept@[j]] 0 <= j < kept@.len() implies exists|m: int| 0 <= m < i + 1 && #[trigger] picks@[m].0@ == kept@[j].0@ by {
                    if j == kept@.len() - 1 {
                        assert(picks@[i as int].0@ == kept@[j].0@);
                    } else {
                        let m = choose|m: int| 0 <= m < i && #[trigger] picks@[m].0@ == before[j].0@;
                        assert(picks@[m].0@ == kept@[j].0@);
                    }
                }
                assert(kept@.drop_last() =~= before);
                assert(pairs_map(kept@) =~= pairs_map(picks@.take(i + 1)).remove(key@));
            }
        } else {
            proof {
                assert(pairs_map(picks@.take(i + 1)).remove(key@) =~= pairs_map(picks@.take(i as int)).remove(key@));
            }
        }
        i = i + 1;
    }
    proof {
        assert(picks@.take(picks@.len() as int) =~= picks@);
    }
    kept
}

/// The text to write back to the picks file: what it held (nothing where it was missing or
/// malformed), with `pick` remembered for `toplevel`, or forgotten for `None`.
pub fn picks_text_with(text: Option<&str>, toplevel: &str, pick: Option<&str>) -> (r: String)
    ensures
        picks_json(r@) == Ok::<Map<Seq<char>, Seq<char>>, Seq<char>>(
            with_pick(picks_of(match text { Some(t) => Some(t@), None => None }), toplevel@, opt_str_view(pick)),
        ),
{
    let picks = match text {
        Some(t) => match parse_picks(t) {
            Ok(v) => v,
            Err(_) => Vec::new(),
        },
        None => Vec::new(),
    };
    proof {
        assert(pairs_map(picks@) == picks_of(match text { Some(t) => Some(t@), None => None }));
    }
    let mut kept = without_key(picks, toplevel);
    match pick {
        Some(p) => {
            let ghost before = kept@;
            kept.push((own(toplevel), own(p)));
            proof {
                assert forall|a: int, b: int| 0 <= a < b < kept@.len() implies #[trigger] kept@[a].0@ != #[trigger] kept@[b].0@ by {
                    if b == kept@.len() - 1 {
                        assert(before[a].0@ != toplevel@);
                    } else {
                        assert(before[a].0@ != before[b].0@);
                    }
                }
                assert(kept@.drop_last() =~= before);
                assert(pairs_map(kept@) =~= pairs_map(before).insert(toplevel@, p@));
                assert(pairs_map(kept@) =~= with_pick(pairs_map(picks@), toplevel@, Some(p@)));
            }
        },
        None => {},
    }
    write_picks(&kept)
}

pub open spec fn opt_str_view(v: Option<&str>) -> Option<Seq<char>> {
    match v {
        Some(s) => Some(s@),
        None => None,
    }
}

/// A pick written for a toplevel is what the file then gives for it, and the picks of other
/// toplevels are kept; forgetting one leaves it unpicked.
pub proof fn law_a_written_pick_is_read_back(text: Option<Seq<char>>, written: Seq<char>, toplevel: Seq<char>, pick: Option<Seq<char>>, other: Seq<char>)
    requires
        picks_json(written) == Ok::<Map<Seq<char>, Seq<char>>, Seq<char>>(with_pick(picks_of(text), toplevel, pick)),
    ensures
        lookup(picks_of(Some(written)), toplevel) == pick,
        picks_problem(Some(written)) is None,
        other != toplevel ==> lookup(picks_of(Some(written)), other) == lookup(picks_of(text), other),
{
}

} // verus!
