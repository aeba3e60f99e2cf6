//! The size of the popup that the viewer opens in, as a configuration text sets it.
use vstd::prelude::*;

use crate::engine::gitver::{digits_value, is_digit, lemma_digits_value_grows};
use crate::strs::{cat, chars, copy, own, push_str, views};
use crate::tui::config::{entry_at, toml_entry, toml_entry_spec, Setting};

verus! {

/// A popup dimension as the host takes it: outer cells, or a percentage of the screen.
#[derive(Debug, Clone, PartialEq, Eq)]
pub enum PopupSize {
    Cells(i64),
    Percent(String),
}

pub open spec fn popup_view(p: PopupSize) -> (bool, int, Seq<char>) {
    match p {
        PopupSize::Cells(n) => (true, n as int, Seq::<char>::empty()),
        PopupSize::Percent(s) => (false, 0int, s@),
    }
}

pub open spec fn default_size() -> (bool, int, Seq<char>) {
    (false, 0int, "80%"@)
}

/// A percentage the host takes: digits without a leading zero, from 20 through 100, then `%`.
pub open spec fn percent_ok(s: Seq<char>) -> bool {
    let n = s.drop_last();
    &&& s.len() >= 2
    &&& s[s.len() - 1] == '%'
    &&& n[0] != '0'
    &&& forall|j: int| 0 <= j < n.len() ==> is_digit(#[trigger] n[j])
    &&& 20 <= digits_value(n) <= 100
}

/// The size an entry gives: an integer from 20 through 65535 cells, or a percentage.
pub open spec fn size_of(v: (int, Seq<char>, int, bool)) -> Option<(bool, int, Seq<char>)> {
    if v.0 == 1 && 20 <= v.2 <= 65535 {
        Some((true, v.2, Seq::<char>::empty()))
    } else if v.0 == 0 && percent_ok(v.1) {
        Some((false, 0int, v.1))
    } else {
        None
    }
}

pub open spec fn size_problem(key: Seq<char>) -> Seq<char> {
    "popup."@ + key + ": expected an integer 20..=65535 or \"20%\"..\"100%\"; using \"80%\""@
}

/// One dimension read: its size, the default when absent or refused, and the problem a
/// refused value costs.
pub open spec fn dimension(text: Seq<char>, key: Seq<char>) -> ((bool, int, Seq<char>), Seq<Seq<char>>) {
    match entry_at(text, "popup"@, key) {
        None => (default_size(), seq![]),
        Some(v) => match size_of(v) {
            Some(size) => (size, seq![]),
            None => (default_size(), seq![size_problem(key)]),
        },
    }
}

/// The popup's width and height from a configuration text, each falling back to 80% on its
/// own, and the problems met.
pub open spec fn popup_read(text: Seq<char>, sizes: Seq<(bool, int, Seq<char>)>, problems: Seq<Seq<char>>) -> bool {
    sizes.len() == 2 && match toml_entry_spec(text, "popup"@, None) {
        Err(e) => sizes == seq![default_size(), default_size()] && problems == seq!["config.toml: "@ + e],
        Ok(None) => sizes == seq![default_size(), default_size()] && problems.len() == 0,
        Ok(Some(v)) => if v.0 != 3 {
            sizes == seq![default_size(), default_size()] && problems == seq!["popup: expected a table"@]
        } else {
            let w = dimension(text, "width"@);
            let h = dimension(text, "height"@);
            sizes == seq![w.0, h.0] && problems == w.1 + h.1
        },
    }
}

fn percent_valid(s: &str) -> (r: bool)
    ensures
        r == percent_ok(s@),
{
    let v = chars(s);
    let len = v.len();
    if len < 2 || v[len - 1] != '%' || v[0] == '0' {
        return false;
    }
    let ghost n = s@.drop_last();
    let mut value: u64 = 0;
    let mut i: usize = 0;
    while i < len - 1
        invariant
            v@ == s@,
            len == v@.len(),
            len >= 2,
            n == s@.drop_last(),
            i <= len - 1,
            forall|k: int| 0 <= k < i ==> is_digit(#[trigger] n[k]),
            value == digits_value(n.take(i as int)),
            value <= 100,
        decreases len - 1 - i,
    {
        proof {
            assert(n[i as int] == v@[i as int]);
        }
        if !('0' <= v[i] && v[i] <= '9') {
            return false;
        }
        let d = (v[i] as u32 - '0' as u32) as u64;
        proof {
            assert(n.take(i + 1).drop_last() =~= n.take(i as int));
            assert(n.take(i + 1).last() == n[i as int]);
        }
        let next = value * 10 + d;
        if next > 100 {
            if forall_digits(&v, i + 1, len - 1) {
                proof {
                    assert forall|k: int| 0 <= k < n.len() implies is_digit(#[trigger] n[k]) by {
                        if k > i {
                            assert(n[k] == v@[k]);
                        }
                    }
                    assert(digits_value(n.take(i + 1)) == next);
                    lemma_digits_value_grows(n, i + 1);
                }
            } else {
                proof {
                    let k = choose|k: int| i + 1 <= k < len - 1 && !is_digit(#[trigger] v@[k]);
                    assert(n[k] == v@[k]);
                }
            }
            return false;
        }
        value = next;
        i = i + 1;
    }
    proof {
        assert(n.take(n.len() as int) =~= n);
    }
    20 <= value
}

fn forall_digits(v: &Vec<char>, from: usize, to: usize) -> (r: bool)
    requires
        from <= to <= v@.len(),
    ensures
        r == forall|k: int| from <= k < to ==> is_digit(#[trigger] v@[k]),
{
    let mut i = from;
    while i < to
        invariant
            from <= i <= to,
            to <= v@.len(),
            forall|k: int| from <= k < i ==> is_digit(#[trigger] v@[k]),
        decreases to - i,
    {
        if !('0' <= v[i] && v[i] <= '9') {
            return false;
        }
        i = i + 1;
    }
    true
}

fn read_dimension(text: &str, key: &str, problems: &mut Vec<String>) -> (size: PopupSize)
    ensures
        popup_view(size) == dimension(text@, key@).0,
        views(final(problems)@) == views(old(problems)@) + dimension(text@, key@).1,
{
    proof {
        reveal_strlit("popup");
        reveal_strlit("80%");
    }
    let entry = match toml_entry(text, "popup", Some(key)) {
        Ok(e) => e,
        Err(_) => None,
    };
    let size = match &entry {
        None => None,
        Some(Setting::Integer(n)) => if 20 <= *n && *n <= 65535 {
            Some(PopupSize::Cells(*n))
        } else {
            None
        },
        Some(Setting::Text(t)) => if percent_valid(t.as_str()) {
            Some(PopupSize::Percent(copy(t)))
        } else {
            None
        },
        Some(_) => None,
    };
    match size {
        Some(size) => {
            proof {
                assert(views(problems@) =~= views(old(problems)@) + Seq::<Seq<char>>::empty());
            }
            size
        },
        None => {
            if entry.is_some() {
                let mut m = own("popup.");
                push_str(&mut m, key);
                push_str(&mut m, ": expected an integer 20..=65535 or \"20%\"..\"100%\"; using \"80%\"");
                problems.push(m);
                proof {
                    assert(views(problems@) =~= views(old(problems)@) + seq![size_problem(key@)]);
                }
            } else {
                proof {
                    assert(views(problems@) =~= views(old(problems)@) + Seq::<Seq<char>>::empty());
                }
            }
            PopupSize::Percent(own("80%"))
        },
    }
}

/// The popup's width and height, and the problems met reading them.
pub fn popup_sizes_from_text(text: &str) -> (r: ([PopupSize; 2], Vec<String>))
    ensures
        popup_read(text@, r.0@.map_values(|p: PopupSize| popup_view(p)), views(r.1@)),
{
    proof {
        reveal_strlit("popup");
        reveal_strlit("80%");
        reveal_strlit("width");
        reveal_strlit("height");
    }
    let mut problems: Vec<String> = Vec::new();
    let section = toml_entry(text, "popup", None);
    let defaults = [PopupSize::Percent(own("80%")), PopupSize::Percent(own("80%"))];
    proof {
        assert(defaults@.map_values(|p: PopupSize| popup_view(p)) =~= seq![default_size(), default_size()]);
    }
    match section {
        Err(e) => {
            problems.push(cat("config.toml: ", e.as_str()));
            proof {
                assert(views(problems@) =~= seq!["config.toml: "@ + e@]);
            }
            (defaults, problems)
        },
        Ok(None) => (defaults, problems),
        Ok(Some(Setting::Table)) => {
            let width = read_dimension(text, "width", &mut problems);
            let height = read_dimension(text, "height", &mut problems);
            let sizes = [width, height];
            proof {
                assert(sizes@.map_values(|p: PopupSize| popup_view(p)) =~= seq![
                    dimension(text@, "width"@).0,
                    dimension(text@, "height"@).0,
                ]);
                assert(views(problems@) =~= dimension(text@, "width"@).1 + dimension(text@, "height"@).1);
            }
            (sizes, problems)
        },
        Ok(Some(_)) => {
            problems.push(own("popup: expected a table"));
            proof {
                reveal_strlit("popup: expected a table");
                assert(views(problems@) =~= seq!["popup: expected a table"@]);
            }
            (defaults, problems)
        },
    }
}

} // verus!
