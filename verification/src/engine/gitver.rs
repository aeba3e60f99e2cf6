//! `git --version` parsing and the supported floor.
use vstd::prelude::*;

use crate::strs::{cat, chars, decimal, decimal_string, is_prefix, own, strip_prefix, trim, trim_spec};

verus! {

#[derive(Debug, Clone, Copy, PartialEq, Eq, PartialOrd, Ord, Structural)]
pub struct GitVersion {
    pub major: u32,
    pub minor: u32,
}

/// The version the frozen watcher needs: `rev-parse --path-format=absolute` came with 2.31.
pub open spec fn min_git_spec() -> GitVersion {
    GitVersion { major: 2, minor: 31 }
}

/// The oldest supported git.
pub fn min_git() -> (r: GitVersion)
    ensures
        r == min_git_spec(),
{
    GitVersion { major: 2, minor: 31 }
}

/// `a` comes before `b`: by major, then minor.
pub open spec fn older(a: GitVersion, b: GitVersion) -> bool {
    a.major < b.major || (a.major == b.major && a.minor < b.minor)
}

pub fn is_older(a: GitVersion, b: GitVersion) -> (r: bool)
    ensures
        r == older(a, b),
{
    a.major < b.major || (a.major == b.major && a.minor < b.minor)
}

pub open spec fn is_digit(c: char) -> bool {
    '0' <= c && c <= '9'
}

/// The first index from `i` on of a character that is not an ASCII digit; `s.len()` if none.
pub open spec fn digits_end(s: Seq<char>, i: int) -> int
    decreases s.len() - i,
{
    if i < 0 || i >= s.len() {
        s.len() as int
    } else if !is_digit(s[i]) {
        i
    } else {
        digits_end(s, i + 1)
    }
}

/// The value of a run of decimal digits.
pub open spec fn digits_value(s: Seq<char>) -> nat
    decreases s.len(),
{
    if s.len() == 0 {
        0
    } else {
        digits_value(s.drop_last()) * 10 + ((s.last() as u32) - ('0' as u32)) as nat
    }
}

/// `u32::from_str` on a run of digits: none when empty or too large.
pub open spec fn parse_digits(s: Seq<char>) -> Option<u32> {
    if s.len() > 0 && digits_value(s) <= u32::MAX {
        Some(digits_value(s) as u32)
    } else {
        None
    }
}

/// The version named by `git --version` output: after `git version `, the first two runs of
/// digits that the first separator splits.
pub open spec fn parse_spec(output: Seq<char>) -> Option<GitVersion> {
    let t = trim_spec(output);
    let prefix = "git version "@;
    if !is_prefix(prefix, t) {
        None
    } else {
        let rest = t.skip(prefix.len() as int);
        let k1 = digits_end(rest, 0);
        if k1 >= rest.len() {
            None
        } else {
            let k2 = digits_end(rest, k1 + 1);
            match (parse_digits(rest.take(k1)), parse_digits(rest.subrange(k1 + 1, k2))) {
                (Some(major), Some(minor)) => Some(GitVersion { major, minor }),
                _ => None,
            }
        }
    }
}

proof fn lemma_digits_end_range(s: Seq<char>, i: int)
    requires
        0 <= i <= s.len(),
    ensures
        i <= digits_end(s, i) <= s.len(),
        forall|j: int| i <= j < digits_end(s, i) ==> is_digit(#[trigger] s[j]),
    decreases s.len() - i,
{
    if i < s.len() && is_digit(s[i]) {
        lemma_digits_end_range(s, i + 1);
    }
}

/// The end of the digit run that starts at `i`.
fn run_end(v: &Vec<char>, i: usize) -> (r: usize)
    requires
        i <= v@.len(),
    ensures
        r == digits_end(v@, i as int),
{
    let mut j = i;
    while j < v.len() && '0' <= v[j] && v[j] <= '9'
        invariant
            i <= j <= v@.len(),
            digits_end(v@, i as int) == digits_end(v@, j as int),
        decreases v@.len() - j,
    {
        j = j + 1;
    }
    j
}

/// The digits `v[from..to]` as a `u32`, if they are some and fit.
fn parse_run(v: &Vec<char>, from: usize, to: usize) -> (r: Option<u32>)
    requires
        from <= to <= v@.len(),
        forall|j: int| from <= j < to ==> is_digit(#[trigger] v@[j]),
    ensures
        r == parse_digits(v@.subrange(from as int, to as int)),
{
    if from == to {
        return None;
    }
    let mut value: u64 = 0;
    let mut j = from;
    while j < to
        invariant
            from <= j <= to <= v@.len(),
            forall|k: int| from <= k < to ==> is_digit(#[trigger] v@[k]),
            value == digits_value(v@.subrange(from as int, j as int)),
            value <= u32::MAX,
        decreases to - j,
    {
        let d = (v[j] as u32 - '0' as u32) as u64;
        proof {
            assert(v@.subrange(from as int, j + 1).drop_last() == v@.subrange(from as int, j as int));
            assert(v@.subrange(from as int, j + 1).last() == v@[j as int]);
        }
        let next = value * 10 + d;
        if next > u32::MAX as u64 {
            proof {
                lemma_digits_value_grows(v@.subrange(from as int, to as int), (j + 1 - from) as int);
                assert(v@.subrange(from as int, to as int).take((j + 1 - from) as int) == v@.subrange(from as int, j + 1));
            }
            return None;
        }
        value = next;
        j = j + 1;
    }
    Some(value as u32)
}

pub proof fn lemma_digits_value_grows(s: Seq<char>, n: int)
    requires
        0 <= n <= s.len(),
        forall|j: int| 0 <= j < s.len() ==> is_digit(#[trigger] s[j]),
    ensures
        digits_value(s.take(n)) <= digits_value(s),
    decreases s.len() - n,
{
    if n < s.len() {
        lemma_digits_value_grows(s, n + 1);
        assert(s.take(n + 1).drop_last() == s.take(n));
        assert(s.take(n + 1).last() == s[n]);
        assert(is_digit(s[n]));
    } else {
        assert(s.take(n) == s);
    }
}

/// Parses `git --version` output.
pub fn parse(output: &str) -> (r: Option<GitVersion>)
    ensures
        r == parse_spec(output@),
{
    proof {
        reveal_strlit("git version ");
    }
    let t = trim(output);
    let rest = match strip_prefix(t.as_str(), "git version ") {
        Some(r) => r,
        None => return None,
    };
    let v = chars(rest.as_str());
    let k1 = run_end(&v, 0);
    proof {
        lemma_digits_end_range(v@, 0);
    }
    if k1 >= v.len() {
        return None;
    }
    let k2 = run_end(&v, k1 + 1);
    proof {
        lemma_digits_end_range(v@, k1 + 1);
        assert(v@.take(k1 as int) == v@.subrange(0, k1 as int));
    }
    let major = parse_run(&v, 0, k1);
    let minor = parse_run(&v, k1 + 1, k2);
    match (major, minor) {
        (Some(major), Some(minor)) => Some(GitVersion { major, minor }),
        _ => None,
    }
}

/// `Missing` is retryable (the user can fix PATH and press `r`); `TooOld` is fatal.
#[derive(Debug, Clone, PartialEq, Eq)]
pub enum GitCheckError {
    Missing(String),
    TooOld(String),
}

pub open spec fn too_old_message(v: GitVersion) -> Seq<char> {
    "git "@ + decimal(v.major as nat) + seq!['.'] + decimal(v.minor as nat)
        + " is too old: herdr-hunks needs git 2.31 or newer"@
}

/// Judges the output of `git --version`: unrecognised output is `Missing`, a version below the
/// floor `TooOld`.
pub fn check_output(output: &str) -> (r: Result<GitVersion, GitCheckError>)
    ensures
        match parse_spec(output@) {
            Some(v) => if older(v, min_git_spec()) {
                r matches Err(GitCheckError::TooOld(m)) && m@ == too_old_message(v)
            } else {
                r == Ok::<GitVersion, GitCheckError>(v)
            },
            None => r matches Err(GitCheckError::Missing(m)) && m@ == "unrecognised git version: "@ + trim_spec(output@),
        },
{
    let version = match parse(output) {
        Some(v) => v,
        None => return Err(GitCheckError::Missing(cat("unrecognised git version: ", trim(output).as_str()))),
    };
    if is_older(version, min_git()) {
        let mut m = own("git ");
        crate::strs::push_str(&mut m, decimal_string(version.major as u128).as_str());
        m.push('.');
        crate::strs::push_str(&mut m, decimal_string(version.minor as u128).as_str());
        crate::strs::push_str(&mut m, " is too old: herdr-hunks needs git 2.31 or newer");
        proof {
            assert(m@ =~= too_old_message(version));
        }
        return Err(GitCheckError::TooOld(m));
    }
    Ok(version)
}

} // verus!
