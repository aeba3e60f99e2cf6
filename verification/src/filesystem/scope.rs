//! What paths are accepted, and how `~` expands.
use vstd::prelude::*;

use crate::strs::{cat, chars, collect, is_prefix, opt_view, own, push_str, split, split_on, views};

verus! {

pub open spec fn parent_segment() -> Seq<char> {
    ".."@
}

/// Whether a path names its parent anywhere: a `..` among its `/`-separated components.
pub open spec fn has_parent_ref(path: Seq<char>) -> bool {
    split_on(path, '/').contains(parent_segment())
}

pub open spec fn parent_ref_message(path: Seq<char>) -> Seq<char> {
    "access denied: path contains parent traversal segments: "@ + path
}

/// Rejects any `..` component, before anything touches the file system, so a forged path
/// like `~/../etc/evil.txt` cannot cause a side effect outside the tree it names.
pub fn reject_parent_refs(path: &str) -> (r: Result<(), String>)
    ensures
        r is Ok <==> !has_parent_ref(path@),
        r matches Err(m) ==> m@ == parent_ref_message(path@),
{
    let parts = split(path, '/');
    let mut i: usize = 0;
    proof {
        reveal_strlit("..");
        assert(views(parts@).len() == parts@.len());
    }
    while i < parts.len()
        invariant
            views(parts@) == split_on(path@, '/'),
            i <= parts@.len(),
            forall|k: int| 0 <= k < i ==> views(parts@)[k] != parent_segment(),
        decreases parts@.len() - i,
    {
        if crate::strs::same(parts[i].as_str(), "..") {
            proof {
                assert(views(parts@)[i as int] == parts@[i as int]@);
                assert(split_on(path@, '/')[i as int] == parent_segment());
            }
            return Err(cat("access denied: path contains parent traversal segments: ", path));
        }
        proof {
            assert(views(parts@)[i as int] == parts@[i as int]@);
        }
        i = i + 1;
    }
    proof {
        assert(!split_on(path@, '/').contains(parent_segment()));
    }
    Ok(())
}

pub open spec fn is_absolute(path: Seq<char>) -> bool {
    path.len() > 0 && path[0] == '/'
}

/// Accepts any canonical absolute path: the path comes from the user's own pane or command
/// line, so it is not held to the home directory.
pub fn ensure_within_home(canonical: &str, home_canonical: &str) -> (r: Result<(), String>)
    ensures
        r is Ok <==> is_absolute(canonical@),
        r matches Err(m) ==> m@ == "path is not absolute: "@ + canonical@,
{
    let v = chars(canonical);
    if v.len() > 0 && v[0] == '/' {
        Ok(())
    } else {
        Err(cat("path is not absolute: ", canonical))
    }
}

/// `base` joined with `rest` as `Path::join` does: an absolute `rest` replaces `base`,
/// otherwise one separator comes between them.
pub open spec fn join_spec(base: Seq<char>, rest: Seq<char>) -> Seq<char> {
    if is_absolute(rest) {
        rest
    } else if base.len() == 0 || base[base.len() - 1] == '/' {
        base + rest
    } else {
        base + seq!['/'] + rest
    }
}

/// `base.join(rest)`.
pub fn join(base: &str, rest: &str) -> (r: String)
    ensures
        r@ == join_spec(base@, rest@),
{
    let r = chars(rest);
    if r.len() > 0 && r[0] == '/' {
        return own(rest);
    }
    let b = chars(base);
    let mut out = own(base);
    if !(b.len() == 0 || b[b.len() - 1] == '/') {
        out.push('/');
    }
    push_str(&mut out, rest);
    out
}

/// `~` and `~/...` with the home directory in place of `~`; any other path, or any path
/// when no home directory is known, unchanged.
pub open spec fn expand_home_spec(path: Seq<char>, home: Option<Seq<char>>) -> Seq<char> {
    match home {
        Some(h) => if path == seq!['~'] {
            h
        } else if is_prefix("~/"@, path) {
            join_spec(h, path.skip(2))
        } else {
            path
        },
        None => path,
    }
}

/// Expands `~` against the home directory that `home` names.
pub fn expand_home_with(path: &str, home: Option<String>) -> (r: String)
    ensures
        r@ == expand_home_spec(path@, opt_view(home)),
{
    proof {
        reveal_strlit("~/");
    }
    let h = match home {
        Some(h) => h,
        None => return own(path),
    };
    let v = chars(path);
    if v.len() == 1 && v[0] == '~' {
        proof {
            assert(path@ == seq!['~']);
        }
        return h;
    }
    if v.len() >= 2 && v[0] == '~' && v[1] == '/' {
        let rest = collect(&v, 2, v.len());
        proof {
            assert(path@.take(2) =~= "~/"@);
            assert(v@.subrange(2, v@.len() as int) == path@.skip(2));
        }
        return join(h.as_str(), rest.as_str());
    }
    proof {
        assert(path@ != seq!['~']);
        if is_prefix("~/"@, path@) {
            assert(path@.take(2)[0] == '~' && path@.take(2)[1] == '/');
        }
    }
    own(path)
}

/// The user's home directory as the `dirs` crate finds it, from the environment or the
/// password database; nothing is promised of it.
#[verifier::external_body]
fn home_dir() -> (r: Option<String>)
{
    dirs::home_dir().map(|p| p.to_string_lossy().into_owned())
}

/// Expands `~` to the user's home directory; the path is unchanged if it does not start
/// with `~`, or if no home directory can be found (later checks then reject it).
pub fn expand_home(path: &str) -> (r: String)
    ensures
        exists|home: Option<Seq<char>>| r@ == expand_home_spec(path@, home),
{
    let home = home_dir();
    let ghost hv = opt_view(home);
    let r = expand_home_with(path, home);
    proof {
        assert(r@ == expand_home_spec(path@, hv));
    }
    r
}

} // verus!
