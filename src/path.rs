//! Directory paths as strings, and the chain of ancestors of a directory.

use vstd::prelude::*;

verus! {

/// The parent of a path, as `std::path::Path::parent` computes it.
pub uninterp spec fn parent_of(p: Seq<char>) -> Option<Seq<char>>;

/// Relies on `std::path::Path::parent`: the path without its final component,
/// `None` for a root or the empty path. A parent is a part of the path, so it
/// is shorter.
#[verifier::external_body]
pub(crate) fn parent_dir(p: &str) -> (r: Option<String>)
    ensures
        match r {
            Some(q) => parent_of(p@) == Some(q@) && q@.len() < p@.len(),
            None => parent_of(p@) is None,
        },
        p@ == seq!['/'] ==> r is None,
        p@.len() == 0 ==> r is None,
{
    std::path::Path::new(p).parent().and_then(|q| q.to_str()).map(|q| q.to_string())
}

/// The directories from `p` upward: `p` itself, its parent, and so on up to
/// the directory that has no parent.
pub open spec fn ancestors(p: Seq<char>) -> Seq<Seq<char>>
    decreases p.len(),
{
    match parent_of(p) {
        Some(q) => if q.len() < p.len() {
            seq![p] + ancestors(q)
        } else {
            seq![p]
        },
        None => seq![p],
    }
}

/// The chain of directories from `dir` up to the root, nearest first.
pub fn ancestor_dirs(dir: &str) -> (r: Vec<String>)
    ensures
        r@.map_values(|s: String| s@) == ancestors(dir@),
        r@.len() >= 1,
        dir@ == seq!['/'] ==> r@.len() == 1,
{
    let mut out: Vec<String> = Vec::new();
    let mut curr: String = dir.to_owned();
    loop
        invariant
            out@.map_values(|s: String| s@) + ancestors(curr@) == ancestors(dir@),
            dir@ == seq!['/'] ==> out@.len() == 0 && curr@ == dir@,
        decreases curr@.len(),
    {
        let next = parent_dir(curr.as_str());
        let ghost prev = out@;
        match next {
            Some(q) => {
                out.push(curr);
                assert(out@.map_values(|s: String| s@) =~= prev.map_values(|s: String| s@) + seq![
                    out@.last()@,
                ]);
                curr = q;
            },
            None => {
                out.push(curr);
                assert(out@.map_values(|s: String| s@) =~= prev.map_values(|s: String| s@) + seq![
                    out@.last()@,
                ]);
                return out;
            },
        }
    }
}

} // verus!
