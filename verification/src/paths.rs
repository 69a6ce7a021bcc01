//! Verified path-string helpers.
//!
//! Paths are carried as plain strings with `/` separators.  The library only
//! ever derives names from them — the stem of an entrypoint file, the chain
//! of directories a build manifest may sit in — so the few operations needed
//! are written out here with exact specifications.

use vstd::prelude::*;
use vstd::string::{StrSliceExecFns, StringExecFns};

verus! {

/// Index of the last occurrence of `c` in `s`, or `-1` when `c` does not
/// occur.
pub open spec fn last_index_of(s: Seq<char>, c: char) -> int
    decreases s.len(),
{
    if s.len() == 0 {
        -1
    } else if s.last() == c {
        s.len() - 1
    } else {
        last_index_of(s.drop_last(), c)
    }
}

/// The final path component of `p`: everything after the last `/`.
pub open spec fn basename_of(p: Seq<char>) -> Seq<char> {
    p.subrange(last_index_of(p, '/') + 1, p.len() as int)
}

/// The file stem of `p`: its basename up to the last `.`, the whole basename
/// when there is no `.` past the first position.
pub open spec fn stem_of(p: Seq<char>) -> Seq<char> {
    let base = basename_of(p);
    let dot = last_index_of(base, '.');
    if dot <= 0 {
        base
    } else {
        base.subrange(0, dot)
    }
}

/// `p` without its final component; the empty string once nothing is left.
pub open spec fn parent_of(p: Seq<char>) -> Seq<char> {
    if last_index_of(p, '/') <= 0 {
        Seq::empty()
    } else {
        p.subrange(0, last_index_of(p, '/'))
    }
}

/// `dir` with `Cargo.toml` joined onto it.
pub open spec fn manifest_in(dir: Seq<char>) -> Seq<char> {
    if dir.len() == 0 {
        "Cargo.toml"@
    } else {
        dir + "/Cargo.toml"@
    }
}

/// The build-manifest candidates for an entrypoint at `p`: `Cargo.toml`
/// joined onto `p` itself and onto each successive directory prefix, ending
/// at the bare `Cargo.toml`.
pub open spec fn manifest_candidates_spec(p: Seq<char>) -> Seq<Seq<char>>
    decreases p.len(),
{
    if p.len() == 0 {
        seq![manifest_in(p)]
    } else {
        proof {
            lemma_last_index_bound(p, '/');
        }
        seq![manifest_in(p)] + manifest_candidates_spec(parent_of(p))
    }
}

/// `last_index_of` never reaches the length of the string.
pub proof fn lemma_last_index_bound(s: Seq<char>, c: char)
    ensures
        -1 <= last_index_of(s, c) < s.len(),
    decreases s.len(),
{
    if s.len() > 0 && s.last() != c {
        lemma_last_index_bound(s.drop_last(), c);
    }
}

/// Index of the last occurrence of `c` in `s`.
pub fn find_last(s: &str, c: char) -> (r: Option<usize>)
    ensures
        (match r {
            Some(i) => last_index_of(s@, c) == i as int,
            None => last_index_of(s@, c) == -1,
        }),
{
    let len = s.unicode_len();
    proof {
        assert(s@.subrange(0, s@.len() as int) =~= s@);
    }
    let mut i: usize = len;
    while i > 0
        invariant
            len == s@.len(),
            i <= len,
            last_index_of(s@, c) == last_index_of(s@.subrange(0, i as int), c),
        decreases i,
    {
        let ch = s.get_char(i - 1);
        proof {
            let pre = s@.subrange(0, i as int);
            assert(pre.last() == s@[i - 1]);
            assert(pre.drop_last() =~= s@.subrange(0, i - 1));
        }
        if ch == c {
            proof {
                lemma_last_index_bound(s@.subrange(0, i as int), c);
            }
            return Some(i - 1);
        }
        i = i - 1;
    }
    proof {
        assert(s@.subrange(0, 0) =~= Seq::<char>::empty());
    }
    None
}

/// The final path component: everything after the last `/`.
pub fn path_basename(p: &str) -> (r: String)
    ensures
        r@ == basename_of(p@),
{
    proof {
        lemma_last_index_bound(p@, '/');
    }
    let len = p.unicode_len();
    match find_last(p, '/') {
        Some(i) => p.substring_char(i + 1, len).to_owned(),
        None => p.to_owned(),
    }
}

/// The file stem: the basename up to its last `.`.
pub fn path_stem(p: &str) -> (r: String)
    ensures
        r@ == stem_of(p@),
{
    let base = path_basename(p);
    proof {
        lemma_last_index_bound(base@, '.');
    }
    match find_last(base.as_str(), '.') {
        Some(i) => {
            if i == 0 {
                base
            } else {
                let len = base.unicode_len();
                base.as_str().substring_char(0, i).to_owned()
            }
        },
        None => base,
    }
}

/// `p` without its final component.
pub fn path_parent(p: &str) -> (r: String)
    ensures
        r@ == parent_of(p@),
{
    proof {
        lemma_last_index_bound(p@, '/');
    }
    match find_last(p, '/') {
        Some(i) => {
            if i == 0 {
                String::new()
            } else {
                p.substring_char(0, i).to_owned()
            }
        },
        None => String::new(),
    }
}

/// Every path a build manifest for the entrypoint at `p` may sit at, nearest
/// directory first.
pub fn manifest_candidates(p: &str) -> (r: Vec<String>)
    ensures
        crate::textfmt::strs(r@) == manifest_candidates_spec(p@),
{
    let mut r: Vec<String> = Vec::new();
    let mut current = p.to_owned();
    while current.unicode_len() > 0
        invariant
            crate::textfmt::strs(r@) + manifest_candidates_spec(current@)
                == manifest_candidates_spec(p@),
        decreases current@.len(),
    {
        let mut m = current.clone();
        m.append("/Cargo.toml");
        r.push(m);
        let next = path_parent(current.as_str());
        proof {
            lemma_last_index_bound(current@, '/');
            assert(parent_of(current@).len() < current@.len());
            assert(crate::textfmt::strs(r@) =~= crate::textfmt::strs(r@.drop_last()) + seq![
                manifest_in(current@),
            ]);
            assert(crate::textfmt::strs(r@) + manifest_candidates_spec(next@)
                =~= manifest_candidates_spec(p@));
        }
        current = next;
    }
    r.push("Cargo.toml".to_owned());
    proof {
        assert(manifest_candidates_spec(current@) =~= seq!["Cargo.toml"@]);
        assert(crate::textfmt::strs(r@) =~= crate::textfmt::strs(r@.drop_last()) + seq![
            "Cargo.toml"@,
        ]);
        assert(crate::textfmt::strs(r@) =~= manifest_candidates_spec(p@));
    }
    r
}

} // verus!
