//! Suggestions of similar file names for a path that was not found: the
//! entries of its directory whose names contain the missing name (or are
//! contained in it), or are close to it by normalized Levenshtein
//! similarity, best first.
use vstd::prelude::*;

use crate::artifacts::{file_name_of, path_file_name};
use crate::read::{lowercase, to_lowercase};
use crate::similarity::{dissimilarity, more_similar, more_similar_exec, sim_den, sim_num};
use crate::text::{chars_of, contains, contains_exec};

verus! {

/// Most suggestions given.
pub const MAX_SUGGESTIONS: usize = 3;

/// The path `std::path::Path::join` gives for a directory and a name.
pub uninterp spec fn joined_path(dir: Seq<char>, name: Seq<char>) -> Seq<char>;

/// Calls `std::path::Path::join` and renders the result; the result is
/// named `joined_path`.
#[verifier::external_body]
pub(crate) fn join_path(dir: &str, name: &str) -> (r: String)
    ensures
        r@ == joined_path(dir@, name@),
{
    std::path::Path::new(dir).join(name).to_string_lossy().to_string()
}

/// The score of an entry, as a dissimilarity `(num, den)`: `(1, 5)`
/// (similarity 0.8) when one lowercase name contains the other, else the
/// normalized Levenshtein dissimilarity.
pub open spec fn entry_score(target: Seq<char>, name: Seq<char>) -> (nat, nat) {
    let nl = lowercase(name);
    if contains(nl, target) || contains(target, nl) {
        (1, 5)
    } else {
        (sim_num(target, nl), sim_den(target, nl))
    }
}

/// A candidate: its path and its dissimilarity.
pub type Candidate = (Seq<char>, nat, nat);

/// The entries scoring above `0.4`, with their joined paths, in order.
pub open spec fn candidates(dir: Seq<char>, target: Seq<char>, names: Seq<Seq<char>>) -> Seq<Candidate>
    decreases names.len(),
{
    if names.len() == 0 {
        seq![]
    } else {
        let prev = candidates(dir, target, names.drop_last());
        let s = entry_score(target, names.last());
        if 5 * s.0 < 3 * s.1 {
            prev.push((joined_path(dir, names.last()), s.0, s.1))
        } else {
            prev
        }
    }
}

/// `x` placed into `s`, sorted best first, after every candidate at least
/// as similar.
pub open spec fn insert_best_first(s: Seq<Candidate>, x: Candidate) -> Seq<Candidate>
    decreases s.len(),
{
    if s.len() == 0 {
        seq![x]
    } else if !more_similar(x.1, x.2, s.last().1, s.last().2) {
        s.push(x)
    } else {
        insert_best_first(s.drop_last(), x).push(s.last())
    }
}

/// Stable sort, most similar first.
pub open spec fn sort_best_first(s: Seq<Candidate>) -> Seq<Candidate>
    decreases s.len(),
{
    if s.len() == 0 {
        seq![]
    } else {
        insert_best_first(sort_best_first(s.drop_last()), s.last())
    }
}

/// The suggested paths for `path` given the entries of its directory `dir`.
pub open spec fn suggestions(path: Seq<char>, dir: Seq<char>, names: Seq<Seq<char>>) -> Seq<Seq<char>> {
    match path_file_name(path) {
        None => seq![],
        Some(f) => {
            let sorted = sort_best_first(candidates(dir, lowercase(f), names));
            let k = if sorted.len() <= MAX_SUGGESTIONS {
                sorted.len() as int
            } else {
                MAX_SUGGESTIONS as int
            };
            sorted.take(k).map_values(|c: Candidate| c.0)
        },
    }
}

/// An executable candidate as its specification.
pub open spec fn cand_view(c: (String, usize, usize)) -> Candidate {
    (c.0@, c.1 as nat, c.2 as nat)
}

/// Candidates as their specifications.
pub open spec fn cands_view(v: Seq<(String, usize, usize)>) -> Seq<Candidate> {
    v.map_values(|c: (String, usize, usize)| cand_view(c))
}

/// Inserts `x` into `v`, sorted best first.
fn insert_exec(v: Vec<(String, usize, usize)>, x: (String, usize, usize)) -> (r: Vec<(String, usize, usize)>)
    ensures
        cands_view(r@) == insert_best_first(cands_view(v@), cand_view(x)),
    decreases v@.len(),
{
    let mut v = v;
    if v.len() == 0 {
        let mut r = Vec::new();
        r.push(x);
        assert(cands_view(r@) =~= seq![cand_view(x)]);
        return r;
    }
    let ghost vv = cands_view(v@);
    let last = v.pop().unwrap();
    proof {
        assert(cands_view(v@) =~= vv.drop_last());
        assert(cand_view(last) == vv.last());
    }
    if !more_similar_exec(x.1, x.2, last.1, last.2) {
        v.push(last);
        v.push(x);
        assert(cands_view(v@) =~= vv.push(cand_view(x)));
        v
    } else {
        let mut r = insert_exec(v, x);
        let ghost rv = cands_view(r@);
        r.push(last);
        assert(cands_view(r@) =~= rv.push(vv.last()));
        r
    }
}

/// Up to three paths in the directory `dir` with names like the file name
/// of `path`, most similar first; `names` are the directory's entries.
pub fn suggest_similar_files(path: &str, dir: &str, names: &Vec<String>) -> (r: Vec<String>)
    ensures
        r@.map_values(|s: String| s@) == suggestions(path@, dir@, names@.map_values(|s: String| s@)),
{
    let target = match file_name_of(path) {
        Some(f) => to_lowercase(f.as_str()),
        None => {
            let r: Vec<String> = Vec::new();
            assert(r@.map_values(|s: String| s@) =~= Seq::<Seq<char>>::empty());
            return r;
        },
    };
    let tc = chars_of(target.as_str());
    let ghost nv = names@.map_values(|s: String| s@);
    let mut sorted: Vec<(String, usize, usize)> = Vec::new();
    let mut i: usize = 0;
    assert(nv.take(0) =~= Seq::<Seq<char>>::empty());
    while i < names.len()
        invariant
            i <= names.len(),
            nv == names@.map_values(|s: String| s@),
            tc@ == target@,
            cands_view(sorted@) == sort_best_first(candidates(dir@, target@, nv.take(i as int))),
        decreases names.len() - i,
    {
        proof {
            assert(nv.take(i + 1).drop_last() =~= nv.take(i as int));
            assert(nv.take(i + 1).last() == names@[i as int]@);
        }
        let low = to_lowercase(names[i].as_str());
        let lc = chars_of(low.as_str());
        let (n, d) = if contains_exec(&lc, &tc) || contains_exec(&tc, &lc) {
            (1usize, 5usize)
        } else {
            dissimilarity(&tc, &lc)
        };
        if 5 * (n as u128) < 3 * (d as u128) {
            let p = join_path(dir, names[i].as_str());
            let ghost prev = candidates(dir@, target@, nv.take(i as int));
            sorted = insert_exec(sorted, (p, n, d));
            proof {
                assert(candidates(dir@, target@, nv.take(i + 1)) == prev.push((joined_path(dir@, nv[i as int]), n as nat, d as nat)));
                assert(sort_best_first(prev.push((joined_path(dir@, nv[i as int]), n as nat, d as nat)))
                    == insert_best_first(sort_best_first(prev), (joined_path(dir@, nv[i as int]), n as nat, d as nat))) by {
                    assert(prev.push((joined_path(dir@, nv[i as int]), n as nat, d as nat)).drop_last() =~= prev);
                }
            }
        }
        i = i + 1;
    }
    assert(nv.take(i as int) =~= nv);
    let ghost sv = cands_view(sorted@);
    let k: usize = if sorted.len() <= MAX_SUGGESTIONS {
        sorted.len()
    } else {
        MAX_SUGGESTIONS
    };
    let mut out: Vec<String> = Vec::new();
    let mut j: usize = 0;
    while j < k
        invariant
            j <= k <= sorted.len(),
            sv == cands_view(sorted@),
            out@.map_values(|s: String| s@) == sv.take(j as int).map_values(|c: Candidate| c.0),
        decreases k - j,
    {
        let p = sorted[j].0.clone();
        let ghost before = out@.map_values(|s: String| s@);
        out.push(p);
        proof {
            assert(out@.map_values(|s: String| s@) =~= before.push(sv[j as int].0));
            assert(sv.take(j + 1).map_values(|c: Candidate| c.0) =~= sv.take(j as int).map_values(|c: Candidate| c.0).push(
                sv[j as int].0,
            ));
        }
        j = j + 1;
    }
    out
}

} // verus!
