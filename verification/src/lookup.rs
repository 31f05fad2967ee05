//! Executable lookup against a `PATH` override.
//!
//! When the merged environment overrides `PATH`, the spawner must resolve
//! the program against the child's search path rather than its own.  The
//! pure part of that lookup lives here: finding the override, splitting the
//! search path on its separator, and forming one candidate file name per
//! directory (the program with the native executable extension).  Probing
//! the file system for the first candidate that exists is the caller's
//! side.

use vstd::prelude::*;

use crate::env::{env_map_of, lemma_env_map_at, lemma_env_map_doms, sorted_env_norms, EnvKey};
use crate::wide::{cmp_norm, norm_key, to_wvec};

verus! {

/// The search-path separator.
pub const SEMICOLON: u16 = 0x3b;

/// The native directory separator.
pub const SEP: u16 = 0x5c;

/// The alternate directory separator.
pub const SLASH: u16 = 0x2f;

/// The dot that introduces a file extension.
pub const DOT: u16 = 0x2e;

/// The normalized name of the search-path variable, `PATH`.
pub open spec fn path_key() -> Seq<u16> {
    seq![0x50u16, 0x41u16, 0x54u16, 0x48u16]
}

/// The native executable extension, `.exe`.
pub open spec fn exe_ext() -> Seq<u16> {
    seq![0x2eu16, 0x65u16, 0x78u16, 0x65u16]
}

/// Look up the `PATH` override in a captured environment.
pub fn find_path_value(captured: &Vec<(EnvKey, Vec<u16>)>) -> (r: Option<Vec<u16>>)
    requires
        sorted_env_norms(captured@),
    ensures
        r is Some <==> env_map_of(captured@).dom().contains(path_key()),
        r is Some ==> r->0@ == env_map_of(captured@)[path_key()].1,
{
    proof {
        lemma_env_map_doms(captured@);
        assert(norm_key(path_key()) =~= path_key());
    }
    let pk: Vec<u16> = vec![0x50u16, 0x41u16, 0x54u16, 0x48u16];
    proof {
        assert(pk@ =~= path_key());
    }
    let mut i: usize = 0;
    while i < captured.len()
        invariant
            sorted_env_norms(captured@),
            pk@ == path_key(),
            0 <= i <= captured@.len(),
            forall|j: int| 0 <= j < i ==> norm_key(captured@[j].0.key@) != path_key(),
        decreases captured@.len() - i,
    {
        let c = cmp_norm(captured[i].0.key.as_slice(), pk.as_slice());
        proof {
            assert(norm_key(pk@) =~= path_key());
        }
        if c == 0 {
            proof {
                assert(norm_key(captured@[i as int].0.key@) == path_key());
                lemma_env_map_at(captured@, i as int);
            }
            return Some(to_wvec(captured[i].1.as_slice()));
        }
        i = i + 1;
    }
    proof {
        lemma_env_map_doms(captured@);
    }
    None
}

/// A list of search-path pieces, joined back with the separator.
pub open spec fn join_paths(ps: Seq<Seq<u16>>) -> Seq<u16>
    decreases ps.len(),
{
    if ps.len() == 0 {
        Seq::empty()
    } else if ps.len() == 1 {
        ps[0]
    } else {
        join_paths(ps.drop_last()) + seq![SEMICOLON] + ps.last()
    }
}

/// The pieces of a split, seen abstractly.
pub open spec fn pieces_view(s: Seq<Vec<u16>>) -> Seq<Seq<u16>> {
    s.map_values(|v: Vec<u16>| v@)
}

/// Split a search-path value on its separator.  The pieces contain no
/// separator and join back to exactly the input, which determines them
/// uniquely.
pub fn split_path_list(v: &[u16]) -> (r: Vec<Vec<u16>>)
    ensures
        r@.len() >= 1,
        forall|i: int| 0 <= i < r@.len() ==> !pieces_view(r@)[i].contains(SEMICOLON),
        join_paths(pieces_view(r@)) == v@,
{
    let mut out: Vec<Vec<u16>> = Vec::new();
    let mut cur: Vec<u16> = Vec::new();
    let mut i: usize = 0;
    while i < v.len()
        invariant
            0 <= i <= v@.len(),
            forall|j: int| 0 <= j < out@.len() ==> !pieces_view(out@)[j].contains(SEMICOLON),
            !cur@.contains(SEMICOLON),
            join_paths(pieces_view(out@).push(cur@)) == v@.take(i as int),
        decreases v@.len() - i,
    {
        let u = v[i];
        let ghost ps = pieces_view(out@).push(cur@);
        let ghost out_pre = out@;
        let ghost cur_pre = cur@;
        if u == SEMICOLON {
            out.push(cur);
            cur = Vec::new();
            proof {
                assert(pieces_view(out@) =~= pieces_view(out_pre).push(cur_pre));
                assert forall|j: int| 0 <= j < out@.len() implies !pieces_view(out@)[j].contains(
                    SEMICOLON,
                ) by {
                    if j < out_pre.len() {
                        assert(pieces_view(out@)[j] == pieces_view(out_pre)[j]);
                    } else {
                        assert(pieces_view(out@)[j] == cur_pre);
                    }
                }
                let ps2 = pieces_view(out@).push(cur@);
                assert(ps2.drop_last() =~= ps);
                assert(ps2.last() =~= Seq::<u16>::empty());
                assert(join_paths(ps2) =~= v@.take(i + 1));
            }
        } else {
            cur.push(u);
            proof {
                let ps2 = pieces_view(out@).push(cur@);
                assert(ps2.drop_last() =~= ps.drop_last());
                assert(ps2.last() == ps.last() + seq![u]);
                assert(v@.take(i + 1) =~= v@.take(i as int) + seq![u]);
                if ps.len() == 1 {
                    assert(join_paths(ps2) =~= v@.take(i + 1));
                } else {
                    assert(join_paths(ps2) =~= join_paths(ps.drop_last()) + seq![SEMICOLON] + (
                    ps.last() + seq![u]));
                    assert(join_paths(ps.drop_last()) + seq![SEMICOLON] + (ps.last() + seq![u])
                        =~= (join_paths(ps.drop_last()) + seq![SEMICOLON] + ps.last())
                        + seq![u]);
                    assert(join_paths(ps) == join_paths(ps.drop_last()) + seq![SEMICOLON]
                        + ps.last());
                    assert(join_paths(ps2) =~= v@.take(i + 1));
                }
            }
        }
        i = i + 1;
    }
    proof {
        assert(v@.take(v@.len() as int) =~= v@);
    }
    let ghost out_pre = out@;
    let ghost cur_pre = cur@;
    out.push(cur);
    proof {
        assert(pieces_view(out@) =~= pieces_view(out_pre).push(cur_pre));
        assert forall|j: int| 0 <= j < out@.len() implies !pieces_view(out@)[j].contains(
            SEMICOLON,
        ) by {
            if j < out_pre.len() {
                assert(pieces_view(out@)[j] == pieces_view(out_pre)[j]);
            } else {
                assert(pieces_view(out@)[j] == cur_pre);
            }
        }
    }
    out
}

/// Where the extension of the final path component begins, scanning
/// backwards from position `i`: the dot qualifies only when it is not the
/// first unit of the component.
pub open spec fn ext_dot_from(p: Seq<u16>, i: int) -> Option<int>
    decreases i + 1,
{
    if i < 0 || i >= p.len() {
        None
    } else if p[i] == SEP || p[i] == SLASH {
        None
    } else if p[i] == DOT {
        if i >= 1 && p[i - 1] != SEP && p[i - 1] != SLASH {
            Some(i)
        } else {
            None
        }
    } else {
        ext_dot_from(p, i - 1)
    }
}

/// The program with the native executable extension: an existing extension
/// of the final component is replaced, otherwise the extension is appended.
pub open spec fn exe_candidate(p: Seq<u16>) -> Seq<u16> {
    match ext_dot_from(p, p.len() - 1) {
        Some(d) => p.take(d) + exe_ext(),
        None => p + exe_ext(),
    }
}

/// Scan backwards for the dot that starts the final component's extension.
fn find_ext_dot(p: &[u16]) -> (r: Option<usize>)
    ensures
        match r {
            Some(d) => d < p@.len() && ext_dot_from(p@, p@.len() - 1) == Some(d as int),
            None => ext_dot_from(p@, p@.len() - 1) is None,
        },
{
    let mut i: usize = p.len();
    loop
        invariant
            0 <= i <= p@.len(),
            ext_dot_from(p@, p@.len() - 1) == ext_dot_from(p@, i - 1),
        decreases i,
    {
        if i == 0 {
            return None;
        }
        let c = p[i - 1];
        if c == SEP || c == SLASH {
            return None;
        }
        if c == DOT {
            if i - 1 >= 1 && p[i - 2] != SEP && p[i - 2] != SLASH {
                return Some(i - 1);
            }
            return None;
        }
        i = i - 1;
    }
}

/// Executable counterpart of [`exe_candidate`].
pub fn add_exe_extension(p: &[u16]) -> (r: Vec<u16>)
    ensures
        r@ == exe_candidate(p@),
{
    let dot = find_ext_dot(p);
    let keep = match dot {
        Some(d) => d,
        None => p.len(),
    };
    let mut out: Vec<u16> = Vec::new();
    let mut j: usize = 0;
    while j < keep
        invariant
            keep <= p@.len(),
            0 <= j <= keep,
            out@ == p@.take(keep as int).take(j as int),
        decreases keep - j,
    {
        out.push(p[j]);
        proof {
            assert(out@ =~= p@.take(keep as int).take(j + 1));
        }
        j = j + 1;
    }
    proof {
        assert(p@.take(keep as int).take(keep as int) =~= p@.take(keep as int));
    }
    out.push(DOT);
    out.push(0x65);
    out.push(0x78);
    out.push(0x65);
    proof {
        if dot is Some {
            assert(out@ =~= p@.take(dot->0 as int) + exe_ext());
        } else {
            assert(p@.take(p@.len() as int) =~= p@);
            assert(out@ =~= p@ + exe_ext());
        }
    }
    out
}

/// One candidate file for a search-path directory: the directory, a
/// separator unless the directory is empty or already ends with one, then
/// the program with the executable extension.
pub open spec fn candidate_for(dir: Seq<u16>, prog: Seq<u16>) -> Seq<u16> {
    if dir.len() == 0 || dir.last() == SEP || dir.last() == SLASH {
        dir + exe_candidate(prog)
    } else {
        dir + seq![SEP] + exe_candidate(prog)
    }
}

/// The candidate files, one per directory of a search-path value, in
/// order.  The caller probes them for existence in this order and takes
/// the first hit as the resolved program.
pub fn path_candidates(path_value: &[u16], program: &[u16]) -> (r: Vec<Vec<u16>>)
    ensures
        exists|pieces: Seq<Seq<u16>>|
            {
                &&& #[trigger] join_paths(pieces) == path_value@
                &&& forall|i: int| 0 <= i < pieces.len() ==> !pieces[i].contains(SEMICOLON)
                &&& r@.len() == pieces.len()
                &&& forall|i: int|
                    0 <= i < pieces.len() ==> pieces_view(r@)[i] == candidate_for(
                        pieces[i],
                        program@,
                    )
            },
{
    let pieces = split_path_list(path_value);
    let ghost pv = pieces_view(pieces@);
    let exe = add_exe_extension(program);
    let mut out: Vec<Vec<u16>> = Vec::new();
    let mut i: usize = 0;
    while i < pieces.len()
        invariant
            pv == pieces_view(pieces@),
            exe@ == exe_candidate(program@),
            0 <= i <= pieces@.len(),
            out@.len() == i,
            forall|j: int| 0 <= j < i ==> pieces_view(out@)[j] == candidate_for(pv[j], program@),
        decreases pieces@.len() - i,
    {
        let dir = &pieces[i];
        let mut cand: Vec<u16> = to_wvec(dir.as_slice());
        if dir.len() > 0 {
            let last = dir.as_slice()[dir.len() - 1];
            if last != SEP && last != SLASH {
                cand.push(SEP);
            }
        }
        let mut k: usize = 0;
        let ghost cand_pre = cand@;
        while k < exe.len()
            invariant
                0 <= k <= exe@.len(),
                cand@ == cand_pre + exe@.take(k as int),
            decreases exe@.len() - k,
        {
            cand.push(exe[k]);
            proof {
                assert(cand@ =~= cand_pre + exe@.take(k + 1));
            }
            k = k + 1;
        }
        proof {
            assert(exe@.take(exe@.len() as int) =~= exe@);
            assert(cand@ =~= candidate_for(pv[i as int], program@));
        }
        let ghost out_pre = out@;
        let ghost cand_v = cand@;
        out.push(cand);
        proof {
            assert(pieces_view(out@) =~= pieces_view(out_pre).push(cand_v));
            assert forall|j: int| 0 <= j < i + 1 implies pieces_view(out@)[j] == candidate_for(
                pv[j],
                program@,
            ) by {
                if j < i {
                    assert(pieces_view(out@)[j] == pieces_view(out_pre)[j]);
                } else {
                    assert(pieces_view(out@)[j] == cand_v);
                }
            }
        }
        i = i + 1;
    }
    proof {
        assert(join_paths(pv) == path_value@);
    }
    out
}

/// Pick the resolved program: the first candidate that the caller's
/// file-system probe found to exist, in search-path order; `None` when no
/// candidate exists.  `exists` holds the probe's verdict for each
/// candidate in turn.
pub fn first_existing(candidates: &Vec<Vec<u16>>, exists: &Vec<bool>) -> (r: Option<Vec<u16>>)
    requires
        candidates@.len() == exists@.len(),
    ensures
        r is None <==> (forall|i: int| 0 <= i < exists@.len() ==> !exists@[i]),
        r is Some ==> exists|i: int|
            {
                &&& 0 <= i < exists@.len()
                &&& #[trigger] exists@[i]
                &&& r->0@ == candidates@[i]@
                &&& forall|j: int| 0 <= j < i ==> !exists@[j]
            },
{
    let mut i: usize = 0;
    while i < candidates.len()
        invariant
            candidates@.len() == exists@.len(),
            0 <= i <= exists@.len(),
            forall|j: int| 0 <= j < i ==> !exists@[j],
        decreases exists@.len() - i,
    {
        if exists[i] {
            return Some(to_wvec(candidates[i].as_slice()));
        }
        i = i + 1;
    }
    None
}

} // verus!
