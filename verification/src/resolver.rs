//! The library-path resolver: the primary root always comes first, and the
//! auxiliary library-folders descriptor contributes further roots — every
//! `"path" "<value>"` pair whose value, with doubled backslashes collapsed,
//! is not already present under case-insensitive comparison and exists on
//! disk. Malformed descriptor text is skipped byte by byte, never fatal.

use vstd::prelude::*;

use crate::lit;
use crate::model::seqs_view;
use crate::text::{bytes_eq, fold_case, to_folded};

verus! {

/// Descriptor whitespace, as a tolerant pattern match takes it: blanks,
/// tabs, line breaks, and the page and vertical separators.
pub open spec fn is_vdf_ws(b: u8) -> bool {
    b == 32 || b == 9 || b == 10 || b == 13 || b == 12 || b == 11
}

/// The number of consecutive whitespace bytes at `pos`.
pub open spec fn ws_run(s: Seq<u8>, pos: int) -> int
    decreases s.len() - pos,
{
    if pos < 0 || pos >= s.len() || !is_vdf_ws(s[pos]) {
        0
    } else {
        1 + ws_run(s, pos + 1)
    }
}

/// The whitespace run stays within the input.
pub proof fn lemma_ws_run(s: Seq<u8>, pos: int)
    requires
        0 <= pos <= s.len(),
    ensures
        0 <= ws_run(s, pos),
        pos + ws_run(s, pos) <= s.len(),
    decreases s.len() - pos,
{
    if pos < s.len() && is_vdf_ws(s[pos]) {
        lemma_ws_run(s, pos + 1);
    }
}

/// A quoted descriptor value read from right after its opening quote:
/// doubled backslashes collapse to one, any other escaped byte stays with
/// its backslash, and an unescaped quote ends the value.
pub open spec fn vdf_value(s: Seq<u8>, pos: int) -> Option<(Seq<u8>, int)>
    decreases s.len() - pos,
{
    if pos < 0 || pos >= s.len() {
        None
    } else if s[pos] == 34 {
        Some((Seq::empty(), pos + 1))
    } else if s[pos] == 92 {
        if pos + 1 < s.len() {
            match vdf_value(s, pos + 2) {
                Some((v, e)) => {
                    if s[pos + 1] == 92 {
                        Some((seq![92u8] + v, e))
                    } else {
                        Some((seq![92u8, s[pos + 1]] + v, e))
                    }
                },
                None => None,
            }
        } else {
            None
        }
    } else {
        match vdf_value(s, pos + 1) {
            Some((v, e)) => Some((seq![s[pos]] + v, e)),
            None => None,
        }
    }
}

/// A read value ends past its start, within the input.
pub proof fn lemma_vdf_value_range(s: Seq<u8>, pos: int)
    requires
        vdf_value(s, pos) is Some,
    ensures
        pos < vdf_value(s, pos)->Some_0.1 <= s.len(),
    decreases s.len() - pos,
{
    if s[pos] == 34 {
    } else if s[pos] == 92 {
        lemma_vdf_value_range(s, pos + 2);
    } else {
        lemma_vdf_value_range(s, pos + 1);
    }
}

/// A `"path" "<value>"` pair at exactly position `pos`: the quoted path
/// token, at least one whitespace byte, and a non-empty quoted value.
pub open spec fn vdf_pair_at(s: Seq<u8>, pos: int) -> Option<(Seq<u8>, int)> {
    if 0 <= pos && pos + lit::spec_path_token().len() <= s.len() && s.subrange(
        pos,
        pos + lit::spec_path_token().len(),
    ) == lit::spec_path_token() {
        let j = pos + lit::spec_path_token().len();
        let w = ws_run(s, j);
        if w >= 1 && j + w < s.len() && s[j + w] == 34 && j + w + 1 < s.len() && s[j + w + 1]
            != 34 {
            vdf_value(s, j + w + 1)
        } else {
            None
        }
    } else {
        None
    }
}

/// A matched pair ends past its start, within the input.
pub proof fn lemma_vdf_pair_range(s: Seq<u8>, pos: int)
    requires
        vdf_pair_at(s, pos) is Some,
    ensures
        pos < vdf_pair_at(s, pos)->Some_0.1 <= s.len(),
{
    let j = pos + lit::spec_path_token().len();
    let w = ws_run(s, j);
    lemma_vdf_value_range(s, j + w + 1);
    lemma_ws_run(s, j);
}

/// Every candidate value of the descriptor, scanning left to right and
/// resuming after each match, skipping one byte on a mismatch.
pub open spec fn spec_candidates(s: Seq<u8>, pos: int) -> Seq<Seq<u8>>
    decreases s.len() - pos,
    via spec_candidates_dec
{
    if pos < 0 || pos >= s.len() {
        Seq::empty()
    } else {
        match vdf_pair_at(s, pos) {
            Some((v, e)) => seq![v] + spec_candidates(s, e),
            None => spec_candidates(s, pos + 1),
        }
    }
}

#[via_fn]
proof fn spec_candidates_dec(s: Seq<u8>, pos: int) {
    if 0 <= pos < s.len() && vdf_pair_at(s, pos) is Some {
        lemma_vdf_pair_range(s, pos);
    }
}

/// A quoted descriptor value, read from right after its opening quote.
fn vdf_value_exec(s: &[u8], pos: usize) -> (r: Option<(Vec<u8>, usize)>)
    ensures
        match r {
            Some((v, e)) => vdf_value(s@, pos as int) == Some((v@, e as int)),
            None => vdf_value(s@, pos as int) is None,
        },
    decreases s@.len() - pos,
{
    if pos >= s.len() {
        return None;
    }
    let b = s[pos];
    if b == 34 {
        let v: Vec<u8> = Vec::new();
        proof {
            assert(v@ =~= Seq::<u8>::empty());
        }
        return Some((v, pos + 1));
    }
    if b == 92 {
        if pos + 1 < s.len() {
            let c = s[pos + 1];
            match vdf_value_exec(s, pos + 2) {
                Some((rest, e)) => {
                    let mut v: Vec<u8> = rest;
                    if c == 92 {
                        v.insert(0, 92);
                        proof {
                            assert(v@ =~= seq![92u8] + vdf_value(s@, pos + 2)->Some_0.0);
                        }
                    } else {
                        v.insert(0, c);
                        v.insert(0, 92);
                        proof {
                            assert(v@ =~= seq![92u8, s@[pos + 1]] + vdf_value(
                                s@,
                                pos + 2,
                            )->Some_0.0);
                        }
                    }
                    return Some((v, e));
                },
                None => {
                    return None;
                },
            }
        } else {
            return None;
        }
    }
    match vdf_value_exec(s, pos + 1) {
        Some((rest, e)) => {
            let mut v: Vec<u8> = rest;
            v.insert(0, b);
            proof {
                assert(v@ =~= seq![s@[pos as int]] + vdf_value(s@, pos + 1)->Some_0.0);
            }
            Some((v, e))
        },
        None => None,
    }
}

/// A `"path" "<value>"` pair at exactly position `pos`.
fn vdf_pair_at_exec(s: &[u8], pos: usize) -> (r: Option<(Vec<u8>, usize)>)
    ensures
        match r {
            Some((v, e)) => vdf_pair_at(s@, pos as int) == Some((v@, e as int)),
            None => vdf_pair_at(s@, pos as int) is None,
        },
{
    let token = lit::path_token();
    let slen = s.len();
    if pos > slen || slen - pos < token.len() {
        return None;
    }
    if !crate::text::matches_at(s, pos, token.as_slice()) {
        return None;
    }
    let j = pos + token.len();
    let mut w: usize = 0;
    loop
        invariant
            j + w <= slen,
            slen == s@.len(),
            j == pos + lit::spec_path_token().len(),
            pos + lit::spec_path_token().len() <= s@.len(),
            ws_run(s@, j as int) == w + ws_run(s@, j + w),
        ensures
            j + w <= s@.len(),
            ws_run(s@, j as int) == w as int,
        decreases s@.len() - j - w,
    {
        if j + w >= slen {
            proof {
                assert(ws_run(s@, j + w) == 0);
            }
            break ;
        }
        let c = s[j + w];
        if !(c == 32 || c == 9 || c == 10 || c == 13 || c == 12 || c == 11) {
            proof {
                assert(ws_run(s@, j + w) == 0);
            }
            break ;
        }
        w = w + 1;
    }
    if w >= 1 && j + w < s.len() && s[j + w] == 34 && j + w + 1 < s.len() && s[j + w + 1] != 34 {
        vdf_value_exec(s, j + w + 1)
    } else {
        None
    }
}

/// Every candidate value of the library-folders descriptor, in order.
pub fn library_folder_candidates(vdf: &[u8]) -> (r: Vec<Vec<u8>>)
    ensures
        seqs_view(r@) == spec_candidates(vdf@, 0),
{
    let mut out: Vec<Vec<u8>> = Vec::new();
    let mut pos: usize = 0;
    proof {
        assert(seqs_view(out@) =~= Seq::<Seq<u8>>::empty());
        assert(seqs_view(out@) + spec_candidates(vdf@, 0) =~= spec_candidates(vdf@, 0));
    }
    while pos < vdf.len()
        invariant
            pos <= vdf@.len(),
            spec_candidates(vdf@, 0) == seqs_view(out@) + spec_candidates(vdf@, pos as int),
        decreases vdf@.len() - pos,
    {
        match vdf_pair_at_exec(vdf, pos) {
            Some((v, e)) => {
                proof {
                    lemma_vdf_pair_range(vdf@, pos as int);
                }
                let ghost vv = v@;
                let ghost prev = out@;
                out.push(v);
                proof {
                    assert(seqs_view(out@) =~= seqs_view(prev).push(vv));
                    assert(seqs_view(prev).push(vv) + spec_candidates(vdf@, e as int)
                        =~= seqs_view(prev) + (seq![vv] + spec_candidates(vdf@, e as int)));
                }
                pos = e;
            },
            None => {
                pos = pos + 1;
            },
        }
    }
    proof {
        assert(spec_candidates(vdf@, pos as int) =~= Seq::<Seq<u8>>::empty());
        assert(seqs_view(out@) + Seq::<Seq<u8>>::empty() =~= seqs_view(out@));
    }
    out
}

/// Whether some already-taken root equals `p` under case folding.
pub open spec fn contains_folded(acc: Seq<Seq<u8>>, p: Seq<u8>) -> bool {
    exists|t: int| 0 <= t < acc.len() && fold_case(#[trigger] acc[t]) == fold_case(p)
}

/// The roots after offering the candidates to `acc` in order: a candidate
/// joins exactly when it exists on disk and no taken root equals it under
/// case folding.
pub open spec fn spec_merge_folders(acc: Seq<Seq<u8>>, cands: Seq<(Seq<u8>, bool)>) -> Seq<Seq<u8>>
    decreases cands.len(),
{
    if cands.len() == 0 {
        acc
    } else {
        let acc2 = if cands[0].1 && !contains_folded(acc, cands[0].0) {
            acc.push(cands[0].0)
        } else {
            acc
        };
        spec_merge_folders(acc2, cands.drop_first())
    }
}

/// Views of a sequence of candidate pairs.
pub open spec fn pairs_view(s: Seq<(Vec<u8>, bool)>) -> Seq<(Seq<u8>, bool)> {
    s.map_values(|t: (Vec<u8>, bool)| (t.0@, t.1))
}

/// Whether some taken root equals `p` under case folding.
fn contains_folded_exec(acc: &Vec<Vec<u8>>, p: &[u8]) -> (r: bool)
    ensures
        r == contains_folded(seqs_view(acc@), p@),
{
    let pf = to_folded(p);
    let mut t: usize = 0;
    while t < acc.len()
        invariant
            t <= acc@.len(),
            pf@ == fold_case(p@),
            forall|u: int|
                0 <= u < t ==> fold_case(#[trigger] seqs_view(acc@)[u]) != fold_case(p@),
        decreases acc@.len() - t,
    {
        let af = to_folded(acc[t].as_slice());
        if bytes_eq(af.as_slice(), pf.as_slice()) {
            proof {
                assert(fold_case(seqs_view(acc@)[t as int]) == fold_case(p@));
            }
            return true;
        }
        t = t + 1;
    }
    false
}

/// The ordered, deduplicated library roots: the primary root first, then
/// each existing candidate not yet present under case-insensitive
/// comparison.
pub fn merge_library_folders(root: Vec<u8>, candidates: Vec<(Vec<u8>, bool)>) -> (r: Vec<Vec<u8>>)
    ensures
        seqs_view(r@) == spec_merge_folders(seq![root@], pairs_view(candidates@)),
{
    let ghost cv = pairs_view(candidates@);
    let ghost rootv = root@;
    let mut out: Vec<Vec<u8>> = Vec::new();
    out.push(root);
    proof {
        assert(seqs_view(out@) =~= seq![rootv]);
        assert(cv.skip(0) =~= cv);
    }
    let mut i: usize = 0;
    while i < candidates.len()
        invariant
            i <= candidates@.len(),
            cv == pairs_view(candidates@),
            spec_merge_folders(seq![rootv], cv) == spec_merge_folders(
                seqs_view(out@),
                cv.skip(i as int),
            ),
        decreases candidates@.len() - i,
    {
        proof {
            assert(cv.skip(i as int)[0] == cv[i as int]);
            assert(cv.skip(i as int).drop_first() =~= cv.skip(i + 1));
            assert(cv[i as int] == (candidates@[i as int].0@, candidates@[i as int].1));
        }
        let exists_on_disk = candidates[i].1;
        if exists_on_disk && !contains_folded_exec(&out, candidates[i].0.as_slice()) {
            let p = vstd::slice::slice_to_vec(candidates[i].0.as_slice());
            let ghost prev = out@;
            out.push(p);
            proof {
                assert(seqs_view(out@) =~= seqs_view(prev).push(cv[i as int].0));
            }
        }
        i = i + 1;
    }
    proof {
        assert(cv.skip(cv.len() as int) =~= Seq::<(Seq<u8>, bool)>::empty());
    }
    out
}

} // verus!
