//! Byte-string utilities: case folding, normalization, lexicographic
//! comparison, substring and prefix tests. All contracts are stated over
//! `Seq<u8>` views.

use vstd::prelude::*;

verus! {

/// ASCII lower-casing of one byte; other bytes pass through unchanged.
pub open spec fn lower_byte(b: u8) -> u8 {
    if 65 <= b <= 90 {
        (b + 32) as u8
    } else {
        b
    }
}

/// Case-folded form of a byte string.
pub open spec fn fold_case(s: Seq<u8>) -> Seq<u8> {
    s.map_values(|b: u8| lower_byte(b))
}

/// Executable ASCII lower-casing of one byte.
pub fn lower_byte_exec(b: u8) -> (r: u8)
    ensures
        r == lower_byte(b),
{
    if 65 <= b && b <= 90 {
        b + 32
    } else {
        b
    }
}

/// Case-folded copy of a byte string.
pub fn to_folded(s: &[u8]) -> (r: Vec<u8>)
    ensures
        r@ == fold_case(s@),
{
    let mut out: Vec<u8> = Vec::new();
    let mut i: usize = 0;
    while i < s.len()
        invariant
            i <= s@.len(),
            out@ == fold_case(s@.take(i as int)),
        decreases s@.len() - i,
    {
        out.push(lower_byte_exec(s[i]));
        i = i + 1;
        proof {
            assert(out@ =~= fold_case(s@.take(i as int)));
        }
    }
    proof {
        assert(s@.take(s@.len() as int) =~= s@);
    }
    out
}

/// Path normalization of one byte: forward slashes become backslashes, and
/// ASCII letters are lower-cased, so that install paths compare without
/// regard to separator style or case.
pub open spec fn norm_byte(b: u8) -> u8 {
    if b == 47 {
        92
    } else {
        lower_byte(b)
    }
}

/// Normalized form of a path, for case- and separator-insensitive
/// comparison.
pub open spec fn norm_path(s: Seq<u8>) -> Seq<u8> {
    s.map_values(|b: u8| norm_byte(b))
}

/// `p` is a prefix of `s`.
pub open spec fn is_prefix(p: Seq<u8>, s: Seq<u8>) -> bool {
    p.len() <= s.len() && s.take(p.len() as int) == p
}

/// `p` is a suffix of `s`.
pub open spec fn is_suffix(p: Seq<u8>, s: Seq<u8>) -> bool {
    p.len() <= s.len() && s.skip(s.len() - p.len()) == p
}

/// `n` occurs in `s` as a contiguous substring.
pub open spec fn has_sub(s: Seq<u8>, n: Seq<u8>) -> bool {
    exists|i: int| 0 <= i && i + n.len() <= s.len() && #[trigger] s.subrange(i, i + n.len()) == n
}

/// Normalized copy of a path.
pub fn to_norm_path(s: &[u8]) -> (r: Vec<u8>)
    ensures
        r@ == norm_path(s@),
{
    let mut out: Vec<u8> = Vec::new();
    let mut i: usize = 0;
    while i < s.len()
        invariant
            i <= s@.len(),
            out@ == norm_path(s@.take(i as int)),
        decreases s@.len() - i,
    {
        let b = s[i];
        if b == 47 {
            out.push(92);
        } else {
            out.push(lower_byte_exec(b));
        }
        i = i + 1;
        proof {
            assert(out@ =~= norm_path(s@.take(i as int)));
        }
    }
    proof {
        assert(s@.take(s@.len() as int) =~= s@);
    }
    out
}

/// The bytes of `s` starting at `i` are `n`.
pub fn matches_at(s: &[u8], i: usize, n: &[u8]) -> (r: bool)
    requires
        i + n@.len() <= s@.len(),
    ensures
        r == (s@.subrange(i as int, i + n@.len()) == n@),
{
    let slen = s.len();
    let mut j: usize = 0;
    while j < n.len()
        invariant
            i + n@.len() <= s@.len(),
            slen == s@.len(),
            j <= n@.len(),
            forall|k: int| 0 <= k < j ==> s@[i + k] == n@[k],
        decreases n@.len() - j,
    {
        if s[i + j] != n[j] {
            proof {
                assert(s@.subrange(i as int, i + n@.len())[j as int] != n@[j as int]);
            }
            return false;
        }
        j = j + 1;
    }
    proof {
        assert(s@.subrange(i as int, i + n@.len()) =~= n@);
    }
    true
}

/// `p` is a prefix of `s`.
pub fn starts_with_bytes(s: &[u8], p: &[u8]) -> (r: bool)
    ensures
        r == is_prefix(p@, s@),
{
    if p.len() > s.len() {
        return false;
    }
    matches_at(s, 0, p)
}

/// `p` is a suffix of `s`.
pub fn ends_with_bytes(s: &[u8], p: &[u8]) -> (r: bool)
    ensures
        r == is_suffix(p@, s@),
{
    if p.len() > s.len() {
        return false;
    }
    let r = matches_at(s, s.len() - p.len(), p);
    proof {
        assert(s@.subrange(s@.len() - p@.len(), s@.len() - p@.len() + p@.len()) =~= s@.skip(
            s@.len() - p@.len(),
        ));
    }
    r
}

/// `n` occurs in `s` as a contiguous substring.
pub fn contains_bytes(s: &[u8], n: &[u8]) -> (r: bool)
    ensures
        r == has_sub(s@, n@),
{
    if n.len() == 0 {
        proof {
            assert(s@.subrange(0, 0 + n@.len() as int) =~= n@);
        }
        return true;
    }
    if n.len() > s.len() {
        return false;
    }
    let mut i: usize = 0;
    let last = s.len() - n.len();
    while i <= last
        invariant
            1 <= n@.len() <= s@.len(),
            s@.len() <= usize::MAX,
            last == s@.len() - n@.len(),
            i <= last + 1,
            forall|k: int| 0 <= k < i ==> #[trigger] s@.subrange(k, k + n@.len()) != n@,
        decreases last + 1 - i,
    {
        if matches_at(s, i, n) {
            return true;
        }
        i = i + 1;
    }
    false
}

/// Lexicographic order on byte strings: the empty string comes first, and a
/// proper prefix comes before its extensions.
pub open spec fn lex_le(a: Seq<u8>, b: Seq<u8>) -> bool
    decreases a.len(),
{
    if a.len() == 0 {
        true
    } else if b.len() == 0 {
        false
    } else if a[0] < b[0] {
        true
    } else if a[0] > b[0] {
        false
    } else {
        lex_le(a.drop_first(), b.drop_first())
    }
}

/// The lexicographic order is total.
pub proof fn lemma_lex_le_total(a: Seq<u8>, b: Seq<u8>)
    ensures
        lex_le(a, b) || lex_le(b, a),
    decreases a.len(),
{
    if a.len() == 0 || b.len() == 0 {
    } else if a[0] == b[0] {
        lemma_lex_le_total(a.drop_first(), b.drop_first());
    }
}

/// The lexicographic order is reflexive.
pub proof fn lemma_lex_le_refl(a: Seq<u8>)
    ensures
        lex_le(a, a),
    decreases a.len(),
{
    if a.len() > 0 {
        lemma_lex_le_refl(a.drop_first());
    }
}

/// The lexicographic order is transitive.
pub proof fn lemma_lex_le_trans(a: Seq<u8>, b: Seq<u8>, c: Seq<u8>)
    requires
        lex_le(a, b),
        lex_le(b, c),
    ensures
        lex_le(a, c),
    decreases a.len(),
{
    if a.len() == 0 || b.len() == 0 || c.len() == 0 {
    } else if a[0] == b[0] && b[0] == c[0] {
        lemma_lex_le_trans(a.drop_first(), b.drop_first(), c.drop_first());
    }
}

/// Dropping an equal prefix of both strings does not change their order.
proof fn lemma_lex_le_skip(a: Seq<u8>, b: Seq<u8>, i: int)
    requires
        0 <= i <= a.len(),
        i <= b.len(),
        a.take(i) == b.take(i),
    ensures
        lex_le(a, b) == lex_le(a.skip(i), b.skip(i)),
    decreases i,
{
    if i > 0 {
        assert(a.take(i)[0] == a[0]);
        assert(b.take(i)[0] == b[0]);
        assert forall|k: int| 0 <= k < i - 1 implies #[trigger] a.drop_first().take(i - 1)[k]
            == b.drop_first().take(i - 1)[k] by {
            assert(a.take(i)[k + 1] == b.take(i)[k + 1]);
            assert(a.take(i)[k + 1] == a[k + 1]);
            assert(b.take(i)[k + 1] == b[k + 1]);
            assert(a.drop_first().take(i - 1)[k] == a.drop_first()[k]);
            assert(b.drop_first().take(i - 1)[k] == b.drop_first()[k]);
        }
        assert(a.drop_first().take(i - 1) =~= b.drop_first().take(i - 1));
        lemma_lex_le_skip(a.drop_first(), b.drop_first(), i - 1);
        assert(a.drop_first().skip(i - 1) =~= a.skip(i));
        assert(b.drop_first().skip(i - 1) =~= b.skip(i));
    } else {
        assert(a.skip(0) =~= a);
        assert(b.skip(0) =~= b);
    }
}

/// Case-insensitive lexicographic comparison: the case-folded form of `a`
/// comes no later than that of `b`.
pub fn folded_le(a: &[u8], b: &[u8]) -> (r: bool)
    ensures
        r == lex_le(fold_case(a@), fold_case(b@)),
{
    let mut i: usize = 0;
    loop
        invariant
            i <= a@.len(),
            i <= b@.len(),
            fold_case(a@).take(i as int) == fold_case(b@).take(i as int),
        decreases a@.len() - i,
    {
        proof {
            lemma_lex_le_skip(fold_case(a@), fold_case(b@), i as int);
        }
        if i == a.len() {
            return true;
        }
        if i == b.len() {
            return false;
        }
        let ca = lower_byte_exec(a[i]);
        let cb = lower_byte_exec(b[i]);
        if ca < cb {
            proof {
                assert(fold_case(a@).skip(i as int)[0] == ca);
                assert(fold_case(b@).skip(i as int)[0] == cb);
            }
            return true;
        }
        if ca > cb {
            proof {
                assert(fold_case(a@).skip(i as int)[0] == ca);
                assert(fold_case(b@).skip(i as int)[0] == cb);
            }
            return false;
        }
        i = i + 1;
        proof {
            assert(fold_case(a@).take(i as int) =~= fold_case(b@).take(i as int)) by {
                assert(forall|k: int|
                    0 <= k < i - 1 ==> #[trigger] fold_case(a@).take(i - 1)[k] == fold_case(
                        b@,
                    ).take(i - 1)[k]);
            }
        }
    }
}

/// A path separator: backslash or forward slash.
pub open spec fn is_sep(b: u8) -> bool {
    b == 92 || b == 47
}

/// The path without its trailing separators.
pub open spec fn strip_trailing_seps(s: Seq<u8>) -> Seq<u8>
    decreases s.len(),
{
    if s.len() > 0 && is_sep(s.last()) {
        strip_trailing_seps(s.drop_last())
    } else {
        s
    }
}

/// The maximal suffix of `s` in which `stop` holds of no byte.
pub open spec fn tail_until(s: Seq<u8>, stop: spec_fn(u8) -> bool) -> Seq<u8>
    decreases s.len(),
{
    if s.len() == 0 {
        s
    } else if stop(s.last()) {
        Seq::empty()
    } else {
        tail_until(s.drop_last(), stop).push(s.last())
    }
}

/// The final segment of a path: what follows the last separator, once
/// trailing separators are stripped.
pub open spec fn last_segment(s: Seq<u8>) -> Seq<u8> {
    tail_until(strip_trailing_seps(s), |b: u8| is_sep(b))
}

/// If nothing from `start` on satisfies `stop`, and `start` sits right after
/// a stopping byte (or at the front), the tail is exactly `s.skip(start)`.
proof fn lemma_tail_until_skip(s: Seq<u8>, stop: spec_fn(u8) -> bool, start: int)
    requires
        0 <= start <= s.len(),
        forall|k: int| start <= k < s.len() ==> !stop(#[trigger] s[k]),
        start == 0 || stop(s[start - 1]),
    ensures
        tail_until(s, stop) == s.skip(start),
    decreases s.len(),
{
    if s.len() == 0 {
        assert(s.skip(start) =~= s);
    } else if start == s.len() {
        assert(stop(s.last()));
        assert(s.skip(start) =~= Seq::<u8>::empty());
    } else {
        assert(!stop(s.last()));
        lemma_tail_until_skip(s.drop_last(), stop, start);
        assert(tail_until(s.drop_last(), stop).push(s.last()) =~= s.skip(start));
    }
}

/// The final segment of a path, as a new byte string.
pub fn last_segment_exec(s: &[u8]) -> (r: Vec<u8>)
    ensures
        r@ == last_segment(s@),
{
    let slen = s.len();
    let mut end = s.len();
    proof {
        assert(s@.take(end as int) =~= s@);
    }
    while end > 0 && (s[end - 1] == 92 || s[end - 1] == 47)
        invariant
            end <= slen,
            slen == s@.len(),
            strip_trailing_seps(s@) == strip_trailing_seps(s@.take(end as int)),
        decreases end,
    {
        proof {
            assert(s@.take(end as int).drop_last() =~= s@.take(end - 1));
        }
        end = end - 1;
    }
    proof {
        assert(strip_trailing_seps(s@) == s@.take(end as int));
    }
    let mut start = end;
    while start > 0 && !(s[start - 1] == 92 || s[start - 1] == 47)
        invariant
            start <= end <= slen,
            slen == s@.len(),
            forall|k: int| start <= k < end ==> !is_sep(#[trigger] s@.take(end as int)[k]),
        decreases start,
    {
        start = start - 1;
    }
    proof {
        lemma_tail_until_skip(s@.take(end as int), |b: u8| is_sep(b), start as int);
    }
    let mut out: Vec<u8> = Vec::new();
    let mut i = start;
    while i < end
        invariant
            start <= i <= end <= slen,
            slen == s@.len(),
            out@ == s@.take(end as int).skip(start as int).take(i - start),
        decreases end - i,
    {
        out.push(s[i]);
        i = i + 1;
        proof {
            assert(out@ =~= s@.take(end as int).skip(start as int).take(i - start));
        }
    }
    proof {
        assert(s@.take(end as int).skip(start as int).take(end - start) =~= s@.take(
            end as int,
        ).skip(start as int));
    }
    out
}

/// The extension of a file name: what follows the last dot, unless there is
/// no dot or the only dot opens the name.
pub open spec fn ext_of(name: Seq<u8>) -> Option<Seq<u8>> {
    let t = tail_until(name, |b: u8| b == 46);
    if t.len() == name.len() {
        None
    } else if name.len() - t.len() - 1 == 0 {
        None
    } else {
        Some(t)
    }
}

/// The stem of a file name: what precedes the extension, or the whole name.
pub open spec fn stem_of(name: Seq<u8>) -> Seq<u8> {
    match ext_of(name) {
        Some(e) => name.take(name.len() - e.len() - 1),
        None => name,
    }
}

/// Splits a file name into stem and optional extension at the last dot.
pub fn split_ext(name: &[u8]) -> (r: (Vec<u8>, Option<Vec<u8>>))
    ensures
        r.0@ == stem_of(name@),
        match r.1 {
            Some(e) => ext_of(name@) == Some(e@),
            None => ext_of(name@) is None,
        },
{
    let slen = name.len();
    let mut start = slen;
    while start > 0 && name[start - 1] != 46
        invariant
            start <= slen,
            slen == name@.len(),
            forall|k: int| start <= k < slen ==> #[trigger] name@[k] != 46,
        decreases start,
    {
        start = start - 1;
    }
    proof {
        lemma_tail_until_skip(name@, |b: u8| b == 46, start as int);
    }
    if start <= 1 {
        // No dot at all, or the only dot opens the name: no extension.
        let mut stem: Vec<u8> = Vec::new();
        let mut i: usize = 0;
        while i < slen
            invariant
                i <= slen,
                slen == name@.len(),
                stem@ == name@.take(i as int),
            decreases slen - i,
        {
            stem.push(name[i]);
            i = i + 1;
            proof {
                assert(stem@ =~= name@.take(i as int));
            }
        }
        proof {
            assert(name@.take(slen as int) =~= name@);
        }
        (stem, None)
    } else {
        let mut stem: Vec<u8> = Vec::new();
        let mut i: usize = 0;
        while i < start - 1
            invariant
                2 <= start <= slen,
                i <= start - 1,
                slen == name@.len(),
                stem@ == name@.take(i as int),
            decreases start - i,
        {
            stem.push(name[i]);
            i = i + 1;
            proof {
                assert(stem@ =~= name@.take(i as int));
            }
        }
        let mut ext: Vec<u8> = Vec::new();
        let mut j = start;
        while j < slen
            invariant
                start <= j <= slen,
                slen == name@.len(),
                ext@ == name@.skip(start as int).take(j - start),
            decreases slen - j,
        {
            ext.push(name[j]);
            j = j + 1;
            proof {
                assert(ext@ =~= name@.skip(start as int).take(j - start));
            }
        }
        proof {
            assert(name@.skip(start as int).take(slen - start) =~= name@.skip(start as int));
            assert(ext_of(name@) == Some(name@.skip(start as int)));
        }
        (stem, Some(ext))
    }
}

/// A relative component appended to a directory, with exactly one separator
/// between them; an empty directory yields the component alone.
pub open spec fn spec_join_path(dir: Seq<u8>, rel: Seq<u8>) -> Seq<u8> {
    if dir.len() == 0 {
        rel
    } else if is_sep(dir.last()) {
        dir + rel
    } else {
        dir + seq![92u8] + rel
    }
}

/// Appends a byte string to a growing buffer.
pub fn append_bytes(out: &mut Vec<u8>, s: &[u8])
    ensures
        final(out)@ == old(out)@ + s@,
{
    let mut i: usize = 0;
    while i < s.len()
        invariant
            i <= s@.len(),
            out@ == old(out)@ + s@.take(i as int),
        decreases s@.len() - i,
    {
        out.push(s[i]);
        i = i + 1;
        proof {
            assert(out@ =~= old(out)@ + s@.take(i as int));
        }
    }
    proof {
        assert(old(out)@ + s@.take(s@.len() as int) =~= old(out)@ + s@);
    }
}

/// Joins a directory and a relative component.
pub fn join_path(dir: &[u8], rel: &[u8]) -> (r: Vec<u8>)
    ensures
        r@ == spec_join_path(dir@, rel@),
{
    if dir.len() == 0 {
        let mut out: Vec<u8> = Vec::new();
        append_bytes(&mut out, rel);
        proof {
            assert(out@ =~= rel@);
        }
        return out;
    }
    let mut out: Vec<u8> = Vec::new();
    append_bytes(&mut out, dir);
    let lastb = dir[dir.len() - 1];
    if !(lastb == 92 || lastb == 47) {
        out.push(92);
        proof {
            assert(out@ =~= dir@ + seq![92u8]);
        }
    }
    append_bytes(&mut out, rel);
    out
}

/// The decimal digits of `n`.
pub open spec fn dec_digits(n: u64) -> Seq<u8>
    decreases n,
{
    if n < 10 {
        seq![(48 + n) as u8]
    } else {
        dec_digits((n / 10) as u64).push((48 + n % 10) as u8)
    }
}

/// Renders `n` in decimal.
pub fn u64_to_dec(n: u64) -> (r: Vec<u8>)
    ensures
        r@ == dec_digits(n),
    decreases n,
{
    if n < 10 {
        let v: Vec<u8> = vec![48 + (n as u8)];
        proof {
            assert(v@ =~= dec_digits(n));
        }
        v
    } else {
        let mut v = u64_to_dec(n / 10);
        v.push(48 + ((n % 10) as u8));
        v
    }
}

/// Byte-string equality, stated over the views.
pub fn bytes_eq(a: &[u8], b: &[u8]) -> (r: bool)
    ensures
        r == (a@ == b@),
{
    if a.len() != b.len() {
        return false;
    }
    let mut i: usize = 0;
    while i < a.len()
        invariant
            a@.len() == b@.len(),
            i <= a@.len(),
            forall|j: int| 0 <= j < i ==> a@[j] == b@[j],
        decreases a@.len() - i,
    {
        if a[i] != b[i] {
            return false;
        }
        i = i + 1;
    }
    proof {
        assert(a@ =~= b@);
    }
    true
}

} // verus!
