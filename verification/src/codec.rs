//! The persistence format of the overlay state: a structured text file with
//! the four fields `favorites`, `customGames`, `selectedDrives` and `theme`,
//! each optional on read with its documented default. The encoder writes the
//! whole state; the decoder returns a fresh default state on any malformed
//! content, and the two compose to the identity on well-formed states.

use vstd::prelude::*;

use crate::lit::{spec_platform_custom, spec_platform_ea, spec_platform_epic, spec_platform_gog,
    spec_platform_steam, spec_platform_ubisoft};
use crate::model::Platform;

verus! {

// ----- Placement of an encoding inside a larger buffer -----

/// The bytes of `e` stand in `s` at position `pos`.
pub open spec fn is_at(s: Seq<u8>, pos: int, e: Seq<u8>) -> bool {
    0 <= pos && pos + e.len() <= s.len() && s.subrange(pos, pos + e.len()) == e
}

/// A concatenation stands at `pos` exactly as its parts in sequence.
pub proof fn lemma_is_at_split(s: Seq<u8>, pos: int, a: Seq<u8>, b: Seq<u8>)
    requires
        is_at(s, pos, a + b),
    ensures
        is_at(s, pos, a),
        is_at(s, pos + a.len(), b),
{
    let whole = s.subrange(pos, pos + a.len() + b.len());
    assert(s.subrange(pos, pos + a.len()) =~= a) by {
        assert forall|t: int| 0 <= t < a.len() implies s.subrange(pos, pos + a.len())[t]
            == a[t] by {
            assert(whole[t] == (a + b)[t]);
        }
    }
    assert(s.subrange(pos + a.len(), pos + a.len() + b.len()) =~= b) by {
        assert forall|t: int|
            0 <= t < b.len() implies s.subrange(pos + a.len(), pos + a.len() + b.len())[t]
            == b[t] by {
            assert(whole[a.len() + t] == (a + b)[a.len() + t]);
        }
    }
}

/// Each byte of an encoding standing at `pos` is visible in `s`.
pub proof fn lemma_is_at_index(s: Seq<u8>, pos: int, e: Seq<u8>, t: int)
    requires
        is_at(s, pos, e),
        0 <= t < e.len(),
    ensures
        s[pos + t] == e[t],
{
    assert(s.subrange(pos, pos + e.len())[t] == e[t]);
}

// ----- Whitespace between tokens -----

/// The whitespace the reader tolerates between tokens: blanks, tabs and line
/// breaks.
pub open spec fn is_json_ws(b: u8) -> bool {
    b == 32 || b == 9 || b == 10 || b == 13
}

/// The first position at or after `pos` that holds no whitespace (or the
/// end of the input).
pub open spec fn ws_end(s: Seq<u8>, pos: int) -> int
    decreases s.len() - pos,
{
    if pos < 0 || pos >= s.len() {
        pos
    } else if is_json_ws(s[pos]) {
        ws_end(s, pos + 1)
    } else {
        pos
    }
}

/// The whitespace skip stays within the input and lands on no whitespace.
pub proof fn lemma_ws_end(s: Seq<u8>, pos: int)
    requires
        0 <= pos <= s.len(),
    ensures
        pos <= ws_end(s, pos) <= s.len(),
        ws_end(s, pos) < s.len() ==> !is_json_ws(s[ws_end(s, pos)]),
    decreases s.len() - pos,
{
    if pos < s.len() && is_json_ws(s[pos]) {
        lemma_ws_end(s, pos + 1);
    }
}

/// Skips whitespace from `pos`.
fn skip_ws(s: &[u8], pos: usize) -> (r: usize)
    requires
        pos <= s@.len(),
    ensures
        r as int == ws_end(s@, pos as int),
        pos <= r <= s@.len(),
{
    let mut i = pos;
    while i < s.len() && (s[i] == 32 || s[i] == 9 || s[i] == 10 || s[i] == 13)
        invariant
            pos <= i <= s@.len(),
            ws_end(s@, pos as int) == ws_end(s@, i as int),
        decreases s@.len() - i,
    {
        i = i + 1;
    }
    proof {
        lemma_ws_end(s@, pos as int);
    }
    i
}

/// Parsing may start anywhere in the whitespace run before a token: the
/// outcome equals parsing from the first non-whitespace position.
pub proof fn lemma_parse_from_ws(s: Seq<u8>, pos: int, start: int)
    requires
        0 <= pos,
        ws_end(s, pos) == start,
    ensures
        sp_string(s, pos) == sp_string(s, start),
        sp_str_array(s, pos) == sp_str_array(s, start),
        sp_rec_array(s, pos) == sp_rec_array(s, start),
        sp_theme(s, pos) == sp_theme(s, start),
    decreases s.len() - pos,
{
    if pos < s.len() && is_json_ws(s[pos]) {
        lemma_parse_from_ws(s, pos + 1, start);
    }
}

// ----- Strings -----

/// The escaped form of one byte: quotes and backslashes are preceded by a
/// backslash, everything else stands as itself.
pub open spec fn esc(b: u8) -> Seq<u8> {
    if b == 34 || b == 92 {
        seq![92u8, b]
    } else {
        seq![b]
    }
}

/// The escaped body of a string.
pub open spec fn enc_str_body(v: Seq<u8>) -> Seq<u8>
    decreases v.len(),
{
    if v.len() == 0 {
        Seq::empty()
    } else {
        esc(v[0]) + enc_str_body(v.drop_first())
    }
}

/// A quoted, escaped string.
pub open spec fn enc_string(v: Seq<u8>) -> Seq<u8> {
    seq![34u8] + enc_str_body(v) + seq![34u8]
}

/// Parses an escaped string body up to and including its closing quote,
/// starting right after the opening quote.
pub open spec fn sp_str_body(s: Seq<u8>, pos: int) -> Option<(Seq<u8>, int)>
    decreases s.len() - pos,
{
    if pos < 0 || pos >= s.len() {
        None
    } else if s[pos] == 34 {
        Some((Seq::empty(), pos + 1))
    } else if s[pos] == 92 {
        if pos + 1 < s.len() {
            match sp_str_body(s, pos + 2) {
                Some((v, e)) => Some((seq![s[pos + 1]] + v, e)),
                None => None,
            }
        } else {
            None
        }
    } else {
        match sp_str_body(s, pos + 1) {
            Some((v, e)) => Some((seq![s[pos]] + v, e)),
            None => None,
        }
    }
}

/// Parses a quoted string at `pos`, leading whitespace tolerated.
pub open spec fn sp_string(s: Seq<u8>, pos: int) -> Option<(Seq<u8>, int)> {
    let p = ws_end(s, pos);
    if 0 <= pos && p < s.len() && s[p] == 34 {
        sp_str_body(s, p + 1)
    } else {
        None
    }
}

/// A parse that succeeds ends within the input, past its start.
pub proof fn lemma_sp_str_body_range(s: Seq<u8>, pos: int)
    requires
        sp_str_body(s, pos) is Some,
    ensures
        pos < sp_str_body(s, pos)->Some_0.1 <= s.len(),
    decreases s.len() - pos,
{
    if s[pos] == 34 {
    } else if s[pos] == 92 {
        lemma_sp_str_body_range(s, pos + 2);
    } else {
        lemma_sp_str_body_range(s, pos + 1);
    }
}

/// Parsing a string where one was encoded yields the original bytes and
/// stops right after its closing quote.
pub proof fn lemma_sp_string_of_enc(s: Seq<u8>, pos: int, v: Seq<u8>)
    requires
        is_at(s, pos, enc_string(v)),
    ensures
        sp_string(s, pos) == Some((v, pos + enc_string(v).len())),
{
    lemma_is_at_index(s, pos, enc_string(v), 0);
    assert(s[pos] == 34);
    assert(ws_end(s, pos) == pos);
    assert(enc_string(v) =~= seq![34u8] + (enc_str_body(v) + seq![34u8]));
    lemma_is_at_split(s, pos, seq![34u8], enc_str_body(v) + seq![34u8]);
    lemma_sp_str_body_of_enc(s, pos + 1, v);
}

/// Parsing a string body where one was encoded yields the original bytes.
pub proof fn lemma_sp_str_body_of_enc(s: Seq<u8>, pos: int, v: Seq<u8>)
    requires
        is_at(s, pos, enc_str_body(v) + seq![34u8]),
    ensures
        sp_str_body(s, pos) == Some((v, pos + enc_str_body(v).len() + 1)),
    decreases v.len(),
{
    if v.len() == 0 {
        lemma_is_at_index(s, pos, enc_str_body(v) + seq![34u8], 0);
        assert(s[pos] == 34);
    } else {
        let rest = enc_str_body(v.drop_first()) + seq![34u8];
        assert(enc_str_body(v) + seq![34u8] =~= esc(v[0]) + rest);
        lemma_is_at_split(s, pos, esc(v[0]), rest);
        if v[0] == 34 || v[0] == 92 {
            lemma_is_at_index(s, pos, esc(v[0]), 0);
            lemma_is_at_index(s, pos, esc(v[0]), 1);
            assert(s[pos] == 92);
            assert(s[pos + 1] == v[0]);
            lemma_sp_str_body_of_enc(s, pos + 2, v.drop_first());
            assert(seq![s[pos + 1]] + v.drop_first() =~= v);
        } else {
            lemma_is_at_index(s, pos, esc(v[0]), 0);
            assert(s[pos] == v[0]);
            lemma_sp_str_body_of_enc(s, pos + 1, v.drop_first());
            assert(seq![s[pos]] + v.drop_first() =~= v);
        }
    }
}

/// Appends the quoted, escaped form of `v`.
pub fn encode_string_into(out: &mut Vec<u8>, v: &[u8])
    ensures
        final(out)@ == old(out)@ + enc_string(v@),
{
    out.push(34);
    let mut i: usize = 0;
    while i < v.len()
        invariant
            i <= v@.len(),
            out@ == old(out)@ + seq![34u8] + enc_str_body(v@.take(i as int)),
        decreases v@.len() - i,
    {
        let b = v[i];
        if b == 34 || b == 92 {
            out.push(92);
            out.push(b);
        } else {
            out.push(b);
        }
        i = i + 1;
        proof {
            lemma_enc_str_body_push(v@.take(i - 1), v@[i - 1]);
            assert(v@.take(i as int) =~= v@.take(i - 1).push(v@[i - 1]));
            assert(out@ =~= old(out)@ + seq![34u8] + enc_str_body(v@.take(i as int)));
        }
    }
    out.push(34);
    proof {
        assert(v@.take(v@.len() as int) =~= v@);
        assert(out@ =~= old(out)@ + enc_string(v@));
    }
}

/// The escaped body of a string grows at its end as the string does.
proof fn lemma_enc_str_body_push(v: Seq<u8>, b: u8)
    ensures
        enc_str_body(v.push(b)) == enc_str_body(v) + esc(b),
    decreases v.len(),
{
    if v.len() == 0 {
        assert(v.push(b).drop_first() =~= Seq::<u8>::empty());
        assert(enc_str_body(Seq::<u8>::empty()) == Seq::<u8>::empty());
        assert(v.push(b)[0] == b);
        assert(enc_str_body(v.push(b)) =~= enc_str_body(v) + esc(b));
    } else {
        assert(v.push(b).drop_first() =~= v.drop_first().push(b));
        lemma_enc_str_body_push(v.drop_first(), b);
        assert(enc_str_body(v.push(b)) =~= enc_str_body(v) + esc(b));
    }
}

/// Parses a quoted string at `pos`; `None` on anything malformed.
pub fn parse_string(s: &[u8], pos: usize) -> (r: Option<(Vec<u8>, usize)>)
    ensures
        match r {
            Some((v, e)) => sp_string(s@, pos as int) == Some((v@, e as int)),
            None => sp_string(s@, pos as int) is None,
        },
{
    if pos >= s.len() {
        proof {
            assert(ws_end(s@, pos as int) >= pos);
        }
        return None;
    }
    let p = skip_ws(s, pos);
    if p >= s.len() {
        return None;
    }
    if s[p] != 34 {
        return None;
    }
    parse_str_body(s, p + 1)
}

/// Parses an escaped string body, starting right after the opening quote.
fn parse_str_body(s: &[u8], pos: usize) -> (r: Option<(Vec<u8>, usize)>)
    ensures
        match r {
            Some((v, e)) => sp_str_body(s@, pos as int) == Some((v@, e as int)),
            None => sp_str_body(s@, pos as int) is None,
        },
    decreases s@.len() - pos,
{
    if pos >= s.len() {
        return None;
    }
    let b = s[pos];
    if b == 34 {
        let v: Vec<u8> = Vec::new();
        proof {
            assert(v@ =~= Seq::<u8>::empty());
        }
        return Some((v, pos + 1));
    }
    if b == 92 {
        if pos + 1 < s.len() {
            let c = s[pos + 1];
            match parse_str_body(s, pos + 2) {
                Some((rest, e)) => {
                    let mut v: Vec<u8> = rest;
                    v.insert(0, c);
                    proof {
                        assert(v@ =~= seq![s@[pos + 1]] + sp_str_body(
                            s@,
                            pos + 2,
                        )->Some_0.0);
                    }
                    return Some((v, e));
                },
                None => {
                    return None;
                },
            }
        } else {
            return None;
        }
    }
    match parse_str_body(s, pos + 1) {
        Some((rest, e)) => {
            let mut v: Vec<u8> = rest;
            v.insert(0, b);
            proof {
                assert(v@ =~= seq![s@[pos as int]] + sp_str_body(s@, pos + 1)->Some_0.0);
            }
            Some((v, e))
        },
        None => None,
    }
}

// ----- Platform names -----

/// The name under which a platform is persisted and keyed.
pub open spec fn platform_name(p: Platform) -> Seq<u8> {
    match p {
        Platform::Steam => spec_platform_steam(),
        Platform::Gog => spec_platform_gog(),
        Platform::Epic => spec_platform_epic(),
        Platform::Ea => spec_platform_ea(),
        Platform::Ubisoft => spec_platform_ubisoft(),
        Platform::Custom => spec_platform_custom(),
    }
}

/// The platform of a persisted name, if it is one of the six.
pub open spec fn platform_of_name(v: Seq<u8>) -> Option<Platform> {
    if v == spec_platform_steam() {
        Some(Platform::Steam)
    } else if v == spec_platform_gog() {
        Some(Platform::Gog)
    } else if v == spec_platform_epic() {
        Some(Platform::Epic)
    } else if v == spec_platform_ea() {
        Some(Platform::Ea)
    } else if v == spec_platform_ubisoft() {
        Some(Platform::Ubisoft)
    } else if v == spec_platform_custom() {
        Some(Platform::Custom)
    } else {
        None
    }
}

/// Platform names decode back to their platform.
pub proof fn lemma_platform_name_round_trip(p: Platform)
    ensures
        platform_of_name(platform_name(p)) == Some(p),
{
    match p {
        Platform::Steam => {},
        Platform::Gog => {
            assert(spec_platform_gog() != spec_platform_steam());
        },
        Platform::Epic => {
            assert(spec_platform_epic() != spec_platform_steam());
            assert(spec_platform_epic() != spec_platform_gog());
        },
        Platform::Ea => {
            assert(spec_platform_ea() != spec_platform_steam());
            assert(spec_platform_ea() != spec_platform_gog());
            assert(spec_platform_ea() != spec_platform_epic());
        },
        Platform::Ubisoft => {
            assert(spec_platform_ubisoft() != spec_platform_steam());
            assert(spec_platform_ubisoft() != spec_platform_gog());
            assert(spec_platform_ubisoft() != spec_platform_epic());
            assert(spec_platform_ubisoft() != spec_platform_ea());
        },
        Platform::Custom => {
            assert(spec_platform_custom() != spec_platform_steam());
            assert(spec_platform_custom() != spec_platform_gog());
            assert(spec_platform_custom() != spec_platform_epic());
            assert(spec_platform_custom() != spec_platform_ea());
            assert(spec_platform_custom() != spec_platform_ubisoft());
        },
    }
}

/// The persisted name of a platform.
pub fn platform_name_exec(p: Platform) -> (r: Vec<u8>)
    ensures
        r@ == platform_name(p),
{
    match p {
        Platform::Steam => crate::lit::platform_steam(),
        Platform::Gog => crate::lit::platform_gog(),
        Platform::Epic => crate::lit::platform_epic(),
        Platform::Ea => crate::lit::platform_ea(),
        Platform::Ubisoft => crate::lit::platform_ubisoft(),
        Platform::Custom => crate::lit::platform_custom(),
    }
}

/// The platform persisted under `v`, if any.
pub fn platform_of_name_exec(v: &[u8]) -> (r: Option<Platform>)
    ensures
        r == platform_of_name(v@),
{
    if crate::text::bytes_eq(v, crate::lit::platform_steam().as_slice()) {
        Some(Platform::Steam)
    } else if crate::text::bytes_eq(v, crate::lit::platform_gog().as_slice()) {
        Some(Platform::Gog)
    } else if crate::text::bytes_eq(v, crate::lit::platform_epic().as_slice()) {
        Some(Platform::Epic)
    } else if crate::text::bytes_eq(v, crate::lit::platform_ea().as_slice()) {
        Some(Platform::Ea)
    } else if crate::text::bytes_eq(v, crate::lit::platform_ubisoft().as_slice()) {
        Some(Platform::Ubisoft)
    } else if crate::text::bytes_eq(v, crate::lit::platform_custom().as_slice()) {
        Some(Platform::Custom)
    } else {
        None
    }
}

// ----- Arrays of strings -----

/// Comma-separated encoded strings.
pub open spec fn enc_str_items(a: Seq<Seq<u8>>) -> Seq<u8>
    decreases a.len(),
{
    if a.len() == 0 {
        Seq::empty()
    } else if a.len() == 1 {
        enc_string(a[0])
    } else {
        enc_string(a[0]) + seq![44u8] + enc_str_items(a.drop_first())
    }
}

/// A bracketed array of encoded strings.
pub open spec fn enc_str_array(a: Seq<Seq<u8>>) -> Seq<u8> {
    seq![91u8] + enc_str_items(a) + seq![93u8]
}

/// A successful string parse ends past its start, within the input.
pub proof fn lemma_sp_string_range(s: Seq<u8>, pos: int)
    requires
        sp_string(s, pos) is Some,
    ensures
        pos + 1 < sp_string(s, pos)->Some_0.1 <= s.len(),
{
    assert(pos <= s.len());
    lemma_ws_end(s, pos);
    lemma_sp_str_body_range(s, ws_end(s, pos) + 1);
}

/// One or more comma-separated strings, ended by the closing bracket.
pub open spec fn sp_str_items(s: Seq<u8>, pos: int) -> Option<(Seq<Seq<u8>>, int)>
    decreases s.len() - pos,
    via sp_str_items_dec
{
    match sp_string(s, pos) {
        None => None,
        Some((v, e)) => {
            let c = ws_end(s, e);
            if c < s.len() && s[c] == 93 {
                Some((seq![v], c + 1))
            } else if c < s.len() && s[c] == 44 {
                match sp_str_items(s, c + 1) {
                    None => None,
                    Some((rest, e2)) => Some((seq![v] + rest, e2)),
                }
            } else {
                None
            }
        },
    }
}

#[via_fn]
proof fn sp_str_items_dec(s: Seq<u8>, pos: int) {
    if sp_string(s, pos) is Some {
        lemma_sp_string_range(s, pos);
        lemma_ws_end(s, sp_string(s, pos)->Some_0.1);
    }
}

/// A bracketed array of strings; empty arrays allowed, whitespace between
/// tokens tolerated.
pub open spec fn sp_str_array(s: Seq<u8>, pos: int) -> Option<(Seq<Seq<u8>>, int)> {
    let p = ws_end(s, pos);
    if 0 <= pos && p < s.len() && s[p] == 91 {
        let q = ws_end(s, p + 1);
        if q < s.len() && s[q] == 93 {
            Some((Seq::empty(), q + 1))
        } else {
            sp_str_items(s, p + 1)
        }
    } else {
        None
    }
}

/// A successful items parse ends past its start, within the input.
pub proof fn lemma_sp_str_items_range(s: Seq<u8>, pos: int)
    requires
        sp_str_items(s, pos) is Some,
    ensures
        pos < sp_str_items(s, pos)->Some_0.1 <= s.len(),
    decreases s.len() - pos,
{
    lemma_sp_string_range(s, pos);
    let (v, e) = sp_string(s, pos)->Some_0;
    lemma_ws_end(s, e);
    let c = ws_end(s, e);
    if c < s.len() && s[c] == 93 {
    } else {
        lemma_sp_str_items_range(s, c + 1);
    }
}

/// Parsing items where items were encoded (with their closing bracket)
/// yields the original strings.
pub proof fn lemma_sp_str_items_of_enc(s: Seq<u8>, pos: int, a: Seq<Seq<u8>>)
    requires
        a.len() > 0,
        is_at(s, pos, enc_str_items(a) + seq![93u8]),
    ensures
        sp_str_items(s, pos) == Some((a, pos + enc_str_items(a).len() + 1)),
    decreases a.len(),
{
    if a.len() == 1 {
        assert(enc_str_items(a) + seq![93u8] =~= enc_string(a[0]) + seq![93u8]);
        lemma_is_at_split(s, pos, enc_string(a[0]), seq![93u8]);
        lemma_sp_string_of_enc(s, pos, a[0]);
        let e = pos + enc_string(a[0]).len();
        lemma_is_at_index(s, e, seq![93u8], 0);
        assert(s[e] == 93);
        assert(seq![a[0]] =~= a);
    } else {
        let rest = a.drop_first();
        assert(enc_str_items(a) + seq![93u8] =~= enc_string(a[0]) + (seq![44u8] + (enc_str_items(
            rest,
        ) + seq![93u8])));
        lemma_is_at_split(
            s,
            pos,
            enc_string(a[0]),
            seq![44u8] + (enc_str_items(rest) + seq![93u8]),
        );
        lemma_sp_string_of_enc(s, pos, a[0]);
        let e = pos + enc_string(a[0]).len();
        lemma_is_at_split(s, e, seq![44u8], enc_str_items(rest) + seq![93u8]);
        lemma_is_at_index(s, e, seq![44u8], 0);
        assert(s[e] == 44);
        lemma_sp_str_items_of_enc(s, e + 1, rest);
        assert(seq![a[0]] + rest =~= a);
    }
}

/// Parsing an array where one was encoded yields the original strings.
pub proof fn lemma_sp_str_array_of_enc(s: Seq<u8>, pos: int, a: Seq<Seq<u8>>)
    requires
        is_at(s, pos, enc_str_array(a)),
    ensures
        sp_str_array(s, pos) == Some((a, pos + enc_str_array(a).len())),
{
    assert(enc_str_array(a) =~= seq![91u8] + (enc_str_items(a) + seq![93u8]));
    lemma_is_at_split(s, pos, seq![91u8], enc_str_items(a) + seq![93u8]);
    lemma_is_at_index(s, pos, seq![91u8], 0);
    assert(s[pos] == 91);
    if a.len() == 0 {
        assert(enc_str_items(a) =~= Seq::<u8>::empty());
        lemma_is_at_index(s, pos + 1, seq![93u8], 0);
        assert(s[pos + 1] == 93);
        assert(a =~= Seq::<Seq<u8>>::empty());
    } else {
        lemma_is_at_index(s, pos + 1, enc_str_items(a) + seq![93u8], 0);
        assert(enc_str_items(a)[0] == 34) by {
            if a.len() == 1 {
                assert(enc_str_items(a) == enc_string(a[0]));
                assert(enc_string(a[0])[0] == 34);
            } else {
                assert(enc_str_items(a)[0] == (enc_string(a[0]) + seq![44u8] + enc_str_items(
                    a.drop_first(),
                ))[0]);
                assert(enc_string(a[0])[0] == 34);
            }
        }
        assert(s[pos + 1] == 34);
        lemma_sp_str_items_of_enc(s, pos + 1, a);
    }
}

/// Appends a bracketed array of encoded strings.
pub fn encode_str_array_into(out: &mut Vec<u8>, items: &Vec<Vec<u8>>)
    ensures
        final(out)@ == old(out)@ + enc_str_array(crate::model::seqs_view(items@)),
{
    let ghost iv = crate::model::seqs_view(items@);
    out.push(91);
    let mut i: usize = 0;
    while i < items.len()
        invariant
            i <= items@.len(),
            iv == crate::model::seqs_view(items@),
            out@ == old(out)@ + seq![91u8] + enc_items_prefix(iv, i as int),
        decreases items@.len() - i,
    {
        if i > 0 {
            out.push(44);
        }
        encode_string_into(out, items[i].as_slice());
        i = i + 1;
        proof {
            lemma_enc_items_prefix_step(iv, i - 1);
            assert(out@ =~= old(out)@ + seq![91u8] + enc_items_prefix(iv, i as int));
        }
    }
    out.push(93);
    proof {
        lemma_enc_items_prefix_all(iv);
        assert(out@ =~= old(out)@ + enc_str_array(iv));
    }
}

/// The encoding of the first `i` items, with their separating commas.
pub open spec fn enc_items_prefix(a: Seq<Seq<u8>>, i: int) -> Seq<u8>
    decreases i,
{
    if i <= 0 {
        Seq::empty()
    } else if i == 1 {
        enc_string(a[0])
    } else {
        enc_items_prefix(a, i - 1) + seq![44u8] + enc_string(a[i - 1])
    }
}

/// One more item extends the prefix encoding at its end.
proof fn lemma_enc_items_prefix_step(a: Seq<Seq<u8>>, i: int)
    requires
        0 <= i < a.len(),
    ensures
        enc_items_prefix(a, i + 1) == if i == 0 {
            enc_string(a[0])
        } else {
            enc_items_prefix(a, i) + seq![44u8] + enc_string(a[i])
        },
{
}

/// The whole prefix encoding is the items encoding.
proof fn lemma_enc_items_prefix_all(a: Seq<Seq<u8>>)
    ensures
        enc_items_prefix(a, a.len() as int) == enc_str_items(a),
    decreases a.len(),
{
    if a.len() > 1 {
        lemma_enc_items_prefix_all(a.drop_first());
        lemma_enc_items_prefix_shift(a, a.len() as int);
        assert(enc_string(a[0]) + seq![44u8] + enc_str_items(a.drop_first()) =~= enc_str_items(
            a,
        ));
    }
}

/// A prefix encoding of at least two items splits at its front.
proof fn lemma_enc_items_prefix_shift(a: Seq<Seq<u8>>, i: int)
    requires
        2 <= i <= a.len(),
    ensures
        enc_items_prefix(a, i) == enc_string(a[0]) + seq![44u8] + enc_items_prefix(
            a.drop_first(),
            i - 1,
        ),
    decreases i,
{
    if i == 2 {
        assert(a.drop_first()[0] == a[1]);
        assert(enc_items_prefix(a, 1) == enc_string(a[0]));
        assert(enc_items_prefix(a.drop_first(), 1) == enc_string(a.drop_first()[0]));
        assert(enc_items_prefix(a, 2) =~= enc_string(a[0]) + seq![44u8] + enc_items_prefix(
            a.drop_first(),
            1,
        ));
    } else {
        lemma_enc_items_prefix_shift(a, i - 1);
        assert(enc_items_prefix(a, i) == enc_items_prefix(a, i - 1) + seq![44u8] + enc_string(
            a[i - 1],
        ));
        assert(enc_items_prefix(a.drop_first(), i - 1) == enc_items_prefix(a.drop_first(), i - 2)
            + seq![44u8] + enc_string(a.drop_first()[i - 2]));
        assert(a.drop_first()[i - 2] == a[i - 1]);
        assert(enc_items_prefix(a, i) =~= enc_string(a[0]) + seq![44u8] + enc_items_prefix(
            a.drop_first(),
            i - 1,
        ));
    }
}

/// Parses a bracketed array of strings.
pub fn parse_str_array(s: &[u8], pos: usize) -> (r: Option<(Vec<Vec<u8>>, usize)>)
    ensures
        match r {
            Some((a, e)) => sp_str_array(s@, pos as int) == Some(
                (crate::model::seqs_view(a@), e as int),
            ),
            None => sp_str_array(s@, pos as int) is None,
        },
{
    if pos >= s.len() {
        proof {
            assert(ws_end(s@, pos as int) >= pos);
        }
        return None;
    }
    let p = skip_ws(s, pos);
    if p >= s.len() {
        return None;
    }
    if s[p] != 91 {
        return None;
    }
    let q = skip_ws(s, p + 1);
    if q < s.len() && s[q] == 93 {
        let a: Vec<Vec<u8>> = Vec::new();
        proof {
            assert(crate::model::seqs_view(a@) =~= Seq::<Seq<u8>>::empty());
        }
        return Some((a, q + 1));
    }
    parse_str_items(s, p + 1)
}

/// Parses comma-separated strings up to and including the closing bracket.
fn parse_str_items(s: &[u8], pos: usize) -> (r: Option<(Vec<Vec<u8>>, usize)>)
    ensures
        match r {
            Some((a, e)) => sp_str_items(s@, pos as int) == Some(
                (crate::model::seqs_view(a@), e as int),
            ),
            None => sp_str_items(s@, pos as int) is None,
        },
    decreases s@.len() - pos,
{
    match parse_string(s, pos) {
        None => None,
        Some((v, e)) => {
            proof {
                lemma_sp_string_range(s@, pos as int);
            }
            let c = skip_ws(s, e);
            if c < s.len() && s[c] == 93 {
                let a: Vec<Vec<u8>> = vec![v];
                proof {
                    assert(crate::model::seqs_view(a@) =~= seq![v@]);
                }
                Some((a, c + 1))
            } else if c < s.len() && s[c] == 44 {
                match parse_str_items(s, c + 1) {
                    None => None,
                    Some((rest, e2)) => {
                        let mut a: Vec<Vec<u8>> = rest;
                        a.insert(0, v);
                        proof {
                            assert(crate::model::seqs_view(a@) =~= seq![v@] + sp_str_items(
                                s@,
                                c + 1,
                            )->Some_0.0);
                        }
                        Some((a, e2))
                    },
                }
            } else {
                None
            }
        },
    }
}

// ----- Record objects -----

/// One encoded object member: a key, a colon, a string value.
pub open spec fn enc_member(key: Seq<u8>, val: Seq<u8>) -> Seq<u8> {
    enc_string(key) + seq![58u8] + enc_string(val)
}

/// Parsing where a member was encoded yields its key, colon and value.
pub proof fn lemma_sp_member_of_enc(s: Seq<u8>, pos: int, key: Seq<u8>, val: Seq<u8>)
    requires
        is_at(s, pos, enc_member(key, val)),
    ensures
        sp_string(s, pos) == Some((key, pos + enc_string(key).len())),
        s[pos + enc_string(key).len()] == 58,
        sp_string(s, pos + enc_string(key).len() + 1) == Some(
            (val, pos + enc_member(key, val).len()),
        ),
{
    assert(enc_member(key, val) =~= enc_string(key) + (seq![58u8] + enc_string(val)));
    lemma_is_at_split(s, pos, enc_string(key), seq![58u8] + enc_string(val));
    lemma_sp_string_of_enc(s, pos, key);
    let e1 = pos + enc_string(key).len();
    lemma_is_at_split(s, e1, seq![58u8], enc_string(val));
    lemma_is_at_index(s, e1, seq![58u8], 0);
    lemma_sp_string_of_enc(s, e1 + 1, val);
}

/// A record before any member is read: empty fields, `Custom`, no favorite
/// flag.
pub open spec fn default_rec() -> crate::model::RecV {
    crate::model::RecV {
        id: Seq::empty(),
        title: Seq::empty(),
        platform: Platform::Custom,
        image_path: Seq::empty(),
        exe_path: Seq::empty(),
        install_dir: Seq::empty(),
        is_favorite: false,
    }
}

/// The canonical position of a record key, `-1` for an unknown key.
pub open spec fn rec_key_stage(key: Seq<u8>) -> int {
    if key == crate::lit::spec_key_id() {
        0
    } else if key == crate::lit::spec_key_title() {
        1
    } else if key == crate::lit::spec_key_platform() {
        2
    } else if key == crate::lit::spec_key_image_path() {
        3
    } else if key == crate::lit::spec_key_exe_path() {
        4
    } else if key == crate::lit::spec_key_install_dir() {
        5
    } else {
        -1
    }
}

/// The record with the field at stage `t` replaced; an unknown platform name
/// refuses the member.
pub open spec fn rec_with(acc: crate::model::RecV, t: int, val: Seq<u8>) -> Option<
    crate::model::RecV,
> {
    if t == 0 {
        Some(crate::model::RecV { id: val, ..acc })
    } else if t == 1 {
        Some(crate::model::RecV { title: val, ..acc })
    } else if t == 2 {
        match platform_of_name(val) {
            Some(p) => Some(crate::model::RecV { platform: p, ..acc }),
            None => None,
        }
    } else if t == 3 {
        Some(crate::model::RecV { image_path: val, ..acc })
    } else if t == 4 {
        Some(crate::model::RecV { exe_path: val, ..acc })
    } else if t == 5 {
        Some(crate::model::RecV { install_dir: val, ..acc })
    } else {
        None
    }
}

/// Record members from `pos`, keys in canonical order, each at most once,
/// up to and including the closing brace.
pub open spec fn sp_rec_members(s: Seq<u8>, pos: int, stage: int, acc: crate::model::RecV) -> Option<
    (crate::model::RecV, int),
>
    decreases s.len() - pos,
    via sp_rec_members_dec
{
    match sp_string(s, pos) {
        None => None,
        Some((key, e1)) => {
            let t = rec_key_stage(key);
            let c1 = ws_end(s, e1);
            if t < stage {
                None
            } else if c1 < s.len() && s[c1] == 58 {
                match sp_string(s, c1 + 1) {
                    None => None,
                    Some((val, e2)) => match rec_with(acc, t, val) {
                        None => None,
                        Some(acc2) => {
                            let c2 = ws_end(s, e2);
                            if c2 < s.len() && s[c2] == 44 {
                                sp_rec_members(s, c2 + 1, t + 1, acc2)
                            } else if c2 < s.len() && s[c2] == 125 {
                                Some((acc2, c2 + 1))
                            } else {
                                None
                            }
                        },
                    },
                }
            } else {
                None
            }
        },
    }
}

#[via_fn]
proof fn sp_rec_members_dec(s: Seq<u8>, pos: int, stage: int, acc: crate::model::RecV) {
    if sp_string(s, pos) is Some {
        lemma_sp_string_range(s, pos);
        let e1 = sp_string(s, pos)->Some_0.1;
        lemma_ws_end(s, e1);
        let c1 = ws_end(s, e1);
        if sp_string(s, c1 + 1) is Some {
            lemma_sp_string_range(s, c1 + 1);
            lemma_ws_end(s, sp_string(s, c1 + 1)->Some_0.1);
        }
    }
}

/// A record object; an empty object is the default record, whitespace
/// between tokens tolerated.
pub open spec fn sp_record(s: Seq<u8>, pos: int) -> Option<(crate::model::RecV, int)> {
    let p = ws_end(s, pos);
    if 0 <= pos && p < s.len() && s[p] == 123 {
        let q = ws_end(s, p + 1);
        if q < s.len() && s[q] == 125 {
            Some((default_rec(), q + 1))
        } else {
            sp_rec_members(s, p + 1, 0, default_rec())
        }
    } else {
        None
    }
}

/// The persisted form of one record: its six fields in canonical order; the
/// favorite flag is derived and not persisted.
pub open spec fn enc_record(g: crate::model::RecV) -> Seq<u8> {
    seq![123u8] + enc_member(crate::lit::spec_key_id(), g.id) + seq![44u8] + enc_member(
        crate::lit::spec_key_title(),
        g.title,
    ) + seq![44u8] + enc_member(crate::lit::spec_key_platform(), platform_name(g.platform)) + seq![
        44u8,
    ] + enc_member(crate::lit::spec_key_image_path(), g.image_path) + seq![44u8] + enc_member(
        crate::lit::spec_key_exe_path(),
        g.exe_path,
    ) + seq![44u8] + enc_member(crate::lit::spec_key_install_dir(), g.install_dir) + seq![125u8]
}

/// A successful member parse ends past its start, within the input.
pub proof fn lemma_sp_rec_members_range(s: Seq<u8>, pos: int, stage: int, acc: crate::model::RecV)
    requires
        sp_rec_members(s, pos, stage, acc) is Some,
    ensures
        pos < sp_rec_members(s, pos, stage, acc)->Some_0.1 <= s.len(),
    decreases s.len() - pos,
{
    lemma_sp_string_range(s, pos);
    let (key, e1) = sp_string(s, pos)->Some_0;
    let t = rec_key_stage(key);
    lemma_ws_end(s, e1);
    let c1 = ws_end(s, e1);
    lemma_sp_string_range(s, c1 + 1);
    let (val, e2) = sp_string(s, c1 + 1)->Some_0;
    let acc2 = rec_with(acc, t, val)->Some_0;
    lemma_ws_end(s, e2);
    let c2 = ws_end(s, e2);
    if c2 < s.len() && s[c2] == 44 {
        lemma_sp_rec_members_range(s, c2 + 1, t + 1, acc2);
    }
}

/// Parsing a record where one was encoded restores it, closing brace
/// included; the favorite flag comes back cleared.
#[verifier::rlimit(100)]
pub proof fn lemma_sp_record_of_enc(s: Seq<u8>, pos: int, g: crate::model::RecV)
    requires
        is_at(s, pos, enc_record(g)),
        g.is_favorite == false,
    ensures
        sp_record(s, pos) == Some((g, pos + enc_record(g).len())),
{
    let m0 = enc_member(crate::lit::spec_key_id(), g.id);
    let m1 = enc_member(crate::lit::spec_key_title(), g.title);
    let m2 = enc_member(crate::lit::spec_key_platform(), platform_name(g.platform));
    let m3 = enc_member(crate::lit::spec_key_image_path(), g.image_path);
    let m4 = enc_member(crate::lit::spec_key_exe_path(), g.exe_path);
    let m5 = enc_member(crate::lit::spec_key_install_dir(), g.install_dir);
    assert(enc_record(g) =~= seq![123u8] + (m0 + (seq![44u8] + (m1 + (seq![44u8] + (m2 + (seq![
        44u8,
    ] + (m3 + (seq![44u8] + (m4 + (seq![44u8] + (m5 + seq![125u8]))))))))))));
    lemma_is_at_split(
        s,
        pos,
        seq![123u8],
        m0 + (seq![44u8] + (m1 + (seq![44u8] + (m2 + (seq![44u8] + (m3 + (seq![44u8] + (m4 + (seq![
            44u8,
        ] + (m5 + seq![125u8])))))))))),
    );
    lemma_is_at_index(s, pos, seq![123u8], 0);
    let p0 = pos + 1;
    lemma_is_at_split(
        s,
        p0,
        m0,
        seq![44u8] + (m1 + (seq![44u8] + (m2 + (seq![44u8] + (m3 + (seq![44u8] + (m4 + (seq![44u8]
            + (m5 + seq![125u8]))))))))),
    );
    lemma_sp_member_of_enc(s, p0, crate::lit::spec_key_id(), g.id);
    let q0 = p0 + m0.len();
    lemma_is_at_split(
        s,
        q0,
        seq![44u8],
        m1 + (seq![44u8] + (m2 + (seq![44u8] + (m3 + (seq![44u8] + (m4 + (seq![44u8] + (m5 + seq![
            125u8,
        ])))))))),
    );
    lemma_is_at_index(s, q0, seq![44u8], 0);
    let p1 = q0 + 1;
    lemma_is_at_split(
        s,
        p1,
        m1,
        seq![44u8] + (m2 + (seq![44u8] + (m3 + (seq![44u8] + (m4 + (seq![44u8] + (m5 + seq![
            125u8,
        ]))))))),
    );
    lemma_sp_member_of_enc(s, p1, crate::lit::spec_key_title(), g.title);
    let q1 = p1 + m1.len();
    lemma_is_at_split(
        s,
        q1,
        seq![44u8],
        m2 + (seq![44u8] + (m3 + (seq![44u8] + (m4 + (seq![44u8] + (m5 + seq![125u8])))))),
    );
    lemma_is_at_index(s, q1, seq![44u8], 0);
    let p2 = q1 + 1;
    lemma_is_at_split(
        s,
        p2,
        m2,
        seq![44u8] + (m3 + (seq![44u8] + (m4 + (seq![44u8] + (m5 + seq![125u8]))))),
    );
    lemma_sp_member_of_enc(s, p2, crate::lit::spec_key_platform(), platform_name(g.platform));
    lemma_platform_name_round_trip(g.platform);
    let q2 = p2 + m2.len();
    lemma_is_at_split(
        s,
        q2,
        seq![44u8],
        m3 + (seq![44u8] + (m4 + (seq![44u8] + (m5 + seq![125u8])))),
    );
    lemma_is_at_index(s, q2, seq![44u8], 0);
    let p3 = q2 + 1;
    lemma_is_at_split(s, p3, m3, seq![44u8] + (m4 + (seq![44u8] + (m5 + seq![125u8]))));
    lemma_sp_member_of_enc(s, p3, crate::lit::spec_key_image_path(), g.image_path);
    let q3 = p3 + m3.len();
    lemma_is_at_split(s, q3, seq![44u8], m4 + (seq![44u8] + (m5 + seq![125u8])));
    lemma_is_at_index(s, q3, seq![44u8], 0);
    let p4 = q3 + 1;
    lemma_is_at_split(s, p4, m4, seq![44u8] + (m5 + seq![125u8]));
    lemma_sp_member_of_enc(s, p4, crate::lit::spec_key_exe_path(), g.exe_path);
    let q4 = p4 + m4.len();
    lemma_is_at_split(s, q4, seq![44u8], m5 + seq![125u8]);
    lemma_is_at_index(s, q4, seq![44u8], 0);
    let p5 = q4 + 1;
    lemma_is_at_split(s, p5, m5, seq![125u8]);
    lemma_sp_member_of_enc(s, p5, crate::lit::spec_key_install_dir(), g.install_dir);
    let q5 = p5 + m5.len();
    lemma_is_at_index(s, q5, seq![125u8], 0);
    assert(s[pos + 1] == 34) by {
        lemma_is_at_index(s, p0, m0, 0);
        assert(m0[0] == 34);
    }
    let a0 = default_rec();
    let a1 = rec_with(a0, 0, g.id)->Some_0;
    let a2 = rec_with(a1, 1, g.title)->Some_0;
    let a3 = rec_with(a2, 2, platform_name(g.platform))->Some_0;
    let a4 = rec_with(a3, 3, g.image_path)->Some_0;
    let a5 = rec_with(a4, 4, g.exe_path)->Some_0;
    let a6 = rec_with(a5, 5, g.install_dir)->Some_0;
    assert(a6 =~= g);
    assert(sp_rec_members(s, p5, 5, a5) == Some((a6, q5 + 1)));
    assert(sp_rec_members(s, p4, 4, a4) == Some((a6, q5 + 1)));
    assert(sp_rec_members(s, p3, 3, a3) == Some((a6, q5 + 1)));
    assert(sp_rec_members(s, p2, 2, a2) == Some((a6, q5 + 1)));
    assert(sp_rec_members(s, p1, 1, a1) == Some((a6, q5 + 1)));
    assert(sp_rec_members(s, p0, 0, a0) == Some((a6, q5 + 1)));
}

// ----- Arrays of records -----

/// Comma-separated encoded records.
pub open spec fn enc_rec_items(a: Seq<crate::model::RecV>) -> Seq<u8>
    decreases a.len(),
{
    if a.len() == 0 {
        Seq::empty()
    } else if a.len() == 1 {
        enc_record(a[0])
    } else {
        enc_record(a[0]) + seq![44u8] + enc_rec_items(a.drop_first())
    }
}

/// A bracketed array of encoded records.
pub open spec fn enc_rec_array(a: Seq<crate::model::RecV>) -> Seq<u8> {
    seq![91u8] + enc_rec_items(a) + seq![93u8]
}

/// A successful record parse ends past its start, within the input.
pub proof fn lemma_sp_record_range(s: Seq<u8>, pos: int)
    requires
        sp_record(s, pos) is Some,
    ensures
        pos < sp_record(s, pos)->Some_0.1 <= s.len(),
{
    assert(pos <= s.len());
    lemma_ws_end(s, pos);
    let p = ws_end(s, pos);
    lemma_ws_end(s, p + 1);
    let q = ws_end(s, p + 1);
    if q < s.len() && s[q] == 125 {
    } else {
        lemma_sp_rec_members_range(s, p + 1, 0, default_rec());
    }
}

/// One or more comma-separated records, ended by the closing bracket.
pub open spec fn sp_rec_items(s: Seq<u8>, pos: int) -> Option<(Seq<crate::model::RecV>, int)>
    decreases s.len() - pos,
    via sp_rec_items_dec
{
    match sp_record(s, pos) {
        None => None,
        Some((g, e)) => {
            let c = ws_end(s, e);
            if c < s.len() && s[c] == 93 {
                Some((seq![g], c + 1))
            } else if c < s.len() && s[c] == 44 {
                match sp_rec_items(s, c + 1) {
                    None => None,
                    Some((rest, e2)) => Some((seq![g] + rest, e2)),
                }
            } else {
                None
            }
        },
    }
}

#[via_fn]
proof fn sp_rec_items_dec(s: Seq<u8>, pos: int) {
    if sp_record(s, pos) is Some {
        lemma_sp_record_range(s, pos);
        lemma_ws_end(s, sp_record(s, pos)->Some_0.1);
    }
}

/// A bracketed array of records; empty arrays allowed, whitespace between
/// tokens tolerated.
pub open spec fn sp_rec_array(s: Seq<u8>, pos: int) -> Option<(Seq<crate::model::RecV>, int)> {
    let p = ws_end(s, pos);
    if 0 <= pos && p < s.len() && s[p] == 91 {
        let q = ws_end(s, p + 1);
        if q < s.len() && s[q] == 93 {
            Some((Seq::empty(), q + 1))
        } else {
            sp_rec_items(s, p + 1)
        }
    } else {
        None
    }
}

/// A successful record-items parse ends past its start, within the input.
pub proof fn lemma_sp_rec_items_range(s: Seq<u8>, pos: int)
    requires
        sp_rec_items(s, pos) is Some,
    ensures
        pos < sp_rec_items(s, pos)->Some_0.1 <= s.len(),
    decreases s.len() - pos,
{
    lemma_sp_record_range(s, pos);
    let (g, e) = sp_record(s, pos)->Some_0;
    lemma_ws_end(s, e);
    let c = ws_end(s, e);
    if c < s.len() && s[c] == 93 {
    } else {
        lemma_sp_rec_items_range(s, c + 1);
    }
}

/// Parsing record items where items were encoded (with their closing
/// bracket) yields the original records.
#[verifier::rlimit(60)]
pub proof fn lemma_sp_rec_items_of_enc(s: Seq<u8>, pos: int, a: Seq<crate::model::RecV>)
    requires
        a.len() > 0,
        is_at(s, pos, enc_rec_items(a) + seq![93u8]),
        forall|i: int| 0 <= i < a.len() ==> (#[trigger] a[i]).is_favorite == false,
    ensures
        sp_rec_items(s, pos) == Some((a, pos + enc_rec_items(a).len() + 1)),
    decreases a.len(),
{
    if a.len() == 1 {
        assert(enc_rec_items(a) + seq![93u8] =~= enc_record(a[0]) + seq![93u8]);
        lemma_is_at_split(s, pos, enc_record(a[0]), seq![93u8]);
        lemma_sp_record_of_enc(s, pos, a[0]);
        let e = pos + enc_record(a[0]).len();
        lemma_is_at_index(s, e, seq![93u8], 0);
        assert(seq![a[0]] =~= a);
    } else {
        let rest = a.drop_first();
        assert(enc_rec_items(a) + seq![93u8] =~= enc_record(a[0]) + (seq![44u8] + (enc_rec_items(
            rest,
        ) + seq![93u8])));
        lemma_is_at_split(
            s,
            pos,
            enc_record(a[0]),
            seq![44u8] + (enc_rec_items(rest) + seq![93u8]),
        );
        lemma_sp_record_of_enc(s, pos, a[0]);
        let e = pos + enc_record(a[0]).len();
        lemma_is_at_split(s, e, seq![44u8], enc_rec_items(rest) + seq![93u8]);
        lemma_is_at_index(s, e, seq![44u8], 0);
        assert(forall|i: int|
            0 <= i < rest.len() ==> (#[trigger] rest[i]).is_favorite == false) by {
            assert(forall|i: int| 0 <= i < rest.len() ==> rest[i] == a[i + 1]);
        }
        lemma_sp_rec_items_of_enc(s, e + 1, rest);
        assert(seq![a[0]] + rest =~= a);
    }
}

/// Parsing a record array where one was encoded yields the original
/// records.
pub proof fn lemma_sp_rec_array_of_enc(s: Seq<u8>, pos: int, a: Seq<crate::model::RecV>)
    requires
        is_at(s, pos, enc_rec_array(a)),
        forall|i: int| 0 <= i < a.len() ==> (#[trigger] a[i]).is_favorite == false,
    ensures
        sp_rec_array(s, pos) == Some((a, pos + enc_rec_array(a).len())),
{
    assert(enc_rec_array(a) =~= seq![91u8] + (enc_rec_items(a) + seq![93u8]));
    lemma_is_at_split(s, pos, seq![91u8], enc_rec_items(a) + seq![93u8]);
    lemma_is_at_index(s, pos, seq![91u8], 0);
    if a.len() == 0 {
        assert(enc_rec_items(a) =~= Seq::<u8>::empty());
        lemma_is_at_index(s, pos + 1, seq![93u8], 0);
        assert(a =~= Seq::<crate::model::RecV>::empty());
    } else {
        lemma_is_at_index(s, pos + 1, enc_rec_items(a) + seq![93u8], 0);
        assert(enc_rec_items(a)[0] == 123) by {
            if a.len() == 1 {
                assert(enc_rec_items(a) == enc_record(a[0]));
                assert(enc_record(a[0])[0] == 123);
            } else {
                assert(enc_rec_items(a)[0] == (enc_record(a[0]) + seq![44u8] + enc_rec_items(
                    a.drop_first(),
                ))[0]);
                assert(enc_record(a[0])[0] == 123);
            }
        }
        lemma_sp_rec_items_of_enc(s, pos + 1, a);
    }
}

// ----- The theme object -----

/// The canonical position of a theme key, `-1` for an unknown key.
pub open spec fn theme_key_stage(key: Seq<u8>) -> int {
    if key == crate::lit::spec_key_accent() {
        0
    } else if key == crate::lit::spec_key_bg_from() {
        1
    } else if key == crate::lit::spec_key_bg_to() {
        2
    } else if key == crate::lit::spec_key_card_bg() {
        3
    } else if key == crate::lit::spec_key_text_primary() {
        4
    } else {
        -1
    }
}

/// The theme with the field at stage `t` replaced.
pub open spec fn theme_with(acc: crate::model::ThemeV, t: int, val: Seq<u8>) -> Option<
    crate::model::ThemeV,
> {
    if t == 0 {
        Some(crate::model::ThemeV { accent: val, ..acc })
    } else if t == 1 {
        Some(crate::model::ThemeV { bg_from: val, ..acc })
    } else if t == 2 {
        Some(crate::model::ThemeV { bg_to: val, ..acc })
    } else if t == 3 {
        Some(crate::model::ThemeV { card_bg: val, ..acc })
    } else if t == 4 {
        Some(crate::model::ThemeV { text_primary: val, ..acc })
    } else {
        None
    }
}

/// Theme members from `pos`, keys in canonical order, each at most once, up
/// to and including the closing brace; a missing member keeps its default.
pub open spec fn sp_theme_members(s: Seq<u8>, pos: int, stage: int, acc: crate::model::ThemeV) -> Option<
    (crate::model::ThemeV, int),
>
    decreases s.len() - pos,
    via sp_theme_members_dec
{
    match sp_string(s, pos) {
        None => None,
        Some((key, e1)) => {
            let t = theme_key_stage(key);
            let c1 = ws_end(s, e1);
            if t < stage {
                None
            } else if c1 < s.len() && s[c1] == 58 {
                match sp_string(s, c1 + 1) {
                    None => None,
                    Some((val, e2)) => match theme_with(acc, t, val) {
                        None => None,
                        Some(acc2) => {
                            let c2 = ws_end(s, e2);
                            if c2 < s.len() && s[c2] == 44 {
                                sp_theme_members(s, c2 + 1, t + 1, acc2)
                            } else if c2 < s.len() && s[c2] == 125 {
                                Some((acc2, c2 + 1))
                            } else {
                                None
                            }
                        },
                    },
                }
            } else {
                None
            }
        },
    }
}

#[via_fn]
proof fn sp_theme_members_dec(s: Seq<u8>, pos: int, stage: int, acc: crate::model::ThemeV) {
    if sp_string(s, pos) is Some {
        lemma_sp_string_range(s, pos);
        let e1 = sp_string(s, pos)->Some_0.1;
        lemma_ws_end(s, e1);
        let c1 = ws_end(s, e1);
        if sp_string(s, c1 + 1) is Some {
            lemma_sp_string_range(s, c1 + 1);
            lemma_ws_end(s, sp_string(s, c1 + 1)->Some_0.1);
        }
    }
}

/// A theme object; an empty object is the default theme, whitespace between
/// tokens tolerated.
pub open spec fn sp_theme(s: Seq<u8>, pos: int) -> Option<(crate::model::ThemeV, int)> {
    let p = ws_end(s, pos);
    if 0 <= pos && p < s.len() && s[p] == 123 {
        let q = ws_end(s, p + 1);
        if q < s.len() && s[q] == 125 {
            Some((crate::store::spec_default_theme(), q + 1))
        } else {
            sp_theme_members(s, p + 1, 0, crate::store::spec_default_theme())
        }
    } else {
        None
    }
}

/// The persisted form of the theme: its five colors in canonical order.
pub open spec fn enc_theme(th: crate::model::ThemeV) -> Seq<u8> {
    seq![123u8] + enc_member(crate::lit::spec_key_accent(), th.accent) + seq![44u8] + enc_member(
        crate::lit::spec_key_bg_from(),
        th.bg_from,
    ) + seq![44u8] + enc_member(crate::lit::spec_key_bg_to(), th.bg_to) + seq![44u8] + enc_member(
        crate::lit::spec_key_card_bg(),
        th.card_bg,
    ) + seq![44u8] + enc_member(crate::lit::spec_key_text_primary(), th.text_primary) + seq![
        125u8,
    ]
}

/// A successful theme-members parse ends past its start, within the input.
pub proof fn lemma_sp_theme_members_range(
    s: Seq<u8>,
    pos: int,
    stage: int,
    acc: crate::model::ThemeV,
)
    requires
        sp_theme_members(s, pos, stage, acc) is Some,
    ensures
        pos < sp_theme_members(s, pos, stage, acc)->Some_0.1 <= s.len(),
    decreases s.len() - pos,
{
    lemma_sp_string_range(s, pos);
    let (key, e1) = sp_string(s, pos)->Some_0;
    let t = theme_key_stage(key);
    lemma_ws_end(s, e1);
    let c1 = ws_end(s, e1);
    lemma_sp_string_range(s, c1 + 1);
    let (val, e2) = sp_string(s, c1 + 1)->Some_0;
    let acc2 = theme_with(acc, t, val)->Some_0;
    lemma_ws_end(s, e2);
    let c2 = ws_end(s, e2);
    if c2 < s.len() && s[c2] == 44 {
        lemma_sp_theme_members_range(s, c2 + 1, t + 1, acc2);
    }
}

/// A successful theme parse ends past its start, within the input.
pub proof fn lemma_sp_theme_range(s: Seq<u8>, pos: int)
    requires
        sp_theme(s, pos) is Some,
    ensures
        pos < sp_theme(s, pos)->Some_0.1 <= s.len(),
{
    assert(pos <= s.len());
    lemma_ws_end(s, pos);
    let p = ws_end(s, pos);
    lemma_ws_end(s, p + 1);
    let q = ws_end(s, p + 1);
    if q < s.len() && s[q] == 125 {
    } else {
        lemma_sp_theme_members_range(s, p + 1, 0, crate::store::spec_default_theme());
    }
}

/// The five theme keys are pairwise distinct.
proof fn lemma_theme_keys_distinct()
    ensures
        theme_key_stage(crate::lit::spec_key_accent()) == 0,
        theme_key_stage(crate::lit::spec_key_bg_from()) == 1,
        theme_key_stage(crate::lit::spec_key_bg_to()) == 2,
        theme_key_stage(crate::lit::spec_key_card_bg()) == 3,
        theme_key_stage(crate::lit::spec_key_text_primary()) == 4,
{
    assert(crate::lit::spec_key_bg_from()[0] == 98);
    assert(crate::lit::spec_key_accent()[0] == 97);
    assert(crate::lit::spec_key_card_bg()[0] == 99);
    assert(crate::lit::spec_key_bg_to()[2] == 84);
    assert(crate::lit::spec_key_bg_from()[2] == 70);
}

/// Parsing a theme where one was encoded restores it, closing brace
/// included.
#[verifier::rlimit(100)]
pub proof fn lemma_sp_theme_of_enc(s: Seq<u8>, pos: int, th: crate::model::ThemeV)
    requires
        is_at(s, pos, enc_theme(th)),
    ensures
        sp_theme(s, pos) == Some((th, pos + enc_theme(th).len())),
{
    let m0 = enc_member(crate::lit::spec_key_accent(), th.accent);
    let m1 = enc_member(crate::lit::spec_key_bg_from(), th.bg_from);
    let m2 = enc_member(crate::lit::spec_key_bg_to(), th.bg_to);
    let m3 = enc_member(crate::lit::spec_key_card_bg(), th.card_bg);
    let m4 = enc_member(crate::lit::spec_key_text_primary(), th.text_primary);
    lemma_theme_keys_distinct();
    assert(enc_theme(th) =~= seq![123u8] + (m0 + (seq![44u8] + (m1 + (seq![44u8] + (m2 + (seq![
        44u8,
    ] + (m3 + (seq![44u8] + (m4 + seq![125u8]))))))))));
    lemma_is_at_split(
        s,
        pos,
        seq![123u8],
        m0 + (seq![44u8] + (m1 + (seq![44u8] + (m2 + (seq![44u8] + (m3 + (seq![44u8] + (m4 + seq![
            125u8,
        ])))))))),
    );
    lemma_is_at_index(s, pos, seq![123u8], 0);
    let p0 = pos + 1;
    lemma_is_at_split(
        s,
        p0,
        m0,
        seq![44u8] + (m1 + (seq![44u8] + (m2 + (seq![44u8] + (m3 + (seq![44u8] + (m4 + seq![
            125u8,
        ]))))))),
    );
    lemma_sp_member_of_enc(s, p0, crate::lit::spec_key_accent(), th.accent);
    let q0 = p0 + m0.len();
    lemma_is_at_split(
        s,
        q0,
        seq![44u8],
        m1 + (seq![44u8] + (m2 + (seq![44u8] + (m3 + (seq![44u8] + (m4 + seq![125u8])))))),
    );
    lemma_is_at_index(s, q0, seq![44u8], 0);
    let p1 = q0 + 1;
    lemma_is_at_split(
        s,
        p1,
        m1,
        seq![44u8] + (m2 + (seq![44u8] + (m3 + (seq![44u8] + (m4 + seq![125u8]))))),
    );
    lemma_sp_member_of_enc(s, p1, crate::lit::spec_key_bg_from(), th.bg_from);
    let q1 = p1 + m1.len();
    lemma_is_at_split(
        s,
        q1,
        seq![44u8],
        m2 + (seq![44u8] + (m3 + (seq![44u8] + (m4 + seq![125u8])))),
    );
    lemma_is_at_index(s, q1, seq![44u8], 0);
    let p2 = q1 + 1;
    lemma_is_at_split(s, p2, m2, seq![44u8] + (m3 + (seq![44u8] + (m4 + seq![125u8]))));
    lemma_sp_member_of_enc(s, p2, crate::lit::spec_key_bg_to(), th.bg_to);
    let q2 = p2 + m2.len();
    lemma_is_at_split(s, q2, seq![44u8], m3 + (seq![44u8] + (m4 + seq![125u8])));
    lemma_is_at_index(s, q2, seq![44u8], 0);
    let p3 = q2 + 1;
    lemma_is_at_split(s, p3, m3, seq![44u8] + (m4 + seq![125u8]));
    lemma_sp_member_of_enc(s, p3, crate::lit::spec_key_card_bg(), th.card_bg);
    let q3 = p3 + m3.len();
    lemma_is_at_split(s, q3, seq![44u8], m4 + seq![125u8]);
    lemma_is_at_index(s, q3, seq![44u8], 0);
    let p4 = q3 + 1;
    lemma_is_at_split(s, p4, m4, seq![125u8]);
    lemma_sp_member_of_enc(s, p4, crate::lit::spec_key_text_primary(), th.text_primary);
    let q4 = p4 + m4.len();
    lemma_is_at_index(s, q4, seq![125u8], 0);
    assert(s[pos + 1] == 34) by {
        lemma_is_at_index(s, p0, m0, 0);
        assert(m0[0] == 34);
    }
    let a0 = crate::store::spec_default_theme();
    let a1 = theme_with(a0, 0, th.accent)->Some_0;
    let a2 = theme_with(a1, 1, th.bg_from)->Some_0;
    let a3 = theme_with(a2, 2, th.bg_to)->Some_0;
    let a4 = theme_with(a3, 3, th.card_bg)->Some_0;
    let a5 = theme_with(a4, 4, th.text_primary)->Some_0;
    assert(a5 =~= th);
    assert(sp_theme_members(s, p4, 4, a4) == Some((a5, q4 + 1)));
    assert(sp_theme_members(s, p3, 3, a3) == Some((a5, q4 + 1)));
    assert(sp_theme_members(s, p2, 2, a2) == Some((a5, q4 + 1)));
    assert(sp_theme_members(s, p1, 1, a1) == Some((a5, q4 + 1)));
    assert(sp_theme_members(s, p0, 0, a0) == Some((a5, q4 + 1)));
}

// ----- Favorite keys as strings -----

/// The persisted form of a composite key: the platform name, a dash, the
/// identifier.
pub open spec fn fav_string(k: crate::model::KeyV) -> Seq<u8> {
    platform_name(k.platform) + seq![45u8] + k.id
}

/// The key a persisted favorite string stands for, by its platform-name
/// prefix; the names are prefix-free, so the reading is unambiguous.
pub open spec fn key_of_fav_string(v: Seq<u8>) -> Option<crate::model::KeyV> {
    if crate::text::is_prefix(spec_platform_steam() + seq![45u8], v) {
        Some(
            crate::model::KeyV {
                platform: Platform::Steam,
                id: v.skip(spec_platform_steam().len() + 1 as int),
            },
        )
    } else if crate::text::is_prefix(spec_platform_gog() + seq![45u8], v) {
        Some(
            crate::model::KeyV {
                platform: Platform::Gog,
                id: v.skip(spec_platform_gog().len() + 1 as int),
            },
        )
    } else if crate::text::is_prefix(spec_platform_epic() + seq![45u8], v) {
        Some(
            crate::model::KeyV {
                platform: Platform::Epic,
                id: v.skip(spec_platform_epic().len() + 1 as int),
            },
        )
    } else if crate::text::is_prefix(spec_platform_ea() + seq![45u8], v) {
        Some(
            crate::model::KeyV { platform: Platform::Ea, id: v.skip(spec_platform_ea().len() + 1 as int) },
        )
    } else if crate::text::is_prefix(spec_platform_ubisoft() + seq![45u8], v) {
        Some(
            crate::model::KeyV {
                platform: Platform::Ubisoft,
                id: v.skip(spec_platform_ubisoft().len() + 1 as int),
            },
        )
    } else if crate::text::is_prefix(spec_platform_custom() + seq![45u8], v) {
        Some(
            crate::model::KeyV {
                platform: Platform::Custom,
                id: v.skip(spec_platform_custom().len() + 1 as int),
            },
        )
    } else {
        None
    }
}

/// A prefix that differs somewhere is no prefix.
proof fn lemma_not_prefix_at(p: Seq<u8>, v: Seq<u8>, t: int)
    requires
        0 <= t < p.len(),
        t < v.len(),
        p[t] != v[t],
    ensures
        !crate::text::is_prefix(p, v),
{
    if crate::text::is_prefix(p, v) {
        assert(v.take(p.len() as int)[t] == p[t]);
    }
}

/// A persisted key string reads back as its key.
pub proof fn lemma_fav_string_round_trip(k: crate::model::KeyV)
    ensures
        key_of_fav_string(fav_string(k)) == Some(k),
{
    let v = fav_string(k);
    let name = platform_name(k.platform);
    assert(v =~= (name + seq![45u8]) + k.id);
    assert(crate::text::is_prefix(name + seq![45u8], v)) by {
        assert(v.take((name + seq![45u8]).len() as int) =~= name + seq![45u8]);
    }
    assert(v.skip(name.len() + 1 as int) =~= k.id);
    assert forall|t: int| 0 <= t < name.len() implies v[t] == name[t] by {}
    match k.platform {
        Platform::Steam => {},
        Platform::Gog => {
            lemma_not_prefix_at(spec_platform_steam() + seq![45u8], v, 0);
        },
        Platform::Epic => {
            lemma_not_prefix_at(spec_platform_steam() + seq![45u8], v, 0);
            lemma_not_prefix_at(spec_platform_gog() + seq![45u8], v, 0);
        },
        Platform::Ea => {
            lemma_not_prefix_at(spec_platform_steam() + seq![45u8], v, 0);
            lemma_not_prefix_at(spec_platform_gog() + seq![45u8], v, 0);
            assert(v[1] == 65);
            lemma_not_prefix_at(spec_platform_epic() + seq![45u8], v, 1);
        },
        Platform::Ubisoft => {
            lemma_not_prefix_at(spec_platform_steam() + seq![45u8], v, 0);
            lemma_not_prefix_at(spec_platform_gog() + seq![45u8], v, 0);
            lemma_not_prefix_at(spec_platform_epic() + seq![45u8], v, 0);
            lemma_not_prefix_at(spec_platform_ea() + seq![45u8], v, 0);
        },
        Platform::Custom => {
            lemma_not_prefix_at(spec_platform_steam() + seq![45u8], v, 0);
            lemma_not_prefix_at(spec_platform_gog() + seq![45u8], v, 0);
            lemma_not_prefix_at(spec_platform_epic() + seq![45u8], v, 0);
            lemma_not_prefix_at(spec_platform_ea() + seq![45u8], v, 0);
            lemma_not_prefix_at(spec_platform_ubisoft() + seq![45u8], v, 0);
        },
    }
}

/// The persisted strings of the favorite keys, in order.
pub open spec fn fav_strings(keys: Seq<crate::model::KeyV>) -> Seq<Seq<u8>> {
    keys.map_values(|k: crate::model::KeyV| fav_string(k))
}

/// The keys of persisted favorite strings; any unreadable string refuses the
/// whole list.
pub open spec fn keys_of_fav_strings(a: Seq<Seq<u8>>) -> Option<Seq<crate::model::KeyV>>
    decreases a.len(),
{
    if a.len() == 0 {
        Some(Seq::empty())
    } else {
        match key_of_fav_string(a[0]) {
            None => None,
            Some(k) => match keys_of_fav_strings(a.drop_first()) {
                None => None,
                Some(rest) => Some(seq![k] + rest),
            },
        }
    }
}

/// Persisted favorite strings read back as the original keys.
pub proof fn lemma_fav_strings_round_trip(keys: Seq<crate::model::KeyV>)
    ensures
        keys_of_fav_strings(fav_strings(keys)) == Some(keys),
    decreases keys.len(),
{
    if keys.len() == 0 {
        assert(fav_strings(keys) =~= Seq::<Seq<u8>>::empty());
        assert(keys =~= Seq::<crate::model::KeyV>::empty());
    } else {
        let a = fav_strings(keys);
        lemma_fav_string_round_trip(keys[0]);
        assert(a[0] == fav_string(keys[0]));
        assert(a.drop_first() =~= fav_strings(keys.drop_first()));
        lemma_fav_strings_round_trip(keys.drop_first());
        assert(seq![keys[0]] + keys.drop_first() =~= keys);
    }
}

// ----- The state object -----

/// The canonical position of a state key, `-1` for an unknown key.
pub open spec fn state_key_stage(key: Seq<u8>) -> int {
    if key == crate::lit::spec_key_favorites() {
        0
    } else if key == crate::lit::spec_key_custom_games() {
        1
    } else if key == crate::lit::spec_key_selected_drives() {
        2
    } else if key == crate::lit::spec_key_theme() {
        3
    } else {
        -1
    }
}

/// State members from `pos`, keys in canonical order, each at most once, up
/// to and including the closing brace; a missing member keeps its default.
pub open spec fn sp_state_members(
    s: Seq<u8>,
    pos: int,
    stage: int,
    acc: crate::model::StateV,
) -> Option<(crate::model::StateV, int)>
    decreases s.len() - pos,
    via sp_state_members_dec
{
    match sp_string(s, pos) {
        None => None,
        Some((key, e1)) => {
            let t = state_key_stage(key);
            let c1 = ws_end(s, e1);
            if t < stage {
                None
            } else if c1 < s.len() && s[c1] == 58 {
                if t == 0 {
                    match sp_str_array(s, c1 + 1) {
                        None => None,
                        Some((a, e2)) => match keys_of_fav_strings(a) {
                            None => None,
                            Some(ks) => sp_state_step(
                                s,
                                e2,
                                t,
                                crate::model::StateV { favorites: ks, ..acc },
                            ),
                        },
                    }
                } else if t == 1 {
                    match sp_rec_array(s, c1 + 1) {
                        None => None,
                        Some((a, e2)) => sp_state_step(
                            s,
                            e2,
                            t,
                            crate::model::StateV { custom_games: a, ..acc },
                        ),
                    }
                } else if t == 2 {
                    match sp_str_array(s, c1 + 1) {
                        None => None,
                        Some((a, e2)) => sp_state_step(
                            s,
                            e2,
                            t,
                            crate::model::StateV { selected_drives: a, ..acc },
                        ),
                    }
                } else {
                    match sp_theme(s, c1 + 1) {
                        None => None,
                        Some((th, e2)) => sp_state_step(
                            s,
                            e2,
                            t,
                            crate::model::StateV { theme: th, ..acc },
                        ),
                    }
                }
            } else {
                None
            }
        },
    }
}

/// After one member: a comma continues with the next stage, a closing brace
/// ends the object.
pub open spec fn sp_state_step(
    s: Seq<u8>,
    e2: int,
    t: int,
    acc: crate::model::StateV,
) -> Option<(crate::model::StateV, int)>
    decreases s.len() - e2, 0int,
    via sp_state_step_dec
{
    let c2 = ws_end(s, e2);
    if c2 < s.len() && s[c2] == 44 {
        sp_state_members(s, c2 + 1, t + 1, acc)
    } else if c2 < s.len() && s[c2] == 125 {
        Some((acc, c2 + 1))
    } else {
        None
    }
}

#[via_fn]
proof fn sp_state_members_dec(s: Seq<u8>, pos: int, stage: int, acc: crate::model::StateV) {
    if sp_string(s, pos) is Some {
        lemma_sp_string_range(s, pos);
        let e1 = sp_string(s, pos)->Some_0.1;
        lemma_ws_end(s, e1);
        let c1 = ws_end(s, e1);
        if sp_str_array(s, c1 + 1) is Some {
            lemma_sp_str_array_range(s, c1 + 1);
        }
        if sp_rec_array(s, c1 + 1) is Some {
            lemma_sp_rec_array_range(s, c1 + 1);
        }
        if sp_theme(s, c1 + 1) is Some {
            lemma_sp_theme_range(s, c1 + 1);
        }
    }
}

#[via_fn]
proof fn sp_state_step_dec(s: Seq<u8>, e2: int, t: int, acc: crate::model::StateV) {
    if 0 <= e2 <= s.len() {
        lemma_ws_end(s, e2);
    }
}

/// A successful string-array parse ends past its start, within the input.
pub proof fn lemma_sp_str_array_range(s: Seq<u8>, pos: int)
    requires
        sp_str_array(s, pos) is Some,
    ensures
        pos < sp_str_array(s, pos)->Some_0.1 <= s.len(),
{
    assert(pos <= s.len());
    lemma_ws_end(s, pos);
    let p = ws_end(s, pos);
    lemma_ws_end(s, p + 1);
    let q = ws_end(s, p + 1);
    if q < s.len() && s[q] == 93 {
    } else {
        lemma_sp_str_items_range(s, p + 1);
    }
}

/// A successful record-array parse ends past its start, within the input.
pub proof fn lemma_sp_rec_array_range(s: Seq<u8>, pos: int)
    requires
        sp_rec_array(s, pos) is Some,
    ensures
        pos < sp_rec_array(s, pos)->Some_0.1 <= s.len(),
{
    assert(pos <= s.len());
    lemma_ws_end(s, pos);
    let p = ws_end(s, pos);
    lemma_ws_end(s, p + 1);
    let q = ws_end(s, p + 1);
    if q < s.len() && s[q] == 93 {
    } else {
        lemma_sp_rec_items_range(s, p + 1);
    }
}

/// A successful state-members parse ends past its start, within the input.
proof fn lemma_sp_state_members_range(s: Seq<u8>, pos: int, stage: int, acc: crate::model::StateV)
    requires
        sp_state_members(s, pos, stage, acc) is Some,
    ensures
        pos < sp_state_members(s, pos, stage, acc)->Some_0.1 <= s.len(),
    decreases s.len() - pos, 1int,
{
    lemma_sp_string_range(s, pos);
    let (key, e1) = sp_string(s, pos)->Some_0;
    let t = state_key_stage(key);
    lemma_ws_end(s, e1);
    let c1 = ws_end(s, e1);
    if t == 0 {
        lemma_sp_str_array_range(s, c1 + 1);
        let (a, e2) = sp_str_array(s, c1 + 1)->Some_0;
        let ks = keys_of_fav_strings(a)->Some_0;
        lemma_sp_state_step_range(s, e2, t, crate::model::StateV { favorites: ks, ..acc });
    } else if t == 1 {
        lemma_sp_rec_array_range(s, c1 + 1);
        let (a, e2) = sp_rec_array(s, c1 + 1)->Some_0;
        lemma_sp_state_step_range(s, e2, t, crate::model::StateV { custom_games: a, ..acc });
    } else if t == 2 {
        lemma_sp_str_array_range(s, c1 + 1);
        let (a, e2) = sp_str_array(s, c1 + 1)->Some_0;
        lemma_sp_state_step_range(s, e2, t, crate::model::StateV { selected_drives: a, ..acc });
    } else {
        lemma_sp_theme_range(s, c1 + 1);
        let (th, e2) = sp_theme(s, c1 + 1)->Some_0;
        lemma_sp_state_step_range(s, e2, t, crate::model::StateV { theme: th, ..acc });
    }
}

/// A successful member step ends past its start, within the input.
proof fn lemma_sp_state_step_range(s: Seq<u8>, e2: int, t: int, acc: crate::model::StateV)
    requires
        0 <= e2,
        sp_state_step(s, e2, t, acc) is Some,
    ensures
        e2 < sp_state_step(s, e2, t, acc)->Some_0.1 <= s.len(),
    decreases s.len() - e2, 0int,
{
    if e2 > s.len() {
        assert(ws_end(s, e2) == e2);
    }
    lemma_ws_end(s, e2);
    let c2 = ws_end(s, e2);
    if c2 < s.len() && s[c2] == 44 {
        lemma_sp_state_members_range(s, c2 + 1, t + 1, acc);
    }
}

/// A successful state parse ends past its start, within the input.
pub proof fn lemma_sp_state_range(s: Seq<u8>, pos: int)
    requires
        sp_state(s, pos) is Some,
    ensures
        pos < sp_state(s, pos)->Some_0.1 <= s.len(),
{
    assert(pos <= s.len());
    lemma_ws_end(s, pos);
    let p = ws_end(s, pos);
    lemma_ws_end(s, p + 1);
    let q = ws_end(s, p + 1);
    if q < s.len() && s[q] == 125 {
    } else {
        lemma_sp_state_members_range(s, p + 1, 0, crate::store::spec_default_state());
    }
}

/// A state object; an empty object is the default state, whitespace between
/// tokens tolerated.
pub open spec fn sp_state(s: Seq<u8>, pos: int) -> Option<(crate::model::StateV, int)> {
    let p = ws_end(s, pos);
    if 0 <= pos && p < s.len() && s[p] == 123 {
        let q = ws_end(s, p + 1);
        if q < s.len() && s[q] == 125 {
            Some((crate::store::spec_default_state(), q + 1))
        } else {
            sp_state_members(s, p + 1, 0, crate::store::spec_default_state())
        }
    } else {
        None
    }
}

/// One pretty member: an indented key, a colon and a space, the value/// One pretty member: an indented key, a colon and a space, the value
/// encoding.
pub open spec fn enc_state_member(key: Seq<u8>, val: Seq<u8>) -> Seq<u8> {
    seq![10u8, 32u8, 32u8] + enc_string(key) + seq![58u8, 32u8] + val
}

/// The four pretty members of the persisted state, comma-separated, with
/// the closing line break and brace.
pub open spec fn enc_state_members(st: crate::model::StateV) -> Seq<u8> {
    enc_state_member(crate::lit::spec_key_favorites(), enc_str_array(fav_strings(st.favorites)))
        + seq![44u8] + (enc_state_member(
        crate::lit::spec_key_custom_games(),
        enc_rec_array(st.custom_games),
    ) + seq![44u8] + (enc_state_member(
        crate::lit::spec_key_selected_drives(),
        enc_str_array(st.selected_drives),
    ) + seq![44u8] + enc_state_member(crate::lit::spec_key_theme(), enc_theme(st.theme)) + seq![
        10u8,
        125u8,
    ]))
}

/// The persisted form of the whole state: one complete overwrite, pretty —
/// each of the four fields on its own indented line.
pub open spec fn spec_encode_state(st: crate::model::StateV) -> Seq<u8> {
    seq![123u8] + enc_state_members(st)
}

/// Parsing one pretty member from right after the brace or comma: the key
/// reads back, the colon follows it, and the value starts two bytes later.
#[verifier::rlimit(60)]
proof fn lemma_sp_state_member_of_enc(s: Seq<u8>, p: int, key: Seq<u8>, val: Seq<u8>)
    requires
        is_at(s, p, enc_state_member(key, val)),
        val.len() > 0,
        !is_json_ws(val[0]),
    ensures
        sp_string(s, p) == Some((key, p + 3 + enc_string(key).len())),
        ws_end(s, p + 3 + enc_string(key).len()) == p + 3 + enc_string(key).len(),
        s[p + 3 + enc_string(key).len()] == 58,
        ws_end(s, p + 4 + enc_string(key).len()) == p + 5 + enc_string(key).len(),
        is_at(s, p + 5 + enc_string(key).len(), val),
{
    let m = enc_state_member(key, val);
    assert(m =~= seq![10u8, 32u8, 32u8] + (enc_string(key) + (seq![58u8, 32u8] + val)));
    lemma_is_at_split(s, p, seq![10u8, 32u8, 32u8], enc_string(key) + (seq![58u8, 32u8] + val));
    lemma_is_at_index(s, p, seq![10u8, 32u8, 32u8], 0);
    lemma_is_at_index(s, p, seq![10u8, 32u8, 32u8], 1);
    lemma_is_at_index(s, p, seq![10u8, 32u8, 32u8], 2);
    let kp = p + 3;
    lemma_is_at_split(s, kp, enc_string(key), seq![58u8, 32u8] + val);
    lemma_is_at_index(s, kp, enc_string(key), 0);
    assert(s[kp] == 34);
    assert(ws_end(s, kp) == kp);
    assert(ws_end(s, p + 2) == kp);
    assert(ws_end(s, p + 1) == kp);
    assert(ws_end(s, p) == kp);
    lemma_parse_from_ws(s, p, kp);
    lemma_sp_string_of_enc(s, kp, key);
    let e1 = kp + enc_string(key).len();
    lemma_is_at_split(s, e1, seq![58u8, 32u8], val);
    lemma_is_at_index(s, e1, seq![58u8, 32u8], 0);
    lemma_is_at_index(s, e1, seq![58u8, 32u8], 1);
    assert(s[e1] == 58);
    assert(ws_end(s, e1) == e1);
    lemma_is_at_index(s, e1 + 2, val, 0);
    assert(ws_end(s, e1 + 2) == e1 + 2);
    assert(ws_end(s, e1 + 1) == e1 + 2);
}

/// Parsing the last two state members (drives and theme) where they were
/// encoded extends the accumulated state with them.
#[verifier::rlimit(100)]
proof fn lemma_sp_state_tail_of_enc(
    s: Seq<u8>,
    p2: int,
    stage: int,
    acc: crate::model::StateV,
    sd: Seq<Seq<u8>>,
    th: crate::model::ThemeV,
)
    requires
        stage <= 2,
        is_at(
            s,
            p2,
            enc_state_member(crate::lit::spec_key_selected_drives(), enc_str_array(sd)) + seq![
                44u8,
            ] + enc_state_member(crate::lit::spec_key_theme(), enc_theme(th)) + seq![10u8, 125u8],
        ),
    ensures
        sp_state_members(s, p2, stage, acc) == Some(
            (
                crate::model::StateV { selected_drives: sd, theme: th, ..acc },
                p2 + (enc_state_member(crate::lit::spec_key_selected_drives(), enc_str_array(sd))
                    + seq![44u8] + enc_state_member(crate::lit::spec_key_theme(), enc_theme(th))
                    + seq![10u8, 125u8]).len(),
            ),
        ),
{
    let m2 = enc_state_member(crate::lit::spec_key_selected_drives(), enc_str_array(sd));
    let m3 = enc_state_member(crate::lit::spec_key_theme(), enc_theme(th));
    assert(m2 + seq![44u8] + m3 + seq![10u8, 125u8] =~= m2 + (seq![44u8] + (m3 + seq![
        10u8,
        125u8,
    ])));
    lemma_is_at_split(s, p2, m2, seq![44u8] + (m3 + seq![10u8, 125u8]));
    lemma_sp_state_member_of_enc(s, p2, crate::lit::spec_key_selected_drives(), enc_str_array(sd));
    let w2 = p2 + 5 + enc_string(crate::lit::spec_key_selected_drives()).len();
    lemma_parse_from_ws(s, w2 - 1, w2);
    lemma_sp_str_array_of_enc(s, w2, sd);
    let e2 = w2 + enc_str_array(sd).len();
    lemma_is_at_split(s, p2 + m2.len(), seq![44u8], m3 + seq![10u8, 125u8]);
    lemma_is_at_index(s, p2 + m2.len(), seq![44u8], 0);
    assert(e2 == p2 + m2.len());
    assert(s[e2] == 44);
    assert(ws_end(s, e2) == e2);
    let p3 = e2 + 1;
    lemma_is_at_split(s, p3, m3, seq![10u8, 125u8]);
    lemma_sp_state_member_of_enc(s, p3, crate::lit::spec_key_theme(), enc_theme(th));
    let w3 = p3 + 5 + enc_string(crate::lit::spec_key_theme()).len();
    lemma_parse_from_ws(s, w3 - 1, w3);
    lemma_sp_theme_of_enc(s, w3, th);
    let e3 = w3 + enc_theme(th).len();
    lemma_is_at_index(s, p3 + m3.len(), seq![10u8, 125u8], 0);
    lemma_is_at_index(s, p3 + m3.len(), seq![10u8, 125u8], 1);
    assert(e3 == p3 + m3.len());
    assert(s[e3] == 10);
    assert(s[e3 + 1] == 125);
    assert(ws_end(s, e3 + 1) == e3 + 1);
    assert(ws_end(s, e3) == e3 + 1);
    let a3 = crate::model::StateV { selected_drives: sd, ..acc };
    let a4 = crate::model::StateV { theme: th, ..a3 };
    assert(a4 =~= crate::model::StateV { selected_drives: sd, theme: th, ..acc });
    assert(sp_state_step(s, e3, 3, a4) == Some((a4, e3 + 2)));
    assert(sp_state_members(s, p3, 3, a3) == Some((a4, e3 + 2)));
    assert(sp_state_step(s, e2, 2, a3) == Some((a4, e3 + 2)));
    assert(sp_state_members(s, p2, stage, acc) == Some((a4, e3 + 2)));
}

/// Parsing the last three state members (custom games, drives, theme) where
/// they were encoded extends the accumulated state with them.
#[verifier::rlimit(100)]
proof fn lemma_sp_state_mid_of_enc(
    s: Seq<u8>,
    p1: int,
    stage: int,
    acc: crate::model::StateV,
    cg: Seq<crate::model::RecV>,
    sd: Seq<Seq<u8>>,
    th: crate::model::ThemeV,
)
    requires
        stage <= 1,
        forall|i: int| 0 <= i < cg.len() ==> (#[trigger] cg[i]).is_favorite == false,
        is_at(
            s,
            p1,
            enc_state_member(crate::lit::spec_key_custom_games(), enc_rec_array(cg)) + seq![44u8]
                + (enc_state_member(crate::lit::spec_key_selected_drives(), enc_str_array(sd))
                + seq![44u8] + enc_state_member(crate::lit::spec_key_theme(), enc_theme(th))
                + seq![10u8, 125u8]),
        ),
    ensures
        sp_state_members(s, p1, stage, acc) == Some(
            (
                crate::model::StateV { custom_games: cg, selected_drives: sd, theme: th, ..acc },
                p1 + (enc_state_member(crate::lit::spec_key_custom_games(), enc_rec_array(cg))
                    + seq![44u8] + (enc_state_member(
                    crate::lit::spec_key_selected_drives(),
                    enc_str_array(sd),
                ) + seq![44u8] + enc_state_member(crate::lit::spec_key_theme(), enc_theme(th))
                    + seq![10u8, 125u8])).len(),
            ),
        ),
{
    let m1 = enc_state_member(crate::lit::spec_key_custom_games(), enc_rec_array(cg));
    let tail = enc_state_member(crate::lit::spec_key_selected_drives(), enc_str_array(sd)) + seq![
        44u8,
    ] + enc_state_member(crate::lit::spec_key_theme(), enc_theme(th)) + seq![10u8, 125u8];
    assert(m1 + seq![44u8] + tail =~= m1 + (seq![44u8] + tail));
    lemma_is_at_split(s, p1, m1, seq![44u8] + tail);
    lemma_sp_state_member_of_enc(s, p1, crate::lit::spec_key_custom_games(), enc_rec_array(cg));
    let w1 = p1 + 5 + enc_string(crate::lit::spec_key_custom_games()).len();
    lemma_parse_from_ws(s, w1 - 1, w1);
    lemma_sp_rec_array_of_enc(s, w1, cg);
    let e1 = w1 + enc_rec_array(cg).len();
    lemma_is_at_split(s, p1 + m1.len(), seq![44u8], tail);
    lemma_is_at_index(s, p1 + m1.len(), seq![44u8], 0);
    assert(e1 == p1 + m1.len());
    assert(s[e1] == 44);
    assert(ws_end(s, e1) == e1);
    let p2 = e1 + 1;
    let a2 = crate::model::StateV { custom_games: cg, ..acc };
    lemma_sp_state_tail_of_enc(s, p2, 2, a2, sd, th);
    let a4 = crate::model::StateV { selected_drives: sd, theme: th, ..a2 };
    let q = p2 + tail.len();
    assert(sp_state_members(s, p2, 2, a2) == Some((a4, q)));
    assert(sp_state_step(s, e1, 1, a2) == Some((a4, q)));
    assert(sp_state_members(s, p1, stage, acc) == Some((a4, q)));
    assert(a4 =~= crate::model::StateV { custom_games: cg, selected_drives: sd, theme: th, ..acc });
}

/// Parsing all four state members where they were encoded yields the whole
/// state.
#[verifier::rlimit(100)]
proof fn lemma_sp_state_head_of_enc(s: Seq<u8>, p0: int, st: crate::model::StateV)
    requires
        forall|i: int|
            0 <= i < st.custom_games.len() ==> (#[trigger] st.custom_games[i]).is_favorite
                == false,
        is_at(s, p0, enc_state_members(st)),
    ensures
        sp_state_members(s, p0, 0, crate::store::spec_default_state()) == Some(
            (st, p0 + enc_state_members(st).len()),
        ),
{
    let m0 = enc_state_member(
        crate::lit::spec_key_favorites(),
        enc_str_array(fav_strings(st.favorites)),
    );
    let mid = enc_state_member(crate::lit::spec_key_custom_games(), enc_rec_array(st.custom_games))
        + seq![44u8] + (enc_state_member(
        crate::lit::spec_key_selected_drives(),
        enc_str_array(st.selected_drives),
    ) + seq![44u8] + enc_state_member(crate::lit::spec_key_theme(), enc_theme(st.theme)) + seq![
        10u8,
        125u8,
    ]);
    assert(enc_state_members(st) =~= m0 + (seq![44u8] + mid));
    lemma_is_at_split(s, p0, m0, seq![44u8] + mid);
    lemma_sp_state_member_of_enc(
        s,
        p0,
        crate::lit::spec_key_favorites(),
        enc_str_array(fav_strings(st.favorites)),
    );
    let w0 = p0 + 5 + enc_string(crate::lit::spec_key_favorites()).len();
    lemma_parse_from_ws(s, w0 - 1, w0);
    lemma_sp_str_array_of_enc(s, w0, fav_strings(st.favorites));
    lemma_fav_strings_round_trip(st.favorites);
    let e0 = w0 + enc_str_array(fav_strings(st.favorites)).len();
    lemma_is_at_split(s, p0 + m0.len(), seq![44u8], mid);
    lemma_is_at_index(s, p0 + m0.len(), seq![44u8], 0);
    assert(e0 == p0 + m0.len());
    assert(s[e0] == 44);
    assert(ws_end(s, e0) == e0);
    let p1 = e0 + 1;
    let a0 = crate::store::spec_default_state();
    let a1 = crate::model::StateV { favorites: st.favorites, ..a0 };
    lemma_sp_state_mid_of_enc(s, p1, 1, a1, st.custom_games, st.selected_drives, st.theme);
    let a4 = crate::model::StateV {
        custom_games: st.custom_games,
        selected_drives: st.selected_drives,
        theme: st.theme,
        ..a1
    };
    assert(a4 =~= st);
    let q = p1 + mid.len();
    assert(sp_state_members(s, p1, 1, a1) == Some((a4, q)));
    assert(sp_state_step(s, e0, 0, a1) == Some((a4, q)));
    assert(sp_state_members(s, p0, 0, a0) == Some((a4, q)));
}

/// Parsing a state where one was encoded restores it, brace to brace.
#[verifier::spinoff_prover]
#[verifier::rlimit(100)]
pub proof fn lemma_sp_state_of_enc(s: Seq<u8>, pos: int, st: crate::model::StateV)
    requires
        is_at(s, pos, spec_encode_state(st)),
        forall|i: int|
            0 <= i < st.custom_games.len() ==> (#[trigger] st.custom_games[i]).is_favorite
                == false,
    ensures
        sp_state(s, pos) == Some((st, pos + spec_encode_state(st).len())),
{
    let members = enc_state_members(st);
    lemma_is_at_split(s, pos, seq![123u8], members);
    lemma_is_at_index(s, pos, seq![123u8], 0);
    assert(s[pos] == 123);
    assert(ws_end(s, pos) == pos);
    let p0 = pos + 1;
    lemma_sp_state_head_of_enc(s, p0, st);
    let q = p0 + members.len();
    // The object is not empty: after the brace's indent stands the first key.
    let m0 = enc_state_member(
        crate::lit::spec_key_favorites(),
        enc_str_array(fav_strings(st.favorites)),
    );
    assert(s[p0] == 10 && s[p0 + 1] == 32 && s[p0 + 2] == 32 && s[p0 + 3] == 34) by {
        lemma_is_at_index(s, p0, members, 0);
        lemma_is_at_index(s, p0, members, 1);
        lemma_is_at_index(s, p0, members, 2);
        lemma_is_at_index(s, p0, members, 3);
        assert(members[0] == m0[0]);
        assert(members[1] == m0[1]);
        assert(members[2] == m0[2]);
        assert(members[3] == m0[3]);
        assert(m0[3] == enc_string(crate::lit::spec_key_favorites())[0]);
    }
    assert(ws_end(s, p0 + 3) == p0 + 3);
    assert(ws_end(s, p0 + 2) == p0 + 3);
    assert(ws_end(s, p0 + 1) == p0 + 3);
    assert(ws_end(s, p0) == p0 + 3);
    assert(sp_state(s, pos) == Some((st, q)));
}

// ----- Decoding the whole state -----

/// First-occurrence deduplication of favorite keys.
pub open spec fn spec_dedup_keys(s: Seq<crate::model::KeyV>) -> Seq<crate::model::KeyV>
    decreases s.len(),
{
    if s.len() == 0 {
        Seq::empty()
    } else if s.drop_last().contains(s.last()) {
        spec_dedup_keys(s.drop_last())
    } else {
        spec_dedup_keys(s.drop_last()).push(s.last())
    }
}

/// Key deduplication yields a duplicate-free sequence carrying exactly the
/// input's keys.
pub proof fn lemma_dedup_keys_props(s: Seq<crate::model::KeyV>)
    ensures
        crate::model::favorites_distinct(spec_dedup_keys(s)),
        forall|k: crate::model::KeyV| #[trigger] spec_dedup_keys(s).contains(k) <==> s.contains(k),
    decreases s.len(),
{
    if s.len() > 0 {
        let front = s.drop_last();
        let r = spec_dedup_keys(s);
        lemma_dedup_keys_props(front);
        assert forall|k: crate::model::KeyV| #[trigger] r.contains(k) implies s.contains(k) by {
            if spec_dedup_keys(front).contains(k) {
                let v = choose|v: int| 0 <= v < front.len() && front[v] == k;
                assert(s[v] == k);
            } else {
                assert(s[s.len() - 1] == k);
            }
        }
        assert forall|k: crate::model::KeyV| s.contains(k) implies #[trigger] r.contains(k) by {
            let v = choose|v: int| 0 <= v < s.len() && s[v] == k;
            if v < s.len() - 1 {
                assert(front[v] == k);
                assert(front.contains(k));
                assert(spec_dedup_keys(front).contains(k));
                if !front.contains(s.last()) {
                    let w = choose|w: int|
                        0 <= w < spec_dedup_keys(front).len() && spec_dedup_keys(front)[w] == k;
                    assert(r[w] == k);
                }
            } else {
                if front.contains(s.last()) {
                    assert(spec_dedup_keys(front).contains(k));
                } else {
                    assert(r[r.len() - 1] == k);
                }
            }
        }
        if !front.contains(s.last()) {
            assert forall|a: int, b: int| 0 <= a < b < r.len() implies r[a] != r[b] by {
                if b < r.len() - 1 {
                    assert(spec_dedup_keys(front)[a] != spec_dedup_keys(front)[b]);
                } else {
                    assert(r[a] == spec_dedup_keys(front)[a]);
                    assert(spec_dedup_keys(front).contains(r[a]));
                    assert(front.contains(r[a]));
                }
            }
        }
    }
}

/// A duplicate-free key sequence deduplicates to itself.
pub proof fn lemma_dedup_keys_identity(s: Seq<crate::model::KeyV>)
    requires
        crate::model::favorites_distinct(s),
    ensures
        spec_dedup_keys(s) == s,
    decreases s.len(),
{
    if s.len() > 0 {
        let front = s.drop_last();
        assert(!front.contains(s.last())) by {
            if front.contains(s.last()) {
                let v = choose|v: int| 0 <= v < front.len() && front[v] == s.last();
                assert(s[v] == s[s.len() - 1]);
            }
        }
        assert(crate::model::favorites_distinct(front)) by {
            assert forall|a: int, b: int| 0 <= a < b < front.len() implies front[a]
                != front[b] by {
                assert(s[a] != s[b]);
            }
        }
        lemma_dedup_keys_identity(front);
        assert(spec_dedup_keys(s) =~= s);
    }
}

/// A duplicate-free drive sequence deduplicates to itself.
pub proof fn lemma_dedup_drives_identity(s: Seq<Seq<u8>>)
    requires
        crate::model::drives_distinct(s),
    ensures
        crate::store::spec_dedup_drives(s) == s,
    decreases s.len(),
{
    if s.len() > 0 {
        let front = s.drop_last();
        assert(!front.contains(s.last())) by {
            if front.contains(s.last()) {
                let v = choose|v: int| 0 <= v < front.len() && front[v] == s.last();
                assert(s[v] == s[s.len() - 1]);
            }
        }
        assert(crate::model::drives_distinct(front)) by {
            assert forall|a: int, b: int| 0 <= a < b < front.len() implies front[a]
                != front[b] by {
                assert(s[a] != s[b]);
            }
        }
        lemma_dedup_drives_identity(front);
        assert(crate::store::spec_dedup_drives(s) =~= s);
    }
}

/// What loading yields from persisted bytes: the parsed state with favorites
/// and drives collapsed to sets, or a fresh default state on anything
/// malformed — trailing bytes, unreadable content, or custom entries that
/// would break the identifier invariant.
pub open spec fn spec_decode_state(s: Seq<u8>) -> crate::model::StateV {
    match sp_state(s, 0) {
        Some((st, e)) => {
            if ws_end(s, e) == s.len() && crate::model::customs_wf(st.custom_games) {
                crate::model::StateV {
                    favorites: spec_dedup_keys(st.favorites),
                    custom_games: st.custom_games,
                    selected_drives: crate::store::spec_dedup_drives(st.selected_drives),
                    theme: st.theme,
                }
            } else {
                crate::store::spec_default_state()
            }
        },
        None => crate::store::spec_default_state(),
    }
}

/// Persistence round-trip: saving a well-formed state and loading it back
/// yields the state unchanged.
pub proof fn lemma_persistence_round_trip(st: crate::model::StateV)
    requires
        crate::model::state_wf(st),
    ensures
        spec_decode_state(spec_encode_state(st)) == st,
{
    let s = spec_encode_state(st);
    assert(s.subrange(0, s.len() as int) =~= s);
    lemma_sp_state_of_enc(s, 0, st);
    lemma_dedup_keys_identity(st.favorites);
    lemma_dedup_drives_identity(st.selected_drives);
    assert(spec_decode_state(s) =~= st);
}

// ----- Executable encoding -----

/// Appends one encoded member: key, colon, string value.
fn encode_member_into(out: &mut Vec<u8>, key: Vec<u8>, val: &[u8])
    ensures
        final(out)@ == old(out)@ + enc_member(key@, val@),
{
    encode_string_into(out, key.as_slice());
    out.push(58);
    encode_string_into(out, val);
    proof {
        assert(out@ =~= old(out)@ + enc_member(key@, val@));
    }
}

/// Appends the persisted form of one record.
pub fn encode_record_into(out: &mut Vec<u8>, g: &crate::model::GameRecord)
    ensures
        final(out)@ == old(out)@ + enc_record(g@),
{
    out.push(123);
    encode_member_into(out, crate::lit::key_id(), g.id.as_slice());
    out.push(44);
    encode_member_into(out, crate::lit::key_title(), g.title.as_slice());
    out.push(44);
    let pname = platform_name_exec(g.platform);
    encode_member_into(out, crate::lit::key_platform(), pname.as_slice());
    out.push(44);
    encode_member_into(out, crate::lit::key_image_path(), g.image_path.as_slice());
    out.push(44);
    encode_member_into(out, crate::lit::key_exe_path(), g.exe_path.as_slice());
    out.push(44);
    encode_member_into(out, crate::lit::key_install_dir(), g.install_dir.as_slice());
    out.push(125);
    proof {
        assert(out@ =~= old(out)@ + enc_record(g@));
    }
}

/// Appends the persisted form of the theme.
pub fn encode_theme_into(out: &mut Vec<u8>, th: &crate::model::ThemeConfig)
    ensures
        final(out)@ == old(out)@ + enc_theme(th@),
{
    out.push(123);
    encode_member_into(out, crate::lit::key_accent(), th.accent.as_slice());
    out.push(44);
    encode_member_into(out, crate::lit::key_bg_from(), th.bg_from.as_slice());
    out.push(44);
    encode_member_into(out, crate::lit::key_bg_to(), th.bg_to.as_slice());
    out.push(44);
    encode_member_into(out, crate::lit::key_card_bg(), th.card_bg.as_slice());
    out.push(44);
    encode_member_into(out, crate::lit::key_text_primary(), th.text_primary.as_slice());
    out.push(125);
    proof {
        assert(out@ =~= old(out)@ + enc_theme(th@));
    }
}

/// The encoding of the first `i` records, with their separating commas.
spec fn enc_recs_prefix(a: Seq<crate::model::RecV>, i: int) -> Seq<u8>
    decreases i,
{
    if i <= 0 {
        Seq::empty()
    } else if i == 1 {
        enc_record(a[0])
    } else {
        enc_recs_prefix(a, i - 1) + seq![44u8] + enc_record(a[i - 1])
    }
}

/// A prefix encoding of at least two records splits at its front.
proof fn lemma_enc_recs_prefix_shift(a: Seq<crate::model::RecV>, i: int)
    requires
        2 <= i <= a.len(),
    ensures
        enc_recs_prefix(a, i) == enc_record(a[0]) + seq![44u8] + enc_recs_prefix(
            a.drop_first(),
            i - 1,
        ),
    decreases i,
{
    if i == 2 {
        assert(a.drop_first()[0] == a[1]);
        assert(enc_recs_prefix(a, 1) == enc_record(a[0]));
        assert(enc_recs_prefix(a.drop_first(), 1) == enc_record(a.drop_first()[0]));
        assert(enc_recs_prefix(a, 2) =~= enc_record(a[0]) + seq![44u8] + enc_recs_prefix(
            a.drop_first(),
            1,
        ));
    } else {
        lemma_enc_recs_prefix_shift(a, i - 1);
        assert(enc_recs_prefix(a, i) == enc_recs_prefix(a, i - 1) + seq![44u8] + enc_record(
            a[i - 1],
        ));
        assert(enc_recs_prefix(a.drop_first(), i - 1) == enc_recs_prefix(a.drop_first(), i - 2)
            + seq![44u8] + enc_record(a.drop_first()[i - 2]));
        assert(a.drop_first()[i - 2] == a[i - 1]);
        assert(enc_recs_prefix(a, i) =~= enc_record(a[0]) + seq![44u8] + enc_recs_prefix(
            a.drop_first(),
            i - 1,
        ));
    }
}

/// The whole prefix encoding is the record-items encoding.
proof fn lemma_enc_recs_prefix_all(a: Seq<crate::model::RecV>)
    ensures
        enc_recs_prefix(a, a.len() as int) == enc_rec_items(a),
    decreases a.len(),
{
    if a.len() > 1 {
        lemma_enc_recs_prefix_all(a.drop_first());
        lemma_enc_recs_prefix_shift(a, a.len() as int);
        assert(enc_record(a[0]) + seq![44u8] + enc_rec_items(a.drop_first()) =~= enc_rec_items(
            a,
        ));
    }
}

/// Appends a bracketed array of encoded records.
pub fn encode_rec_array_into(out: &mut Vec<u8>, items: &Vec<crate::model::GameRecord>)
    ensures
        final(out)@ == old(out)@ + enc_rec_array(crate::model::recs_view(items@)),
{
    let ghost iv = crate::model::recs_view(items@);
    out.push(91);
    let mut i: usize = 0;
    while i < items.len()
        invariant
            i <= items@.len(),
            iv == crate::model::recs_view(items@),
            out@ == old(out)@ + seq![91u8] + enc_recs_prefix(iv, i as int),
        decreases items@.len() - i,
    {
        if i > 0 {
            out.push(44);
        }
        encode_record_into(out, &items[i]);
        i = i + 1;
        proof {
            assert(out@ =~= old(out)@ + seq![91u8] + enc_recs_prefix(iv, i as int));
        }
    }
    out.push(93);
    proof {
        lemma_enc_recs_prefix_all(iv);
        assert(out@ =~= old(out)@ + enc_rec_array(iv));
    }
}

/// The persisted strings of the favorites, in order.
fn fav_strings_exec(favorites: &Vec<crate::model::GameKey>) -> (r: Vec<Vec<u8>>)
    ensures
        crate::model::seqs_view(r@) == fav_strings(crate::model::keys_view(favorites@)),
{
    let ghost kv = crate::model::keys_view(favorites@);
    let mut out: Vec<Vec<u8>> = Vec::new();
    let mut i: usize = 0;
    while i < favorites.len()
        invariant
            i <= favorites@.len(),
            kv == crate::model::keys_view(favorites@),
            crate::model::seqs_view(out@) == fav_strings(kv.take(i as int)),
        decreases favorites@.len() - i,
    {
        let mut v = platform_name_exec(favorites[i].platform);
        v.push(45);
        crate::text::append_bytes(&mut v, favorites[i].id.as_slice());
        proof {
            assert(v@ =~= fav_string(kv[i as int]));
        }
        let ghost prev = out@;
        out.push(v);
        i = i + 1;
        proof {
            assert(crate::model::seqs_view(prev) == fav_strings(kv.take(i - 1)));
            assert(crate::model::seqs_view(prev).len() == i - 1);
            assert(prev.len() == i - 1);
            assert(out@.len() == i as int);
            assert forall|t: int| 0 <= t < i implies crate::model::seqs_view(out@)[t]
                == fav_strings(kv.take(i as int))[t] by {
                if t < i - 1 {
                    assert(out@[t] == prev[t]);
                    assert(crate::model::seqs_view(prev)[t] == prev[t]@);
                }
            }
            assert(crate::model::seqs_view(out@) =~= fav_strings(kv.take(i as int)));
        }
    }
    proof {
        assert(kv.take(kv.len() as int) =~= kv);
    }
    out
}

/// Appends one pretty member head: line break, indent, key, colon, space.
fn encode_member_head(out: &mut Vec<u8>, key: Vec<u8>)
    ensures
        final(out)@ == old(out)@ + seq![10u8, 32u8, 32u8] + enc_string(key@) + seq![58u8, 32u8],
{
    out.push(10);
    out.push(32);
    out.push(32);
    encode_string_into(out, key.as_slice());
    out.push(58);
    out.push(32);
    proof {
        assert(out@ =~= old(out)@ + seq![10u8, 32u8, 32u8] + enc_string(key@) + seq![
            58u8,
            32u8,
        ]);
    }
}

/// Appends the first two pretty members: favorites and custom games.
fn encode_state_front(out: &mut Vec<u8>, st: &crate::model::OverlayState)
    ensures
        final(out)@ == old(out)@ + enc_state_member(
            crate::lit::spec_key_favorites(),
            enc_str_array(fav_strings(st@.favorites)),
        ) + seq![44u8] + enc_state_member(
            crate::lit::spec_key_custom_games(),
            enc_rec_array(st@.custom_games),
        ),
{
    encode_member_head(out, crate::lit::key_favorites());
    let fs = fav_strings_exec(&st.favorites);
    encode_str_array_into(out, &fs);
    out.push(44);
    encode_member_head(out, crate::lit::key_custom_games());
    encode_rec_array_into(out, &st.custom_games);
    proof {
        assert(out@ =~= old(out)@ + enc_state_member(
            crate::lit::spec_key_favorites(),
            enc_str_array(fav_strings(st@.favorites)),
        ) + seq![44u8] + enc_state_member(
            crate::lit::spec_key_custom_games(),
            enc_rec_array(st@.custom_games),
        ));
    }
}

/// Appends the last two pretty members and the closing line: drives, theme,
/// line break, brace.
fn encode_state_back(out: &mut Vec<u8>, st: &crate::model::OverlayState)
    ensures
        final(out)@ == old(out)@ + enc_state_member(
            crate::lit::spec_key_selected_drives(),
            enc_str_array(st@.selected_drives),
        ) + seq![44u8] + enc_state_member(crate::lit::spec_key_theme(), enc_theme(st@.theme))
            + seq![10u8, 125u8],
{
    encode_member_head(out, crate::lit::key_selected_drives());
    encode_str_array_into(out, &st.selected_drives);
    out.push(44);
    encode_member_head(out, crate::lit::key_theme());
    encode_theme_into(out, &st.theme);
    out.push(10);
    out.push(125);
    proof {
        assert(out@ =~= old(out)@ + enc_state_member(
            crate::lit::spec_key_selected_drives(),
            enc_str_array(st@.selected_drives),
        ) + seq![44u8] + enc_state_member(crate::lit::spec_key_theme(), enc_theme(st@.theme))
            + seq![10u8, 125u8]);
    }
}

/// The persisted bytes of the whole state: one complete overwrite, pretty —
/// each field on its own indented line.
pub fn encode_state(st: &crate::model::OverlayState) -> (r: Vec<u8>)
    ensures
        r@ == spec_encode_state(st@),
{
    let mut out: Vec<u8> = Vec::new();
    out.push(123);
    encode_state_front(&mut out, st);
    out.push(44);
    encode_state_back(&mut out, st);
    proof {
        assert(out@ =~= spec_encode_state(st@));
    }
    out
}

// ----- Executable decoding -----// ----- Executable decoding -----// ----- Executable decoding -----// ----- Executable decoding -----

/// The canonical position of a record key, `-1` for an unknown key.
fn rec_key_stage_exec(key: &[u8]) -> (t: i32)
    ensures
        t as int == rec_key_stage(key@),
{
    if crate::text::bytes_eq(key, crate::lit::key_id().as_slice()) {
        0
    } else if crate::text::bytes_eq(key, crate::lit::key_title().as_slice()) {
        1
    } else if crate::text::bytes_eq(key, crate::lit::key_platform().as_slice()) {
        2
    } else if crate::text::bytes_eq(key, crate::lit::key_image_path().as_slice()) {
        3
    } else if crate::text::bytes_eq(key, crate::lit::key_exe_path().as_slice()) {
        4
    } else if crate::text::bytes_eq(key, crate::lit::key_install_dir().as_slice()) {
        5
    } else {
        -1
    }
}

/// The canonical position of a theme key, `-1` for an unknown key.
fn theme_key_stage_exec(key: &[u8]) -> (t: i32)
    ensures
        t as int == theme_key_stage(key@),
{
    if crate::text::bytes_eq(key, crate::lit::key_accent().as_slice()) {
        0
    } else if crate::text::bytes_eq(key, crate::lit::key_bg_from().as_slice()) {
        1
    } else if crate::text::bytes_eq(key, crate::lit::key_bg_to().as_slice()) {
        2
    } else if crate::text::bytes_eq(key, crate::lit::key_card_bg().as_slice()) {
        3
    } else if crate::text::bytes_eq(key, crate::lit::key_text_primary().as_slice()) {
        4
    } else {
        -1
    }
}

/// The canonical position of a state key, `-1` for an unknown key.
fn state_key_stage_exec(key: &[u8]) -> (t: i32)
    ensures
        t as int == state_key_stage(key@),
{
    if crate::text::bytes_eq(key, crate::lit::key_favorites().as_slice()) {
        0
    } else if crate::text::bytes_eq(key, crate::lit::key_custom_games().as_slice()) {
        1
    } else if crate::text::bytes_eq(key, crate::lit::key_selected_drives().as_slice()) {
        2
    } else if crate::text::bytes_eq(key, crate::lit::key_theme().as_slice()) {
        3
    } else {
        -1
    }
}

/// Parses record members up to and including the closing brace.
fn parse_rec_members(s: &[u8], pos: usize, stage: i32, acc: crate::model::GameRecord) -> (r:
    Option<(crate::model::GameRecord, usize)>)
    requires
        0 <= stage,
    ensures
        match r {
            Some((g, e)) => sp_rec_members(s@, pos as int, stage as int, acc@) == Some(
                (g@, e as int),
            ),
            None => sp_rec_members(s@, pos as int, stage as int, acc@) is None,
        },
    decreases s@.len() - pos,
{
    match parse_string(s, pos) {
        None => None,
        Some((key, e1)) => {
            proof {
                lemma_sp_string_range(s@, pos as int);
            }
            let t = rec_key_stage_exec(key.as_slice());
            let c1 = skip_ws(s, e1);
            if t < stage {
                return None;
            }
            if c1 < s.len() && s[c1] == 58 {
                match parse_string(s, c1 + 1) {
                    None => None,
                    Some((val, e2)) => {
                        proof {
                            lemma_sp_string_range(s@, c1 + 1);
                        }
                        let mut acc2 = acc;
                        if t == 0 {
                            acc2.id = val;
                        } else if t == 1 {
                            acc2.title = val;
                        } else if t == 2 {
                            match platform_of_name_exec(val.as_slice()) {
                                Some(p) => {
                                    acc2.platform = p;
                                },
                                None => {
                                    return None;
                                },
                            }
                        } else if t == 3 {
                            acc2.image_path = val;
                        } else if t == 4 {
                            acc2.exe_path = val;
                        } else {
                            acc2.install_dir = val;
                        }
                        proof {
                            assert(rec_with(acc@, t as int, sp_string(s@, c1 + 1)->Some_0.0)
                                == Some(acc2@));
                        }
                        let c2 = skip_ws(s, e2);
                        if c2 < s.len() && s[c2] == 44 {
                            parse_rec_members(s, c2 + 1, t + 1, acc2)
                        } else if c2 < s.len() && s[c2] == 125 {
                            Some((acc2, c2 + 1))
                        } else {
                            None
                        }
                    },
                }
            } else {
                None
            }
        },
    }
}

/// The record before any member is read.
fn default_rec_exec() -> (g: crate::model::GameRecord)
    ensures
        g@ == default_rec(),
{
    crate::model::GameRecord {
        id: Vec::new(),
        title: Vec::new(),
        platform: Platform::Custom,
        image_path: Vec::new(),
        exe_path: Vec::new(),
        install_dir: Vec::new(),
        is_favorite: false,
    }
}

/// Parses one record object.
fn parse_record(s: &[u8], pos: usize) -> (r: Option<(crate::model::GameRecord, usize)>)
    ensures
        match r {
            Some((g, e)) => sp_record(s@, pos as int) == Some((g@, e as int)),
            None => sp_record(s@, pos as int) is None,
        },
{
    if pos >= s.len() {
        proof {
            assert(ws_end(s@, pos as int) >= pos);
        }
        return None;
    }
    let p = skip_ws(s, pos);
    if p >= s.len() {
        return None;
    }
    if s[p] != 123 {
        return None;
    }
    let q = skip_ws(s, p + 1);
    if q < s.len() && s[q] == 125 {
        return Some((default_rec_exec(), q + 1));
    }
    parse_rec_members(s, p + 1, 0, default_rec_exec())
}

/// Parses comma-separated records up to and including the closing bracket.
fn parse_rec_items(s: &[u8], pos: usize) -> (r: Option<(Vec<crate::model::GameRecord>, usize)>)
    ensures
        match r {
            Some((a, e)) => sp_rec_items(s@, pos as int) == Some(
                (crate::model::recs_view(a@), e as int),
            ),
            None => sp_rec_items(s@, pos as int) is None,
        },
    decreases s@.len() - pos,
{
    match parse_record(s, pos) {
        None => None,
        Some((g, e)) => {
            proof {
                lemma_sp_record_range(s@, pos as int);
            }
            let c = skip_ws(s, e);
            if c < s.len() && s[c] == 93 {
                let ghost gv = g@;
                let a: Vec<crate::model::GameRecord> = vec![g];
                proof {
                    assert(crate::model::recs_view(a@) =~= seq![gv]);
                }
                Some((a, c + 1))
            } else if c < s.len() && s[c] == 44 {
                match parse_rec_items(s, c + 1) {
                    None => None,
                    Some((rest, e2)) => {
                        let ghost gv = g@;
                        let ghost restv = crate::model::recs_view(rest@);
                        let mut a: Vec<crate::model::GameRecord> = rest;
                        a.insert(0, g);
                        proof {
                            assert(crate::model::recs_view(a@) =~= seq![gv] + restv);
                        }
                        Some((a, e2))
                    },
                }
            } else {
                None
            }
        },
    }
}

/// Parses a bracketed array of records.
fn parse_rec_array(s: &[u8], pos: usize) -> (r: Option<(Vec<crate::model::GameRecord>, usize)>)
    ensures
        match r {
            Some((a, e)) => sp_rec_array(s@, pos as int) == Some(
                (crate::model::recs_view(a@), e as int),
            ),
            None => sp_rec_array(s@, pos as int) is None,
        },
{
    if pos >= s.len() {
        proof {
            assert(ws_end(s@, pos as int) >= pos);
        }
        return None;
    }
    let p = skip_ws(s, pos);
    if p >= s.len() {
        return None;
    }
    if s[p] != 91 {
        return None;
    }
    let q = skip_ws(s, p + 1);
    if q < s.len() && s[q] == 93 {
        let a: Vec<crate::model::GameRecord> = Vec::new();
        proof {
            assert(crate::model::recs_view(a@) =~= Seq::<crate::model::RecV>::empty());
        }
        return Some((a, q + 1));
    }
    parse_rec_items(s, p + 1)
}

/// Parses theme members up to and including the closing brace.
fn parse_theme_members(s: &[u8], pos: usize, stage: i32, acc: crate::model::ThemeConfig) -> (r:
    Option<(crate::model::ThemeConfig, usize)>)
    requires
        0 <= stage,
    ensures
        match r {
            Some((th, e)) => sp_theme_members(s@, pos as int, stage as int, acc@) == Some(
                (th@, e as int),
            ),
            None => sp_theme_members(s@, pos as int, stage as int, acc@) is None,
        },
    decreases s@.len() - pos,
{
    match parse_string(s, pos) {
        None => None,
        Some((key, e1)) => {
            proof {
                lemma_sp_string_range(s@, pos as int);
            }
            let t = theme_key_stage_exec(key.as_slice());
            let c1 = skip_ws(s, e1);
            if t < stage {
                return None;
            }
            if c1 < s.len() && s[c1] == 58 {
                match parse_string(s, c1 + 1) {
                    None => None,
                    Some((val, e2)) => {
                        proof {
                            lemma_sp_string_range(s@, c1 + 1);
                        }
                        let mut acc2 = acc;
                        if t == 0 {
                            acc2.accent = val;
                        } else if t == 1 {
                            acc2.bg_from = val;
                        } else if t == 2 {
                            acc2.bg_to = val;
                        } else if t == 3 {
                            acc2.card_bg = val;
                        } else {
                            acc2.text_primary = val;
                        }
                        proof {
                            assert(theme_with(acc@, t as int, sp_string(s@, c1 + 1)->Some_0.0)
                                == Some(acc2@));
                        }
                        let c2 = skip_ws(s, e2);
                        if c2 < s.len() && s[c2] == 44 {
                            parse_theme_members(s, c2 + 1, t + 1, acc2)
                        } else if c2 < s.len() && s[c2] == 125 {
                            Some((acc2, c2 + 1))
                        } else {
                            None
                        }
                    },
                }
            } else {
                None
            }
        },
    }
}

/// Parses the theme object.
fn parse_theme(s: &[u8], pos: usize) -> (r: Option<(crate::model::ThemeConfig, usize)>)
    ensures
        match r {
            Some((th, e)) => sp_theme(s@, pos as int) == Some((th@, e as int)),
            None => sp_theme(s@, pos as int) is None,
        },
{
    if pos >= s.len() {
        proof {
            assert(ws_end(s@, pos as int) >= pos);
        }
        return None;
    }
    let p = skip_ws(s, pos);
    if p >= s.len() {
        return None;
    }
    if s[p] != 123 {
        return None;
    }
    let q = skip_ws(s, p + 1);
    if q < s.len() && s[q] == 125 {
        return Some((crate::model::ThemeConfig::default(), q + 1));
    }
    parse_theme_members(s, p + 1, 0, crate::model::ThemeConfig::default())
}

/// Tries one platform prefix against a persisted favorite string.
fn fav_key_try(v: &[u8], p: Platform) -> (r: Option<crate::model::GameKey>)
    ensures
        crate::text::is_prefix(platform_name(p) + seq![45u8], v@) ==> match r {
            Some(k) => k@ == (crate::model::KeyV {
                platform: p,
                id: v@.skip(platform_name(p).len() + 1 as int),
            }),
            None => false,
        },
        !crate::text::is_prefix(platform_name(p) + seq![45u8], v@) ==> r is None,
{
    let mut prefix = platform_name_exec(p);
    prefix.push(45);
    proof {
        assert(prefix@ =~= platform_name(p) + seq![45u8]);
    }
    if crate::text::starts_with_bytes(v, prefix.as_slice()) {
        let id = vstd::slice::slice_to_vec(
            vstd::slice::slice_subrange(v, prefix.len(), v.len()),
        );
        proof {
            assert(id@ =~= v@.skip(platform_name(p).len() + 1 as int));
        }
        Some(crate::model::GameKey { platform: p, id })
    } else {
        None
    }
}

/// The key a persisted favorite string stands for, if any.
fn key_of_fav_string_exec(v: &[u8]) -> (r: Option<crate::model::GameKey>)
    ensures
        match r {
            Some(k) => key_of_fav_string(v@) == Some(k@),
            None => key_of_fav_string(v@) is None,
        },
{
    match fav_key_try(v, Platform::Steam) {
        Some(k) => {
            return Some(k);
        },
        None => {},
    }
    match fav_key_try(v, Platform::Gog) {
        Some(k) => {
            return Some(k);
        },
        None => {},
    }
    match fav_key_try(v, Platform::Epic) {
        Some(k) => {
            return Some(k);
        },
        None => {},
    }
    match fav_key_try(v, Platform::Ea) {
        Some(k) => {
            return Some(k);
        },
        None => {},
    }
    match fav_key_try(v, Platform::Ubisoft) {
        Some(k) => {
            return Some(k);
        },
        None => {},
    }
    match fav_key_try(v, Platform::Custom) {
        Some(k) => {
            return Some(k);
        },
        None => {},
    }
    None
}

/// The keys of persisted favorite strings; any unreadable one refuses the
/// list.
fn keys_of_fav_strings_exec(a: &Vec<Vec<u8>>) -> (r: Option<Vec<crate::model::GameKey>>)
    ensures
        match r {
            Some(ks) => keys_of_fav_strings(crate::model::seqs_view(a@)) == Some(
                crate::model::keys_view(ks@),
            ),
            None => keys_of_fav_strings(crate::model::seqs_view(a@)) is None,
        },
{
    let ghost av = crate::model::seqs_view(a@);
    let mut out: Vec<crate::model::GameKey> = Vec::new();
    let mut i: usize = 0;
    proof {
        assert(av.skip(0) =~= av);
        assert(crate::model::keys_view(out@) =~= Seq::<crate::model::KeyV>::empty());
        if keys_of_fav_strings(av) is Some {
            assert(Seq::<crate::model::KeyV>::empty() + keys_of_fav_strings(av)->Some_0
                =~= keys_of_fav_strings(av)->Some_0);
        }
    }
    while i < a.len()
        invariant
            i <= a@.len(),
            av == crate::model::seqs_view(a@),
            keys_of_fav_strings(av) is Some <==> keys_of_fav_strings(av.skip(i as int)) is Some,
            keys_of_fav_strings(av) is Some ==> keys_of_fav_strings(av) == Some(
                crate::model::keys_view(out@) + keys_of_fav_strings(av.skip(i as int))->Some_0,
            ),
        decreases a@.len() - i,
    {
        proof {
            assert(av.skip(i as int)[0] == av[i as int]);
            assert(av.skip(i as int).drop_first() =~= av.skip(i + 1));
        }
        match key_of_fav_string_exec(a[i].as_slice()) {
            None => {
                proof {
                    assert(keys_of_fav_strings(av.skip(i as int)) is None);
                }
                return None;
            },
            Some(k) => {
                let ghost kv = k@;
                let ghost prev = out@;
                out.push(k);
                i = i + 1;
                proof {
                    assert(crate::model::keys_view(out@) =~= crate::model::keys_view(prev).push(
                        kv,
                    ));
                    if keys_of_fav_strings(av) is Some {
                        assert(crate::model::keys_view(prev).push(kv) + keys_of_fav_strings(
                            av.skip(i as int),
                        )->Some_0 =~= crate::model::keys_view(prev) + (seq![kv]
                            + keys_of_fav_strings(av.skip(i as int))->Some_0));
                    }
                }
            },
        }
    }
    proof {
        assert(av.skip(av.len() as int) =~= Seq::<Seq<u8>>::empty());
        if keys_of_fav_strings(av) is Some {
            assert(crate::model::keys_view(out@) + Seq::<crate::model::KeyV>::empty()
                =~= crate::model::keys_view(out@));
        }
    }
    Some(out)
}

// ----- The whole state, executably -----

/// Parses state members up to and including the closing brace.
fn parse_state_members(s: &[u8], pos: usize, stage: i32, acc: crate::model::OverlayState) -> (r:
    Option<(crate::model::OverlayState, usize)>)
    requires
        0 <= stage,
    ensures
        match r {
            Some((st, e)) => sp_state_members(s@, pos as int, stage as int, acc@) == Some(
                (st@, e as int),
            ),
            None => sp_state_members(s@, pos as int, stage as int, acc@) is None,
        },
    decreases s@.len() - pos,
{
    match parse_string(s, pos) {
        None => None,
        Some((key, e1)) => {
            proof {
                lemma_sp_string_range(s@, pos as int);
            }
            let t = state_key_stage_exec(key.as_slice());
            let c1 = skip_ws(s, e1);
            if t < stage {
                return None;
            }
            if c1 < s.len() && s[c1] == 58 {
                let mut acc2 = acc;
                let e2: usize;
                if t == 0 {
                    match parse_str_array(s, c1 + 1) {
                        None => {
                            return None;
                        },
                        Some((a, e)) => {
                            proof {
                                lemma_sp_str_array_range(s@, c1 + 1);
                            }
                            match keys_of_fav_strings_exec(&a) {
                                None => {
                                    return None;
                                },
                                Some(ks) => {
                                    acc2.favorites = ks;
                                    e2 = e;
                                },
                            }
                        },
                    }
                } else if t == 1 {
                    match parse_rec_array(s, c1 + 1) {
                        None => {
                            return None;
                        },
                        Some((a, e)) => {
                            proof {
                                lemma_sp_rec_array_range(s@, c1 + 1);
                            }
                            acc2.custom_games = a;
                            e2 = e;
                        },
                    }
                } else if t == 2 {
                    match parse_str_array(s, c1 + 1) {
                        None => {
                            return None;
                        },
                        Some((a, e)) => {
                            proof {
                                lemma_sp_str_array_range(s@, c1 + 1);
                            }
                            acc2.selected_drives = a;
                            e2 = e;
                        },
                    }
                } else {
                    match parse_theme(s, c1 + 1) {
                        None => {
                            return None;
                        },
                        Some((th, e)) => {
                            proof {
                                lemma_sp_theme_range(s@, c1 + 1);
                            }
                            acc2.theme = th;
                            e2 = e;
                        },
                    }
                }
                let c2 = skip_ws(s, e2);
                if c2 < s.len() && s[c2] == 44 {
                    parse_state_members(s, c2 + 1, t + 1, acc2)
                } else if c2 < s.len() && s[c2] == 125 {
                    Some((acc2, c2 + 1))
                } else {
                    None
                }
            } else {
                None
            }
        },
    }
}

/// Parses the state object.
fn parse_state(s: &[u8], pos: usize) -> (r: Option<(crate::model::OverlayState, usize)>)
    ensures
        match r {
            Some((st, e)) => sp_state(s@, pos as int) == Some((st@, e as int)),
            None => sp_state(s@, pos as int) is None,
        },
{
    if pos >= s.len() {
        proof {
            assert(ws_end(s@, pos as int) >= pos);
        }
        return None;
    }
    let p = skip_ws(s, pos);
    if p >= s.len() {
        return None;
    }
    if s[p] != 123 {
        return None;
    }
    let q = skip_ws(s, p + 1);
    if q < s.len() && s[q] == 125 {
        return Some((crate::model::OverlayState::default(), q + 1));
    }
    parse_state_members(s, p + 1, 0, crate::model::OverlayState::default())
}

/// Whether the custom entries keep the identifier invariant: all of the
/// `Custom` platform, none pre-marked favorite, identifiers pairwise
/// distinct.
fn customs_wf_exec(customs: &Vec<crate::model::GameRecord>) -> (r: bool)
    ensures
        r == crate::model::customs_wf(crate::model::recs_view(customs@)),
{
    let ghost cv = crate::model::recs_view(customs@);
    let mut i: usize = 0;
    while i < customs.len()
        invariant
            i <= customs@.len(),
            cv == crate::model::recs_view(customs@),
            forall|t: int|
                0 <= t < i ==> (#[trigger] cv[t]).platform == Platform::Custom
                    && cv[t].is_favorite == false,
            forall|a: int, b: int| 0 <= a < b < i ==> cv[a].id != cv[b].id,
        decreases customs@.len() - i,
    {
        if !(customs[i].platform == Platform::Custom) {
            return false;
        }
        if customs[i].is_favorite {
            return false;
        }
        let mut j: usize = 0;
        while j < i
            invariant
                j <= i < customs@.len(),
                cv == crate::model::recs_view(customs@),
                forall|t: int| 0 <= t < j ==> (#[trigger] cv[t]).id != cv[i as int].id,
            decreases i - j,
        {
            if crate::text::bytes_eq(customs[j].id.as_slice(), customs[i].id.as_slice()) {
                proof {
                    assert(cv[j as int].id == cv[i as int].id);
                }
                return false;
            }
            j = j + 1;
        }
        i = i + 1;
    }
    true
}

/// Keeps the first occurrence of each favorite key.
fn dedup_keys_exec(keys: Vec<crate::model::GameKey>) -> (r: Vec<crate::model::GameKey>)
    ensures
        crate::model::keys_view(r@) == spec_dedup_keys(crate::model::keys_view(keys@)),
{
    let ghost kv = crate::model::keys_view(keys@);
    let mut keys = keys;
    let mut out: Vec<crate::model::GameKey> = Vec::new();
    let mut i: usize = 0;
    let n = keys.len();
    while i < n
        invariant
            i <= n,
            n == keys@.len(),
            kv == crate::model::keys_view(keys@),
            crate::model::keys_view(out@) == spec_dedup_keys(kv.take(i as int)),
        decreases n - i,
    {
        let seen = crate::catalog::key_in_favorites(
            &out,
            keys[i].platform,
            keys[i].id.as_slice(),
        );
        proof {
            lemma_dedup_keys_props(kv.take(i as int));
            assert(kv.take(i + 1).drop_last() =~= kv.take(i as int));
            assert(kv.take(i + 1).last() == kv[i as int]);
            assert(kv[i as int] == keys@[i as int]@);
            assert(crate::model::fav_set(crate::model::keys_view(out@)).contains(kv[i as int])
                == crate::model::keys_view(out@).contains(kv[i as int]));
        }
        if !seen {
            let k = crate::model::GameKey {
                platform: keys[i].platform,
                id: vstd::slice::slice_to_vec(keys[i].id.as_slice()),
            };
            proof {
                assert(k@ == kv[i as int]);
            }
            let ghost prev = out@;
            out.push(k);
            proof {
                assert(crate::model::keys_view(out@) =~= crate::model::keys_view(prev).push(
                    kv[i as int],
                ));
            }
        }
        i = i + 1;
        proof {
            assert(crate::model::keys_view(out@) =~= spec_dedup_keys(kv.take(i as int)));
        }
    }
    proof {
        assert(kv.take(n as int) =~= kv);
    }
    out
}

/// Keeps the first occurrence of each drive prefix.
fn dedup_drives_exec(drives: Vec<Vec<u8>>) -> (r: Vec<Vec<u8>>)
    ensures
        crate::model::seqs_view(r@) == crate::store::spec_dedup_drives(
            crate::model::seqs_view(drives@),
        ),
{
    let ghost dv = crate::model::seqs_view(drives@);
    let mut drives = drives;
    let mut out: Vec<Vec<u8>> = Vec::new();
    let mut i: usize = 0;
    let n = drives.len();
    while i < n
        invariant
            i <= n,
            n == drives@.len(),
            dv == crate::model::seqs_view(drives@),
            crate::model::seqs_view(out@) == crate::store::spec_dedup_drives(dv.take(i as int)),
        decreases n - i,
    {
        let mut seen = false;
        let mut j: usize = 0;
        while j < out.len()
            invariant
                j <= out@.len(),
                dv == crate::model::seqs_view(drives@),
                i < dv.len(),
                crate::model::seqs_view(out@) == crate::store::spec_dedup_drives(
                    dv.take(i as int),
                ),
                seen ==> crate::model::seqs_view(out@).contains(dv[i as int]),
                !seen ==> forall|t: int|
                    0 <= t < j ==> #[trigger] crate::model::seqs_view(out@)[t] != dv[i as int],
            ensures
                dv == crate::model::seqs_view(drives@),
                crate::model::seqs_view(out@) == crate::store::spec_dedup_drives(
                    dv.take(i as int),
                ),
                seen == crate::model::seqs_view(out@).contains(dv[i as int]),
            decreases out@.len() - j,
        {
            if crate::text::bytes_eq(out[j].as_slice(), drives[i].as_slice()) {
                proof {
                    assert(crate::model::seqs_view(out@)[j as int] == dv[i as int]);
                }
                seen = true;
                break ;
            }
            j = j + 1;
        }
        proof {
            crate::store::lemma_dedup_drives_props(dv.take(i as int));
            assert(dv.take(i + 1).drop_last() =~= dv.take(i as int));
            assert(dv.take(i + 1).last() == dv[i as int]);
            if !seen {
                if crate::model::seqs_view(out@).contains(dv[i as int]) {
                    let w = choose|w: int|
                        0 <= w < crate::model::seqs_view(out@).len()
                            && crate::model::seqs_view(out@)[w] == dv[i as int];
                }
            }
        }
        if !seen {
            let d = vstd::slice::slice_to_vec(drives[i].as_slice());
            proof {
                assert(d@ == dv[i as int]);
            }
            let ghost prev = out@;
            out.push(d);
            proof {
                assert(crate::model::seqs_view(out@) =~= crate::model::seqs_view(prev).push(
                    dv[i as int],
                ));
            }
        }
        i = i + 1;
        proof {
            assert(crate::model::seqs_view(out@) =~= crate::store::spec_dedup_drives(
                dv.take(i as int),
            ));
        }
    }
    proof {
        assert(dv.take(n as int) =~= dv);
    }
    out
}

/// Loads a state from persisted bytes: the parsed state with favorites and
/// drives collapsed to sets, or a fresh default state on anything malformed.
/// The result is always well-formed.
pub fn decode_state(s: &[u8]) -> (st: crate::model::OverlayState)
    ensures
        st@ == spec_decode_state(s@),
        crate::model::state_wf(st@),
{
    match parse_state(s, 0) {
        None => crate::model::OverlayState::default(),
        Some((parsed, e)) => {
            proof {
                lemma_sp_state_range(s@, 0);
            }
            let t = skip_ws(s, e);
            if t == s.len() && customs_wf_exec(&parsed.custom_games) {
                let r = crate::model::OverlayState {
                    favorites: dedup_keys_exec(parsed.favorites),
                    custom_games: parsed.custom_games,
                    selected_drives: dedup_drives_exec(parsed.selected_drives),
                    theme: parsed.theme,
                };
                proof {
                    lemma_dedup_keys_props(crate::model::keys_view(parsed.favorites@));
                    crate::store::lemma_dedup_drives_props(
                        crate::model::seqs_view(parsed.selected_drives@),
                    );
                    assert(r@ =~= spec_decode_state(s@));
                }
                r
            } else {
                crate::model::OverlayState::default()
            }
        },
    }
}

} // verus!
