//! A compact binary encoding of a population that round-trips exactly.
//!
//! Numbers are little-endian base-256; strings are a length followed by one
//! code point per character; a trace component is a tag byte followed by
//! its fields.  Decoding inverts encoding: see [`lemma_pop_round_trip`].

use vstd::prelude::*;
use crate::kvmap::KvMap;
use crate::population::{Person, Population};
use crate::trace::{Activity, Component, Link, Trace};

verus! {

/// A character's code point.
pub open spec fn code_of(c: char) -> u32 {
    c as u32
}

/// Relies on `char::from_u32`: the inverse of `char as u32`, `None` exactly
/// when no character has the given code point.
#[verifier::external_body]
fn char_from_u32(i: u32) -> (r: Option<char>)
    ensures
        match r {
            Some(c) => c as u32 == i,
            None => forall|c: char| #[trigger] code_of(c) != i,
        },
{
    char::from_u32(i)
}

/// `v`'s lowest `n` bytes, little-endian.
pub open spec fn spec_enc_n(v: int, n: int) -> Seq<u8>
    decreases n,
{
    if n <= 0 {
        Seq::empty()
    } else {
        seq![(v % 256) as u8] + spec_enc_n(v / 256, n - 1)
    }
}

/// The number read from `n` little-endian bytes.
pub open spec fn spec_dec_n(s: Seq<u8>, n: int) -> int
    decreases n,
{
    if n <= 0 {
        0
    } else {
        s[0] + 256 * spec_dec_n(s.drop_first(), n - 1)
    }
}

/// Powers of 256.
pub open spec fn pow256(n: int) -> int
    decreases n,
{
    if n <= 0 {
        1
    } else {
        256 * pow256(n - 1)
    }
}

/// Decoding the encoding of `v` gives back `v` modulo `256^n`.
pub proof fn lemma_enc_dec_n(v: int, n: int)
    requires
        v >= 0,
        n >= 0,
    ensures
        spec_enc_n(v, n).len() == n,
        spec_dec_n(spec_enc_n(v, n), n) == v % pow256(n),
    decreases n,
{
    if n > 0 {
        lemma_enc_dec_n(v / 256, n - 1);
        let enc = spec_enc_n(v, n);
        assert(enc.drop_first() =~= spec_enc_n(v / 256, n - 1));
        assert(spec_dec_n(enc, n) == v % 256 + 256 * ((v / 256) % pow256(n - 1)));
        lemma_pow256_pos(n - 1);
        vstd::arithmetic::div_mod::lemma_breakdown(v, 256, pow256(n - 1));
    }
}

proof fn lemma_pow256_pos(n: int)
    ensures
        pow256(n) >= 1,
    decreases n,
{
    if n > 0 {
        lemma_pow256_pos(n - 1);
    }
}

/// Append the low `n` bytes of `v`, little-endian.
fn push_n(out: &mut Vec<u8>, v: u64, n: usize)
    requires
        n <= 8,
    ensures
        final(out)@ == old(out)@ + spec_enc_n(v as int, n as int),
{
    let mut x = v;
    let mut i: usize = 0;
    while i < n
        invariant
            i <= n <= 8,
            out@ == old(out)@ + spec_enc_n(v as int, i as int),
            x == v as int / pow256(i as int),
        decreases n - i,
    {
        proof {
            lemma_pow256_pos(i as int);
            assert(spec_enc_n(v as int, i + 1) =~= spec_enc_n(v as int, i as int) + seq![
                ((v as int / pow256(i as int)) % 256) as u8,
            ]) by {
                lemma_enc_snoc(v as int, i as int);
            }
            assert(v as int / pow256(i as int) / 256 == v as int / pow256(i + 1))
                by (nonlinear_arith)
                requires
                    pow256(i + 1) == 256 * pow256(i as int),
                    pow256(i as int) >= 1,
                    v as int >= 0,
            ;
        }
        out.push((x % 256) as u8);
        x = x / 256;
        i = i + 1;
    }
}

/// The last byte of an `n + 1`-byte encoding is the `n`-th digit.
proof fn lemma_enc_snoc(v: int, n: int)
    requires
        v >= 0,
        n >= 0,
    ensures
        spec_enc_n(v, n + 1) == spec_enc_n(v, n) + seq![((v / pow256(n)) % 256) as u8],
    decreases n,
{
    if n == 0 {
        assert(spec_enc_n(v / 256, 0) =~= Seq::<u8>::empty());
        assert(spec_enc_n(v, 1) =~= seq![(v % 256) as u8]);
        assert(spec_enc_n(v, 0) + seq![((v / pow256(0)) % 256) as u8] =~= seq![(v % 256) as u8]);
    } else {
        lemma_enc_snoc(v / 256, n - 1);
        lemma_pow256_pos(n - 1);
        assert(v / 256 / pow256(n - 1) == v / pow256(n)) by (nonlinear_arith)
            requires
                v >= 0,
                pow256(n) == 256 * pow256(n - 1),
                pow256(n - 1) >= 1,
        ;
        assert(spec_enc_n(v, n + 1) =~= spec_enc_n(v, n) + seq![((v / pow256(n)) % 256) as u8]);
    }
}

/// A string encoded as its length and one code point per character.
pub open spec fn spec_enc_str(s: Seq<char>) -> Seq<u8>
    decreases s.len(),
{
    if s.len() == 0 {
        spec_enc_n(0, 8)
    } else {
        spec_enc_n(s.len() as int, 8) + spec_enc_chars(s, 0)
    }
}

/// The code points of `s[from ..]`, four bytes each.
pub open spec fn spec_enc_chars(s: Seq<char>, from: int) -> Seq<u8>
    decreases s.len() - from,
{
    if from < 0 || from >= s.len() {
        Seq::empty()
    } else {
        spec_enc_n(s[from] as u32 as int, 4) + spec_enc_chars(s, from + 1)
    }
}

/// Append a string's encoding.
fn push_str_enc(out: &mut Vec<u8>, s: &String)
    ensures
        final(out)@ == old(out)@ + spec_enc_str(s@),
{
    let sl = s.as_str();
    let n = sl.unicode_len();
    push_n(out, n as u64, 8);
    let ghost mid = out@;
    proof {
        lemma_enc_chars_len(s@, 0);
        assert(spec_enc_chars(s@, 0).take(0) =~= Seq::<u8>::empty());
    }
    for i in 0..n
        invariant
            n == s@.len(),
            sl@ == s@,
            out@ == mid + spec_enc_chars(s@, 0).take(4 * i),
            spec_enc_chars(s@, 0).len() == 4 * n,
            mid == old(out)@ + spec_enc_n(s@.len() as int, 8),
    {
        let c = sl.get_char(i);
        let u: u32 = c as u32;
        proof {
            lemma_enc_chars_len(s@, 0);
            lemma_enc_chars_index(s@, 0, i as int);
        }
        push_n(out, u as u64, 4);
        proof {
            assert(out@ =~= mid + spec_enc_chars(s@, 0).take(4 * (i + 1)));
        }
    }
    proof {
        lemma_enc_chars_len(s@, 0);
        assert(spec_enc_chars(s@, 0).take(4 * n as int) =~= spec_enc_chars(s@, 0));
        if s@.len() == 0 {
            assert(out@ =~= old(out)@ + spec_enc_str(s@));
        } else {
            assert(out@ =~= old(out)@ + spec_enc_str(s@));
        }
    }
}

/// The character block is four bytes per character.
proof fn lemma_enc_chars_len(s: Seq<char>, from: int)
    requires
        0 <= from <= s.len(),
    ensures
        spec_enc_chars(s, from).len() == 4 * (s.len() - from),
    decreases s.len() - from,
{
    if from < s.len() {
        lemma_enc_chars_len(s, from + 1);
        assert(spec_enc_n(s[from] as u32 as int, 4).len() == 4) by {
            lemma_enc_dec_n(s[from] as u32 as int, 4);
        }
    }
}

/// The encoding of character `i` occupies bytes `4 i .. 4 i + 4`.
proof fn lemma_enc_chars_index(s: Seq<char>, from: int, i: int)
    requires
        0 <= from <= i < s.len(),
    ensures
        spec_enc_chars(s, from).take(4 * (i - from) + 4) == spec_enc_chars(s, from).take(
            4 * (i - from),
        ) + spec_enc_n(s[i] as u32 as int, 4),
    decreases i - from,
{
    lemma_enc_chars_len(s, from);
    lemma_enc_dec_n(s[from] as u32 as int, 4);
    if i == from {
        assert(spec_enc_chars(s, from).take(4) =~= spec_enc_n(s[from] as u32 as int, 4));
        assert(spec_enc_chars(s, from).take(0) =~= Seq::<u8>::empty());
        assert(spec_enc_chars(s, from).take(4) =~= spec_enc_chars(s, from).take(0) + spec_enc_n(
            s[i] as u32 as int,
            4,
        ));
    } else {
        lemma_enc_chars_index(s, from + 1, i);
        lemma_enc_chars_len(s, from + 1);
        assert(spec_enc_chars(s, from).take(4 * (i - from) + 4) =~= spec_enc_n(
            s[from] as u32 as int,
            4,
        ) + spec_enc_chars(s, from + 1).take(4 * (i - from - 1) + 4));
        assert(spec_enc_chars(s, from).take(4 * (i - from)) =~= spec_enc_n(
            s[from] as u32 as int,
            4,
        ) + spec_enc_chars(s, from + 1).take(4 * (i - from - 1)));
    }
}


/// The number read from `n` bytes at `p`; out-of-range bytes read as zero.
pub open spec fn sdec_n(b: Seq<u8>, p: int, n: int) -> int
    decreases n,
{
    if n <= 0 {
        0
    } else {
        (if 0 <= p < b.len() {
            b[p] as int
        } else {
            0
        }) + 256 * sdec_n(b, p + 1, n - 1)
    }
}

/// Reading back an encoding embedded at `p` gives the encoded value.
pub proof fn lemma_sdec_of_enc(b: Seq<u8>, p: int, v: int, n: int)
    requires
        0 <= v < pow256(n),
        n >= 0,
        0 <= p,
        p + n <= b.len(),
        b.subrange(p, p + n) == spec_enc_n(v, n),
    ensures
        sdec_n(b, p, n) == v,
    decreases n,
{
    if n > 0 {
        lemma_pow256_pos(n - 1);
        assert(b[p] == spec_enc_n(v, n)[0]);
        assert(b.subrange(p + 1, p + n) =~= spec_enc_n(v, n).drop_first());
        assert(spec_enc_n(v, n).drop_first() =~= spec_enc_n(v / 256, n - 1));
        assert(v / 256 < pow256(n - 1)) by (nonlinear_arith)
            requires
                0 <= v < 256 * pow256(n - 1),
                pow256(n) == 256 * pow256(n - 1),
                pow256(n - 1) >= 1,
        ;
        lemma_sdec_of_enc(b, p + 1, v / 256, n - 1);
        assert(v % 256 + 256 * (v / 256) == v) by (nonlinear_arith)
            requires
                v >= 0,
        ;
    }
}

/// The code points read from `cnt` four-byte blocks at `p`.
pub open spec fn sdec_codes(b: Seq<u8>, p: int, cnt: int) -> Seq<int>
    decreases cnt,
{
    if cnt <= 0 {
        Seq::empty()
    } else {
        seq![sdec_n(b, p, 4)] + sdec_codes(b, p + 4, cnt - 1)
    }
}

/// The code points of a string's characters.
pub open spec fn codes_of(s: Seq<char>) -> Seq<int> {
    s.map_values(|c: char| c as u32 as int)
}

/// The string read at `p`: a length, then that many code points.  Returns
/// the code points and the next position.
pub open spec fn sdec_str(b: Seq<u8>, p: int) -> Option<(Seq<int>, int)> {
    if p + 8 > b.len() {
        None
    } else {
        let cnt = sdec_n(b, p, 8);
        if p + 8 + 4 * cnt > b.len() {
            None
        } else {
            Some((sdec_codes(b, p + 8, cnt), p + 8 + 4 * cnt))
        }
    }
}

/// Character blocks read back their encoded code points.
proof fn lemma_sdec_chars_of_enc(b: Seq<u8>, p: int, s: Seq<char>, from: int)
    requires
        0 <= from <= s.len(),
        0 <= p,
        p + 4 * (s.len() - from) <= b.len(),
        b.subrange(p, p + 4 * (s.len() - from)) == spec_enc_chars(s, from),
    ensures
        sdec_codes(b, p, s.len() - from) == codes_of(s.skip(from)),
    decreases s.len() - from,
{
    lemma_enc_chars_len(s, from);
    if from < s.len() {
        lemma_enc_chars_len(s, from + 1);
        let u = s[from] as u32 as int;
        assert(b.subrange(p, p + 4) =~= spec_enc_n(u, 4)) by {
            assert forall|w: int| 0 <= w < 4 implies b.subrange(p, p + 4)[w] == spec_enc_n(
                u,
                4,
            )[w] by {
                assert(b[p + w] == spec_enc_chars(s, from)[w]);
            }
        }
        assert(u < pow256(4)) by {
            reveal_with_fuel(pow256, 5);
        }
        lemma_sdec_of_enc(b, p, u, 4);
        assert(b.subrange(p + 4, p + 4 + 4 * (s.len() - from - 1)) =~= spec_enc_chars(s, from + 1))
            by {
            assert forall|w: int|
                #![trigger spec_enc_chars(s, from + 1)[w]]
                0 <= w < 4 * (s.len() - from - 1) implies b.subrange(
                p + 4,
                p + 4 + 4 * (s.len() - from - 1),
            )[w] == spec_enc_chars(s, from + 1)[w] by {
                assert(b[p + 4 + w] == spec_enc_chars(s, from)[4 + w]);
            }
        }
        lemma_sdec_chars_of_enc(b, p + 4, s, from + 1);
        assert(sdec_codes(b, p, s.len() - from) =~= codes_of(s.skip(from))) by {
            assert(codes_of(s.skip(from + 1)) =~= codes_of(s.skip(from)).drop_first());
        }
    } else {
        assert(codes_of(s.skip(from)) =~= Seq::<int>::empty());
    }
}

/// A string encoding embedded at `p` reads back its characters.
pub proof fn lemma_sdec_str_of_enc(b: Seq<u8>, p: int, s: Seq<char>)
    requires
        s.len() < pow256(8),
        0 <= p,
        p + spec_enc_str(s).len() <= b.len(),
        b.subrange(p, p + spec_enc_str(s).len()) == spec_enc_str(s),
    ensures
        spec_enc_str(s).len() == 8 + 4 * s.len(),
        sdec_str(b, p) == Some((codes_of(s), p + spec_enc_str(s).len())),
{
    lemma_enc_chars_len(s, 0);
    lemma_enc_dec_n(s.len() as int, 8);
    let el = spec_enc_str(s).len() as int;
    if s.len() == 0 {
        assert(spec_enc_str(s) == spec_enc_n(0, 8));
        assert(b.subrange(p, p + 8) =~= spec_enc_n(0, 8));
        lemma_pow256_pos(8);
        lemma_sdec_of_enc(b, p, 0, 8);
        assert(codes_of(s) =~= Seq::<int>::empty());
    } else {
        assert(spec_enc_str(s) == spec_enc_n(s.len() as int, 8) + spec_enc_chars(s, 0));
        assert(el == 8 + 4 * s.len());
        assert(b.subrange(p, p + 8) =~= spec_enc_n(s.len() as int, 8)) by {
            assert forall|w: int| 0 <= w < 8 implies b.subrange(p, p + 8)[w] == spec_enc_n(
                s.len() as int,
                8,
            )[w] by {
                assert(b[p + w] == spec_enc_str(s)[w]);
            }
        }
        lemma_sdec_of_enc(b, p, s.len() as int, 8);
        assert(b.subrange(p + 8, p + 8 + 4 * s.len()) =~= spec_enc_chars(s, 0)) by {
            assert forall|w: int|
                #![trigger spec_enc_chars(s, 0)[w]]
                0 <= w < 4 * s.len() implies b.subrange(p + 8, p + 8 + 4 * s.len())[w]
                == spec_enc_chars(s, 0)[w] by {
                assert(b[p + 8 + w] == spec_enc_str(s)[8 + w]);
            }
        }
        lemma_sdec_chars_of_enc(b, p + 8, s, 0);
        assert(s.skip(0) =~= s);
        assert(codes_of(s.skip(0)) =~= codes_of(s));
    }
}


/// Carving an embedded encoding: a part of `e` sits in `b` at `p + off`.
proof fn lemma_carve(b: Seq<u8>, p: int, e: Seq<u8>, off: int, part: Seq<u8>)
    requires
        0 <= p,
        0 <= off,
        off + part.len() <= e.len(),
        p + e.len() <= b.len(),
        b.subrange(p, p + e.len()) == e,
        e.subrange(off, off + part.len()) == part,
    ensures
        b.subrange(p + off, p + off + part.len()) == part,
{
    assert(b.subrange(p + off, p + off + part.len()) =~= part) by {
        assert forall|w: int| 0 <= w < part.len() implies b.subrange(
            p + off,
            p + off + part.len(),
        )[w] == part[w] by {
            assert(b[p + off + w] == e[off + w]);
            assert(e[off + w] == e.subrange(off, off + part.len())[w]);
        }
    }
}

/// The view of a component for the round trip: a tag, the times, the name
/// or link id as code points, and the numeric fields as unsigned images.
pub open spec fn spec_view_comp(c: Component) -> (int, int, int, Seq<int>, int, int, int) {
    match c {
        Component::ActivityType(a) => (
            0,
            a.start_time as int,
            a.end_time as int,
            codes_of(a.act@),
            0,
            a.node.0 as u64 as int,
            a.node.1 as u64 as int,
        ),
        Component::LinkType(l) => (
            1,
            l.start_time as int,
            l.end_time as int,
            codes_of(l.lid@),
            l.distance as u64 as int,
            l.node.0 as u64 as int,
            l.node.1 as u64 as int,
        ),
    }
}

/// A component's encoding: a tag byte, the times, the text, and the
/// numeric fields.
pub open spec fn spec_enc_comp(c: Component) -> Seq<u8> {
    match c {
        Component::ActivityType(a) => seq![0u8] + spec_enc_n(a.start_time as int, 4) + spec_enc_n(
            a.end_time as int,
            4,
        ) + spec_enc_str(a.act@) + spec_enc_n(a.node.0 as u64 as int, 8) + spec_enc_n(
            a.node.1 as u64 as int,
            8,
        ),
        Component::LinkType(l) => seq![1u8] + spec_enc_n(l.start_time as int, 4) + spec_enc_n(
            l.end_time as int,
            4,
        ) + spec_enc_str(l.lid@) + spec_enc_n(l.distance as u64 as int, 8) + spec_enc_n(
            l.node.0 as u64 as int,
            8,
        ) + spec_enc_n(l.node.1 as u64 as int, 8),
    }
}

/// The component read at `p`.
pub open spec fn sdec_comp(b: Seq<u8>, p: int) -> Option<
    ((int, int, int, Seq<int>, int, int, int), int),
> {
    if p + 1 > b.len() {
        None
    } else {
        let tag = sdec_n(b, p, 1);
        if tag != 0 && tag != 1 {
            None
        } else {
            let start = sdec_n(b, p + 1, 4);
            let end = sdec_n(b, p + 5, 4);
            match sdec_str(b, p + 9) {
                None => None,
                Some((txt, q)) => if tag == 0 {
                    if q + 16 > b.len() {
                        None
                    } else {
                        Some(
                            (
                                (0, start, end, txt, 0, sdec_n(b, q, 8), sdec_n(b, q + 8, 8)),
                                q + 16,
                            ),
                        )
                    }
                } else {
                    if q + 24 > b.len() {
                        None
                    } else {
                        Some(
                            (
                                (
                                    1,
                                    start,
                                    end,
                                    txt,
                                    sdec_n(b, q, 8),
                                    sdec_n(b, q + 8, 8),
                                    sdec_n(b, q + 16, 8),
                                ),
                                q + 24,
                            ),
                        )
                    }
                },
            }
        }
    }
}

/// Reading a number embedded by carving.
proof fn lemma_read_field(b: Seq<u8>, p: int, e: Seq<u8>, off: int, v: int, n: int)
    requires
        0 <= v < pow256(n),
        0 <= n,
        0 <= p,
        0 <= off,
        off + n <= e.len(),
        p + e.len() <= b.len(),
        b.subrange(p, p + e.len()) == e,
        e.subrange(off, off + n) == spec_enc_n(v, n),
    ensures
        sdec_n(b, p + off, n) == v,
{
    lemma_carve(b, p, e, off, spec_enc_n(v, n));
    lemma_sdec_of_enc(b, p + off, v, n);
}

/// A component encoding embedded at `p` reads back its view.
proof fn lemma_sdec_comp_of_enc(b: Seq<u8>, p: int, c: Component)
    requires
        0 <= p,
        p + spec_enc_comp(c).len() <= b.len(),
        b.subrange(p, p + spec_enc_comp(c).len()) == spec_enc_comp(c),
        spec_text_len_ok(c),
    ensures
        sdec_comp(b, p) == Some((spec_view_comp(c), p + spec_enc_comp(c).len())),
{
    let e = spec_enc_comp(c);
    reveal_with_fuel(pow256, 9);
    match c {
        Component::ActivityType(a) => {
            lemma_enc_chars_len(a.act@, 0);
            lemma_enc_dec_n(a.start_time as int, 4);
            lemma_enc_dec_n(a.end_time as int, 4);
            lemma_enc_dec_n(a.node.0 as u64 as int, 8);
            lemma_enc_dec_n(a.node.1 as u64 as int, 8);
            let es = spec_enc_str(a.act@);
            let sl = es.len() as int;
            assert(e.subrange(0, 1) =~= seq![0u8]);
            assert(b.subrange(p, p + e.len() as int)[0] == e[0]);
            assert(b[p] == e[0]);
            assert(e[0] == 0u8);
            assert(sdec_n(b, p + 1, 0) == 0);
            assert(sdec_n(b, p, 1) == b[p]);
            assert(sdec_n(b, p, 1) == 0);
            assert(e.subrange(1, 5) =~= spec_enc_n(a.start_time as int, 4));
            lemma_read_field(b, p, e, 1, a.start_time as int, 4);
            assert(e.subrange(5, 9) =~= spec_enc_n(a.end_time as int, 4));
            lemma_read_field(b, p, e, 5, a.end_time as int, 4);
            assert(e.subrange(9, 9 + sl) =~= es);
            lemma_carve(b, p, e, 9, es);
            lemma_sdec_str_of_enc(b, p + 9, a.act@);
            assert(e.subrange(9 + sl, 17 + sl) =~= spec_enc_n(a.node.0 as u64 as int, 8));
            lemma_read_field(b, p, e, 9 + sl, a.node.0 as u64 as int, 8);
            assert(e.subrange(17 + sl, 25 + sl) =~= spec_enc_n(a.node.1 as u64 as int, 8));
            lemma_read_field(b, p, e, 17 + sl, a.node.1 as u64 as int, 8);
            assert(e.len() == 25 + sl);
        },
        Component::LinkType(l) => {
            lemma_enc_chars_len(l.lid@, 0);
            lemma_enc_dec_n(l.start_time as int, 4);
            lemma_enc_dec_n(l.end_time as int, 4);
            lemma_enc_dec_n(l.distance as u64 as int, 8);
            lemma_enc_dec_n(l.node.0 as u64 as int, 8);
            lemma_enc_dec_n(l.node.1 as u64 as int, 8);
            let es = spec_enc_str(l.lid@);
            let sl = es.len() as int;
            assert(e.subrange(0, 1) =~= seq![1u8]);
            assert(b.subrange(p, p + e.len() as int)[0] == e[0]);
            assert(b[p] == e[0]);
            assert(e[0] == 1u8);
            assert(sdec_n(b, p + 1, 0) == 0);
            assert(sdec_n(b, p, 1) == b[p]);
            assert(sdec_n(b, p, 1) == 1);
            assert(e.subrange(1, 5) =~= spec_enc_n(l.start_time as int, 4));
            lemma_read_field(b, p, e, 1, l.start_time as int, 4);
            assert(e.subrange(5, 9) =~= spec_enc_n(l.end_time as int, 4));
            lemma_read_field(b, p, e, 5, l.end_time as int, 4);
            assert(e.subrange(9, 9 + sl) =~= es);
            lemma_carve(b, p, e, 9, es);
            lemma_sdec_str_of_enc(b, p + 9, l.lid@);
            assert(e.subrange(9 + sl, 17 + sl) =~= spec_enc_n(l.distance as u64 as int, 8));
            lemma_read_field(b, p, e, 9 + sl, l.distance as u64 as int, 8);
            assert(e.subrange(17 + sl, 25 + sl) =~= spec_enc_n(l.node.0 as u64 as int, 8));
            lemma_read_field(b, p, e, 17 + sl, l.node.0 as u64 as int, 8);
            assert(e.subrange(25 + sl, 33 + sl) =~= spec_enc_n(l.node.1 as u64 as int, 8));
            lemma_read_field(b, p, e, 25 + sl, l.node.1 as u64 as int, 8);
            assert(e.len() == 33 + sl);
        },
    }
}

/// The component's text is short enough to frame.
pub open spec fn spec_text_len_ok(c: Component) -> bool {
    match c {
        Component::ActivityType(a) => a.act@.len() < pow256(8),
        Component::LinkType(l) => l.lid@.len() < pow256(8),
    }
}


/// The attribute entries of `entries[from ..]`, each a key and a value.
pub open spec fn spec_enc_attrs(entries: Seq<(String, String)>, from: int) -> Seq<u8>
    decreases entries.len() - from,
{
    if from < 0 || from >= entries.len() {
        Seq::empty()
    } else {
        spec_enc_str(entries[from].0@) + spec_enc_str(entries[from].1@) + spec_enc_attrs(
            entries,
            from + 1,
        )
    }
}

/// The components of `plan[from ..]`.
pub open spec fn spec_enc_plan(plan: Seq<Component>, from: int) -> Seq<u8>
    decreases plan.len() - from,
{
    if from < 0 || from >= plan.len() {
        Seq::empty()
    } else {
        spec_enc_comp(plan[from]) + spec_enc_plan(plan, from + 1)
    }
}

/// One person: the attribute count and entries, then the plan count and
/// components.
pub open spec fn spec_enc_person(per: Person) -> Seq<u8> {
    spec_enc_n(per.attributes.entries@.len() as int, 8) + spec_enc_attrs(
        per.attributes.entries@,
        0,
    ) + spec_enc_n(per.trace.plan@.len() as int, 8) + spec_enc_plan(per.trace.plan@, 0)
}

/// The people of `people[from ..]`, each an id and a person.
pub open spec fn spec_enc_people(people: Seq<(String, Person)>, from: int) -> Seq<u8>
    decreases people.len() - from,
{
    if from < 0 || from >= people.len() {
        Seq::empty()
    } else {
        spec_enc_str(people[from].0@) + spec_enc_person(people[from].1) + spec_enc_people(
            people,
            from + 1,
        )
    }
}

/// The whole population: a count, then the people.
pub open spec fn spec_enc_pop(p: Population) -> Seq<u8> {
    spec_enc_n(p.people@.len() as int, 8) + spec_enc_people(p.people@, 0)
}

/// The views that decoding recovers.
pub open spec fn spec_view_attrs(entries: Seq<(String, String)>) -> Seq<(Seq<int>, Seq<int>)> {
    entries.map_values(|e: (String, String)| (codes_of(e.0@), codes_of(e.1@)))
}

pub open spec fn spec_view_person(per: Person) -> (
    Seq<(Seq<int>, Seq<int>)>,
    Seq<(int, int, int, Seq<int>, int, int, int)>,
) {
    (
        spec_view_attrs(per.attributes.entries@),
        per.trace.plan@.map_values(|c: Component| spec_view_comp(c)),
    )
}

pub open spec fn spec_view_pop(p: Population) -> Seq<
    (
        Seq<int>,
        (Seq<(Seq<int>, Seq<int>)>, Seq<(int, int, int, Seq<int>, int, int, int)>),
    ),
> {
    p.people@.map_values(|e: (String, Person)| (codes_of(e.0@), spec_view_person(e.1)))
}

/// All framed lengths fit in their eight-byte counts.
pub open spec fn spec_person_len_ok(per: Person) -> bool {
    &&& per.attributes.entries@.len() < pow256(8)
    &&& per.trace.plan@.len() < pow256(8)
    &&& (forall|i: int|
        0 <= i < per.attributes.entries@.len() ==> (#[trigger] per.attributes.entries@[i]).0@.len()
            < pow256(8) && per.attributes.entries@[i].1@.len() < pow256(8))
    &&& (forall|i: int|
        0 <= i < per.trace.plan@.len() ==> spec_text_len_ok(#[trigger] per.trace.plan@[i]))
}

pub open spec fn spec_pop_len_ok(p: Population) -> bool {
    &&& p.people@.len() < pow256(8)
    &&& (forall|i: int|
        0 <= i < p.people@.len() ==> (#[trigger] p.people@[i]).0@.len() < pow256(8)
            && spec_person_len_ok(p.people@[i].1))
}

/// The attribute entries read at `p`.
pub open spec fn sdec_attrs(b: Seq<u8>, p: int, cnt: int) -> Option<
    (Seq<(Seq<int>, Seq<int>)>, int),
>
    decreases cnt,
{
    if cnt <= 0 {
        Some((Seq::empty(), p))
    } else {
        match sdec_str(b, p) {
            None => None,
            Some((k, q)) => match sdec_str(b, q) {
                None => None,
                Some((v, q2)) => match sdec_attrs(b, q2, cnt - 1) {
                    None => None,
                    Some((rest, q3)) => Some((seq![(k, v)] + rest, q3)),
                },
            },
        }
    }
}

/// The components read at `p`.
pub open spec fn sdec_plan(b: Seq<u8>, p: int, cnt: int) -> Option<
    (Seq<(int, int, int, Seq<int>, int, int, int)>, int),
>
    decreases cnt,
{
    if cnt <= 0 {
        Some((Seq::empty(), p))
    } else {
        match sdec_comp(b, p) {
            None => None,
            Some((c, q)) => match sdec_plan(b, q, cnt - 1) {
                None => None,
                Some((rest, q2)) => Some((seq![c] + rest, q2)),
            },
        }
    }
}

/// The person read at `p`.
pub open spec fn sdec_person(b: Seq<u8>, p: int) -> Option<
    ((Seq<(Seq<int>, Seq<int>)>, Seq<(int, int, int, Seq<int>, int, int, int)>), int),
> {
    if p + 8 > b.len() {
        None
    } else {
        match sdec_attrs(b, p + 8, sdec_n(b, p, 8)) {
            None => None,
            Some((attrs, q)) => if q + 8 > b.len() {
                None
            } else {
                match sdec_plan(b, q + 8, sdec_n(b, q, 8)) {
                    None => None,
                    Some((plan, q2)) => Some(((attrs, plan), q2)),
                }
            },
        }
    }
}

/// The people read at `p`.
pub open spec fn sdec_people(b: Seq<u8>, p: int, cnt: int) -> Option<
    (
        Seq<
            (
                Seq<int>,
                (Seq<(Seq<int>, Seq<int>)>, Seq<(int, int, int, Seq<int>, int, int, int)>),
            ),
        >,
        int,
    ),
>
    decreases cnt,
{
    if cnt <= 0 {
        Some((Seq::empty(), p))
    } else {
        match sdec_str(b, p) {
            None => None,
            Some((pid, q)) => match sdec_person(b, q) {
                None => None,
                Some((per, q2)) => match sdec_people(b, q2, cnt - 1) {
                    None => None,
                    Some((rest, q3)) => Some((seq![(pid, per)] + rest, q3)),
                },
            },
        }
    }
}

/// The population read at the start of the buffer.
pub open spec fn sdec_pop(b: Seq<u8>) -> Option<
    (
        Seq<
            (
                Seq<int>,
                (Seq<(Seq<int>, Seq<int>)>, Seq<(int, int, int, Seq<int>, int, int, int)>),
            ),
        >,
        int,
    ),
> {
    if 8 > b.len() {
        None
    } else {
        sdec_people(b, 8, sdec_n(b, 0, 8))
    }
}


/// Attribute encodings read back their entries.
proof fn lemma_sdec_attrs_of_enc(b: Seq<u8>, p: int, entries: Seq<(String, String)>, from: int)
    requires
        0 <= from <= entries.len(),
        0 <= p,
        p + spec_enc_attrs(entries, from).len() <= b.len(),
        b.subrange(p, p + spec_enc_attrs(entries, from).len()) == spec_enc_attrs(entries, from),
        forall|i: int|
            0 <= i < entries.len() ==> (#[trigger] entries[i]).0@.len() < pow256(8)
                && entries[i].1@.len() < pow256(8),
    ensures
        sdec_attrs(b, p, entries.len() - from) == Some(
            (spec_view_attrs(entries.skip(from)), p + spec_enc_attrs(entries, from).len()),
        ),
    decreases entries.len() - from,
{
    let e = spec_enc_attrs(entries, from);
    if from < entries.len() {
        let ek = spec_enc_str(entries[from].0@);
        let ev = spec_enc_str(entries[from].1@);
        let rest = spec_enc_attrs(entries, from + 1);
        assert(e == ek + ev + rest);
        assert(e.subrange(0, ek.len() as int) =~= ek);
        lemma_carve(b, p, e, 0, ek);
        lemma_sdec_str_of_enc(b, p, entries[from].0@);
        assert(e.subrange(ek.len() as int, (ek.len() + ev.len()) as int) =~= ev);
        lemma_carve(b, p, e, ek.len() as int, ev);
        lemma_sdec_str_of_enc(b, p + ek.len(), entries[from].1@);
        assert(e.subrange((ek.len() + ev.len()) as int, e.len() as int) =~= rest);
        lemma_carve(b, p, e, (ek.len() + ev.len()) as int, rest);
        lemma_sdec_attrs_of_enc(b, p + ek.len() + ev.len(), entries, from + 1);
        assert(spec_view_attrs(entries.skip(from)) =~= seq![
            (codes_of(entries[from].0@), codes_of(entries[from].1@)),
        ] + spec_view_attrs(entries.skip(from + 1))) by {
            assert(entries.skip(from).drop_first() =~= entries.skip(from + 1));
        }
    } else {
        assert(spec_view_attrs(entries.skip(from)) =~= Seq::<(Seq<int>, Seq<int>)>::empty());
    }
}

/// Plan encodings read back their components.
proof fn lemma_sdec_plan_of_enc(b: Seq<u8>, p: int, plan: Seq<Component>, from: int)
    requires
        0 <= from <= plan.len(),
        0 <= p,
        p + spec_enc_plan(plan, from).len() <= b.len(),
        b.subrange(p, p + spec_enc_plan(plan, from).len()) == spec_enc_plan(plan, from),
        forall|i: int| 0 <= i < plan.len() ==> spec_text_len_ok(#[trigger] plan[i]),
    ensures
        sdec_plan(b, p, plan.len() - from) == Some(
            (
                plan.skip(from).map_values(|c: Component| spec_view_comp(c)),
                p + spec_enc_plan(plan, from).len(),
            ),
        ),
    decreases plan.len() - from,
{
    let e = spec_enc_plan(plan, from);
    if from < plan.len() {
        let ec = spec_enc_comp(plan[from]);
        let rest = spec_enc_plan(plan, from + 1);
        assert(e == ec + rest);
        assert(e.subrange(0, ec.len() as int) =~= ec);
        lemma_carve(b, p, e, 0, ec);
        lemma_sdec_comp_of_enc(b, p, plan[from]);
        assert(e.subrange(ec.len() as int, e.len() as int) =~= rest);
        lemma_carve(b, p, e, ec.len() as int, rest);
        lemma_sdec_plan_of_enc(b, p + ec.len(), plan, from + 1);
        assert(plan.skip(from).map_values(|c: Component| spec_view_comp(c)) =~= seq![
            spec_view_comp(plan[from]),
        ] + plan.skip(from + 1).map_values(|c: Component| spec_view_comp(c))) by {
            assert(plan.skip(from).drop_first() =~= plan.skip(from + 1));
        }
    } else {
        assert(plan.skip(from).map_values(|c: Component| spec_view_comp(c)) =~= Seq::<
            (int, int, int, Seq<int>, int, int, int),
        >::empty());
    }
}

/// A person's encoding reads back the person's view.
proof fn lemma_sdec_person_of_enc(b: Seq<u8>, p: int, per: Person)
    requires
        0 <= p,
        p + spec_enc_person(per).len() <= b.len(),
        b.subrange(p, p + spec_enc_person(per).len()) == spec_enc_person(per),
        spec_person_len_ok(per),
    ensures
        sdec_person(b, p) == Some((spec_view_person(per), p + spec_enc_person(per).len())),
{
    let e = spec_enc_person(per);
    let na = per.attributes.entries@.len() as int;
    let np = per.trace.plan@.len() as int;
    let ea = spec_enc_attrs(per.attributes.entries@, 0);
    let ep = spec_enc_plan(per.trace.plan@, 0);
    lemma_enc_dec_n(na, 8);
    lemma_enc_dec_n(np, 8);
    assert(e == spec_enc_n(na, 8) + ea + spec_enc_n(np, 8) + ep);
    assert(e.subrange(0, 8) =~= spec_enc_n(na, 8));
    lemma_read_field(b, p, e, 0, na, 8);
    assert(e.subrange(8, (8 + ea.len()) as int) =~= ea);
    lemma_carve(b, p, e, 8, ea);
    lemma_sdec_attrs_of_enc(b, p + 8, per.attributes.entries@, 0);
    assert(per.attributes.entries@.skip(0) =~= per.attributes.entries@);
    let q = p + 8 + ea.len();
    assert(e.subrange((8 + ea.len()) as int, (16 + ea.len()) as int) =~= spec_enc_n(np, 8));
    lemma_read_field(b, p, e, (8 + ea.len()) as int, np, 8);
    assert(e.subrange((16 + ea.len()) as int, e.len() as int) =~= ep);
    lemma_carve(b, p, e, (16 + ea.len()) as int, ep);
    lemma_sdec_plan_of_enc(b, q + 8, per.trace.plan@, 0);
    assert(per.trace.plan@.skip(0) =~= per.trace.plan@);
}

/// People encodings read back their entries.
proof fn lemma_sdec_people_of_enc(b: Seq<u8>, p: int, people: Seq<(String, Person)>, from: int)
    requires
        0 <= from <= people.len(),
        0 <= p,
        p + spec_enc_people(people, from).len() <= b.len(),
        b.subrange(p, p + spec_enc_people(people, from).len()) == spec_enc_people(people, from),
        forall|i: int|
            0 <= i < people.len() ==> (#[trigger] people[i]).0@.len() < pow256(8)
                && spec_person_len_ok(people[i].1),
    ensures
        sdec_people(b, p, people.len() - from) == Some(
            (
                people.skip(from).map_values(
                    |e: (String, Person)| (codes_of(e.0@), spec_view_person(e.1)),
                ),
                p + spec_enc_people(people, from).len(),
            ),
        ),
    decreases people.len() - from,
{
    let e = spec_enc_people(people, from);
    let f = |en: (String, Person)| (codes_of(en.0@), spec_view_person(en.1));
    if from < people.len() {
        let es = spec_enc_str(people[from].0@);
        let eper = spec_enc_person(people[from].1);
        let rest = spec_enc_people(people, from + 1);
        assert(e == es + eper + rest);
        assert(e.subrange(0, es.len() as int) =~= es);
        lemma_carve(b, p, e, 0, es);
        lemma_sdec_str_of_enc(b, p, people[from].0@);
        assert(e.subrange(es.len() as int, (es.len() + eper.len()) as int) =~= eper);
        lemma_carve(b, p, e, es.len() as int, eper);
        lemma_sdec_person_of_enc(b, p + es.len(), people[from].1);
        assert(e.subrange((es.len() + eper.len()) as int, e.len() as int) =~= rest);
        lemma_carve(b, p, e, (es.len() + eper.len()) as int, rest);
        lemma_sdec_people_of_enc(b, p + es.len() + eper.len(), people, from + 1);
        assert(people.skip(from).map_values(f) =~= seq![f(people[from])] + people.skip(
            from + 1,
        ).map_values(f)) by {
            assert(people.skip(from).drop_first() =~= people.skip(from + 1));
        }
    } else {
        assert(people.skip(from).map_values(f) =~= Seq::<
            (
                Seq<int>,
                (Seq<(Seq<int>, Seq<int>)>, Seq<(int, int, int, Seq<int>, int, int, int)>),
            ),
        >::empty());
    }
}

/// Serialising and then deserialising a population gives back every person
/// id, attribute, and trace component.
pub proof fn lemma_pop_round_trip(p: Population)
    requires
        spec_pop_len_ok(p),
    ensures
        sdec_pop(spec_enc_pop(p)) == Some(
            (spec_view_pop(p), spec_enc_pop(p).len() as int),
        ),
{
    let b = spec_enc_pop(p);
    let n = p.people@.len() as int;
    let ep = spec_enc_people(p.people@, 0);
    lemma_enc_dec_n(n, 8);
    assert(b == spec_enc_n(n, 8) + ep);
    assert(b.subrange(0, b.len() as int) =~= b);
    assert(b.subrange(0, 8) =~= spec_enc_n(n, 8));
    lemma_read_field(b, 0, b, 0, n, 8);
    assert(b.subrange(8, b.len() as int) =~= ep);
    lemma_carve(b, 0, b, 8, ep);
    lemma_sdec_people_of_enc(b, 8, p.people@, 0);
    assert(p.people@.skip(0) =~= p.people@);
}


/// Relies on `String::push`: appends exactly the one character.
#[verifier::external_body]
fn push_char(s: &mut String, c: char)
    ensures
        final(s)@ == old(s)@.push(c),
{
    s.push(c);
}

/// Serialise a population to the compact binary form.
pub fn serialise(p: &Population) -> (r: Vec<u8>)
    ensures
        r@ == spec_enc_pop(*p),
{
    let mut out: Vec<u8> = Vec::new();
    let n = p.people.len();
    push_n(&mut out, n as u64, 8);
    let ghost pre = out@;
    for i in 0..n
        invariant
            n == p.people@.len(),
            pre == spec_enc_n(p.people@.len() as int, 8),
            out@ + spec_enc_people(p.people@, i as int) == pre + spec_enc_people(p.people@, 0),
    {
        let ghost before = out@;
        push_str_enc(&mut out, &p.people[i].0);
        push_person(&mut out, &p.people[i].1);
        proof {
            assert(out@ =~= before + spec_enc_str(p.people@[i as int].0@) + spec_enc_person(
                p.people@[i as int].1,
            ));
            assert(spec_enc_people(p.people@, i as int) =~= spec_enc_str(p.people@[i as int].0@)
                + spec_enc_person(p.people@[i as int].1) + spec_enc_people(p.people@, i + 1));
            assert(out@ + spec_enc_people(p.people@, i + 1) =~= before + spec_enc_people(
                p.people@,
                i as int,
            ));
        }
    }
    proof {
        assert(spec_enc_people(p.people@, n as int) =~= Seq::<u8>::empty());
        assert(out@ + Seq::<u8>::empty() =~= out@);
        assert(out@ =~= spec_enc_pop(*p));
    }
    out
}

/// Append one person's encoding.
fn push_person(out: &mut Vec<u8>, per: &Person)
    ensures
        final(out)@ == old(out)@ + spec_enc_person(*per),
{
    let na = per.attributes.entries.len();
    push_n(out, na as u64, 8);
    let ghost p1 = out@;
    for i in 0..na
        invariant
            na == per.attributes.entries@.len(),
            p1 == old(out)@ + spec_enc_n(per.attributes.entries@.len() as int, 8),
            out@ + spec_enc_attrs(per.attributes.entries@, i as int) == p1 + spec_enc_attrs(
                per.attributes.entries@,
                0,
            ),
    {
        let ghost before = out@;
        push_str_enc(out, &per.attributes.entries[i].0);
        push_str_enc(out, &per.attributes.entries[i].1);
        proof {
            let entries = per.attributes.entries@;
            assert(out@ =~= before + spec_enc_str(entries[i as int].0@) + spec_enc_str(
                entries[i as int].1@,
            ));
            assert(spec_enc_attrs(entries, i as int) =~= spec_enc_str(entries[i as int].0@)
                + spec_enc_str(entries[i as int].1@) + spec_enc_attrs(entries, i + 1));
            assert(out@ + spec_enc_attrs(entries, i + 1) =~= before + spec_enc_attrs(
                entries,
                i as int,
            ));
        }
    }
    let np = per.trace.plan.len();
    push_n(out, np as u64, 8);
    let ghost p2 = out@;
    for i in 0..np
        invariant
            np == per.trace.plan@.len(),
            p2 == old(out)@ + spec_enc_n(per.attributes.entries@.len() as int, 8) + spec_enc_attrs(
                per.attributes.entries@,
                0,
            ) + spec_enc_n(per.trace.plan@.len() as int, 8),
            out@ + spec_enc_plan(per.trace.plan@, i as int) == p2 + spec_enc_plan(
                per.trace.plan@,
                0,
            ),
    {
        let ghost before = out@;
        push_comp(out, &per.trace.plan[i]);
        proof {
            let plan = per.trace.plan@;
            assert(spec_enc_plan(plan, i as int) =~= spec_enc_comp(plan[i as int]) + spec_enc_plan(
                plan,
                i + 1,
            ));
            assert(out@ + spec_enc_plan(plan, i + 1) =~= before + spec_enc_plan(plan, i as int));
        }
    }
    proof {
        assert(spec_enc_attrs(per.attributes.entries@, na as int) =~= Seq::<u8>::empty());
        assert(spec_enc_plan(per.trace.plan@, np as int) =~= Seq::<u8>::empty());
        assert(out@ =~= old(out)@ + spec_enc_person(*per));
    }
}

/// Append one component's encoding.
fn push_comp(out: &mut Vec<u8>, c: &Component)
    ensures
        final(out)@ == old(out)@ + spec_enc_comp(*c),
{
    match c {
        Component::ActivityType(a) => {
            out.push(0u8);
            push_n(out, a.start_time as u64, 4);
            push_n(out, a.end_time as u64, 4);
            push_str_enc(out, &a.act);
            push_n(out, a.node.0 as u64, 8);
            push_n(out, a.node.1 as u64, 8);
            proof {
                assert(out@ =~= old(out)@ + spec_enc_comp(*c));
            }
        },
        Component::LinkType(l) => {
            out.push(1u8);
            push_n(out, l.start_time as u64, 4);
            push_n(out, l.end_time as u64, 4);
            push_str_enc(out, &l.lid);
            push_n(out, l.distance as u64, 8);
            push_n(out, l.node.0 as u64, 8);
            push_n(out, l.node.1 as u64, 8);
            proof {
                assert(out@ =~= old(out)@ + spec_enc_comp(*c));
            }
        },
    }
}


/// Read `n` little-endian bytes at `p`.
fn read_n(b: &Vec<u8>, p: usize, n: usize) -> (r: Option<(u64, usize)>)
    requires
        n <= 8,
    ensures
        match r {
            Some((v, q)) => p + n <= b@.len() && v as int == sdec_n(b@, p as int, n as int) && q
                == p + n,
            None => p + n > b@.len(),
        },
{
    if p > b.len() || n > b.len() - p {
        return None;
    }
    let total = b.len();
    let mut v: u64 = 0;
    let mut k = n;
    while k > 0
        invariant
            k <= n <= 8,
            p + n <= b@.len(),
            total == b@.len(),
            v < pow256((n - k) as int),
            v as int == sdec_n(b@, p + k, (n - k) as int),
        decreases k,
    {
        k = k - 1;
        proof {
            reveal_with_fuel(pow256, 9);
            assert(b@[(p + k) as int] as int + 256 * (v as int) < 256 * pow256((n - k - 1) as int))
                by (nonlinear_arith)
                requires
                    (b@[(p + k) as int] as int) < 256,
                    0 <= v as int,
                    (v as int) < pow256((n - k - 1) as int),
            ;
        }
        v = v * 256 + b[p + k] as u64;
    }
    Some((v, p + n))
}

/// Read a string at `p`.
fn read_str(b: &Vec<u8>, p: usize) -> (r: Option<(String, usize)>)
    ensures
        match r {
            Some((s, q)) => sdec_str(b@, p as int) matches Some((codes, q2)) && codes_of(s@)
                == codes && q == q2 && s@.len() <= usize::MAX,
            None => !(sdec_str(b@, p as int) matches Some((codes, _)) && spec_text_ok(codes)),
        },
{
    let (cnt, mut q) = match read_n(b, p, 8) {
        Some(v) => v,
        None => {
            return None;
        },
    };
    if cnt > (usize::MAX as u64) {
        proof {
            if p + 8 + 4 * sdec_n(b@, p as int, 8) <= b@.len() {
                lemma_sdec_codes_len(b@, p as int + 8, cnt as int);
            }
        }
        return None;
    }
    let cnt = cnt as usize;
    if cnt > (b.len() - q) / 4 {
        proof {
            let rem = b@.len() - q;
            assert(4 * ((rem as int) / 4) <= rem as int) by (nonlinear_arith)
                requires
                    rem >= 0,
            ;
            assert(4 * cnt as int >= 4 * ((rem as int) / 4) + 4) by (nonlinear_arith)
                requires
                    cnt as int >= (rem as int) / 4 + 1,
            ;
        }
        return None;
    }
    let mut s = String::new();
    let ghost codes = sdec_codes(b@, p + 8, cnt as int);
    proof {
        lemma_sdec_codes_len(b@, p as int + 8, cnt as int);
        assert(codes_of(s@) =~= codes.take(0));
    }
    for i in 0..cnt
        invariant
            p + 8 + 4 * cnt <= b@.len(),
            q == p + 8 + 4 * i,
            cnt as int == sdec_n(b@, p as int, 8),
            codes == sdec_codes(b@, p as int + 8, cnt as int),
            codes.len() == cnt,
            codes_of(s@) == codes.take(i as int),
    {
        let (u, q2) = match read_n(b, q, 4) {
            Some(v) => v,
            None => {
                proof {
                    assert(false);
                }
                return None;
            },
        };
        proof {
            reveal_with_fuel(pow256, 9);
            lemma_sdec_codes_index(b@, p as int + 8, cnt as int, i as int);
            lemma_sdec_n_bound(b@, q as int, 4);
        }
        let c = match char_from_u32(u as u32) {
            Some(c) => c,
            None => {
                proof {
                    assert(codes[i as int] == u as int);
                    assert(!schar_ok(codes[i as int])) by {
                        if schar_ok(codes[i as int]) {
                            let cw = choose|cw: char| (code_of(cw)) as int == codes[i as int];
                            assert(code_of(cw) != u as u32);
                        }
                    }
                    assert(sdec_str(b@, p as int) == Some((codes, p as int + 8 + 4 * cnt)));
                    assert(!spec_codes_ok(codes));
                }
                return None;
            },
        };
        push_char(&mut s, c);
        q = q2;
        proof {
            assert(codes_of(s@) =~= codes.take(i + 1)) by {
                assert(codes_of(s@).drop_last() =~= codes.take(i as int));
                assert(codes[i as int] == u as int);
            }
        }
    }
    proof {
        assert(codes.take(cnt as int) =~= codes);
    }
    Some((s, q))
}

/// A code block has one code per character.
proof fn lemma_sdec_codes_len(b: Seq<u8>, p: int, cnt: int)
    requires
        cnt >= 0,
    ensures
        sdec_codes(b, p, cnt).len() == cnt,
    decreases cnt,
{
    if cnt > 0 {
        lemma_sdec_codes_len(b, p + 4, cnt - 1);
    }
}

/// The `i`-th code is read four bytes further along.
proof fn lemma_sdec_codes_index(b: Seq<u8>, p: int, cnt: int, i: int)
    requires
        0 <= i < cnt,
    ensures
        sdec_codes(b, p, cnt)[i] == sdec_n(b, p + 4 * i, 4),
    decreases i,
{
    lemma_sdec_codes_len(b, p, cnt);
    if i > 0 {
        lemma_sdec_codes_index(b, p + 4, cnt - 1, i - 1);
    }
}

/// A read of `n` bytes is below `256^n`.
proof fn lemma_sdec_n_bound(b: Seq<u8>, p: int, n: int)
    requires
        n >= 0,
    ensures
        0 <= sdec_n(b, p, n) < pow256(n),
    decreases n,
{
    if n > 0 {
        lemma_sdec_n_bound(b, p + 1, n - 1);
        lemma_pow256_pos(n - 1);
        assert(sdec_n(b, p, n) < 256 * pow256(n - 1)) by (nonlinear_arith)
            requires
                sdec_n(b, p, n) == (if 0 <= p < b.len() {
                    b[p] as int
                } else {
                    0
                }) + 256 * sdec_n(b, p + 1, n - 1),
                0 <= sdec_n(b, p + 1, n - 1) < pow256(n - 1),
                (if 0 <= p < b.len() {
                    b[p] as int
                } else {
                    0
                }) < 256,
                (if 0 <= p < b.len() {
                    b[p] as int
                } else {
                    0
                }) >= 0,
        ;
    }
}


/// Read one component at `p`.
fn read_comp(b: &Vec<u8>, p: usize) -> (r: Option<(Component, usize)>)
    ensures
        match r {
            Some((c, q)) => sdec_comp(b@, p as int) matches Some((v, q2)) && spec_view_comp(c)
                == v && q == q2 && (match c {
                Component::ActivityType(a) => a.act@.len() <= usize::MAX,
                Component::LinkType(l) => l.lid@.len() <= usize::MAX,
            }),
            None => !(sdec_comp(b@, p as int) matches Some((v, _)) && spec_text_ok(v.3)),
        },
{
    let (tag, q0) = match read_n(b, p, 1) {
        Some(v) => v,
        None => {
            return None;
        },
    };
    if tag != 0 && tag != 1 {
        return None;
    }
    let (start, q1) = match read_n(b, q0, 4) {
        Some(v) => v,
        None => {
            proof {
                assert(p + 17 > b@.len());
            }
            return None;
        },
    };
    let (end, q2) = match read_n(b, q1, 4) {
        Some(v) => v,
        None => {
            proof {
                assert(p + 17 > b@.len());
            }
            return None;
        },
    };
    let (txt, q3) = match read_str(b, q2) {
        Some(v) => v,
        None => {
            proof {
                match sdec_str(b@, p as int + 9) {
                    None => {},
                    Some((codes, _)) => {
                        assert(!spec_text_ok(codes));
                    },
                }
            }
            return None;
        },
    };
    proof {
        lemma_sdec_n_bound(b@, p as int + 1, 4);
        lemma_sdec_n_bound(b@, p as int + 5, 4);
        reveal_with_fuel(pow256, 9);
    }
    if tag == 0 {
        let (x, q4) = match read_n(b, q3, 8) {
            Some(v) => v,
            None => {
                return None;
            },
        };
        let (y, q5) = match read_n(b, q4, 8) {
            Some(v) => v,
            None => {
                return None;
            },
        };
        let c = Component::ActivityType(
            Activity {
                start_time: start as u32,
                end_time: end as u32,
                act: txt,
                node: (x as i64, y as i64),
            },
        );
        proof {
            assert(x as i64 as u64 == x) by (bit_vector);
            assert(y as i64 as u64 == y) by (bit_vector);
        }
        Some((c, q5))
    } else {
        let (dist, q4) = match read_n(b, q3, 8) {
            Some(v) => v,
            None => {
                return None;
            },
        };
        let (x, q5) = match read_n(b, q4, 8) {
            Some(v) => v,
            None => {
                return None;
            },
        };
        let (y, q6) = match read_n(b, q5, 8) {
            Some(v) => v,
            None => {
                return None;
            },
        };
        let c = Component::LinkType(
            Link {
                start_time: start as u32,
                end_time: end as u32,
                lid: txt,
                distance: dist as i64,
                node: (x as i64, y as i64),
            },
        );
        proof {
            assert(dist as i64 as u64 == dist) by (bit_vector);
            assert(x as i64 as u64 == x) by (bit_vector);
            assert(y as i64 as u64 == y) by (bit_vector);
        }
        Some((c, q6))
    }
}

/// Read one person at `p`.
fn read_person(b: &Vec<u8>, p: usize) -> (r: Option<(Person, usize)>)
    ensures
        match r {
            Some((per, q)) => sdec_person(b@, p as int) matches Some((v, q2))
                && spec_view_person(per) == v && q == q2,
            None => !(sdec_person(b@, p as int) matches Some((v, _)) && spec_person_view_ok(v)),
        },
{
    let (na, mut q) = match read_n(b, p, 8) {
        Some(v) => v,
        None => {
            return None;
        },
    };
    if na > (usize::MAX as u64) {
        proof {
            lemma_sdec_attrs_count(b@, p as int + 8, na as int);
        }
        return None;
    }
    let na = na as usize;
    let mut entries: Vec<(String, String)> = Vec::new();
    let ghost b0 = b@;
    proof {
        assert(spec_view_attrs(entries@) =~= Seq::<(Seq<int>, Seq<int>)>::empty());
    }
    for i in 0..na
        invariant
            b@ == b0,
            na as int == sdec_n(b0, p as int, 8),
            p + 8 <= b0.len(),
            forall|w: int|
                0 <= w < entries@.len() ==> (#[trigger] entries@[w]).0@.len() <= usize::MAX
                    && entries@[w].1@.len() <= usize::MAX,
            sdec_attrs(b0, (p + 8) as int, na as int) == (match sdec_attrs(
                b0,
                q as int,
                (na - i) as int,
            ) {
                Some((rest, qf)) => Some((spec_view_attrs(entries@) + rest, qf)),
                None => None,
            }),
    {
        let ghost before = entries@;
        let (k, q2) = match read_str(b, q) {
            Some(v) => v,
            None => {
                proof {
                    match sdec_str(b0, q as int) {
                        None => {},
                        Some((kc, qk)) => {
                            assert(!spec_text_ok(kc));
                        },
                    }
                    lemma_person_fails_on_attr(b0, p as int, q as int, na as int, i as int, entries@);
                }
                return None;
            },
        };
        let (v, q3) = match read_str(b, q2) {
            Some(v) => v,
            None => {
                proof {
                    assert(sdec_str(b0, q as int) == Some((codes_of(k@), q2 as int)));
                    match sdec_str(b0, q2 as int) {
                        None => {},
                        Some((vc, qv)) => {
                            assert(!spec_text_ok(vc));
                        },
                    }
                    lemma_person_fails_on_attr(b0, p as int, q as int, na as int, i as int, entries@);
                }
                return None;
            },
        };
        let ghost gk = k@;
        let ghost gv = v@;
        entries.push((k, v));
        q = q3;
        proof {
            assert(spec_view_attrs(entries@) =~= spec_view_attrs(before) + seq![
                (codes_of(gk), codes_of(gv)),
            ]);
            match sdec_attrs(b0, q as int, (na - i - 1) as int) {
                Some((rest, qf)) => {
                    assert(spec_view_attrs(before) + (seq![(codes_of(gk), codes_of(gv))] + rest)
                        =~= spec_view_attrs(entries@) + rest);
                },
                None => {},
            }
        }
    }
    let (np, mut q2) = match read_n(b, q, 8) {
        Some(v) => (v.0, v.1),
        None => {
            return None;
        },
    };
    if np > (usize::MAX as u64) {
        proof {
            lemma_sdec_plan_count(b0, q as int + 8, np as int);
            lemma_sdec_attrs_count(b0, p as int + 8, na as int);
        }
        return None;
    }
    let np = np as usize;
    let ghost qplan = q2;
    let mut plan: Vec<Component> = Vec::new();
    proof {
        assert(plan@.map_values(|c: Component| spec_view_comp(c)) =~= Seq::<
            (int, int, int, Seq<int>, int, int, int),
        >::empty());
        assert(sdec_attrs(b0, q as int, 0) == Some(
            (Seq::<(Seq<int>, Seq<int>)>::empty(), q as int),
        ));
        assert(spec_view_attrs(entries@) + Seq::<(Seq<int>, Seq<int>)>::empty() =~= spec_view_attrs(
            entries@,
        ));
    }
    for i in 0..np
        invariant
            b@ == b0,
            na as int == sdec_n(b0, p as int, 8),
            np as int == sdec_n(b0, q as int, 8),
            p + 8 <= b0.len(),
            q + 8 <= b0.len(),
            qplan == q + 8,
            sdec_attrs(b0, (p + 8) as int, na as int) == Some(
                (spec_view_attrs(entries@), q as int),
            ),
            forall|w: int|
                0 <= w < entries@.len() ==> (#[trigger] entries@[w]).0@.len() <= usize::MAX
                    && entries@[w].1@.len() <= usize::MAX,
            forall|w: int|
                0 <= w < plan@.len() ==> (match #[trigger] plan@[w] {
                    Component::ActivityType(a) => a.act@.len() <= usize::MAX,
                    Component::LinkType(l) => l.lid@.len() <= usize::MAX,
                }),
            sdec_plan(b0, qplan as int, np as int) == (match sdec_plan(
                b0,
                q2 as int,
                (np - i) as int,
            ) {
                Some((rest, qf)) => Some(
                    (plan@.map_values(|c: Component| spec_view_comp(c)) + rest, qf),
                ),
                None => None,
            }),
    {
        let ghost before = plan@;
        let (c, q3) = match read_comp(b, q2) {
            Some(v) => v,
            None => {
                proof {
                    match sdec_comp(b0, q2 as int) {
                        None => {},
                        Some((cv, qc)) => {
                            assert(!spec_text_ok(cv.3));
                        },
                    }
                    lemma_person_fails_on_comp(
                        b0,
                        p as int,
                        q as int,
                        q2 as int,
                        na as int,
                        np as int,
                        i as int,
                        entries@,
                        plan@,
                    );
                }
                return None;
            },
        };
        let ghost gc = c;
        plan.push(c);
        q2 = q3;
        proof {
            let fv = |cc: Component| spec_view_comp(cc);
            assert(plan@.map_values(fv) =~= before.map_values(fv) + seq![spec_view_comp(gc)]);
            match sdec_plan(b0, q2 as int, (np - i - 1) as int) {
                Some((rest, qf)) => {
                    assert(before.map_values(fv) + (seq![spec_view_comp(gc)] + rest)
                        =~= plan@.map_values(fv) + rest);
                },
                None => {},
            }
        }
    }
    proof {
        let fv = |cc: Component| spec_view_comp(cc);
        assert(plan@.map_values(fv) + Seq::<(int, int, int, Seq<int>, int, int, int)>::empty()
            =~= plan@.map_values(fv));
    }
    Some(
        (
            Person { attributes: KvMap { entries }, trace: Trace { plan } },
            q2,
        ),
    )
}


/// Whether some character has the code point `u`.
pub open spec fn schar_ok(u: int) -> bool {
    exists|c: char| (#[trigger] code_of(c)) as int == u
}

/// Every code names a character.
pub open spec fn spec_codes_ok(codes: Seq<int>) -> bool {
    forall|i: int| 0 <= i < codes.len() ==> schar_ok(#[trigger] codes[i])
}

/// A decoded text is representable: in-memory length and valid characters.
pub open spec fn spec_text_ok(codes: Seq<int>) -> bool {
    codes.len() <= usize::MAX && spec_codes_ok(codes)
}

/// A decoded person is representable.
pub open spec fn spec_person_view_ok(
    v: (Seq<(Seq<int>, Seq<int>)>, Seq<(int, int, int, Seq<int>, int, int, int)>),
) -> bool {
    &&& v.0.len() <= usize::MAX
    &&& v.1.len() <= usize::MAX
    &&& (forall|i: int|
        0 <= i < v.0.len() ==> spec_text_ok((#[trigger] v.0[i]).0) && spec_text_ok(v.0[i].1))
    &&& (forall|i: int| 0 <= i < v.1.len() ==> spec_text_ok((#[trigger] v.1[i]).3))
}

/// A decoded population is representable.
pub open spec fn spec_pop_view_ok(
    v: Seq<
        (
            Seq<int>,
            (Seq<(Seq<int>, Seq<int>)>, Seq<(int, int, int, Seq<int>, int, int, int)>),
        ),
    >,
) -> bool {
    &&& v.len() <= usize::MAX
    &&& (forall|i: int|
        0 <= i < v.len() ==> spec_text_ok((#[trigger] v[i]).0) && spec_person_view_ok(v[i].1))
}

/// A decoded attribute block has one entry per count.
proof fn lemma_sdec_attrs_count(b: Seq<u8>, p: int, cnt: int)
    requires
        cnt >= 0,
    ensures
        sdec_attrs(b, p, cnt) matches Some((v, _)) ==> v.len() == cnt,
    decreases cnt,
{
    if cnt > 0 {
        match sdec_str(b, p) {
            None => {},
            Some((k, q)) => {
                match sdec_str(b, q) {
                    None => {},
                    Some((vv, q2)) => {
                        lemma_sdec_attrs_count(b, q2, cnt - 1);
                    },
                }
            },
        }
    }
}

/// A decoded plan has one component per count.
proof fn lemma_sdec_plan_count(b: Seq<u8>, p: int, cnt: int)
    requires
        cnt >= 0,
    ensures
        sdec_plan(b, p, cnt) matches Some((v, _)) ==> v.len() == cnt,
    decreases cnt,
{
    if cnt > 0 {
        match sdec_comp(b, p) {
            None => {},
            Some((c, q)) => {
                lemma_sdec_plan_count(b, q, cnt - 1);
            },
        }
    }
}

/// A decoded people block has one entry per count.
proof fn lemma_sdec_people_count(b: Seq<u8>, p: int, cnt: int)
    requires
        cnt >= 0,
    ensures
        sdec_people(b, p, cnt) matches Some((v, _)) ==> v.len() == cnt,
    decreases cnt,
{
    if cnt > 0 {
        match sdec_str(b, p) {
            None => {},
            Some((pid, q)) => {
                match sdec_person(b, q) {
                    None => {},
                    Some((per, q2)) => {
                        lemma_sdec_people_count(b, q2, cnt - 1);
                    },
                }
            },
        }
    }
}

/// The views of a real population are representable, so its encoding
/// decodes: every string length fits in memory and every character's code
/// names that character.
pub proof fn lemma_pop_views_ok(p: Population)
    requires
        p.wf(),
        p.attrs_wf(),
        p.people@.len() <= usize::MAX,
        forall|i: int|
            0 <= i < p.people@.len() ==> {
                let e = #[trigger] p.people@[i];
                &&& e.0@.len() <= usize::MAX
                &&& e.1.attributes.entries@.len() <= usize::MAX
                &&& e.1.trace.plan@.len() <= usize::MAX
                &&& (forall|w: int|
                    0 <= w < e.1.attributes.entries@.len() ==> (
                    #[trigger] e.1.attributes.entries@[w]).0@.len() <= usize::MAX
                        && e.1.attributes.entries@[w].1@.len() <= usize::MAX)
                &&& (forall|w: int|
                    0 <= w < e.1.trace.plan@.len() ==> (match #[trigger] e.1.trace.plan@[w] {
                        Component::ActivityType(a) => a.act@.len() <= usize::MAX,
                        Component::LinkType(l) => l.lid@.len() <= usize::MAX,
                    }))
            },
    ensures
        spec_pop_view_ok(spec_view_pop(p)),
        spec_view_sorted(spec_view_pop(p)),
        spec_view_attrs_unique(spec_view_pop(p)),
{
    let v = spec_view_pop(p);
    assert forall|i: int|
        0 <= i < v.len() - 1 implies lex_lt_codes((#[trigger] v[i]).0, v[i + 1].0) by {
        assert(v[i].0 == codes_of(p.people@[i].0@));
        assert(v[i + 1].0 == codes_of(p.people@[i + 1].0@));
        lemma_lex_codes_agree(p.people@[i].0@, p.people@[i + 1].0@);
    }
    assert forall|i: int|
        0 <= i < v.len() implies spec_attr_keys_unique((#[trigger] v[i]).1.0) by {
        let entries = p.people@[i].1.attributes.entries@;
        assert(v[i].1 == spec_view_person(p.people@[i].1));
        assert forall|a: int, b: int|
            #![trigger v[i].1.0[a], v[i].1.0[b]]
            0 <= a < b < v[i].1.0.len() implies v[i].1.0[a].0 != v[i].1.0[b].0 by {
            assert(v[i].1.0[a].0 == codes_of(entries[a].0@));
            assert(v[i].1.0[b].0 == codes_of(entries[b].0@));
            assert(p.people@[i].1.attributes.wf());
            assert(entries[a].0@ != entries[b].0@);
            if codes_of(entries[a].0@) == codes_of(entries[b].0@) {
                lemma_codes_of_injective(entries[a].0@, entries[b].0@);
            }
        }
    }
    assert forall|i: int|
        0 <= i < spec_view_pop(p).len() implies spec_text_ok(
        (#[trigger] spec_view_pop(p)[i]).0,
    ) && spec_person_view_ok(spec_view_pop(p)[i].1) by {
        let e = p.people@[i];
        lemma_codes_of_ok(e.0@);
        let pv = spec_view_person(e.1);
        assert forall|w: int|
            0 <= w < pv.0.len() implies spec_text_ok((#[trigger] pv.0[w]).0) && spec_text_ok(
            pv.0[w].1,
        ) by {
            assert(pv.0[w] == (
                codes_of(e.1.attributes.entries@[w].0@),
                codes_of(e.1.attributes.entries@[w].1@),
            ));
            lemma_codes_of_ok(e.1.attributes.entries@[w].0@);
            lemma_codes_of_ok(e.1.attributes.entries@[w].1@);
        }
        assert forall|w: int|
            0 <= w < pv.1.len() implies spec_text_ok((#[trigger] pv.1[w]).3) by {
            assert(pv.1[w] == spec_view_comp(e.1.trace.plan@[w]));
            match e.1.trace.plan@[w] {
                Component::ActivityType(a) => {
                    lemma_codes_of_ok(a.act@);
                },
                Component::LinkType(l) => {
                    lemma_codes_of_ok(l.lid@);
                },
            }
        }
    }
}

/// Codes taken from characters always name characters.
proof fn lemma_codes_of_ok(s: Seq<char>)
    requires
        s.len() <= usize::MAX,
    ensures
        spec_text_ok(codes_of(s)),
{
    assert forall|i: int| 0 <= i < codes_of(s).len() implies schar_ok(
        #[trigger] codes_of(s)[i],
    ) by {
        assert(codes_of(s)[i] == s[i] as u32 as int);
        assert((code_of(s[i])) as int == s[i] as u32 as int);
    }
}


/// A failing attribute entry sinks the whole person: either the block does
/// not decode, or the decoded person carries an unrepresentable text.
proof fn lemma_person_fails_on_attr(
    b: Seq<u8>,
    p: int,
    q: int,
    na: int,
    i: int,
    entries: Seq<(String, String)>,
)
    requires
        0 <= i < na,
        0 <= p,
        p + 8 <= b.len(),
        na == sdec_n(b, p, 8),
        sdec_attrs(b, p + 8, na) == (match sdec_attrs(b, q, na - i) {
            Some((rest, qf)) => Some((spec_view_attrs(entries) + rest, qf)),
            None => None,
        }),
        match sdec_attrs(b, q, na - i) {
            None => true,
            Some((rest, _)) => rest.len() > 0 && (!spec_text_ok(rest[0].0) || !spec_text_ok(
                rest[0].1,
            )),
        },
    ensures
        !(sdec_person(b, p) matches Some((v, _)) && spec_person_view_ok(v)),
{
    match sdec_attrs(b, q, na - i) {
        None => {},
        Some((rest, qf)) => {
            match sdec_person(b, p) {
                None => {},
                Some((v, _)) => {
                    assert(v.0 == spec_view_attrs(entries) + rest);
                    let w = spec_view_attrs(entries).len() as int;
                    assert(v.0[w] == rest[0]);
                },
            }
        },
    }
}

/// A failing component sinks the whole person likewise.
proof fn lemma_person_fails_on_comp(
    b: Seq<u8>,
    p: int,
    q: int,
    q2: int,
    na: int,
    np: int,
    i: int,
    entries: Seq<(String, String)>,
    plan: Seq<Component>,
)
    requires
        0 <= i < np,
        0 <= p,
        p + 8 <= b.len(),
        q + 8 <= b.len(),
        na == sdec_n(b, p, 8),
        np == sdec_n(b, q, 8),
        sdec_attrs(b, p + 8, na) == Some((spec_view_attrs(entries), q)),
        sdec_plan(b, q + 8, np) == (match sdec_plan(b, q2, np - i) {
            Some((rest, qf)) => Some(
                (plan.map_values(|c: Component| spec_view_comp(c)) + rest, qf),
            ),
            None => None,
        }),
        match sdec_plan(b, q2, np - i) {
            None => true,
            Some((rest, _)) => rest.len() > 0 && !spec_text_ok(rest[0].3),
        },
    ensures
        !(sdec_person(b, p) matches Some((v, _)) && spec_person_view_ok(v)),
{
    match sdec_plan(b, q2, np - i) {
        None => {},
        Some((rest, qf)) => {
            match sdec_person(b, p) {
                None => {},
                Some((v, _)) => {
                    assert(v.1 == plan.map_values(|c: Component| spec_view_comp(c)) + rest);
                    let w = plan.map_values(|c: Component| spec_view_comp(c)).len() as int;
                    assert(v.1[w] == rest[0]);
                },
            }
        },
    }
}


/// A failing person sinks the whole population.
proof fn lemma_pop_fails_on_person(
    b: Seq<u8>,
    q: int,
    n: int,
    i: int,
    done: Seq<
        (
            Seq<int>,
            (Seq<(Seq<int>, Seq<int>)>, Seq<(int, int, int, Seq<int>, int, int, int)>),
        ),
    >,
)
    requires
        0 <= i < n,
        8 <= b.len(),
        n == sdec_n(b, 0, 8),
        sdec_people(b, 8, n) == (match sdec_people(b, q, n - i) {
            Some((rest, qf)) => Some((done + rest, qf)),
            None => None,
        }),
        match sdec_people(b, q, n - i) {
            None => true,
            Some((rest, _)) => rest.len() > 0 && (!spec_text_ok(rest[0].0)
                || !spec_person_view_ok(rest[0].1)),
        },
    ensures
        !(sdec_pop(b) matches Some((v, _)) && spec_pop_view_ok(v)),
{
    match sdec_people(b, q, n - i) {
        None => {},
        Some((rest, qf)) => {
            match sdec_pop(b) {
                None => {},
                Some((v, _)) => {
                    assert(v == done + rest);
                    let w = done.len() as int;
                    assert(v[w] == rest[0]);
                },
            }
        },
    }
}


/// Strict lexicographic order on code sequences; it agrees with the order
/// on the characters they spell.
pub open spec fn lex_lt_codes(a: Seq<int>, b: Seq<int>) -> bool
    decreases a.len(),
{
    if b.len() == 0 {
        false
    } else if a.len() == 0 {
        true
    } else if a[0] < b[0] {
        true
    } else if a[0] > b[0] {
        false
    } else {
        lex_lt_codes(a.drop_first(), b.drop_first())
    }
}

/// The code-level order is the character-level order.
pub proof fn lemma_lex_codes_agree(a: Seq<char>, b: Seq<char>)
    ensures
        lex_lt_codes(codes_of(a), codes_of(b)) == crate::population::lex_lt(a, b),
    decreases a.len(),
{
    if b.len() == 0 {
    } else if a.len() == 0 {
    } else {
        lemma_lex_codes_agree(a.drop_first(), b.drop_first());
        assert(codes_of(a).drop_first() =~= codes_of(a.drop_first()));
        assert(codes_of(b).drop_first() =~= codes_of(b.drop_first()));
        assert(codes_of(a)[0] == a[0] as u32 as int);
        assert(codes_of(b)[0] == b[0] as u32 as int);
    }
}


/// Equal code sequences spell equal strings.
pub proof fn lemma_codes_of_injective(a: Seq<char>, b: Seq<char>)
    requires
        codes_of(a) == codes_of(b),
    ensures
        a == b,
{
    assert(a.len() == b.len()) by {
        assert(codes_of(a).len() == a.len());
        assert(codes_of(b).len() == b.len());
    }
    assert forall|k: int| 0 <= k < a.len() implies a[k] == b[k] by {
        assert(codes_of(a)[k] == codes_of(b)[k]);
        assert(codes_of(a)[k] == a[k] as u32 as int);
        assert(codes_of(b)[k] == b[k] as u32 as int);
        assert(a[k] as u32 == b[k] as u32);
        vstd::utf8::char_u32_cast(a[k], a[k] as u32);
        vstd::utf8::char_u32_cast(b[k], b[k] as u32);
    }
    assert(a =~= b);
}

/// Decoded ids in strictly ascending order.
pub open spec fn spec_view_sorted(
    v: Seq<
        (
            Seq<int>,
            (Seq<(Seq<int>, Seq<int>)>, Seq<(int, int, int, Seq<int>, int, int, int)>),
        ),
    >,
) -> bool {
    forall|i: int| 0 <= i < v.len() - 1 ==> lex_lt_codes((#[trigger] v[i]).0, v[i + 1].0)
}

/// No decoded person repeats an attribute key.
pub open spec fn spec_view_attrs_unique(
    v: Seq<
        (
            Seq<int>,
            (Seq<(Seq<int>, Seq<int>)>, Seq<(int, int, int, Seq<int>, int, int, int)>),
        ),
    >,
) -> bool {
    forall|i: int|
        0 <= i < v.len() ==> spec_attr_keys_unique((#[trigger] v[i]).1.0)
}

pub open spec fn spec_attr_keys_unique(entries: Seq<(Seq<int>, Seq<int>)>) -> bool {
    forall|a: int, b: int|
        #![trigger entries[a], entries[b]]
        0 <= a < b < entries.len() ==> entries[a].0 != entries[b].0
}

/// Deserialise a population from the compact binary form.  The result's
/// ids, attributes and components carry exactly the encoded values.
pub fn deserialise(b: &Vec<u8>) -> (r: Option<Population>)
    ensures
        match r {
            Some(pop) => sdec_pop(b@) matches Some((v, _)) && spec_view_pop(pop) == v
                && pop.wf() && pop.attrs_wf(),
            None => !(sdec_pop(b@) matches Some((v, _)) && spec_pop_view_ok(v)
                && spec_view_sorted(v) && spec_view_attrs_unique(v)),
        },
{
    let (n, mut q) = match read_n(b, 0, 8) {
        Some(v) => v,
        None => {
            return None;
        },
    };
    if n > (usize::MAX as u64) {
        proof {
            lemma_sdec_people_count(b@, 8, n as int);
        }
        return None;
    }
    let n = n as usize;
    let mut people: Vec<(String, Person)> = Vec::new();
    let ghost b0 = b@;
    proof {
        assert(people@.map_values(
            |e: (String, Person)| (codes_of(e.0@), spec_view_person(e.1)),
        ) =~= Seq::<
            (
                Seq<int>,
                (Seq<(Seq<int>, Seq<int>)>, Seq<(int, int, int, Seq<int>, int, int, int)>),
            ),
        >::empty());
    }
    for i in 0..n
        invariant
            b@ == b0,
            8 <= b0.len(),
            n as int == sdec_n(b0, 0, 8),
            ({
                let f = |e: (String, Person)| (codes_of(e.0@), spec_view_person(e.1));
                sdec_people(b0, 8, n as int) == (match sdec_people(
                    b0,
                    q as int,
                    (n - i) as int,
                ) {
                    Some((rest, qf)) => Some((people@.map_values(f) + rest, qf)),
                    None => None,
                })
            }),
    {
        let ghost f = |e: (String, Person)| (codes_of(e.0@), spec_view_person(e.1));
        let ghost before = people@;
        let (pid, q2) = match read_str(b, q) {
            Some(v) => v,
            None => {
                proof {
                    match sdec_str(b0, q as int) {
                        None => {},
                        Some((pc, qp)) => {
                            assert(!spec_text_ok(pc));
                        },
                    }
                    lemma_pop_fails_on_person(
                        b0,
                        q as int,
                        n as int,
                        i as int,
                        people@.map_values(f),
                    );
                }
                return None;
            },
        };
        let (per, q3) = match read_person(b, q2) {
            Some(v) => v,
            None => {
                proof {
                    assert(sdec_str(b0, q as int) == Some((codes_of(pid@), q2 as int)));
                    match sdec_person(b0, q2 as int) {
                        None => {},
                        Some((pv, qp)) => {
                            assert(!spec_person_view_ok(pv));
                        },
                    }
                    lemma_pop_fails_on_person(
                        b0,
                        q as int,
                        n as int,
                        i as int,
                        people@.map_values(f),
                    );
                }
                return None;
            },
        };
        let ghost gpid = pid@;
        let ghost gper = per;
        people.push((pid, per));
        q = q3;
        proof {
            assert(people@.map_values(f) =~= before.map_values(f) + seq![
                (codes_of(gpid), spec_view_person(gper)),
            ]);
            match sdec_people(b0, q as int, (n - i - 1) as int) {
                Some((rest, qf)) => {
                    assert(before.map_values(f) + (seq![
                        (codes_of(gpid), spec_view_person(gper)),
                    ] + rest) =~= people@.map_values(f) + rest);
                },
                None => {},
            }
        }
    }
    let ghost f = |e: (String, Person)| (codes_of(e.0@), spec_view_person(e.1));
    proof {
        assert(people@.map_values(f) + Seq::<
            (
                Seq<int>,
                (Seq<(Seq<int>, Seq<int>)>, Seq<(int, int, int, Seq<int>, int, int, int)>),
            ),
        >::empty() =~= people@.map_values(f));
    }
    let ghost v = people@.map_values(f);
    proof {
        assert forall|k: int| 0 <= k < v.len() implies #[trigger] v[k] == (
            codes_of(people@[k].0@),
            spec_view_person(people@[k].1),
        ) by {
            assert(v[k] == f(people@[k]));
        }
    }
    let np = people.len();
    let mut i: usize = 1;
    while i < np
        invariant
            np == people@.len(),
            1 <= i,
            v.len() == np,
            forall|k: int|
                0 <= k < v.len() ==> #[trigger] v[k] == (
                    codes_of(people@[k].0@),
                    spec_view_person(people@[k].1),
                ),
            sdec_pop(b@) matches Some((vv, _)) && vv == v,
            forall|a: int, b2: int|
                #![trigger people@[a], people@[b2]]
                0 <= a < b2 < i ==> crate::population::lex_lt(people@[a].0@, people@[b2].0@),
        decreases np - i,
    {
        if !crate::population::str_lt(&people[i - 1].0, &people[i].0) {
            proof {
                lemma_lex_codes_agree(people@[i - 1].0@, people@[i as int].0@);
                assert(v[i - 1].0 == codes_of(people@[i - 1].0@));
                assert(v[i as int].0 == codes_of(people@[i as int].0@));
                assert(!spec_view_sorted(v));
            }
            return None;
        }
        proof {
            assert forall|a: int, b2: int|
                #![trigger people@[a], people@[b2]]
                0 <= a < b2 < i + 1 implies crate::population::lex_lt(
                people@[a].0@,
                people@[b2].0@,
            ) by {
                if b2 == i && a < i - 1 {
                    crate::population::lemma_lex_lt_trans(
                        people@[a].0@,
                        people@[i - 1].0@,
                        people@[i as int].0@,
                    );
                }
            }
        }
        i = i + 1;
    }
    let mut p: usize = 0;
    while p < np
        invariant
            np == people@.len(),
            v.len() == np,
            forall|k: int|
                0 <= k < v.len() ==> #[trigger] v[k] == (
                    codes_of(people@[k].0@),
                    spec_view_person(people@[k].1),
                ),
            sdec_pop(b@) matches Some((vv, _)) && vv == v,
            forall|q: int|
                0 <= q < p ==> (#[trigger] people@[q]).1.attributes.wf(),
        decreases np - p,
    {
        let entries = &people[p].1.attributes.entries;
        let ne = entries.len();
        let mut a: usize = 0;
        while a < ne
            invariant
                p < people@.len(),
                ne == people@[p as int].1.attributes.entries@.len(),
                entries == &people@[p as int].1.attributes.entries,
                v.len() == np,
                np == people@.len(),
                forall|k: int|
                    0 <= k < v.len() ==> #[trigger] v[k] == (
                        codes_of(people@[k].0@),
                        spec_view_person(people@[k].1),
                    ),
                sdec_pop(b@) matches Some((vv, _)) && vv == v,
                forall|x: int, y: int|
                    #![trigger entries@[x], entries@[y]]
                    0 <= x < y < a ==> entries@[x].0@ != entries@[y].0@,
            decreases ne - a,
        {
            let mut b2: usize = 0;
            while b2 < a
                invariant
                    p < people@.len(),
                    b2 <= a < ne,
                    ne == people@[p as int].1.attributes.entries@.len(),
                    entries == &people@[p as int].1.attributes.entries,
                    v.len() == np,
                    np == people@.len(),
                    forall|k: int|
                        0 <= k < v.len() ==> #[trigger] v[k] == (
                            codes_of(people@[k].0@),
                            spec_view_person(people@[k].1),
                        ),
                    sdec_pop(b@) matches Some((vv, _)) && vv == v,
                    forall|x: int, y: int|
                        #![trigger entries@[x], entries@[y]]
                        0 <= x < y < a ==> entries@[x].0@ != entries@[y].0@,
                    forall|x: int| 0 <= x < b2 ==> (#[trigger] entries@[x]).0@ != entries@[a as int].0@,
                decreases a - b2,
            {
                if entries[b2].0 == entries[a].0 {
                    proof {
                        let pv = spec_view_person(people@[p as int].1);
                        assert(v[p as int].1 == pv);
                        assert(pv.0[b2 as int].0 == codes_of(entries@[b2 as int].0@));
                        assert(pv.0[a as int].0 == codes_of(entries@[a as int].0@));
                        assert(!spec_attr_keys_unique(pv.0));
                        assert(!spec_view_attrs_unique(v));
                    }
                    return None;
                }
                b2 = b2 + 1;
            }
            a = a + 1;
        }
        proof {
            assert(people@[p as int].1.attributes.wf());
        }
        p = p + 1;
    }
    Some(Population { people })
}

} // verus!
