//! Invite tokens: a signed claim that the holder may be added to an
//! organization at a given access level, valid until an expiry time.
//!
//! The signed payload is `org_id:inviter_hex:level:expiry`; the on-wire form
//! is base64 over a JSON object of the five fields. The JSON framing is the
//! crate's own wire format and is encoded and parsed here, verified.

use vstd::prelude::*;

use vstd::slice::slice_subrange;
use vstd::string::StringSliceAdditionalSpecFns;
use vstd::utf8::encode_utf8;

use crate::auth::{AccessLevel, AuthError};
use crate::bytesfmt::{
    dec_bytes_of_int, hex_digit, hex_val, is_hex_digit, i64_dec_bytes, parse_i64_bytes,
    spec_parse_i64,
};
use crate::topics::append_bytes;

verus! {

/// JSON escape of one byte: quotes and backslashes get a backslash, control
/// bytes become `\u00XX`, and everything else passes through.
pub open spec fn esc_byte(b: u8) -> Seq<u8> {
    if b == 0x22 {
        seq![0x5cu8, 0x22]
    } else if b == 0x5c {
        seq![0x5cu8, 0x5c]
    } else if b < 0x20 {
        seq![0x5cu8, 0x75, 0x30, 0x30, hex_digit(b / 16), hex_digit(b % 16)]
    } else {
        seq![b]
    }
}

/// JSON escape of a byte string.
pub open spec fn esc(s: Seq<u8>) -> Seq<u8>
    decreases s.len(),
{
    if s.len() == 0 {
        Seq::empty()
    } else {
        esc_byte(s[0]) + esc(s.drop_first())
    }
}

/// Escaping distributes over concatenation.
pub proof fn lemma_esc_concat(a: Seq<u8>, b: Seq<u8>)
    ensures
        esc(a + b) =~= esc(a) + esc(b),
    decreases a.len(),
{
    if a.len() == 0 {
        assert(a + b =~= b);
    } else {
        lemma_esc_concat(a.drop_first(), b);
        assert((a + b).drop_first() =~= a.drop_first() + b);
        assert((a + b)[0] == a[0]);
        assert(esc(a + b) =~= esc_byte(a[0]) + (esc(a.drop_first()) + esc(b)));
        assert(esc(a) + esc(b) =~= esc_byte(a[0]) + (esc(a.drop_first()) + esc(b)));
    }
}

/// Read an escaped JSON string body up to and including its closing quote.
/// Returns the unescaped content and the number of bytes consumed.
pub open spec fn unesc(u: Seq<u8>) -> Option<(Seq<u8>, int)>
    decreases u.len(),
{
    if u.len() == 0 {
        None
    } else if u[0] == 0x22 {
        Some((Seq::empty(), 1))
    } else if u[0] == 0x5c {
        if u.len() < 2 {
            None
        } else if u[1] == 0x22 || u[1] == 0x5c {
            match unesc(u.skip(2)) {
                Some(p) => Some((seq![u[1]] + p.0, p.1 + 2)),
                None => None,
            }
        } else if u[1] == 0x75 {
            if u.len() >= 6 && u[2] == 0x30 && u[3] == 0x30 && is_hex_digit(u[4]) && is_hex_digit(
                u[5],
            ) && hex_val(u[4]) * 16 + hex_val(u[5]) < 0x20 {
                match unesc(u.skip(6)) {
                    Some(p) => Some(
                        (seq![(hex_val(u[4]) * 16 + hex_val(u[5])) as u8] + p.0, p.1 + 6),
                    ),
                    None => None,
                }
            } else {
                None
            }
        } else {
            None
        }
    } else if u[0] >= 0x20 {
        match unesc(u.skip(1)) {
            Some(p) => Some((seq![u[0]] + p.0, p.1 + 1)),
            None => None,
        }
    } else {
        None
    }
}

/// Unescaping inverts escaping: reading an escaped string body finds exactly
/// the original content and stops after the closing quote.
pub proof fn lemma_unesc_esc(s: Seq<u8>, rest: Seq<u8>)
    ensures
        unesc(esc(s) + seq![0x22u8] + rest) == Some((s, esc(s).len() + 1int)),
    decreases s.len(),
{
    let u = esc(s) + seq![0x22u8] + rest;
    if s.len() == 0 {
        assert(esc(s) =~= Seq::<u8>::empty());
        assert(u =~= seq![0x22u8] + rest);
        assert(u[0] == 0x22);
        assert(s =~= Seq::<u8>::empty());
    } else {
        let b = s[0];
        let t = s.drop_first();
        let tailu = esc(t) + seq![0x22u8] + rest;
        assert(esc(s) =~= esc_byte(b) + esc(t));
        assert(u =~= esc_byte(b) + tailu);
        lemma_unesc_esc(t, rest);
        let k = esc_byte(b).len() as int;
        assert forall|i: int| 0 <= i < k implies u[i] == esc_byte(b)[i] by {}
        assert(u.skip(k) =~= tailu);
        if b == 0x22 {
            assert(u[0] == 0x5c && u[1] == 0x22);
            assert(unesc(u) == Some((seq![b] + t, esc(t).len() + 3int)));
            assert(seq![b] + t =~= s);
        } else if b == 0x5c {
            assert(u[0] == 0x5c && u[1] == 0x5c);
            assert(seq![b] + t =~= s);
        } else if b < 0x20 {
            assert(u[0] == 0x5c && u[1] == 0x75 && u[2] == 0x30 && u[3] == 0x30);
            assert(u[4] == hex_digit(b / 16) && u[5] == hex_digit(b % 16));
            assert(hex_val(hex_digit(b / 16)) == b / 16);
            assert(hex_val(hex_digit(b % 16)) == b % 16);
            assert(is_hex_digit(u[4]) && is_hex_digit(u[5]));
            assert(hex_val(u[4]) * 16 + hex_val(u[5]) == b);
            assert(u.len() >= 6);
            assert(seq![(hex_val(u[4]) * 16 + hex_val(u[5])) as u8] + t =~= s);
        } else {
            assert(u[0] == b && b >= 0x20 && b != 0x22 && b != 0x5c);
            assert(u.skip(1) =~= tailu);
            assert(seq![b] + t =~= s);
        }
    }
}

/// Append the JSON escape of `s` to `out`.
pub fn esc_push(out: &mut Vec<u8>, s: &[u8])
    ensures
        final(out)@ == old(out)@ + esc(s@),
{
    let mut i: usize = 0;
    while i < s.len()
        invariant
            i <= s.len(),
            out@ == old(out)@ + esc(s@.take(i as int)),
        decreases s.len() - i,
    {
        let b = s[i];
        if b == 0x22 || b == 0x5c {
            out.push(0x5c);
            out.push(b);
        } else if b < 0x20 {
            out.push(0x5c);
            out.push(0x75);
            out.push(0x30);
            out.push(0x30);
            let hi = b / 16;
            let lo = b % 16;
            out.push(if hi < 10 { 0x30 + hi } else { 0x57 + hi });
            out.push(if lo < 10 { 0x30 + lo } else { 0x57 + lo });
        } else {
            out.push(b);
        }
        i = i + 1;
        proof {
            let b0 = s@[i as int - 1];
            lemma_esc_concat(s@.take(i as int - 1), seq![b0]);
            assert(s@.take(i as int) =~= s@.take(i as int - 1) + seq![b0]);
            assert(seq![b0].drop_first() =~= Seq::<u8>::empty());
            assert(esc(seq![b0]) =~= esc_byte(b0) + esc(Seq::<u8>::empty()));
            assert(esc(seq![b0]) =~= esc_byte(b0));
            assert(out@ =~= old(out)@ + esc(s@.take(i as int)));
        }
    }
    proof {
        assert(s@.take(s@.len() as int) =~= s@);
    }
}

/// Read an escaped string body starting at `pos`; the result and consumed
/// length agree exactly with [`unesc`] on the remaining input.
pub fn unesc_at(u: &[u8], pos: usize) -> (r: Option<(Vec<u8>, usize)>)
    requires
        pos <= u@.len(),
    ensures
        r is Some <==> unesc(u@.skip(pos as int)) is Some,
        r is Some ==> ({
            let q = r->0;
            let p = unesc(u@.skip(pos as int))->0;
            q.0@ == p.0 && q.1 as int == pos + p.1 && pos < q.1 <= u@.len()
        }),
{
    let ghost start = pos as int;
    let mut acc: Vec<u8> = Vec::new();
    let mut i: usize = pos;
    loop
        invariant
            start == pos as int,
            pos <= i <= u@.len(),
            match unesc(u@.skip(i as int)) {
                Some(p) => unesc(u@.skip(start)) == Some((acc@ + p.0, (i - start) + p.1)),
                None => unesc(u@.skip(start)) is None,
            },
        decreases u@.len() - i,
    {
        if i >= u.len() {
            proof {
                assert(u@.skip(i as int).len() == 0);
            }
            return None;
        }
        let b = u[i];
        let ghost cur = u@.skip(i as int);
        proof {
            assert(cur[0] == u@[i as int]);
        }
        if b == 0x22 {
            proof {
                assert(unesc(cur) == Some((Seq::<u8>::empty(), 1int)));
                assert(acc@ + Seq::<u8>::empty() =~= acc@);
            }
            return Some((acc, i + 1));
        } else if b == 0x5c {
            if i + 1 >= u.len() {
                proof {
                    assert(cur.len() < 2);
                }
                return None;
            }
            let e = u[i + 1];
            proof {
                assert(cur[1] == u@[i as int + 1]);
            }
            if e == 0x22 || e == 0x5c {
                let ghost acc_pre = acc@;
                acc.push(e);
                proof {
                    assert(cur.skip(2) =~= u@.skip(i as int + 2));
                    if unesc(u@.skip(i as int + 2)) is Some {
                        let p = unesc(u@.skip(i as int + 2))->0;
                        assert(unesc(cur) == Some((seq![e] + p.0, p.1 + 2)));
                        assert(acc_pre + (seq![e] + p.0) =~= acc@ + p.0);
                    } else {
                        assert(unesc(cur) is None);
                    }
                }
                i = i + 2;
            } else if e == 0x75 {
                if u.len() - i < 6 {
                    proof {
                        assert(cur.len() < 6);
                    }
                    return None;
                }
                let d2 = u[i + 2];
                let d3 = u[i + 3];
                let h1 = u[i + 4];
                let h2 = u[i + 5];
                proof {
                    assert(cur[2] == u@[i as int + 2] && cur[3] == u@[i as int + 3] && cur[4]
                        == u@[i as int + 4] && cur[5] == u@[i as int + 5]);
                }
                let v1: u8 = if 0x30 <= h1 && h1 <= 0x39 {
                    h1 - 0x30
                } else if 0x61 <= h1 && h1 <= 0x66 {
                    h1 - 0x57
                } else if 0x41 <= h1 && h1 <= 0x46 {
                    h1 - 0x37
                } else {
                    255
                };
                let v2: u8 = if 0x30 <= h2 && h2 <= 0x39 {
                    h2 - 0x30
                } else if 0x61 <= h2 && h2 <= 0x66 {
                    h2 - 0x57
                } else if 0x41 <= h2 && h2 <= 0x46 {
                    h2 - 0x37
                } else {
                    255
                };
                if !(d2 == 0x30 && d3 == 0x30 && v1 != 255 && v2 != 255 && v1 * 16 + v2 < 0x20) {
                    proof {
                        assert(unesc(cur) is None);
                    }
                    return None;
                }
                let ghost acc_pre = acc@;
                acc.push(v1 * 16 + v2);
                proof {
                    assert(cur.skip(6) =~= u@.skip(i as int + 6));
                    if unesc(u@.skip(i as int + 6)) is Some {
                        let p = unesc(u@.skip(i as int + 6))->0;
                        assert(unesc(cur) == Some(
                            (seq![(hex_val(cur[4]) * 16 + hex_val(cur[5])) as u8] + p.0, p.1 + 6),
                        ));
                        assert(acc_pre + (seq![(hex_val(cur[4]) * 16 + hex_val(cur[5])) as u8]
                            + p.0) =~= acc@ + p.0);
                    } else {
                        assert(unesc(cur) is None);
                    }
                }
                i = i + 6;
            } else {
                proof {
                    assert(unesc(cur) is None);
                }
                return None;
            }
        } else if b >= 0x20 {
            let ghost acc_pre = acc@;
            acc.push(b);
            proof {
                assert(cur.skip(1) =~= u@.skip(i as int + 1));
                if unesc(u@.skip(i as int + 1)) is Some {
                    let p = unesc(u@.skip(i as int + 1))->0;
                    assert(unesc(cur) == Some((seq![cur[0]] + p.0, p.1 + 1)));
                    assert(acc_pre + (seq![cur[0]] + p.0) =~= acc@ + p.0);
                } else {
                    assert(unesc(cur) is None);
                }
            }
            i = i + 1;
        } else {
            proof {
                assert(unesc(cur) is None);
            }
            return None;
        }
    }
}

/// Strip a literal prefix from the head of a byte string.
pub open spec fn strip_prefix(u: Seq<u8>, p: Seq<u8>) -> Option<Seq<u8>> {
    if u.len() >= p.len() && u.take(p.len() as int) == p {
        Some(u.skip(p.len() as int))
    } else {
        None
    }
}

/// Stripping a prefix off itself leaves the tail.
pub proof fn lemma_strip_concat(p: Seq<u8>, x: Seq<u8>)
    ensures
        strip_prefix(p + x, p) == Some(x),
{
    assert((p + x).take(p.len() as int) =~= p);
    assert((p + x).skip(p.len() as int) =~= x);
}

/// Check a literal at `pos`, returning the position after it.
pub fn expect_at(u: &[u8], pos: usize, lit: &[u8]) -> (r: Option<usize>)
    requires
        pos <= u@.len(),
    ensures
        r is Some <==> strip_prefix(u@.skip(pos as int), lit@) is Some,
        r is Some ==> r->0 as int == pos + lit@.len() && r->0 <= u@.len() && u@.skip(r->0 as int)
            == strip_prefix(u@.skip(pos as int), lit@)->0,
{
    let n = u.len();
    if n - pos < lit.len() {
        proof {
            assert(u@.skip(pos as int).len() < lit@.len());
        }
        return None;
    }
    let mut i: usize = 0;
    while i < lit.len()
        invariant
            i <= lit@.len(),
            n == u@.len(),
            pos + lit@.len() <= n,
            forall|j: int| 0 <= j < i ==> u@[pos + j] == lit@[j],
        decreases lit@.len() - i,
    {
        if u[pos + i] != lit[i] {
            proof {
                assert(u@.skip(pos as int)[i as int] == u@[pos + i]);
                assert(u@.skip(pos as int).take(lit@.len() as int)[i as int] != lit@[i as int]);
            }
            return None;
        }
        i = i + 1;
    }
    proof {
        assert(u@.skip(pos as int).take(lit@.len() as int) =~= lit@);
        assert(u@.skip(pos as int).skip(lit@.len() as int) =~= u@.skip(pos + lit@.len()));
    }
    Some(pos + lit.len())
}

/// Index of the first comma, or the length when there is none.
pub open spec fn first_comma(u: Seq<u8>) -> int
    decreases u.len(),
{
    if u.len() == 0 {
        0
    } else if u[0] == 0x2c {
        0
    } else {
        1 + first_comma(u.drop_first())
    }
}

/// The first comma of `a + b` sits at `a.len()` when `a` is comma-free and
/// `b` opens with one.
pub proof fn lemma_first_comma_concat(a: Seq<u8>, b: Seq<u8>)
    requires
        forall|i: int| 0 <= i < a.len() ==> a[i] != 0x2c,
        b.len() > 0,
        b[0] == 0x2c,
    ensures
        first_comma(a + b) == a.len(),
    decreases a.len(),
{
    if a.len() == 0 {
        assert(a + b =~= b);
    } else {
        assert((a + b)[0] == a[0]);
        assert((a + b).drop_first() =~= a.drop_first() + b);
        lemma_first_comma_concat(a.drop_first(), b);
    }
}

/// The first comma never lies beyond the end.
pub proof fn lemma_first_comma_bound(u: Seq<u8>)
    ensures
        0 <= first_comma(u) <= u.len(),
        first_comma(u) < u.len() ==> u[first_comma(u)] == 0x2c,
        forall|i: int| 0 <= i < first_comma(u) ==> u[i] != 0x2c,
    decreases u.len(),
{
    if u.len() > 0 && u[0] != 0x2c {
        lemma_first_comma_bound(u.drop_first());
        assert forall|i: int| 0 <= i < first_comma(u) implies u[i] != 0x2c by {
            if i > 0 {
                assert(u.drop_first()[i - 1] == u[i]);
            }
        }
        if first_comma(u) < u.len() {
            assert(u.drop_first()[first_comma(u.drop_first())] == u[first_comma(u)]);
        }
    }
}

/// Find the first comma at or after `pos`.
pub fn comma_at(u: &[u8], pos: usize) -> (r: usize)
    requires
        pos <= u@.len(),
    ensures
        r as int == pos + first_comma(u@.skip(pos as int)),
        pos <= r <= u@.len(),
{
    let mut i: usize = pos;
    while i < u.len()
        invariant
            pos <= i <= u@.len(),
            first_comma(u@.skip(pos as int)) == (i - pos) + first_comma(u@.skip(i as int)),
            forall|j: int| pos <= j < i ==> u@[j] != 0x2c,
        decreases u@.len() - i,
    {
        proof {
            assert(u@.skip(i as int)[0] == u@[i as int]);
            assert(u@.skip(i as int).drop_first() =~= u@.skip(i as int + 1));
        }
        if u[i] == 0x2c {
            return i;
        }
        i = i + 1;
    }
    proof {
        assert(u@.skip(i as int).len() == 0);
    }
    i
}


/// Bytes of `{"org_id":"`.
pub open spec fn json_key_org() -> Seq<u8> {
    seq![0x7bu8, 0x22, 0x6f, 0x72, 0x67, 0x5f, 0x69, 0x64, 0x22, 0x3a, 0x22]
}

/// Bytes of `,"inviter_key":"`.
pub open spec fn json_key_inviter() -> Seq<u8> {
    seq![
        0x2cu8,
        0x22,
        0x69,
        0x6e,
        0x76,
        0x69,
        0x74,
        0x65,
        0x72,
        0x5f,
        0x6b,
        0x65,
        0x79,
        0x22,
        0x3a,
        0x22,
    ]
}

/// Bytes of `,"access_level":"`.
pub open spec fn json_key_level() -> Seq<u8> {
    seq![
        0x2cu8,
        0x22,
        0x61,
        0x63,
        0x63,
        0x65,
        0x73,
        0x73,
        0x5f,
        0x6c,
        0x65,
        0x76,
        0x65,
        0x6c,
        0x22,
        0x3a,
        0x22,
    ]
}

/// Bytes of `,"expiry_timestamp":`.
pub open spec fn json_key_expiry() -> Seq<u8> {
    seq![
        0x2cu8,
        0x22,
        0x65,
        0x78,
        0x70,
        0x69,
        0x72,
        0x79,
        0x5f,
        0x74,
        0x69,
        0x6d,
        0x65,
        0x73,
        0x74,
        0x61,
        0x6d,
        0x70,
        0x22,
        0x3a,
    ]
}

/// Bytes of `,"signature":"`.
pub open spec fn json_key_signature() -> Seq<u8> {
    seq![0x2cu8, 0x22, 0x73, 0x69, 0x67, 0x6e, 0x61, 0x74, 0x75, 0x72, 0x65, 0x22, 0x3a, 0x22]
}

/// The JSON object carrying a token's five fields, over their UTF-8 bytes.
pub open spec fn token_json(
    org: Seq<u8>,
    inviter: Seq<u8>,
    level: Seq<u8>,
    expiry: int,
    signature: Seq<u8>,
) -> Seq<u8> {
    json_key_org() + (esc(org) + seq![0x22u8] + (json_key_inviter() + (esc(inviter) + seq![0x22u8]
        + (json_key_level() + (esc(level) + seq![0x22u8] + (json_key_expiry() + (dec_bytes_of_int(
        expiry,
    ) + (json_key_signature() + (esc(signature) + seq![0x22u8] + seq![0x7du8])))))))))
}

/// Parse the number-and-signature tail of the object, after the third field.
pub open spec fn spec_parse_num_sig(t: Seq<u8>) -> Option<(i64, Seq<u8>)> {
    match strip_prefix(t, json_key_expiry()) {
        None => None,
        Some(u4) => {
            let j = first_comma(u4);
            match spec_parse_i64(u4.take(j)) {
                None => None,
                Some(exp) => match strip_prefix(u4.skip(j), json_key_signature()) {
                    None => None,
                    Some(u5) => match unesc(u5) {
                        None => None,
                        Some(p5) => {
                            if u5.skip(p5.1) == seq![0x7du8] {
                                Some((exp, p5.0))
                            } else {
                                None
                            }
                        },
                    },
                },
            }
        },
    }
}

/// What the strict token parser accepts: exactly the canonical object shape.
pub open spec fn spec_parse_token(u: Seq<u8>) -> Option<(Seq<u8>, Seq<u8>, Seq<u8>, i64, Seq<u8>)> {
    match strip_prefix(u, json_key_org()) {
        None => None,
        Some(u1) => match unesc(u1) {
            None => None,
            Some(p1) => match strip_prefix(u1.skip(p1.1), json_key_inviter()) {
                None => None,
                Some(u2) => match unesc(u2) {
                    None => None,
                    Some(p2) => match strip_prefix(u2.skip(p2.1), json_key_level()) {
                        None => None,
                        Some(u3) => match unesc(u3) {
                            None => None,
                            Some(p3) => match spec_parse_num_sig(u3.skip(p3.1)) {
                                None => None,
                                Some(q) => Some((p1.0, p2.0, p3.0, q.0, q.1)),
                            },
                        },
                    },
                },
            },
        },
    }
}

/// The number-and-signature tail parses back to its two fields.
#[verifier::spinoff_prover]
#[verifier::rlimit(100)]
proof fn lemma_num_sig_round_trip(expiry: i64, signature: Seq<u8>)
    ensures
        spec_parse_num_sig(
            json_key_expiry() + (dec_bytes_of_int(expiry as int) + (json_key_signature() + (esc(
                signature,
            ) + seq![0x22u8] + seq![0x7du8]))),
        ) == Some((expiry, signature)),
{
    let dec = dec_bytes_of_int(expiry as int);
    let t5 = esc(signature) + seq![0x22u8] + seq![0x7du8];
    let t4b = json_key_signature() + t5;
    let t4 = dec + t4b;
    lemma_strip_concat(json_key_expiry(), t4);
    crate::bytesfmt::lemma_dec_bytes_int_no_comma(expiry as int);
    assert(t4b[0] == 0x2c);
    lemma_first_comma_concat(dec, t4b);
    assert(first_comma(t4) == dec.len());
    assert(t4.take(dec.len() as int) =~= dec);
    crate::bytesfmt::lemma_parse_i64_round_trip(expiry);
    assert(t4.skip(dec.len() as int) =~= t4b);
    lemma_parse_field(t4b, json_key_signature(), signature, seq![0x7du8]);
}

/// One field step: stripping its key and unescaping its quoted value leaves
/// exactly the tail.
proof fn lemma_parse_field(u: Seq<u8>, key: Seq<u8>, content: Seq<u8>, tail: Seq<u8>)
    requires
        u == key + (esc(content) + seq![0x22u8] + tail),
    ensures
        strip_prefix(u, key) is Some,
        unesc(strip_prefix(u, key)->0) == Some((content, esc(content).len() + 1int)),
        strip_prefix(u, key)->0.skip(esc(content).len() + 1int) == tail,
{
    lemma_strip_concat(key, esc(content) + seq![0x22u8] + tail);
    lemma_unesc_esc(content, tail);
    assert((esc(content) + seq![0x22u8] + tail).skip(esc(content).len() + 1int) =~= tail);
}

/// Parsing the canonical encoding recovers the five fields: the wire format
/// is unambiguous.
#[verifier::spinoff_prover]
#[verifier::rlimit(100)]
pub proof fn lemma_token_json_round_trip(
    org: Seq<u8>,
    inviter: Seq<u8>,
    level: Seq<u8>,
    expiry: i64,
    signature: Seq<u8>,
)
    ensures
        spec_parse_token(token_json(org, inviter, level, expiry as int, signature)) == Some(
            (org, inviter, level, expiry, signature),
        ),
{
    let u = token_json(org, inviter, level, expiry as int, signature);
    let t3 = json_key_expiry() + (dec_bytes_of_int(expiry as int) + (json_key_signature() + (esc(
        signature,
    ) + seq![0x22u8] + seq![0x7du8])));
    let t2b = esc(level) + seq![0x22u8] + t3;
    let t2 = json_key_level() + t2b;
    let t1b = esc(inviter) + seq![0x22u8] + t2;
    let t1 = json_key_inviter() + t1b;
    let t0b = esc(org) + seq![0x22u8] + t1;
    assert(u == json_key_org() + t0b);
    lemma_parse_field(u, json_key_org(), org, t1);
    lemma_parse_field(t1, json_key_inviter(), inviter, t2);
    lemma_parse_field(t2, json_key_level(), level, t3);
    lemma_num_sig_round_trip(expiry, signature);
}

/// An invite token: a claim, signed by the inviter, that the holder may be
/// added to the organization at the stated level until the expiry time
/// (microseconds since the epoch).
pub struct InviteToken {
    pub org_id: String,
    pub inviter_key: String,
    pub access_level: String,
    pub expiry_timestamp: i64,
    pub signature: String,
}

/// The bytes an inviter signs: `org_id:inviter_hex:level:expiry`.
pub open spec fn token_payload(
    org: Seq<char>,
    inviter: Seq<char>,
    level: Seq<char>,
    expiry: int,
) -> Seq<u8> {
    encode_utf8(org) + seq![0x3au8] + encode_utf8(inviter) + seq![0x3au8] + encode_utf8(level)
        + seq![0x3au8] + dec_bytes_of_int(expiry)
}

/// Build the signed payload of a token.
pub fn token_payload_bytes(org: &str, inviter: &str, level: &str, expiry: i64) -> (r: Vec<u8>)
    ensures
        r@ == token_payload(org@, inviter@, level@, expiry as int),
{
    let mut buf: Vec<u8> = Vec::new();
    let org_b = org.as_bytes_vec();
    append_bytes(&mut buf, &org_b);
    buf.push(0x3a);
    let inv_b = inviter.as_bytes_vec();
    append_bytes(&mut buf, &inv_b);
    buf.push(0x3a);
    let lvl_b = level.as_bytes_vec();
    append_bytes(&mut buf, &lvl_b);
    buf.push(0x3a);
    let exp_b = i64_dec_bytes(expiry);
    append_bytes(&mut buf, &exp_b);
    proof {
        assert(buf@ =~= token_payload(org@, inviter@, level@, expiry as int));
    }
    buf
}





/// Content of a successful string read.
pub open spec fn unesc_content(u: Seq<u8>) -> Seq<u8> {
    match unesc(u) {
        Some(p) => p.0,
        None => Seq::empty(),
    }
}

/// Bytes consumed by a successful string read.
pub open spec fn unesc_len(u: Seq<u8>) -> int {
    match unesc(u) {
        Some(p) => p.1,
        None => 0,
    }
}

/// Bytes of `{"org_id":"` for the encoder and parser.
fn json_key_org_bytes() -> (r: Vec<u8>)
    ensures
        r@ == json_key_org(),
{
    let mut v: Vec<u8> = Vec::new();
    v.push(0x7b);
    v.push(0x22);
    v.push(0x6f);
    v.push(0x72);
    v.push(0x67);
    v.push(0x5f);
    v.push(0x69);
    v.push(0x64);
    v.push(0x22);
    v.push(0x3a);
    v.push(0x22);
    proof {
        assert(v@ =~= json_key_org());
    }
    v
}

/// Bytes of `,"inviter_key":"`.
fn json_key_inviter_bytes() -> (r: Vec<u8>)
    ensures
        r@ == json_key_inviter(),
{
    let mut v: Vec<u8> = Vec::new();
    v.push(0x2c);
    v.push(0x22);
    v.push(0x69);
    v.push(0x6e);
    v.push(0x76);
    v.push(0x69);
    v.push(0x74);
    v.push(0x65);
    v.push(0x72);
    v.push(0x5f);
    v.push(0x6b);
    v.push(0x65);
    v.push(0x79);
    v.push(0x22);
    v.push(0x3a);
    v.push(0x22);
    proof {
        assert(v@ =~= json_key_inviter());
    }
    v
}

/// Bytes of `,"access_level":"`.
fn json_key_level_bytes() -> (r: Vec<u8>)
    ensures
        r@ == json_key_level(),
{
    let mut v: Vec<u8> = Vec::new();
    v.push(0x2c);
    v.push(0x22);
    v.push(0x61);
    v.push(0x63);
    v.push(0x63);
    v.push(0x65);
    v.push(0x73);
    v.push(0x73);
    v.push(0x5f);
    v.push(0x6c);
    v.push(0x65);
    v.push(0x76);
    v.push(0x65);
    v.push(0x6c);
    v.push(0x22);
    v.push(0x3a);
    v.push(0x22);
    proof {
        assert(v@ =~= json_key_level());
    }
    v
}

/// Bytes of `,"expiry_timestamp":`.
fn json_key_expiry_bytes() -> (r: Vec<u8>)
    ensures
        r@ == json_key_expiry(),
{
    let mut v: Vec<u8> = Vec::new();
    v.push(0x2c);
    v.push(0x22);
    v.push(0x65);
    v.push(0x78);
    v.push(0x70);
    v.push(0x69);
    v.push(0x72);
    v.push(0x79);
    v.push(0x5f);
    v.push(0x74);
    v.push(0x69);
    v.push(0x6d);
    v.push(0x65);
    v.push(0x73);
    v.push(0x74);
    v.push(0x61);
    v.push(0x6d);
    v.push(0x70);
    v.push(0x22);
    v.push(0x3a);
    proof {
        assert(v@ =~= json_key_expiry());
    }
    v
}

/// Bytes of `,"signature":"`.
fn json_key_signature_bytes() -> (r: Vec<u8>)
    ensures
        r@ == json_key_signature(),
{
    let mut v: Vec<u8> = Vec::new();
    v.push(0x2c);
    v.push(0x22);
    v.push(0x73);
    v.push(0x69);
    v.push(0x67);
    v.push(0x6e);
    v.push(0x61);
    v.push(0x74);
    v.push(0x75);
    v.push(0x72);
    v.push(0x65);
    v.push(0x22);
    v.push(0x3a);
    v.push(0x22);
    proof {
        assert(v@ =~= json_key_signature());
    }
    v
}

/// Encode the five fields as the canonical JSON object.
pub fn encode_token_json(
    org: &str,
    inviter: &str,
    level: &str,
    expiry: i64,
    signature: &str,
) -> (r: Vec<u8>)
    ensures
        r@ == token_json(
            org.spec_bytes(),
            inviter.spec_bytes(),
            level.spec_bytes(),
            expiry as int,
            signature.spec_bytes(),
        ),
{
    let mut out: Vec<u8> = Vec::new();
    let k0 = json_key_org_bytes();
    append_bytes(&mut out, &k0);
    let org_b = org.as_bytes_vec();
    esc_push(&mut out, org_b.as_slice());
    out.push(0x22);
    let k1 = json_key_inviter_bytes();
    append_bytes(&mut out, &k1);
    let inv_b = inviter.as_bytes_vec();
    esc_push(&mut out, inv_b.as_slice());
    out.push(0x22);
    let k2 = json_key_level_bytes();
    append_bytes(&mut out, &k2);
    let lvl_b = level.as_bytes_vec();
    esc_push(&mut out, lvl_b.as_slice());
    out.push(0x22);
    let k3 = json_key_expiry_bytes();
    append_bytes(&mut out, &k3);
    let exp_b = i64_dec_bytes(expiry);
    append_bytes(&mut out, &exp_b);
    let k4 = json_key_signature_bytes();
    append_bytes(&mut out, &k4);
    let sig_b = signature.as_bytes_vec();
    esc_push(&mut out, sig_b.as_slice());
    out.push(0x22);
    out.push(0x7d);
    proof {
        assert(out@ =~= token_json(
            org.spec_bytes(),
            inviter.spec_bytes(),
            level.spec_bytes(),
            expiry as int,
            signature.spec_bytes(),
        ));
    }
    out
}

/// The five raw fields read back from a token object.
pub struct TokenParts {
    pub org_id: Vec<u8>,
    pub inviter_key: Vec<u8>,
    pub access_level: Vec<u8>,
    pub expiry_timestamp: i64,
    pub signature: Vec<u8>,
}

/// Parse a canonical token object; agrees exactly with [`spec_parse_token`].
#[verifier::rlimit(100)]
pub fn parse_token_json(u: &[u8]) -> (r: Option<TokenParts>)
    ensures
        r is Some <==> spec_parse_token(u@) is Some,
        r is Some ==> ({
            let q = spec_parse_token(u@)->0;
            r->0.org_id@ == q.0 && r->0.inviter_key@ == q.1 && r->0.access_level@ == q.2
                && r->0.expiry_timestamp == q.3 && r->0.signature@ == q.4
        }),
{
    let k0 = json_key_org_bytes();
    let Some(p0) = expect_at(u, 0, k0.as_slice()) else {
        proof {
            assert(u@.skip(0) =~= u@);
        }
        return None;
    };
    proof {
        assert(u@.skip(0) =~= u@);
    }
    let ghost u1 = strip_prefix(u@, json_key_org())->0;
    let Some((org_id, p1)) = unesc_at(u, p0) else {
        return None;
    };
    proof {
        assert(u1.skip(unesc_len(u1)) =~= u@.skip(p1 as int));
    }
    let k1 = json_key_inviter_bytes();
    let Some(p2) = expect_at(u, p1, k1.as_slice()) else {
        return None;
    };
    let ghost u2 = strip_prefix(u1.skip(unesc_len(u1)), json_key_inviter())->0;
    let Some((inviter_key, p3)) = unesc_at(u, p2) else {
        return None;
    };
    proof {
        assert(u2.skip(unesc_len(u2)) =~= u@.skip(p3 as int));
    }
    let k2 = json_key_level_bytes();
    let Some(p4) = expect_at(u, p3, k2.as_slice()) else {
        return None;
    };
    let ghost u3 = strip_prefix(u2.skip(unesc_len(u2)), json_key_level())->0;
    let Some((access_level, p5)) = unesc_at(u, p4) else {
        return None;
    };
    proof {
        assert(u3.skip(unesc_len(u3)) =~= u@.skip(p5 as int));
    }
    let k3 = json_key_expiry_bytes();
    let Some(p6) = expect_at(u, p5, k3.as_slice()) else {
        return None;
    };
    let ghost u4 = strip_prefix(u3.skip(unesc_len(u3)), json_key_expiry())->0;
    let p7 = comma_at(u, p6);
    proof {
        assert(u4 =~= u@.skip(p6 as int));
        assert(u4.take(first_comma(u4)) =~= u@.subrange(p6 as int, p7 as int));
    }
    let num = slice_subrange(u, p6, p7);
    let Some(expiry_timestamp) = parse_i64_bytes(num) else {
        return None;
    };
    let k4 = json_key_signature_bytes();
    let Some(p8) = expect_at(u, p7, k4.as_slice()) else {
        proof {
            assert(u4.skip(first_comma(u4)) =~= u@.skip(p7 as int));
        }
        return None;
    };
    proof {
        assert(u4.skip(first_comma(u4)) =~= u@.skip(p7 as int));
    }
    let ghost u5 = strip_prefix(u4.skip(first_comma(u4)), json_key_signature())->0;
    let Some((signature, p9)) = unesc_at(u, p8) else {
        return None;
    };
    proof {
        assert(u5.skip(unesc_len(u5)) =~= u@.skip(p9 as int));
    }
    if !(p9 < u.len() && u.len() - p9 == 1) {
        proof {
            if u5.skip(unesc_len(u5)) == seq![0x7du8] {
                assert(u@.skip(p9 as int).len() == 1);
            }
        }
        return None;
    }
    let close = u[p9];
    if close != 0x7d {
        proof {
            assert(u@.skip(p9 as int)[0] == u@[p9 as int]);
            if u5.skip(unesc_len(u5)) == seq![0x7du8] {
                assert(u@.skip(p9 as int)[0] == 0x7d);
            }
        }
        return None;
    }
    proof {
        assert(u@.skip(p9 as int) =~= seq![0x7du8]);
    }
    Some(TokenParts { org_id, inviter_key, access_level, expiry_timestamp, signature })
}


/// Well-formed token fields: a 64-digit hex identity, a known level name,
/// and hex signature bytes.
pub open spec fn fields_ok(
    inviter: Seq<char>,
    level: Seq<char>,
    signature: Seq<char>,
) -> bool {
    &&& crate::bytesfmt::valid_hex_bytes(encode_utf8(inviter))
    &&& encode_utf8(inviter).len() == 64
    &&& crate::auth::AccessLevel::spec_from_name(level) is Some
    &&& crate::bytesfmt::valid_hex_bytes(encode_utf8(signature))
}

/// Intact token fields: well-formed, and the signature verifies over the
/// payload under the inviter identity.
pub open spec fn fields_intact(
    org: Seq<char>,
    inviter: Seq<char>,
    level: Seq<char>,
    expiry: i64,
    signature: Seq<char>,
) -> bool {
    &&& fields_ok(inviter, level, signature)
    &&& crate::extcrypto::ed25519_verifies(
        crate::bytesfmt::hex_parse(encode_utf8(inviter)),
        token_payload(org, inviter, level, expiry as int),
        crate::bytesfmt::hex_parse(encode_utf8(signature)),
    )
}

/// The base64 wire form of the token an inviter with this seed signs.
pub open spec fn token_wire(
    org: Seq<char>,
    inviter_pk: Seq<u8>,
    level: crate::auth::AccessLevel,
    expiry: i64,
    seed: Seq<u8>,
) -> Seq<char> {
    crate::extcrypto::b64_of(
        token_json(
            encode_utf8(org),
            encode_utf8(crate::bytesfmt::hex_chars_of(inviter_pk)),
            encode_utf8(level.spec_name()),
            expiry as int,
            encode_utf8(
                crate::bytesfmt::hex_chars_of(
                    crate::extcrypto::ed25519_sig_of(
                        seed,
                        token_payload(
                            org,
                            crate::bytesfmt::hex_chars_of(inviter_pk),
                            level.spec_name(),
                            expiry as int,
                        ),
                    ),
                ),
            ),
        ),
    )
}

impl InviteToken {
    /// The bytes the inviter signed.
    pub open spec fn spec_payload(&self) -> Seq<u8> {
        token_payload(
            self.org_id@,
            self.inviter_key@,
            self.access_level@,
            self.expiry_timestamp as int,
        )
    }

    /// The inviter identity the hex field spells.
    pub open spec fn spec_inviter_bytes(&self) -> Seq<u8> {
        crate::bytesfmt::hex_parse(encode_utf8(self.inviter_key@))
    }

    /// The signature bytes the hex field spells.
    pub open spec fn spec_sig_bytes(&self) -> Seq<u8> {
        crate::bytesfmt::hex_parse(encode_utf8(self.signature@))
    }

    /// The fields are well-formed: a 64-digit hex identity, a known level
    /// name, and hex signature bytes.
    pub open spec fn spec_fields_ok(&self) -> bool {
        fields_ok(self.inviter_key@, self.access_level@, self.signature@)
    }

    /// The token is intact: well-formed fields whose signature verifies over
    /// the payload under the inviter identity.
    pub open spec fn spec_intact(&self) -> bool {
        fields_intact(
            self.org_id@,
            self.inviter_key@,
            self.access_level@,
            self.expiry_timestamp,
            self.signature@,
        )
    }

    /// Create and sign an invite token with the inviter's private seed. The
    /// resulting token is intact whenever the given public key belongs to the
    /// seed, so verification before the expiry is then owed.
    pub fn create(
        org_id: String,
        inviter_pk: &[u8],
        access_level: AccessLevel,
        expiry_timestamp: i64,
        private_seed: &[u8],
    ) -> (r: InviteToken)
        requires
            inviter_pk@.len() == 32,
            private_seed@.len() == 32,
        ensures
            r.org_id@ == org_id@,
            r.inviter_key@ == crate::bytesfmt::hex_chars_of(inviter_pk@),
            r.access_level@ == access_level.spec_name(),
            r.expiry_timestamp == expiry_timestamp,
            r.signature@ == crate::bytesfmt::hex_chars_of(
                crate::extcrypto::ed25519_sig_of(private_seed@, r.spec_payload()),
            ),
            inviter_pk@ == crate::extcrypto::ed25519_pk_of(private_seed@) ==> r.spec_intact(),
    {
        let inviter_key = crate::bytesfmt::hex_string(inviter_pk);
        let level_name = access_level.as_str().to_owned();
        let payload = token_payload_bytes(
            org_id.as_str(),
            inviter_key.as_str(),
            level_name.as_str(),
            expiry_timestamp,
        );
        let sig = crate::extcrypto::ed25519_sign(private_seed, payload.as_slice());
        let signature = crate::bytesfmt::hex_string(sig.as_slice());
        let r = InviteToken {
            org_id,
            inviter_key,
            access_level: level_name,
            expiry_timestamp,
            signature,
        };
        proof {
            crate::bytesfmt::lemma_hex_bytes_ascii(inviter_pk@);
            crate::bytesfmt::lemma_ascii_encode_utf8(
                crate::bytesfmt::hex_bytes_of(inviter_pk@),
            );
            crate::bytesfmt::lemma_hex_round_trip(inviter_pk@);
            crate::bytesfmt::lemma_hex_bytes_ascii(sig@);
            crate::bytesfmt::lemma_ascii_encode_utf8(crate::bytesfmt::hex_bytes_of(sig@));
            crate::bytesfmt::lemma_hex_round_trip(sig@);
            access_level.lemma_name_round_trip();
        }
        r
    }

    /// Verify the token at a given time. Succeeds exactly when the expiry
    /// has not passed and the token is intact; an expired token is reported
    /// as expired, every other failure as an invalid signature.
    pub fn verify(&self, current_timestamp: i64) -> (r: Result<(Vec<u8>, AccessLevel), AuthError>)
        ensures
            r is Ok <==> current_timestamp <= self.expiry_timestamp && self.spec_intact(),
            r is Ok ==> r->Ok_0.0@ == self.spec_inviter_bytes() && Some(r->Ok_0.1)
                == AccessLevel::spec_from_name(self.access_level@),
            (r matches Err(AuthError::TokenExpired)) <==> current_timestamp
                > self.expiry_timestamp,
    {
        if current_timestamp > self.expiry_timestamp {
            return Err(AuthError::TokenExpired);
        }
        let ik_bytes = self.inviter_key.as_str().as_bytes_vec();
        let Some(inviter_pk) = crate::bytesfmt::hex_decode_bytes(ik_bytes.as_slice()) else {
            return Err(AuthError::InvalidSignature);
        };
        if inviter_pk.len() != 32 {
            return Err(AuthError::InvalidSignature);
        }
        let Some(level) = AccessLevel::from_str(self.access_level.as_str()) else {
            return Err(AuthError::InvalidSignature);
        };
        let sig_bytes = self.signature.as_str().as_bytes_vec();
        let Some(sig) = crate::bytesfmt::hex_decode_bytes(sig_bytes.as_slice()) else {
            return Err(AuthError::InvalidSignature);
        };
        let payload = token_payload_bytes(
            self.org_id.as_str(),
            self.inviter_key.as_str(),
            self.access_level.as_str(),
            self.expiry_timestamp,
        );
        if !crate::extcrypto::ed25519_verify(
            inviter_pk.as_slice(),
            payload.as_slice(),
            sig.as_slice(),
        ) {
            return Err(AuthError::InvalidSignature);
        }
        Ok((inviter_pk, level))
    }

    /// Encode the token for sharing: base64 over the canonical JSON object.
    pub fn to_base64(&self) -> (r: String)
        ensures
            r@ == crate::extcrypto::b64_of(
                token_json(
                    encode_utf8(self.org_id@),
                    encode_utf8(self.inviter_key@),
                    encode_utf8(self.access_level@),
                    self.expiry_timestamp as int,
                    encode_utf8(self.signature@),
                ),
            ),
    {
        let json = encode_token_json(
            self.org_id.as_str(),
            self.inviter_key.as_str(),
            self.access_level.as_str(),
            self.expiry_timestamp,
            self.signature.as_str(),
        );
        crate::extcrypto::base64_encode(json.as_slice())
    }

    /// Decode a shared token. Any string that encodes a token is accepted
    /// and yields exactly that token's fields.
    #[verifier::spinoff_prover]
    #[verifier::rlimit(100)]
    pub fn from_base64(encoded: &str) -> (r: Result<InviteToken, AuthError>)
        ensures
            forall|o: Seq<char>, ik: Seq<char>, lv: Seq<char>, e: i64, sg: Seq<char>|
                encoded@ == crate::extcrypto::b64_of(
                    #[trigger] token_json(
                        encode_utf8(o),
                        encode_utf8(ik),
                        encode_utf8(lv),
                        e as int,
                        encode_utf8(sg),
                    ),
                ) ==> r is Ok && r->Ok_0.org_id@ == o && r->Ok_0.inviter_key@ == ik
                    && r->Ok_0.access_level@ == lv && r->Ok_0.expiry_timestamp == e
                    && r->Ok_0.signature@ == sg,
    {
        let Some(json) = crate::extcrypto::base64_decode(encoded) else {
            return Err(AuthError::Serialization("invalid base64".to_owned()));
        };
        let Some(parts) = parse_token_json(json.as_slice()) else {
            proof {
                assert forall|o: Seq<char>, ik: Seq<char>, lv: Seq<char>, e: i64, sg: Seq<char>|
                    encoded@ != crate::extcrypto::b64_of(
                        #[trigger] token_json(
                            encode_utf8(o),
                            encode_utf8(ik),
                            encode_utf8(lv),
                            e as int,
                            encode_utf8(sg),
                        ),
                    ) by {
                    if encoded@ == crate::extcrypto::b64_of(
                        token_json(
                            encode_utf8(o),
                            encode_utf8(ik),
                            encode_utf8(lv),
                            e as int,
                            encode_utf8(sg),
                        ),
                    ) {
                        lemma_token_json_round_trip(
                            encode_utf8(o),
                            encode_utf8(ik),
                            encode_utf8(lv),
                            e,
                            encode_utf8(sg),
                        );
                    }
                }
            }
            return Err(AuthError::Serialization("malformed token".to_owned()));
        };
        proof {
            assert forall|o: Seq<char>, ik: Seq<char>, lv: Seq<char>, e: i64, sg: Seq<char>|
                encoded@ == crate::extcrypto::b64_of(
                    #[trigger] token_json(
                        encode_utf8(o),
                        encode_utf8(ik),
                        encode_utf8(lv),
                        e as int,
                        encode_utf8(sg),
                    ),
                ) implies parts.org_id@ == encode_utf8(o) && parts.inviter_key@ == encode_utf8(ik)
                && parts.access_level@ == encode_utf8(lv) && parts.expiry_timestamp == e
                && parts.signature@ == encode_utf8(sg) && vstd::utf8::valid_utf8(parts.org_id@)
                && vstd::utf8::valid_utf8(parts.inviter_key@) && vstd::utf8::valid_utf8(
                parts.access_level@,
            ) && vstd::utf8::valid_utf8(parts.signature@) by {
                lemma_token_json_round_trip(
                    encode_utf8(o),
                    encode_utf8(ik),
                    encode_utf8(lv),
                    e,
                    encode_utf8(sg),
                );
                vstd::utf8::encode_utf8_valid_utf8(o);
                vstd::utf8::encode_utf8_valid_utf8(ik);
                vstd::utf8::encode_utf8_valid_utf8(lv);
                vstd::utf8::encode_utf8_valid_utf8(sg);
            }
        }
        let Some(org_id) = crate::bytesfmt::string_from_utf8(parts.org_id) else {
            return Err(AuthError::Serialization("invalid text".to_owned()));
        };
        let Some(inviter_key) = crate::bytesfmt::string_from_utf8(parts.inviter_key) else {
            return Err(AuthError::Serialization("invalid text".to_owned()));
        };
        let Some(access_level) = crate::bytesfmt::string_from_utf8(parts.access_level) else {
            return Err(AuthError::Serialization("invalid text".to_owned()));
        };
        let Some(signature) = crate::bytesfmt::string_from_utf8(parts.signature) else {
            return Err(AuthError::Serialization("invalid text".to_owned()));
        };
        proof {
            assert forall|o: Seq<char>, ik: Seq<char>, lv: Seq<char>, e: i64, sg: Seq<char>|
                encoded@ == crate::extcrypto::b64_of(
                    #[trigger] token_json(
                        encode_utf8(o),
                        encode_utf8(ik),
                        encode_utf8(lv),
                        e as int,
                        encode_utf8(sg),
                    ),
                ) implies org_id@ == o && inviter_key@ == ik && access_level@ == lv
                && parts.expiry_timestamp == e && signature@ == sg by {
                vstd::utf8::encode_utf8_decode_utf8(org_id@);
                vstd::utf8::encode_utf8_decode_utf8(inviter_key@);
                vstd::utf8::encode_utf8_decode_utf8(access_level@);
                vstd::utf8::encode_utf8_decode_utf8(signature@);
                vstd::utf8::encode_utf8_decode_utf8(o);
                vstd::utf8::encode_utf8_decode_utf8(ik);
                vstd::utf8::encode_utf8_decode_utf8(lv);
                vstd::utf8::encode_utf8_decode_utf8(sg);
            }
        }
        Ok(
            InviteToken {
                org_id,
                inviter_key,
                access_level,
                expiry_timestamp: parts.expiry_timestamp,
                signature,
            },
        )
    }
}

} // verus!
