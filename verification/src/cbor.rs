//! A small canonical CBOR encoder: exactly the shapes the op bodies use —
//! maps with text keys, text and byte strings, unsigned integers, booleans,
//! null, and arrays of text.

use vstd::prelude::*;

use vstd::string::StringSliceAdditionalSpecFns;
use vstd::utf8::encode_utf8;

use crate::topics::append_bytes;

verus! {

/// Header bytes of one CBOR item: the major type in the top three bits and
/// the length or value below, widened through the 1-, 2-, 4- or 8-byte forms.
pub open spec fn cbor_hdr(major: u8, n: nat) -> Seq<u8>
    recommends
        major < 8,
{
    if n < 24 {
        seq![(major * 32 + n) as u8]
    } else if n < 256 {
        seq![(major * 32 + 24) as u8, n as u8]
    } else if n < 65536 {
        seq![(major * 32 + 25) as u8, (n / 256) as u8, (n % 256) as u8]
    } else if n < 4294967296 {
        seq![
            (major * 32 + 26) as u8,
            (n / 0x100_0000) as u8,
            ((n / 0x1_0000) % 256) as u8,
            ((n / 0x100) % 256) as u8,
            (n % 256) as u8,
        ]
    } else {
        seq![
            (major * 32 + 27) as u8,
            ((n / 0x100_0000_0000_0000) % 256) as u8,
            ((n / 0x1_0000_0000_0000) % 256) as u8,
            ((n / 0x100_0000_0000) % 256) as u8,
            ((n / 0x1_0000_0000) % 256) as u8,
            ((n / 0x100_0000) % 256) as u8,
            ((n / 0x1_0000) % 256) as u8,
            ((n / 0x100) % 256) as u8,
            (n % 256) as u8,
        ]
    }
}

/// Every length header fits in nine bytes.
pub proof fn lemma_cbor_hdr_len(major: u8, n: nat)
    ensures
        1 <= cbor_hdr(major, n).len() <= 9,
{
}

/// A CBOR unsigned integer.
pub open spec fn cbor_uint(n: nat) -> Seq<u8> {
    cbor_hdr(0, n)
}

/// A CBOR text string: its UTF-8 bytes behind a length header.
pub open spec fn cbor_text(s: Seq<char>) -> Seq<u8> {
    cbor_hdr(3, encode_utf8(s).len()) + encode_utf8(s)
}

/// A CBOR byte string.
pub open spec fn cbor_bytes(b: Seq<u8>) -> Seq<u8> {
    cbor_hdr(2, b.len()) + b
}

/// A CBOR boolean.
pub open spec fn cbor_bool(b: bool) -> Seq<u8> {
    if b {
        seq![0xf5u8]
    } else {
        seq![0xf4u8]
    }
}

/// CBOR null.
pub open spec fn cbor_null() -> Seq<u8> {
    seq![0xf6u8]
}

/// A text string, or null when absent.
pub open spec fn cbor_opt_text(s: Option<Seq<char>>) -> Seq<u8> {
    match s {
        Some(v) => cbor_text(v),
        None => cbor_null(),
    }
}

/// The elements of a text array, in order, without the header.
pub open spec fn cbor_text_array_items(items: Seq<Seq<char>>) -> Seq<u8>
    decreases items.len(),
{
    if items.len() == 0 {
        Seq::empty()
    } else {
        cbor_text_array_items(items.drop_last()) + cbor_text(items.last())
    }
}

/// Append the header of one CBOR item.
pub fn push_cbor_hdr(out: &mut Vec<u8>, major: u8, n: u64)
    requires
        major < 8,
    ensures
        final(out)@ == old(out)@ + cbor_hdr(major, n as nat),
{
    if n < 24 {
        out.push(major * 32 + (n as u8));
        proof {
            assert(out@ =~= old(out)@ + cbor_hdr(major, n as nat));
        }
    } else if n < 256 {
        out.push(major * 32 + 24);
        out.push(n as u8);
        proof {
            assert(out@ =~= old(out)@ + cbor_hdr(major, n as nat));
        }
    } else if n < 65536 {
        out.push(major * 32 + 25);
        out.push((n / 256) as u8);
        out.push((n % 256) as u8);
        proof {
            assert(out@ =~= old(out)@ + cbor_hdr(major, n as nat));
        }
    } else if n < 4294967296 {
        out.push(major * 32 + 26);
        out.push((n / 0x100_0000) as u8);
        out.push(((n / 0x1_0000) % 256) as u8);
        out.push(((n / 0x100) % 256) as u8);
        out.push((n % 256) as u8);
        proof {
            assert(out@ =~= old(out)@ + cbor_hdr(major, n as nat));
        }
    } else {
        out.push(major * 32 + 27);
        out.push(((n / 0x100_0000_0000_0000) % 256) as u8);
        out.push(((n / 0x1_0000_0000_0000) % 256) as u8);
        out.push(((n / 0x100_0000_0000) % 256) as u8);
        out.push(((n / 0x1_0000_0000) % 256) as u8);
        out.push(((n / 0x100_0000) % 256) as u8);
        out.push(((n / 0x1_0000) % 256) as u8);
        out.push(((n / 0x100) % 256) as u8);
        out.push((n % 256) as u8);
        proof {
            assert(out@ =~= old(out)@ + cbor_hdr(major, n as nat));
        }
    }
}

/// Append a CBOR unsigned integer.
pub fn push_cbor_uint(out: &mut Vec<u8>, n: u64)
    ensures
        final(out)@ == old(out)@ + cbor_uint(n as nat),
{
    push_cbor_hdr(out, 0, n);
}

/// Append a CBOR text string.
pub fn push_cbor_text(out: &mut Vec<u8>, s: &str)
    ensures
        final(out)@ == old(out)@ + cbor_text(s@),
{
    let b = s.as_bytes_vec();
    push_cbor_hdr(out, 3, b.len() as u64);
    append_bytes(out, &b);
}

/// Append a CBOR byte string.
pub fn push_cbor_bytes(out: &mut Vec<u8>, b: &Vec<u8>)
    ensures
        final(out)@ == old(out)@ + cbor_bytes(b@),
{
    push_cbor_hdr(out, 2, b.len() as u64);
    append_bytes(out, b);
}

/// Append a CBOR boolean.
pub fn push_cbor_bool(out: &mut Vec<u8>, b: bool)
    ensures
        final(out)@ == old(out)@ + cbor_bool(b),
{
    if b {
        out.push(0xf5);
    } else {
        out.push(0xf4);
    }
    proof {
        assert(out@ =~= old(out)@ + cbor_bool(b));
    }
}

/// Append a text string or null.
pub fn push_cbor_opt_text(out: &mut Vec<u8>, s: &Option<String>)
    ensures
        final(out)@ == old(out)@ + cbor_opt_text(
            match s {
                Some(v) => Some(v@),
                None => None,
            },
        ),
{
    match s {
        Some(v) => {
            push_cbor_text(out, v.as_str());
        },
        None => {
            out.push(0xf6);
            proof {
                assert(out@ =~= old(out)@ + cbor_null());
            }
        },
    }
}

/// Append an array of text strings.
pub fn push_cbor_text_array(out: &mut Vec<u8>, items: &Vec<String>)
    ensures
        final(out)@ == old(out)@ + cbor_hdr(4, items@.len() as nat) + cbor_text_array_items(
            items.deep_view(),
        ),
{
    push_cbor_hdr(out, 4, items.len() as u64);
    let ghost mid = out@;
    let n = items.len();
    let mut i: usize = 0;
    while i < n
        invariant
            i <= n,
            n == items@.len(),
            out@ == mid + cbor_text_array_items(items.deep_view().take(i as int)),
        decreases n - i,
    {
        push_cbor_text(out, items[i].as_str());
        i = i + 1;
        proof {
            let w = items.deep_view();
            assert(w.take(i as int).drop_last() =~= w.take(i as int - 1));
            assert(w.take(i as int).last() == w[i as int - 1]);
            assert(w[i - 1] == items@[i - 1]@);
            assert(out@ =~= mid + cbor_text_array_items(w.take(i as int)));
        }
    }
    proof {
        assert(items.deep_view().take(items@.len() as int) =~= items.deep_view());
    }
}


/// Width of the canonical length header for a payload of `n` bytes.
pub open spec fn cbor_hdr_width(n: nat) -> int {
    if n < 24 {
        1
    } else if n < 256 {
        2
    } else if n < 65536 {
        3
    } else if n < 0x1_0000_0000 {
        5
    } else {
        9
    }
}

/// What the head of an input starting with a canonical byte string looks
/// like: the header byte fixes the length form, the length bytes spell the
/// payload length, and the payload sits right behind the header.
proof fn lemma_bytes_form(b: Seq<u8>, rest: Seq<u8>, tail: Seq<u8>)
    requires
        b.len() < 0x1_0000_0000,
        tail == cbor_bytes(b) + rest,
    ensures
        tail.len() >= cbor_hdr_width(b.len()) + b.len(),
        b.len() < 24 ==> tail[0] == (0x40 + b.len()) as u8,
        24 <= b.len() < 256 ==> tail[0] == 0x58 && tail[1] == b.len() as u8,
        256 <= b.len() < 65536 ==> tail[0] == 0x59 && (tail[1] as int) * 256 + (tail[2] as int)
            == b.len(),
        65536 <= b.len() ==> tail[0] == 0x5a && (tail[1] as int) * 0x100_0000 + (tail[2] as int)
            * 0x1_0000 + (tail[3] as int) * 0x100 + (tail[4] as int) == b.len(),
        b =~= tail.subrange(cbor_hdr_width(b.len()), cbor_hdr_width(b.len()) + b.len() as int),
{
    let w = cbor_hdr_width(b.len());
    assert(cbor_bytes(b) == cbor_hdr(2, b.len()) + b);
    assert(cbor_hdr(2, b.len()).len() == w);
    assert forall|i: int| 0 <= i < w implies tail[i] == cbor_hdr(2, b.len())[i] by {}
    if 256 <= b.len() < 65536 {
        lemma_be2_value(b.len() as u64);
    }
    if 65536 <= b.len() {
        lemma_be4_value(b.len() as u64);
    }
    assert forall|i: int| 0 <= i < b.len() implies b[i] == tail[w + i] by {
        assert(tail[w + i] == (cbor_hdr(2, b.len()) + b)[w + i]);
    }
}

/// Reassembling a two-byte big-endian length gives the value back.
proof fn lemma_be2_value(n: u64)
    requires
        n < 65536,
    ensures
        ((n / 256) as int) * 256 + (n % 256) as int == n,
{
}

/// Reassembling a four-byte big-endian length gives the value back.
proof fn lemma_be4_value(n: u64)
    requires
        n < 0x1_0000_0000,
    ensures
        ((n / 0x100_0000) as int) * 0x100_0000 + (((n / 0x1_0000) % 256) as int) * 0x1_0000 + (((n
            / 0x100) % 256) as int) * 0x100 + (n % 256) as int == n,
{
    assert((n / 0x100_0000) * 0x100_0000 + ((n / 0x1_0000) % 256) * 0x1_0000 + ((n / 0x100) % 256)
        * 0x100 + n % 256 == n) by (bit_vector)
        requires
            n < 0x1_0000_0000,
    ;
}

/// Read the header of a canonical byte-string item: its payload length and
/// where the payload starts.
#[verifier::spinoff_prover]
#[verifier::rlimit(100)]
fn parse_bytes_hdr(u: &[u8], pos: usize) -> (r: Option<(usize, usize)>)
    requires
        pos <= u@.len(),
    ensures
        r is Some ==> ({
            let q = r->0;
            pos < q.1 <= u@.len() && u@.subrange(pos as int, q.1 as int) == cbor_hdr(
                2,
                q.0 as nat,
            )
        }),
        forall|b: Seq<u8>, rest: Seq<u8>|
            b.len() < 0x1_0000_0000 && u@.skip(pos as int) == #[trigger] (cbor_bytes(b) + rest)
                ==> r is Some && ({
                let q = r->0;
                q.0 == b.len() && q.1 == pos + cbor_hdr_width(b.len())
            }),
{
    let ghost tail = u@.skip(pos as int);
    if pos >= u.len() {
        proof {
            assert forall|b: Seq<u8>, rest: Seq<u8>|
                !(b.len() < 0x1_0000_0000 && tail == #[trigger] (cbor_bytes(b) + rest)) by {
                if b.len() < 0x1_0000_0000 && tail == cbor_bytes(b) + rest {
                    lemma_bytes_form(b, rest, tail);
                }
            }
        }
        return None;
    }
    let h = u[pos];
    proof {
        assert(tail[0] == u@[pos as int]);
    }
    let r: Option<(usize, usize)> = if 0x40 <= h && h < 0x58 {
        proof {
            assert(u@.subrange(pos as int, pos as int + 1) =~= cbor_hdr(2, (h - 0x40) as nat));
        }
        Some(((h - 0x40) as usize, pos + 1))
    } else if h == 0x58 && u.len() - pos >= 2 && u[pos + 1] >= 24 {
        proof {
            assert(tail[1] == u@[pos as int + 1]);
            assert(u@.subrange(pos as int, pos as int + 2) =~= cbor_hdr(
                2,
                u@[pos as int + 1] as nat,
            ));
        }
        Some((u[pos + 1] as usize, pos + 2))
    } else if h == 0x59 && u.len() - pos >= 3 && ((u[pos + 1] as usize) * 256 + (u[pos + 2]
        as usize)) >= 256 {
        proof {
            assert(tail[1] == u@[pos as int + 1]);
            assert(tail[2] == u@[pos as int + 2]);
            assert(u@.subrange(pos as int, pos as int + 3) =~= cbor_hdr(
                2,
                ((u@[pos as int + 1] as nat) * 256 + (u@[pos as int + 2] as nat)),
            ));
        }
        Some(((u[pos + 1] as usize) * 256 + (u[pos + 2] as usize), pos + 3))
    } else if h == 0x5a && u.len() - pos >= 5 && ((u[pos + 1] as u64) * 0x100_0000 + (u[pos + 2]
        as u64) * 0x1_0000 + (u[pos + 3] as u64) * 0x100 + (u[pos + 4] as u64)) >= 65536 {
        let l: u64 = (u[pos + 1] as u64) * 0x100_0000 + (u[pos + 2] as u64) * 0x1_0000 + (u[pos
            + 3] as u64) * 0x100 + (u[pos + 4] as u64);
        proof {
            assert(tail[1] == u@[pos as int + 1]);
            assert(tail[2] == u@[pos as int + 2]);
            assert(tail[3] == u@[pos as int + 3]);
            assert(tail[4] == u@[pos as int + 4]);
            assert(l < 0x1_0000_0000) by (nonlinear_arith)
                requires
                    l == (u@[pos as int + 1] as u64) * 0x100_0000 + (u@[pos as int + 2] as u64)
                        * 0x1_0000 + (u@[pos as int + 3] as u64) * 0x100 + (u@[pos as int + 4]
                        as u64),
                    u@[pos as int + 1] < 256 && u@[pos as int + 2] < 256 && u@[pos as int + 3]
                        < 256 && u@[pos as int + 4] < 256,
            ;
            assert(u@.subrange(pos as int, pos as int + 5) =~= cbor_hdr(2, l as nat));
        }
        Some((l as usize, pos + 5))
    } else {
        proof {
            assert forall|b: Seq<u8>, rest: Seq<u8>|
                !(b.len() < 0x1_0000_0000 && tail == #[trigger] (cbor_bytes(b) + rest)) by {
                if b.len() < 0x1_0000_0000 && tail == cbor_bytes(b) + rest {
                    lemma_bytes_form(b, rest, tail);
                }
            }
        }
        return None;
    };
    proof {
        assert forall|b: Seq<u8>, rest: Seq<u8>|
            b.len() < 0x1_0000_0000 && tail == #[trigger] (cbor_bytes(b) + rest) implies r is Some
            && ({
            let q = r->0;
            q.0 == b.len() && q.1 == pos + cbor_hdr_width(b.len())
        }) by {
            lemma_bytes_form(b, rest, tail);
        }
    }
    r
}

/// Read one canonical byte-string item at `pos`: the result re-encodes to
/// exactly the consumed bytes, and any input that opens with a canonical
/// byte string (shorter than four gigabytes) parses to its content.
#[verifier::spinoff_prover]
#[verifier::rlimit(100)]
pub fn parse_cbor_bytes_at(u: &[u8], pos: usize) -> (r: Option<(Vec<u8>, usize)>)
    requires
        pos <= u@.len(),
    ensures
        r is Some ==> ({
            let q = r->0;
            pos < q.1 <= u@.len() && u@.subrange(pos as int, q.1 as int) == cbor_bytes(q.0@)
        }),
        forall|b: Seq<u8>, rest: Seq<u8>|
            b.len() < 0x1_0000_0000 && u@.skip(pos as int) == #[trigger] (cbor_bytes(b) + rest)
                ==> r is Some && ({
                let q = r->0;
                q.0@ == b && q.1 == pos + cbor_bytes(b).len()
            }),
{
    let ghost tail = u@.skip(pos as int);
    let Some((len, body_start)) = parse_bytes_hdr(u, pos) else {
        return None;
    };
    if u.len() - body_start < len {
        proof {
            assert forall|b: Seq<u8>, rest: Seq<u8>|
                !(b.len() < 0x1_0000_0000 && tail == #[trigger] (cbor_bytes(b) + rest)) by {
                if b.len() < 0x1_0000_0000 && tail == cbor_bytes(b) + rest {
                    lemma_bytes_form(b, rest, tail);
                }
            }
        }
        return None;
    }
    let content = vstd::slice::slice_to_vec(
        vstd::slice::slice_subrange(u, body_start, body_start + len),
    );
    proof {
        assert(u@.subrange(pos as int, (body_start + len) as int) =~= cbor_bytes(content@));
        assert forall|b: Seq<u8>, rest: Seq<u8>|
            b.len() < 0x1_0000_0000 && tail == #[trigger] (cbor_bytes(b) + rest) implies content@
            == b && (body_start + len) == pos + cbor_bytes(b).len() by {
            lemma_bytes_form(b, rest, tail);
            assert(content@ =~= b) by {
                assert forall|i: int| 0 <= i < b.len() implies content@[i] == b[i] by {
                    assert(content@[i] == u@[body_start + i]);
                    assert(b[i] == tail.subrange(
                        cbor_hdr_width(b.len()),
                        cbor_hdr_width(b.len()) + b.len() as int,
                    )[i]);
                    assert(tail[cbor_hdr_width(b.len()) + i] == u@[pos + cbor_hdr_width(b.len())
                        + i]);
                }
            }
        }
    }
    Some((content, body_start + len))
}

} // verus!
