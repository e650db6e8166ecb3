//! Public-discovery TXT records: the `v=delta1;…` key-value strings published
//! under a peer's key, and the `pk:` URL form of an identity.

use vstd::prelude::*;

use vstd::string::{StringSliceAdditionalSpecFns, StrSliceExecFns, StringExecFns};

use crate::bytesfmt::{hex_parse, valid_hex_bytes};
use crate::extcrypto::{ed25519_pk_valid, z32_of, z32_string};
use crate::topics::str_eq;

verus! {

/// A TXT record resolved from the DHT, decomposed into its fields.
pub struct PkarrResolvedRecord {
    pub record_type: String,
    pub name: Option<String>,
    pub username: Option<String>,
    pub description: Option<String>,
    pub bio: Option<String>,
    pub avatar_blob_id: Option<String>,
    pub cover_blob_id: Option<String>,
    pub public_key: String,
}

/// Index of the first semicolon, or the length when there is none.
pub open spec fn first_semi(s: Seq<char>) -> int
    decreases s.len(),
{
    if s.len() == 0 {
        0
    } else if s[0] == ';' {
        0
    } else {
        1 + first_semi(s.drop_first())
    }
}

/// The `;`-separated parts of a string, empties kept.
pub open spec fn split_semis(s: Seq<char>) -> Seq<Seq<char>>
    decreases s.len(),
{
    let j = first_semi(s);
    if 0 <= j < s.len() {
        seq![s.take(j)] + split_semis(s.skip(j + 1))
    } else {
        seq![s]
    }
}

/// Index of the first equals sign, or the length when there is none.
pub open spec fn first_eq(s: Seq<char>) -> int
    decreases s.len(),
{
    if s.len() == 0 {
        0
    } else if s[0] == '=' {
        0
    } else {
        1 + first_eq(s.drop_first())
    }
}

/// A part's key and value, split at its first equals sign; `None` when it has
/// none.
pub open spec fn kv_of(part: Seq<char>) -> Option<(Seq<char>, Seq<char>)> {
    let j = first_eq(part);
    if j >= part.len() {
        None
    } else {
        Some((part.take(j), part.skip(j + 1)))
    }
}

/// The value of the last part carrying the key, if any.
pub open spec fn txt_field(parts: Seq<Seq<char>>, key: Seq<char>) -> Option<Seq<char>>
    decreases parts.len(),
{
    if parts.len() == 0 {
        None
    } else {
        match kv_of(parts.last()) {
            Some(kv) => if kv.0 == key {
                Some(kv.1)
            } else {
                txt_field(parts.drop_last(), key)
            },
            None => txt_field(parts.drop_last(), key),
        }
    }
}

/// The bounds of both recursions.
proof fn lemma_first_index_bounds(s: Seq<char>)
    ensures
        0 <= first_semi(s) <= s.len(),
        0 <= first_eq(s) <= s.len(),
        first_semi(s) < s.len() ==> s[first_semi(s)] == ';',
        first_eq(s) < s.len() ==> s[first_eq(s)] == '=',
        forall|i: int| 0 <= i < first_semi(s) ==> s[i] != ';',
        forall|i: int| 0 <= i < first_eq(s) ==> s[i] != '=',
    decreases s.len(),
{
    if s.len() > 0 {
        lemma_first_index_bounds(s.drop_first());
        assert forall|i: int| 0 <= i < first_semi(s) implies s[i] != ';' by {
            if i > 0 {
                assert(s.drop_first()[i - 1] == s[i]);
            }
        }
        assert forall|i: int| 0 <= i < first_eq(s) implies s[i] != '=' by {
            if i > 0 {
                assert(s.drop_first()[i - 1] == s[i]);
            }
        }
        if s[0] != ';' && first_semi(s) < s.len() {
            assert(s.drop_first()[first_semi(s.drop_first())] == s[first_semi(s)]);
        }
        if s[0] != '=' && first_eq(s) < s.len() {
            assert(s.drop_first()[first_eq(s.drop_first())] == s[first_eq(s)]);
        }
    }
}

/// Find the first semicolon at or after `pos`, in character positions.
fn semi_at(s: &str, pos: usize, n: usize) -> (r: usize)
    requires
        n == s@.len(),
        pos <= n,
    ensures
        r as int == pos + first_semi(s@.skip(pos as int)),
        pos <= r <= n,
{
    let mut i: usize = pos;
    while i < n
        invariant
            pos <= i <= n,
            n == s@.len(),
            first_semi(s@.skip(pos as int)) == (i - pos) + first_semi(s@.skip(i as int)),
        decreases n - i,
    {
        proof {
            assert(s@.skip(i as int)[0] == s@[i as int]);
            assert(s@.skip(i as int).drop_first() =~= s@.skip(i as int + 1));
        }
        if s.get_char(i) == ';' {
            return i;
        }
        i = i + 1;
    }
    proof {
        assert(s@.skip(i as int).len() == 0);
    }
    i
}

/// Split a string on semicolons, empties kept.
pub fn split_on_semi(s: &str) -> (r: Vec<String>)
    ensures
        r.deep_view() == split_semis(s@),
{
    let n = s.unicode_len();
    let mut out: Vec<String> = Vec::new();
    let mut start: usize = 0;
    proof {
        assert(s@.skip(0) =~= s@);
        assert(out.deep_view() + split_semis(s@) =~= split_semis(s@));
    }
    loop
        invariant
            start <= n,
            n == s@.len(),
            split_semis(s@) == out.deep_view() + split_semis(s@.skip(start as int)),
        decreases n - start,
    {
        let j = semi_at(s, start, n);
        let ghost rest = s@.skip(start as int);
        proof {
            lemma_first_index_bounds(rest);
            assert(rest.take(first_semi(rest)) =~= s@.subrange(start as int, j as int));
        }
        let part = s.substring_char(start, j).to_owned();
        let ghost out_pre = out.deep_view();
        out.push(part);
        proof {
            assert(out.deep_view() =~= out_pre.push(part@));
        }
        if j == n {
            proof {
                assert(first_semi(rest) >= rest.len());
                assert(split_semis(rest) =~= seq![rest]);
                assert(part@ =~= rest);
                assert(out.deep_view() =~= out_pre + seq![rest]);
                assert(split_semis(s@) =~= out.deep_view());
            }
            return out;
        }
        proof {
            assert(first_semi(rest) < rest.len());
            assert(split_semis(rest) =~= seq![rest.take(first_semi(rest))] + split_semis(
                rest.skip(first_semi(rest) + 1),
            ));
            assert(rest.skip(first_semi(rest) + 1) =~= s@.skip(j as int + 1));
            assert(out.deep_view() + split_semis(s@.skip(j as int + 1)) =~= out_pre + (seq![
                part@,
            ] + split_semis(s@.skip(j + 1))));
            assert(split_semis(s@) =~= out.deep_view() + split_semis(s@.skip(j as int + 1)));
        }
        start = j + 1;
    }
}

/// Split a part at its first equals sign.
pub fn split_kv(part: &str) -> (r: Option<(String, String)>)
    ensures
        r is Some <==> kv_of(part@) is Some,
        r is Some ==> ({
            let q = r->0;
            let kv = kv_of(part@)->0;
            q.0@ == kv.0 && q.1@ == kv.1
        }),
{
    let n = part.unicode_len();
    let mut i: usize = 0;
    proof {
        assert(part@.skip(0) =~= part@);
    }
    while i < n
        invariant
            i <= n,
            n == part@.len(),
            first_eq(part@) == i + first_eq(part@.skip(i as int)),
            forall|k: int| 0 <= k < i ==> part@[k] != '=',
        decreases n - i,
    {
        proof {
            assert(part@.skip(i as int)[0] == part@[i as int]);
            assert(part@.skip(i as int).drop_first() =~= part@.skip(i as int + 1));
        }
        if part.get_char(i) == '=' {
            proof {
                assert(first_eq(part@) == i as int);
            }
            let key = part.substring_char(0, i).to_owned();
            let value = part.substring_char(i + 1, n).to_owned();
            proof {
                assert(key@ =~= part@.take(i as int));
                assert(value@ =~= part@.skip(i as int + 1));
            }
            return Some((key, value));
        }
        i = i + 1;
    }
    proof {
        assert(part@.skip(i as int).len() == 0);
        assert(first_eq(part@) >= part@.len());
    }
    None
}

/// View of an optional string.
pub open spec fn opt_view(o: Option<String>) -> Option<Seq<char>> {
    match o {
        Some(s) => Some(s@),
        None => None,
    }
}

/// Decompose a `v=delta1;…` TXT record: for each known key the value of its
/// last occurrence; the record type falls back to `none`.
pub fn parse_txt_record(txt: &str, z32_key: &str) -> (r: PkarrResolvedRecord)
    ensures
        r.public_key@ == z32_key@,
        ({
            let parts = split_semis(txt@);
            &&& r.record_type@ == (match txt_field(parts, "t"@) {
                Some(v) => v,
                None => "none"@,
            })
            &&& opt_view(r.username) == txt_field(parts, "u"@)
            &&& opt_view(r.name) == txt_field(parts, "n"@)
            &&& opt_view(r.bio) == txt_field(parts, "b"@)
            &&& opt_view(r.description) == txt_field(parts, "d"@)
            &&& opt_view(r.avatar_blob_id) == txt_field(parts, "a"@)
            &&& opt_view(r.cover_blob_id) == txt_field(parts, "c"@)
        }),
{
    let parts = split_on_semi(txt);
    let mut record_type: Option<String> = None;
    let mut username: Option<String> = None;
    let mut name: Option<String> = None;
    let mut bio: Option<String> = None;
    let mut description: Option<String> = None;
    let mut avatar_blob_id: Option<String> = None;
    let mut cover_blob_id: Option<String> = None;
    let n = parts.len();
    let mut i: usize = n;
    let ghost all = parts.deep_view();
    proof {
        assert(all.skip(n as int).len() == 0);
    }
    while i > 0
        invariant
            i <= n,
            n == parts@.len(),
            all == parts.deep_view(),
            all == split_semis(txt@),
            opt_view(record_type) == txt_field(all.skip(i as int), "t"@),
            opt_view(username) == txt_field(all.skip(i as int), "u"@),
            opt_view(name) == txt_field(all.skip(i as int), "n"@),
            opt_view(bio) == txt_field(all.skip(i as int), "b"@),
            opt_view(description) == txt_field(all.skip(i as int), "d"@),
            opt_view(avatar_blob_id) == txt_field(all.skip(i as int), "a"@),
            opt_view(cover_blob_id) == txt_field(all.skip(i as int), "c"@),
        decreases i,
    {
        i = i - 1;
        let part = &parts[i];
        proof {
            reveal_strlit("t");
            reveal_strlit("u");
            reveal_strlit("n");
            reveal_strlit("b");
            reveal_strlit("d");
            reveal_strlit("a");
            reveal_strlit("c");
            lemma_txt_field_step(all, i as int);
            assert(part@ == all[i as int]);
        }
        proof {
            assert("t"@.len() == 1 && "u"@.len() == 1 && "n"@.len() == 1 && "b"@.len() == 1
                && "d"@.len() == 1 && "a"@.len() == 1 && "c"@.len() == 1);
            assert("t"@[0] == 't' && "u"@[0] == 'u' && "n"@[0] == 'n' && "b"@[0] == 'b' && "d"@[0]
                == 'd' && "a"@[0] == 'a' && "c"@[0] == 'c');
        }
        if let Some((key, value)) = split_kv(part.as_str()) {
            let is_t = str_eq(key.as_str(), "t");
            let is_u = str_eq(key.as_str(), "u");
            let is_n = str_eq(key.as_str(), "n");
            let is_b = str_eq(key.as_str(), "b");
            let is_d = str_eq(key.as_str(), "d");
            let is_a = str_eq(key.as_str(), "a");
            let is_c = str_eq(key.as_str(), "c");
            if is_t && record_type.is_none() {
                record_type = Some(value);
            } else if is_u && username.is_none() {
                username = Some(value);
            } else if is_n && name.is_none() {
                name = Some(value);
            } else if is_b && bio.is_none() {
                bio = Some(value);
            } else if is_d && description.is_none() {
                description = Some(value);
            } else if is_a && avatar_blob_id.is_none() {
                avatar_blob_id = Some(value);
            } else if is_c && cover_blob_id.is_none() {
                cover_blob_id = Some(value);
            }
        }
    }
    proof {
        assert(all.skip(0) =~= all);
    }
    let record_type_final: String = match record_type {
        Some(v) => v,
        None => "none".to_owned(),
    };
    PkarrResolvedRecord {
        record_type: record_type_final,
        name,
        username,
        description,
        bio,
        avatar_blob_id,
        cover_blob_id,
        public_key: z32_key.to_owned(),
    }
}

/// Unfolding the last-wins lookup one part at a time, from the back.
proof fn lemma_txt_field_step(all: Seq<Seq<char>>, i: int)
    requires
        0 <= i < all.len(),
    ensures
        forall|key: Seq<char>|
            #[trigger] txt_field(all.skip(i), key) == (match kv_of(all[i]) {
                Some(kv) => if kv.0 == key && txt_field(all.skip(i + 1), key) is None {
                    Some(kv.1)
                } else {
                    txt_field(all.skip(i + 1), key)
                },
                None => txt_field(all.skip(i + 1), key),
            }),
    decreases all.len() - i,
{
    assert forall|key: Seq<char>|
        #[trigger] txt_field(all.skip(i), key) == (match kv_of(all[i]) {
            Some(kv) => if kv.0 == key && txt_field(all.skip(i + 1), key) is None {
                Some(kv.1)
            } else {
                txt_field(all.skip(i + 1), key)
            },
            None => txt_field(all.skip(i + 1), key),
        }) by {
        lemma_txt_field_head(all.skip(i), key);
        assert(all.skip(i)[0] == all[i]);
        assert(all.skip(i).drop_first() =~= all.skip(i + 1));
    }
}

/// The last-wins lookup seen from the front: the head entry only matters
/// when no later part carries the key.
proof fn lemma_txt_field_head(parts: Seq<Seq<char>>, key: Seq<char>)
    requires
        parts.len() > 0,
    ensures
        txt_field(parts, key) == (match kv_of(parts[0]) {
            Some(kv) => if kv.0 == key && txt_field(parts.drop_first(), key) is None {
                Some(kv.1)
            } else {
                txt_field(parts.drop_first(), key)
            },
            None => txt_field(parts.drop_first(), key),
        }),
    decreases parts.len(),
{
    if parts.len() == 1 {
        assert(parts.drop_first().len() == 0);
        assert(parts.last() == parts[0]);
        assert(parts.drop_last().len() == 0);
    } else {
        lemma_txt_field_head(parts.drop_last(), key);
        assert(parts.drop_last()[0] == parts[0]);
        assert(parts.drop_first().last() == parts.last());
        assert(parts.drop_first().drop_last() =~= parts.drop_last().drop_first());
        lemma_txt_field_head(parts.drop_first(), key);
    }
}


/// The `pk:` URL of a public key: its z-base-32 form behind the scheme.
/// Succeeds exactly on 64 hex digits spelling a valid Ed25519 point.
pub fn get_pkarr_url(public_key_hex: &str) -> (r: Result<String, String>)
    ensures
        r is Ok <==> valid_hex_bytes(public_key_hex.spec_bytes()) && public_key_hex.spec_bytes().len()
            == 64 && ed25519_pk_valid(hex_parse(public_key_hex.spec_bytes())),
        r is Ok ==> r->Ok_0@ == "pk:"@ + z32_of(hex_parse(public_key_hex.spec_bytes())),
{
    let bytes = public_key_hex.as_bytes_vec();
    let Some(pk) = crate::bytesfmt::hex_decode_bytes(bytes.as_slice()) else {
        return Err("invalid hex".to_owned());
    };
    if pk.len() != 32 {
        return Err("invalid key length".to_owned());
    }
    let Some(z) = z32_string(pk.as_slice()) else {
        return Err("invalid public key".to_owned());
    };
    let mut out = "pk:".to_owned();
    out.append(z.as_str());
    Ok(out)
}

/// Strip the `pk:` scheme off a pkarr URL; `None` when it is absent.
pub fn parse_pkarr_url(url: &str) -> (r: Option<String>)
    ensures
        r is Some <==> url@.len() >= 3 && url@.subrange(0, 3) == "pk:"@,
        r is Some ==> r->0@ == url@.skip(3),
{
    proof {
        reveal_strlit("pk:");
    }
    let n = url.unicode_len();
    if n < 3 {
        proof {
            assert("pk:"@.len() == 3);
        }
        return None;
    }
    if url.get_char(0) == 'p' && url.get_char(1) == 'k' && url.get_char(2) == ':' {
        proof {
            assert(url@.subrange(0, 3) =~= "pk:"@);
        }
        Some(url.substring_char(3, n).to_owned())
    } else {
        proof {
            assert("pk:"@[0] == 'p' && "pk:"@[1] == 'k' && "pk:"@[2] == ':');
            if url@.subrange(0, 3) == "pk:"@ {
                assert(url@.subrange(0, 3)[0] == url@[0]);
                assert(url@.subrange(0, 3)[1] == url@[1]);
                assert(url@.subrange(0, 3)[2] == url@[2]);
            }
        }
        None
    }
}

/// A long field cut for the record: at most `max` characters, else the first
/// `cut` with a trailing ellipsis.
pub open spec fn truncated(s: Seq<char>, max: int, cut: int) -> Seq<char> {
    if s.len() > max {
        s.take(cut) + "..."@
    } else {
        s
    }
}

/// Cut a field to the record's limits.
fn truncate_field(s: &str, max: usize, cut: usize) -> (r: String)
    requires
        cut <= max,
    ensures
        r@ == truncated(s@, max as int, cut as int),
{
    let n = s.unicode_len();
    if n > max {
        let mut out = s.substring_char(0, cut).to_owned();
        out.append("...");
        out
    } else {
        s.to_owned()
    }
}

/// The TXT record of a user profile:
/// `v=delta1;t=user;u=<name>[;b=<bio>][;a=<avatar>]`, with the bio cut to
/// 100 characters.
pub open spec fn user_txt(
    username: Seq<char>,
    bio: Option<Seq<char>>,
    avatar: Option<Seq<char>>,
) -> Seq<char> {
    "v=delta1;t=user;u="@ + username + (match bio {
        Some(b) => if b.len() == 0 {
            Seq::<char>::empty()
        } else {
            ";b="@ + truncated(b, 100, 97)
        },
        None => Seq::<char>::empty(),
    }) + (match avatar {
        Some(a) => ";a="@ + a,
        None => Seq::<char>::empty(),
    })
}

/// Build a user profile record.
pub fn build_user_txt_record(username: &str, bio: Option<&str>, avatar_blob_id: Option<&str>) -> (r:
    String)
    ensures
        r@ == user_txt(
            username@,
            match bio {
                Some(b) => Some(b@),
                None => None,
            },
            match avatar_blob_id {
                Some(a) => Some(a@),
                None => None,
            },
        ),
{
    let mut out = "v=delta1;t=user;u=".to_owned();
    out.append(username);
    let ghost mid = out@;
    if let Some(b) = bio {
        if b.unicode_len() > 0 {
            out.append(";b=");
            let cut = truncate_field(b, 100, 97);
            out.append(cut.as_str());
        }
    }
    proof {
        assert(out@ =~= mid + (match bio {
            Some(b) => if b@.len() == 0 {
                Seq::<char>::empty()
            } else {
                ";b="@ + truncated(b@, 100, 97)
            },
            None => Seq::<char>::empty(),
        }));
    }
    let ghost mid2 = out@;
    if let Some(a) = avatar_blob_id {
        out.append(";a=");
        out.append(a);
    }
    proof {
        assert(out@ =~= mid2 + (match avatar_blob_id {
            Some(a) => ";a="@ + a@,
            None => Seq::<char>::empty(),
        }));
        assert(out@ =~= user_txt(
            username@,
            match bio {
                Some(b) => Some(b@),
                None => None,
            },
            match avatar_blob_id {
                Some(a) => Some(a@),
                None => None,
            },
        ));
    }
    out
}

/// The TXT record of an organization:
/// `v=delta1;t=org;n=<name>[;d=<desc>][;a=<avatar>][;c=<cover>]`, with the
/// description cut to 150 characters.
pub open spec fn org_txt(
    name: Seq<char>,
    description: Option<Seq<char>>,
    avatar: Option<Seq<char>>,
    cover: Option<Seq<char>>,
) -> Seq<char> {
    "v=delta1;t=org;n="@ + name + (match description {
        Some(d) => if d.len() == 0 {
            Seq::<char>::empty()
        } else {
            ";d="@ + truncated(d, 150, 147)
        },
        None => Seq::<char>::empty(),
    }) + (match avatar {
        Some(a) => ";a="@ + a,
        None => Seq::<char>::empty(),
    }) + (match cover {
        Some(c) => ";c="@ + c,
        None => Seq::<char>::empty(),
    })
}

/// Build an organization record.
pub fn build_org_txt_record(
    name: &str,
    description: Option<&str>,
    avatar_blob_id: Option<&str>,
    cover_blob_id: Option<&str>,
) -> (r: String)
    ensures
        r@ == org_txt(
            name@,
            match description {
                Some(d) => Some(d@),
                None => None,
            },
            match avatar_blob_id {
                Some(a) => Some(a@),
                None => None,
            },
            match cover_blob_id {
                Some(c) => Some(c@),
                None => None,
            },
        ),
{
    let mut out = "v=delta1;t=org;n=".to_owned();
    out.append(name);
    let ghost mid = out@;
    if let Some(d) = description {
        if d.unicode_len() > 0 {
            out.append(";d=");
            let cut = truncate_field(d, 150, 147);
            out.append(cut.as_str());
        }
    }
    proof {
        assert(out@ =~= mid + (match description {
            Some(d) => if d@.len() == 0 {
                Seq::<char>::empty()
            } else {
                ";d="@ + truncated(d@, 150, 147)
            },
            None => Seq::<char>::empty(),
        }));
    }
    let ghost mid2 = out@;
    if let Some(a) = avatar_blob_id {
        out.append(";a=");
        out.append(a);
    }
    proof {
        assert(out@ =~= mid2 + (match avatar_blob_id {
            Some(a) => ";a="@ + a@,
            None => Seq::<char>::empty(),
        }));
    }
    let ghost mid3 = out@;
    if let Some(c) = cover_blob_id {
        out.append(";c=");
        out.append(c);
    }
    proof {
        assert(out@ =~= mid3 + (match cover_blob_id {
            Some(c) => ";c="@ + c@,
            None => Seq::<char>::empty(),
        }));
        assert(out@ =~= org_txt(
            name@,
            match description {
                Some(d) => Some(d@),
                None => None,
            },
            match avatar_blob_id {
                Some(a) => Some(a@),
                None => None,
            },
            match cover_blob_id {
                Some(c) => Some(c@),
                None => None,
            },
        ));
    }
    out
}

} // verus!
