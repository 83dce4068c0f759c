//! The cache snapshot format: an ordered list of `{key, value}` records in a
//! compact binary encoding, with no schema versioning. Each record is the
//! key's UTF-8 bytes and the raw value bytes, both prefixed by their length
//! as eight little-endian bytes. Decoding tolerates any input: a truncated
//! or otherwise malformed byte string decodes to nothing rather than failing.

use vstd::bytes::*;
use vstd::prelude::*;
use vstd::utf8::*;

verus! {

/// One record of a cache snapshot: a request fingerprint and the raw
/// response body that was cached for it.
#[derive(Debug, Clone, PartialEq)]
pub struct SavedEntry {
    pub key: String,
    pub value: Vec<u8>,
}

/// The mathematical content of one record: the key's characters and the
/// value's bytes.
pub type KeyVal = (Seq<char>, Seq<u8>);

/// The records' contents, in order.
pub open spec fn entry_views(es: Seq<SavedEntry>) -> Seq<KeyVal> {
    es.map_values(|e: SavedEntry| (e.key@, e.value@))
}

/// The encoding of one record.
pub open spec fn spec_encode_one(p: KeyVal) -> Seq<u8> {
    let kb = encode_utf8(p.0);
    spec_u64_to_le_bytes(kb.len() as u64) + kb + spec_u64_to_le_bytes(p.1.len() as u64) + p.1
}

/// The encoding of a list of records: their encodings, concatenated.
pub open spec fn spec_encode(ps: Seq<KeyVal>) -> Seq<u8>
    decreases ps.len(),
{
    if ps.len() == 0 {
        Seq::empty()
    } else {
        spec_encode_one(ps[0]) + spec_encode(ps.drop_first())
    }
}

/// What a byte string decodes to: the records read back to back, or nothing
/// if the bytes end inside a record or a key is not valid UTF-8.
pub open spec fn spec_decode(b: Seq<u8>) -> Option<Seq<KeyVal>>
    decreases b.len(),
{
    if b.len() == 0 {
        Some(Seq::empty())
    } else if b.len() < 8 {
        None
    } else {
        let klen = spec_u64_from_le_bytes(b.subrange(0, 8)) as int;
        if b.len() < 8 + klen {
            None
        } else {
            let kb = b.subrange(8, 8 + klen);
            let rest1 = b.skip(8 + klen);
            if !valid_utf8(kb) {
                None
            } else if rest1.len() < 8 {
                None
            } else {
                let vlen = spec_u64_from_le_bytes(rest1.subrange(0, 8)) as int;
                if rest1.len() < 8 + vlen {
                    None
                } else {
                    let vb = rest1.subrange(8, 8 + vlen);
                    let rest2 = rest1.skip(8 + vlen);
                    match spec_decode(rest2) {
                        None => None,
                        Some(tail) => Some(seq![(decode_utf8(kb), vb)] + tail),
                    }
                }
            }
        }
    }
}

/// Encoding a concatenation concatenates the encodings.
proof fn lemma_encode_app(a: Seq<KeyVal>, b: Seq<KeyVal>)
    ensures
        spec_encode(a + b) == spec_encode(a) + spec_encode(b),
    decreases a.len(),
{
    if a.len() == 0 {
        assert(a + b =~= b);
        assert(spec_encode(a) + spec_encode(b) =~= spec_encode(b));
    } else {
        assert((a + b).drop_first() =~= a.drop_first() + b);
        lemma_encode_app(a.drop_first(), b);
        assert(spec_encode(a + b) =~= spec_encode(a) + spec_encode(b));
    }
}

/// Relies on `String::from_utf8`: returns the decoded string exactly when
/// the bytes are valid UTF-8, and nothing otherwise.
#[verifier::external_body]
fn bytes_to_string(b: Vec<u8>) -> (r: Option<String>)
    ensures
        match r {
            Some(s) => valid_utf8(b@) && s@ == decode_utf8(b@),
            None => !valid_utf8(b@),
        },
{
    match String::from_utf8(b) {
        Ok(s) => Some(s),
        Err(_) => None,
    }
}

/// Serialize the records into the snapshot format.
pub fn encode_entries(es: &Vec<SavedEntry>) -> (out: Vec<u8>)
    ensures
        out@ == spec_encode(entry_views(es@)),
{
    let mut out: Vec<u8> = Vec::new();
    let mut i: usize = 0;
    while i < es.len()
        invariant
            i <= es@.len(),
            out@ == spec_encode(entry_views(es@.take(i as int))),
        decreases es@.len() - i,
    {
        let e = &es[i];
        let kb = e.key.as_str().as_bytes();
        let mut klen = u64_to_le_bytes(kb.len() as u64);
        out.append(&mut klen);
        out.extend_from_slice(kb);
        let mut vlen = u64_to_le_bytes(e.value.len() as u64);
        out.append(&mut vlen);
        out.extend_from_slice(e.value.as_slice());
        proof {
            let prefix = entry_views(es@.take(i as int));
            let one = seq![(es@[i as int].key@, es@[i as int].value@)];
            lemma_encode_app(prefix, one);
            assert(entry_views(es@.take(i + 1)) =~= prefix + one);
            assert(one.drop_first() =~= Seq::<KeyVal>::empty());
            assert(spec_encode(one) =~= spec_encode_one(one[0])) by {
                reveal_with_fuel(spec_encode, 2);
            }
            assert(out@ =~= spec_encode(prefix) + spec_encode_one(one[0]));
        }
        i = i + 1;
    }
    proof {
        assert(es@.take(es@.len() as int) =~= es@);
    }
    out
}

/// Read the records that start at `pos`, or nothing if the remaining bytes
/// are not a well-formed sequence of records.
fn decode_from(bytes: &Vec<u8>, pos: usize) -> (r: Option<Vec<SavedEntry>>)
    requires
        pos <= bytes@.len(),
    ensures
        match r {
            Some(es) => spec_decode(bytes@.skip(pos as int)) == Some(entry_views(es@)),
            None => spec_decode(bytes@.skip(pos as int)) is None,
        },
    decreases bytes@.len() - pos,
{
    let ghost b = bytes@.skip(pos as int);
    let n = bytes.len();
    if pos == n {
        let es: Vec<SavedEntry> = Vec::new();
        proof {
            assert(entry_views(es@) =~= Seq::<KeyVal>::empty());
        }
        return Some(es);
    }
    if n - pos < 8 {
        return None;
    }
    proof {
        assert(b.subrange(0, 8) =~= bytes@.subrange(pos as int, pos + 8));
    }
    let klen64 = u64_from_le_bytes(&bytes[pos..pos + 8]);
    if klen64 > (n - pos - 8) as u64 {
        return None;
    }
    let klen = klen64 as usize;
    proof {
        assert(b.subrange(8, 8 + klen as int) =~= bytes@.subrange(
            pos + 8,
            pos + 8 + klen as int,
        ));
    }
    let mut kbv: Vec<u8> = Vec::new();
    kbv.extend_from_slice(&bytes[pos + 8..pos + 8 + klen]);
    let ghost gkb = kbv@;
    proof {
        assert(gkb =~= b.subrange(8, 8 + klen as int));
    }
    let key = match bytes_to_string(kbv) {
        Some(s) => s,
        None => {
            assert(!valid_utf8(b.subrange(8, 8 + klen as int)));
            assert(spec_decode(b) is None);
            return None;
        },
    };
    let pos2 = pos + 8 + klen;
    let ghost rest1 = b.skip(8 + klen as int);
    proof {
        assert(rest1 =~= bytes@.skip(pos2 as int));
        assert(rest1.len() == n - pos2);
    }
    if n - pos2 < 8 {
        return None;
    }
    proof {
        assert(rest1.subrange(0, 8) =~= bytes@.subrange(pos2 as int, pos2 + 8));
    }
    let vlen64 = u64_from_le_bytes(&bytes[pos2..pos2 + 8]);
    if vlen64 > (n - pos2 - 8) as u64 {
        return None;
    }
    let vlen = vlen64 as usize;
    proof {
        assert(rest1.subrange(8, 8 + vlen as int) =~= bytes@.subrange(
            pos2 + 8,
            pos2 + 8 + vlen as int,
        ));
    }
    let mut value: Vec<u8> = Vec::new();
    value.extend_from_slice(&bytes[pos2 + 8..pos2 + 8 + vlen]);
    let pos3 = pos2 + 8 + vlen;
    proof {
        assert(rest1.skip(8 + vlen as int) =~= bytes@.skip(pos3 as int));
    }
    let ghost gk = key@;
    let ghost gv = value@;
    match decode_from(bytes, pos3) {
        None => None,
        Some(tail) => {
            let ghost gtail = tail@;
            let mut out: Vec<SavedEntry> = Vec::new();
            out.push(SavedEntry { key, value });
            let mut tail = tail;
            out.append(&mut tail);
            proof {
                assert(out@.len() == 1 + gtail.len());
                assert(out@[0].key@ == gk && out@[0].value@ == gv);
                assert(entry_views(out@) =~= seq![(gk, gv)] + entry_views(gtail)) by {
                    assert forall|j: int| 0 <= j < out@.len() implies entry_views(out@)[j] == (seq![
                        (gk, gv),
                    ] + entry_views(gtail))[j] by {
                        if j > 0 {
                            assert(out@[j] == gtail[j - 1]);
                        }
                    }
                }
                assert(spec_decode(bytes@.skip(pos3 as int)) == Some(entry_views(gtail)));
                assert(b.len() >= 8);
                assert(spec_u64_from_le_bytes(b.subrange(0, 8)) == klen64);
                assert(b.len() >= 8 + klen64);
                assert(valid_utf8(b.subrange(8, 8 + klen as int)));
                assert(gk == decode_utf8(b.subrange(8, 8 + klen as int)));
                assert(rest1 == b.skip(8 + klen as int));
                assert(rest1.len() >= 8);
                assert(spec_u64_from_le_bytes(rest1.subrange(0, 8)) == vlen64);
                assert(rest1.len() >= 8 + vlen64);
                assert(gv == rest1.subrange(8, 8 + vlen as int));
                assert(rest1.skip(8 + vlen as int) == bytes@.skip(pos3 as int));
                assert(spec_decode(b) == Some(seq![(gk, gv)] + entry_views(gtail)));
            }
            Some(out)
        },
    }
}

/// Parse a snapshot back into its records, or nothing if the bytes are not a
/// well-formed snapshot.
pub fn decode_entries(bytes: &Vec<u8>) -> (r: Option<Vec<SavedEntry>>)
    ensures
        match r {
            Some(es) => spec_decode(bytes@) == Some(entry_views(es@)),
            None => spec_decode(bytes@) is None,
        },
{
    proof {
        assert(bytes@.skip(0) =~= bytes@);
    }
    decode_from(bytes, 0)
}

/// Decoding inverts encoding: a snapshot written from any list of records
/// reads back as exactly those records.
pub proof fn lemma_encode_decode(ps: Seq<KeyVal>)
    requires
        forall|i: int|
            0 <= i < ps.len() ==> encode_utf8((#[trigger] ps[i]).0).len() <= u64::MAX && ps[
                i
            ].1.len() <= u64::MAX,
    ensures
        spec_decode(spec_encode(ps)) == Some(ps),
    decreases ps.len(),
{
    lemma_auto_spec_u64_to_from_le_bytes();
    if ps.len() == 0 {
        assert(spec_decode(spec_encode(ps)) =~= Some(Seq::<KeyVal>::empty()));
    } else {
        let p = ps[0];
        let rest = ps.drop_first();
        let kb = encode_utf8(p.0);
        let vb = p.1;
        let b = spec_encode(ps);
        encode_utf8_valid_utf8(p.0);
        encode_utf8_decode_utf8(p.0);
        assert(b =~= spec_u64_to_le_bytes(kb.len() as u64) + kb + spec_u64_to_le_bytes(
            vb.len() as u64,
        ) + vb + spec_encode(rest));
        assert(b.subrange(0, 8) =~= spec_u64_to_le_bytes(kb.len() as u64));
        assert(spec_u64_from_le_bytes(b.subrange(0, 8)) == kb.len());
        assert(b.subrange(8, 8 + kb.len() as int) =~= kb);
        let rest1 = b.skip(8 + kb.len() as int);
        assert(rest1 =~= spec_u64_to_le_bytes(vb.len() as u64) + vb + spec_encode(rest));
        assert(rest1.subrange(0, 8) =~= spec_u64_to_le_bytes(vb.len() as u64));
        assert(spec_u64_from_le_bytes(rest1.subrange(0, 8)) == vb.len());
        assert(rest1.subrange(8, 8 + vb.len() as int) =~= vb);
        let rest2 = rest1.skip(8 + vb.len() as int);
        assert(rest2 =~= spec_encode(rest));
        assert(forall|i: int|
            0 <= i < rest.len() ==> encode_utf8((#[trigger] rest[i]).0).len() <= u64::MAX && rest[
                i
            ].1.len() <= u64::MAX);
        lemma_encode_decode(rest);
        assert(seq![(decode_utf8(kb), vb)] + rest =~= ps);
    }
}

} // verus!
