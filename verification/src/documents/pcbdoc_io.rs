//! Reading and writing a PcbDoc's streams: the primitive sections' object
//! framing, the stream paths of the compound file, and the document built
//! from (or flattened into) its streams.
//!
//! A primitive section's `Data` stream is a run of objects, each a type
//! byte then its payload: one `u32`-length-prefixed block for most object
//! types, or several length-prefixed subrecords kept together (6 for pads,
//! 2 for texts).
use vstd::prelude::*;
use vstd::string::StringSliceAdditionalSpecFns;

use crate::documents::pcbdoc::PcbDocRecord;
use crate::documents::pcbdoc_streams::RecordId;
use crate::documents::schdoc::RecordOrigin;
use crate::error::{text, usize_text, AltiumError, Result};
use crate::wire::{le32, push_u32_le, read_u32_le, u32_at};
use crate::documents::pcbdoc_streams::{classify_section_kind, spec_section_kind, PcbDocSectionKind};
use crate::documents::schdoc_io::strip_slashes;
use crate::edit::text_order::{bytes_le, bytes_le_exec, lemma_bytes_le_antisymmetric, lemma_bytes_le_total, lemma_bytes_le_transitive};
use crate::params::{all_digits, digits_bounded, digits_value, find_byte, find_byte_exec, key_eq, keys_equal};

verus! {

/// The text `String::from_utf8_lossy` makes of bytes.
pub uninterp spec fn utf8_lossy(b: Seq<u8>) -> Seq<char>;

/// Text from bytes, through `String::from_utf8_lossy`: the result is that
/// function's text for the bytes, and valid UTF-8 reads as the text it
/// encodes; what it makes of other bytes (replacement characters) is left
/// unsaid.
#[verifier::external_body]
pub(crate) fn text_from_utf8(b: &[u8]) -> (r: String)
    ensures
        r@ == utf8_lossy(b@),
        vstd::utf8::valid_utf8(b@) ==> r@ == vstd::utf8::decode_utf8(b@),
{
    String::from_utf8_lossy(b).into_owned()
}

/// The number of length-prefixed subrecords of an object type.
pub open spec fn spec_subrecord_count(type_byte: u8) -> nat {
    if type_byte == 2 {
        6
    } else if type_byte == 5 {
        2
    } else {
        1
    }
}

/// The number of length-prefixed subrecords of an object type.
pub fn subrecord_count(type_byte: u8) -> (r: usize)
    ensures
        r == spec_subrecord_count(type_byte),
{
    if type_byte == 2 {
        6
    } else if type_byte == 5 {
        2
    } else {
        1
    }
}

/// Where `k` length-prefixed subrecords starting at `pos` end; `None` when
/// one runs past the data.
pub open spec fn subrecords_end(data: Seq<u8>, pos: int, k: nat) -> Option<int>
    decreases k,
{
    if k == 0 {
        Some(pos)
    } else if pos + 4 > data.len() {
        None
    } else {
        let len = u32_at(data, pos);
        if pos + 4 + len > data.len() {
            None
        } else {
            subrecords_end(data, pos + 4 + len, (k - 1) as nat)
        }
    }
}

/// The object payloads of a primitive section's data, each of type `obj`;
/// `None` on another type byte or a truncated object.
pub open spec fn section_objects(data: Seq<u8>, obj: u8) -> Option<Seq<Seq<u8>>>
    decreases data.len(),
{
    if data.len() == 0 {
        Some(Seq::empty())
    } else if data[0] != obj {
        None
    } else if spec_subrecord_count(obj) == 1 {
        if data.len() < 5 {
            None
        } else {
            let len = u32_at(data, 1);
            if 5 + len > data.len() {
                None
            } else {
                match section_objects(data.subrange(5 + len, data.len() as int), obj) {
                    Some(rest) => Some(seq![data.subrange(5, 5 + len)] + rest),
                    None => None,
                }
            }
        }
    } else {
        match subrecords_end(data, 1, spec_subrecord_count(obj)) {
            Some(end) => if 1 <= end <= data.len() {
                match section_objects(data.subrange(end, data.len() as int), obj) {
                    Some(rest) => Some(seq![data.subrange(1, end)] + rest),
                    None => None,
                }
            } else {
                None
            },
            None => None,
        }
    }
}

/// The bytes of one object: type byte, then the payload with a `u32`
/// length (single-block types, the length taken modulo 2^32 as written)
/// or as it is (subrecord types).
pub open spec fn enc_object(obj: u8, payload: Seq<u8>) -> Seq<u8> {
    if spec_subrecord_count(obj) == 1 {
        seq![obj] + le32((payload.len() % 0x1_0000_0000) as u32) + payload
    } else {
        seq![obj] + payload
    }
}

/// The bytes of a primitive section's objects.
pub open spec fn enc_objects(obj: u8, payloads: Seq<Seq<u8>>) -> Seq<u8>
    decreases payloads.len(),
{
    if payloads.len() == 0 {
        Seq::empty()
    } else {
        enc_object(obj, payloads[0]) + enc_objects(obj, payloads.drop_first())
    }
}

proof fn lemma_subrecords_end_bounds(data: Seq<u8>, pos: int, k: nat)
    requires
        0 <= pos <= data.len(),
    ensures
        subrecords_end(data, pos, k) matches Some(e) ==> pos <= e <= data.len(),
    decreases k,
{
    if k > 0 && pos + 4 <= data.len() {
        let len = u32_at(data, pos);
        if pos + 4 + len <= data.len() {
            lemma_subrecords_end_bounds(data, pos + 4 + len, (k - 1) as nat);
        }
    }
}

/// Writing the objects of a parsed section gives back its data.
#[verifier::spinoff_prover]
#[verifier::rlimit(30)]
pub proof fn lemma_section_objects_roundtrip(data: Seq<u8>, obj: u8)
    requires
        section_objects(data, obj) is Some,
    ensures
        enc_objects(obj, section_objects(data, obj).unwrap()) == data,
    decreases data.len(),
{
    if data.len() > 0 {
        let ps = section_objects(data, obj).unwrap();
        if spec_subrecord_count(obj) == 1 {
            let len = u32_at(data, 1);
            let rest = data.subrange(5 + len, data.len() as int);
            lemma_section_objects_roundtrip(rest, obj);
            assert(ps.drop_first() =~= section_objects(rest, obj).unwrap());
            let payload = data.subrange(5, 5 + len);
            assert(payload.len() % 0x1_0000_0000 == len);
            crate::wire::lemma_u32_at_le32(data, 1);
            assert(le32(len) =~= data.subrange(1, 5));
            assert(enc_object(obj, ps[0]) =~= data.subrange(0, 5 + len));
            assert(data =~= data.subrange(0, 5 + len) + rest);
        } else {
            let end = subrecords_end(data, 1, spec_subrecord_count(obj)).unwrap();
            let rest = data.subrange(end, data.len() as int);
            lemma_section_objects_roundtrip(rest, obj);
            assert(ps.drop_first() =~= section_objects(rest, obj).unwrap());
            assert(enc_object(obj, ps[0]) =~= data.subrange(0, end));
            assert(data =~= data.subrange(0, end) + rest);
        }
    }
}

/// Whether a payload reads back as one object of type `obj`: a length that
/// fits a `u32` for single-block types, or exactly the type's subrecords.
pub open spec fn object_payload_ok(obj: u8, p: Seq<u8>) -> bool {
    if spec_subrecord_count(obj) == 1 {
        p.len() <= u32::MAX
    } else {
        subrecords_end(p, 0, spec_subrecord_count(obj)) == Some(p.len() as int)
    }
}

/// Subrecords found inside `p` are found at the same place when `p` stands
/// between other bytes.
proof fn lemma_subrecords_end_shift(pre: Seq<u8>, p: Seq<u8>, rest: Seq<u8>, i: int, k: nat)
    requires
        0 <= i <= p.len(),
        subrecords_end(p, i, k) is Some,
    ensures
        subrecords_end(pre + p + rest, pre.len() + i, k) == Some(pre.len() + subrecords_end(p, i, k).unwrap()),
    decreases k,
{
    if k > 0 {
        let d = pre + p + rest;
        let o = pre.len() as int;
        assert(d[o + i] == p[i] && d[o + i + 1] == p[i + 1] && d[o + i + 2] == p[i + 2] && d[o + i + 3] == p[i + 3]);
        assert(u32_at(d, o + i) == u32_at(p, i));
        let len = u32_at(p, i) as int;
        lemma_subrecords_end_shift(pre, p, rest, i + 4 + len, (k - 1) as nat);
    }
}

/// Reading back the objects written from payloads gives the payloads.
#[verifier::spinoff_prover]
#[verifier::rlimit(80)]
pub proof fn lemma_objects_roundtrip(obj: u8, ps: Seq<Seq<u8>>)
    requires
        forall|k: int| 0 <= k < ps.len() ==> object_payload_ok(obj, #[trigger] ps[k]),
    ensures
        section_objects(enc_objects(obj, ps), obj) == Some(ps),
    decreases ps.len(),
{
    if ps.len() > 0 {
        let p = ps[0];
        let rest = ps.drop_first();
        assert forall|k: int| 0 <= k < rest.len() implies object_payload_ok(obj, #[trigger] rest[k]) by {
            assert(rest[k] == ps[k + 1]);
        }
        lemma_objects_roundtrip(obj, rest);
        let r = enc_objects(obj, rest);
        let d = enc_objects(obj, ps);
        assert(object_payload_ok(obj, ps[0]));
        if spec_subrecord_count(obj) == 1 {
            let len = (p.len() % 0x1_0000_0000) as u32;
            assert(len == p.len());
            assert(d =~= seq![obj] + le32(len) + (p + r));
            crate::wire::lemma_u32_at_prefix(len, seq![obj], p + r);
            crate::wire::lemma_le32(len);
            assert(d.subrange(5 + len, d.len() as int) =~= r);
            assert(d.subrange(5, 5 + len) =~= p);
        } else {
            assert(d =~= seq![obj] + p + r);
            lemma_subrecords_end_shift(seq![obj], p, r, 0, spec_subrecord_count(obj));
            assert(d.subrange(1 + p.len() as int, d.len() as int) =~= r);
            assert(d.subrange(1, 1 + p.len() as int) =~= p);
        }
        assert(seq![p] + rest =~= ps);
    }
}

/// Subrecords one after the other, each a little-endian `u32` length and
/// that many bytes.
pub open spec fn subrecords_bytes(ss: Seq<Seq<u8>>) -> Seq<u8>
    decreases ss.len(),
{
    if ss.len() == 0 {
        Seq::empty()
    } else {
        le32(ss[0].len() as u32) + ss[0] + subrecords_bytes(ss.drop_first())
    }
}

/// Objects of one type one after the other, each the type byte and then its
/// subrecords.
pub open spec fn subrecord_objects_bytes(obj: u8, os: Seq<Seq<Seq<u8>>>) -> Seq<u8>
    decreases os.len(),
{
    if os.len() == 0 {
        Seq::empty()
    } else {
        seq![obj] + subrecords_bytes(os[0]) + subrecord_objects_bytes(obj, os.drop_first())
    }
}

/// Whether every object has `k` subrecords, each of a length that fits a
/// `u32`.
pub open spec fn objects_have_subrecords(os: Seq<Seq<Seq<u8>>>, k: nat) -> bool {
    forall|i: int|
        0 <= i < os.len() ==> (#[trigger] os[i]).len() == k && forall|j: int|
            0 <= j < os[i].len() ==> (#[trigger] os[i][j]).len() <= u32::MAX
}

proof fn lemma_subrecords_bytes_end(ss: Seq<Seq<u8>>)
    requires
        forall|j: int| 0 <= j < ss.len() ==> (#[trigger] ss[j]).len() <= u32::MAX,
    ensures
        subrecords_end(subrecords_bytes(ss), 0, ss.len()) == Some(subrecords_bytes(ss).len() as int),
    decreases ss.len(),
{
    if ss.len() > 0 {
        let rest = ss.drop_first();
        assert forall|j: int| 0 <= j < rest.len() implies (#[trigger] rest[j]).len() <= u32::MAX by {
            assert(rest[j] == ss[j + 1]);
        }
        lemma_subrecords_bytes_end(rest);
        let l = ss[0].len() as u32;
        let pre = le32(l) + ss[0];
        let p = subrecords_bytes(ss);
        crate::wire::lemma_le32(l);
        assert(p =~= Seq::<u8>::empty() + le32(l) + (ss[0] + subrecords_bytes(rest)));
        crate::wire::lemma_u32_at_prefix(l, Seq::<u8>::empty(), ss[0] + subrecords_bytes(rest));
        assert(p =~= pre + subrecords_bytes(rest) + Seq::<u8>::empty());
        lemma_subrecords_end_shift(pre, subrecords_bytes(rest), Seq::<u8>::empty(), 0, rest.len());
    }
}

proof fn lemma_subrecord_objects_encoding(obj: u8, os: Seq<Seq<Seq<u8>>>)
    requires
        spec_subrecord_count(obj) != 1,
    ensures
        enc_objects(obj, os.map_values(|o: Seq<Seq<u8>>| subrecords_bytes(o))) == subrecord_objects_bytes(obj, os),
    decreases os.len(),
{
    if os.len() > 0 {
        let f = |o: Seq<Seq<u8>>| subrecords_bytes(o);
        lemma_subrecord_objects_encoding(obj, os.drop_first());
        assert(os.map_values(f).drop_first() =~= os.drop_first().map_values(f));
        assert(enc_object(obj, os.map_values(f)[0]) =~= seq![obj] + subrecords_bytes(os[0]));
    }
}

/// A text object (type 5) is exactly two length-prefixed subrecords and a
/// pad object (type 2) exactly six: a section holding such objects, one
/// after the other, parses into one object per entry, in order, each
/// object's payload being all of its subrecords.
pub proof fn lemma_subrecord_objects_parse(obj: u8, k: nat, os: Seq<Seq<Seq<u8>>>)
    requires
        (obj == 5 && k == 2) || (obj == 2 && k == 6),
        objects_have_subrecords(os, k),
    ensures
        section_objects(subrecord_objects_bytes(obj, os), obj) == Some(
            os.map_values(|o: Seq<Seq<u8>>| subrecords_bytes(o)),
        ),
{
    let ps = os.map_values(|o: Seq<Seq<u8>>| subrecords_bytes(o));
    assert forall|i: int| 0 <= i < ps.len() implies object_payload_ok(obj, #[trigger] ps[i]) by {
        assert(os[i].len() == k);
        assert forall|j: int| 0 <= j < os[i].len() implies (#[trigger] os[i][j]).len() <= u32::MAX by {}
        lemma_subrecords_bytes_end(os[i]);
    }
    lemma_objects_roundtrip(obj, ps);
    lemma_subrecord_objects_encoding(obj, os);
}

/// Objects of one type one after the other, each the type byte, a `u32`
/// length and that many bytes.
pub open spec fn length_prefixed_objects_bytes(obj: u8, ps: Seq<Seq<u8>>) -> Seq<u8>
    decreases ps.len(),
{
    if ps.len() == 0 {
        Seq::empty()
    } else {
        seq![obj] + le32(ps[0].len() as u32) + ps[0] + length_prefixed_objects_bytes(obj, ps.drop_first())
    }
}

proof fn lemma_length_prefixed_encoding(obj: u8, ps: Seq<Seq<u8>>)
    requires
        spec_subrecord_count(obj) == 1,
        forall|i: int| 0 <= i < ps.len() ==> (#[trigger] ps[i]).len() <= u32::MAX,
    ensures
        enc_objects(obj, ps) == length_prefixed_objects_bytes(obj, ps),
    decreases ps.len(),
{
    if ps.len() > 0 {
        let rest = ps.drop_first();
        assert forall|i: int| 0 <= i < rest.len() implies (#[trigger] rest[i]).len() <= u32::MAX by {
            assert(rest[i] == ps[i + 1]);
        }
        lemma_length_prefixed_encoding(obj, rest);
        assert(ps[0].len() <= u32::MAX);
        assert((ps[0].len() % 0x1_0000_0000) as u32 == ps[0].len() as u32);
    }
}

/// Every object type but pads (2) and texts (5) is one block: the type
/// byte, a `u32` length and that many bytes. A section of such objects
/// parses into their payloads, in order.
pub proof fn lemma_length_prefixed_objects_parse(obj: u8, ps: Seq<Seq<u8>>)
    requires
        obj != 2 && obj != 5,
        forall|i: int| 0 <= i < ps.len() ==> (#[trigger] ps[i]).len() <= u32::MAX,
    ensures
        section_objects(length_prefixed_objects_bytes(obj, ps), obj) == Some(ps),
{
    assert forall|k: int| 0 <= k < ps.len() implies object_payload_ok(obj, #[trigger] ps[k]) by {}
    lemma_objects_roundtrip(obj, ps);
    lemma_length_prefixed_encoding(obj, ps);
}

/// Whether a record is a binary object of type `obj` with the payload,
/// written to the named section.
pub open spec fn object_record(r: PcbDocRecord, obj: u8, payload: Seq<u8>, name: Seq<u8>) -> bool {
    &&& r.key == obj
    &&& r.origin matches RecordOrigin::Binary(b) && b@ == payload
    &&& r.stream_name@ == name
}

/// Parse a primitive section's data into its records, each of type
/// `expected_object_id` and written to `section_name`.
pub fn parse_primitive_section_data(data: &[u8], section_name: &[u8], expected_object_id: u8) -> (r: Result<
    Vec<PcbDocRecord>,
>)
    ensures
        match section_objects(data@, expected_object_id) {
            Some(ps) => r matches Ok(v) && v@.len() == ps.len() && forall|k: int|
                0 <= k < ps.len() ==> object_record(#[trigger] v@[k], expected_object_id, ps[k], section_name@),
            None => r matches Err(AltiumError::Parse(_)),
        },
{
    let mut out: Vec<PcbDocRecord> = Vec::new();
    let mut pos: usize = 0;
    let n = subrecord_count(expected_object_id);
    let ghost mut done: Seq<Seq<u8>> = Seq::empty();
    assert(data@.subrange(0, data@.len() as int) =~= data@);
    while pos < data.len()
        invariant
            pos <= data@.len(),
            n == spec_subrecord_count(expected_object_id),
            out@.len() == done.len(),
            forall|k: int|
                0 <= k < done.len() ==> object_record(#[trigger] out@[k], expected_object_id, done[k], section_name@),
            section_objects(data@, expected_object_id) == match section_objects(
                data@.subrange(pos as int, data@.len() as int),
                expected_object_id,
            ) {
                Some(rest) => Some(done + rest),
                None => None::<Seq<Seq<u8>>>,
            },
        decreases data@.len() - pos,
    {
        let ghost d = data@.subrange(pos as int, data@.len() as int);
        let i = out.len();
        let type_byte = data[pos];
        assert(d[0] == type_byte);
        if type_byte != expected_object_id {
            let mut m = text("pcbdoc section '");
            m.append(text_from_utf8(section_name).as_str());
            m.append("' object ");
            m.append(usize_text(i).as_str());
            m.append(" has an unexpected object_id");
            return Err(AltiumError::Parse(m));
        }
        let start: usize;
        let end: usize;
        if n == 1 {
            if data.len() - pos < 5 {
                let mut m = text("pcbdoc section '");
                m.append(text_from_utf8(section_name).as_str());
                m.append("' truncated before object ");
                m.append(usize_text(i).as_str());
                m.append(" length");
                return Err(AltiumError::Parse(m));
            }
            let block_len = read_u32_le(data, pos + 1);
            assert(u32_at(d, 1) == block_len) by {
                assert(d.subrange(1, 5) =~= data@.subrange(pos + 1, pos + 5));
            }
            if (block_len as usize) > data.len() - pos - 5 {
                let mut m = text("pcbdoc section '");
                m.append(text_from_utf8(section_name).as_str());
                m.append("' object ");
                m.append(usize_text(i).as_str());
                m.append(" payload overflows stream");
                return Err(AltiumError::Parse(m));
            }
            start = pos + 5;
            end = pos + 5 + block_len as usize;
            assert(d.subrange(5, 5 + block_len) =~= data@.subrange(start as int, end as int));
            assert(d.subrange(5 + block_len, d.len() as int) =~= data@.subrange(end as int, data@.len() as int));
        } else {
            let mut p = pos + 1;
            let mut k: usize = 0;
            while k < n
                invariant
                    pos + 1 <= p <= data@.len(),
                    k <= n,
                    d == data@.subrange(pos as int, data@.len() as int),
                    subrecords_end(d, 1, n as nat) == subrecords_end(d, p - pos, (n - k) as nat),
                    n == spec_subrecord_count(expected_object_id),
                    n != 1,
                    d.len() > 0 && d[0] == expected_object_id,
                    section_objects(data@, expected_object_id) == match section_objects(d, expected_object_id) {
                        Some(rest) => Some(done + rest),
                        None => None::<Seq<Seq<u8>>>,
                    },
                decreases n - k,
            {
                if data.len() - p < 4 {
                    let mut m = text("pcbdoc section '");
                    m.append(text_from_utf8(section_name).as_str());
                    m.append("' truncated before object ");
                    m.append(usize_text(i).as_str());
                    m.append(" subrecord length");
                    return Err(AltiumError::Parse(m));
                }
                let len = read_u32_le(data, p);
                assert(u32_at(d, p - pos) == len) by {
                    assert(d.subrange(p - pos, p - pos + 4) =~= data@.subrange(p as int, p + 4));
                }
                if (len as usize) > data.len() - p - 4 {
                    let mut m = text("pcbdoc section '");
                    m.append(text_from_utf8(section_name).as_str());
                    m.append("' object ");
                    m.append(usize_text(i).as_str());
                    m.append(" subrecord overflows stream");
                    return Err(AltiumError::Parse(m));
                }
                p = p + 4 + len as usize;
                k = k + 1;
            }
            start = pos + 1;
            end = p;
            assert(d.subrange(1, end - pos) =~= data@.subrange(start as int, end as int));
            assert(d.subrange(end - pos, d.len() as int) =~= data@.subrange(end as int, data@.len() as int));
        }
        let block = crate::wire::copy_range(data, start, end);
        let name = crate::wire::copy_range(section_name, 0, section_name.len());
        assert(name@ =~= section_name@);
        out.push(PcbDocRecord { key: type_byte, origin: RecordOrigin::Binary(block), stream_name: name });
        proof {
            let b = data@.subrange(start as int, end as int);
            let tail = data@.subrange(end as int, data@.len() as int);
            assert(section_objects(d, expected_object_id) == match section_objects(tail, expected_object_id) {
                Some(rest) => Some(seq![b] + rest),
                None => None::<Seq<Seq<u8>>>,
            });
            match section_objects(tail, expected_object_id) {
                Some(rest) => {
                    assert(done + (seq![b] + rest) =~= done.push(b) + rest);
                },
                None => {},
            }
            done = done.push(b);
        }
        pos = end;
    }
    assert(section_objects(data@.subrange(pos as int, data@.len() as int), expected_object_id) == Some(
        Seq::<Seq<u8>>::empty(),
    ));
    assert(done + Seq::<Seq<u8>>::empty() =~= done);
    Ok(out)
}

/// Objects append at the end.
proof fn lemma_enc_objects_push(obj: u8, ps: Seq<Seq<u8>>, p: Seq<u8>)
    ensures
        enc_objects(obj, ps.push(p)) == enc_objects(obj, ps) + enc_object(obj, p),
    decreases ps.len(),
{
    if ps.len() == 0 {
        assert(ps.push(p).drop_first() =~= Seq::<Seq<u8>>::empty());
        assert(enc_objects(obj, ps.push(p)) =~= enc_object(obj, p) + enc_objects(obj, Seq::<Seq<u8>>::empty()));
    } else {
        assert(ps.push(p).drop_first() =~= ps.drop_first().push(p));
        lemma_enc_objects_push(obj, ps.drop_first(), p);
        assert(enc_objects(obj, ps.push(p)) =~= enc_object(obj, ps[0]) + enc_objects(obj, ps.drop_first().push(p)));
    }
}

/// The binary payload of a record (empty for a text record).
pub open spec fn record_payload(r: PcbDocRecord) -> Seq<u8> {
    match r.origin {
        RecordOrigin::Binary(b) => b@,
        RecordOrigin::Param(_) => Seq::empty(),
    }
}

/// Whether every listed record is a binary record of type `obj`.
pub open spec fn section_records_ok(records: Seq<PcbDocRecord>, ids: Seq<RecordId>, obj: u8) -> bool {
    forall|k: int|
        0 <= k < ids.len() ==> (#[trigger] records[ids[k].0 as int]).key == obj && records[ids[k].0 as int].origin is Binary
}

/// The payloads of the listed records.
pub open spec fn section_payloads(records: Seq<PcbDocRecord>, ids: Seq<RecordId>) -> Seq<Seq<u8>> {
    ids.map_values(|id: RecordId| record_payload(records[id.0 as int]))
}

/// Write a primitive section's data from its records: each must be a
/// binary record of the section's object type.
pub fn build_primitive_section_data(records: &[PcbDocRecord], ids: &[RecordId], object_id: u8) -> (r: Result<
    Vec<u8>,
>)
    requires
        forall|k: int| 0 <= k < ids@.len() ==> (#[trigger] ids@[k]).0 < records@.len(),
    ensures
        r is Ok <==> section_records_ok(records@, ids@, object_id),
        r matches Ok(v) ==> v@ == enc_objects(object_id, section_payloads(records@, ids@)),
{
    let mut out: Vec<u8> = Vec::new();
    let mut i: usize = 0;
    while i < ids.len()
        invariant
            i <= ids@.len(),
            forall|k: int| 0 <= k < ids@.len() ==> (#[trigger] ids@[k]).0 < records@.len(),
            section_records_ok(records@, ids@.take(i as int), object_id),
            out@ == enc_objects(object_id, section_payloads(records@, ids@.take(i as int))),
        decreases ids@.len() - i,
    {
        let node = &records[ids[i].0];
        if node.key != object_id {
            let mut m = text("pcbdoc section record ");
            m.append(usize_text(i).as_str());
            m.append(" has an unexpected object_id");
            return Err(AltiumError::Parse(m));
        }
        let bytes = match &node.origin {
            RecordOrigin::Binary(b) => b,
            RecordOrigin::Param(_) => {
                let mut m = text("pcbdoc section record ");
                m.append(usize_text(i).as_str());
                m.append(" is param-origin (expected binary)");
                return Err(AltiumError::Parse(m));
            },
        };
        let ghost before = out@;
        out.push(node.key);
        if subrecord_count(node.key) == 1 {
            let blen = bytes.len() as u64;
            #[verifier::truncate]
            let len32 = blen as u32;
            assert(len32 == (blen % 0x1_0000_0000) as u32) by (bit_vector)
                requires
                    len32 == blen as u32,
            ;
            push_u32_le(&mut out, len32);
        }
        crate::wire::append_bytes(&mut out, bytes.as_slice());
        proof {
            assert(out@ =~= before + enc_object(object_id, bytes@));
            lemma_enc_objects_push(object_id, section_payloads(records@, ids@.take(i as int)), bytes@);
            assert(section_payloads(records@, ids@.take(i + 1)) =~= section_payloads(records@, ids@.take(i as int)).push(
                bytes@,
            ));
            assert forall|k: int| 0 <= k < i + 1 implies (#[trigger] records@[ids@.take(i + 1)[k].0 as int]).key
                == object_id && records@[ids@.take(i + 1)[k].0 as int].origin is Binary by {
                if k < i {
                    assert(ids@.take(i + 1)[k] == ids@.take(i as int)[k]);
                }
            }
        }
        i = i + 1;
    }
    assert(ids@.take(i as int) =~= ids@);
    Ok(out)
}

// ---------------------------------------------------------------------------
// Stream paths
// ---------------------------------------------------------------------------

/// Rust's `u32` text syntax: an optional `+`, then one or more digits,
/// with a value that fits.
pub open spec fn parse_u32_text(s: Seq<u8>) -> Option<u32> {
    let d = if s.len() > 0 && s[0] == 43 {
        s.drop_first()
    } else {
        s
    };
    if d.len() > 0 && all_digits(d) && digits_value(d) <= u32::MAX {
        Some(digits_value(d) as u32)
    } else {
        None
    }
}

/// Parses `u32` text.
pub fn parse_u32_text_exec(s: &[u8]) -> (r: Option<u32>)
    ensures
        r == parse_u32_text(s@),
{
    let from: usize = if s.len() > 0 && s[0] == 43 {
        1
    } else {
        0
    };
    assert(s@.subrange(from as int, s@.len() as int) =~= (if s@.len() > 0 && s@[0] == 43 {
        s@.drop_first()
    } else {
        s@
    }));
    if from == s.len() {
        return None;
    }
    match digits_bounded(s, from, 0xFFFF_FFFF) {
        Some(v) => Some(v as u32),
        None => None,
    }
}

/// What a stream path of a PcbDoc names.
pub enum PcbPathClass {
    /// More than one `/` after the leading ones.
    Nested,
    FileHeader,
    FileHeaderSix,
    /// Another root stream.
    UnknownRoot,
    /// A stream in a storage of no known section kind.
    UnknownSection,
    /// `<section>/Header`.
    Header(Seq<u8>),
    /// `<section>/Data`.
    Data(Seq<u8>),
    /// `Models/<n>`.
    Entry(Seq<u8>, u32),
    /// A `Models` stream whose name is no `u32`.
    BadEntry,
    /// Another stream of a known section.
    UnknownLeaf,
}

/// The class of a stream path (leading `/` ignored; names compared
/// ignoring ASCII case, the section's name kept as written).
pub open spec fn pcb_path_class(p: Seq<u8>) -> PcbPathClass {
    let rel = strip_slashes(p);
    let s1 = find_byte(rel, 47, 0);
    if s1 >= rel.len() {
        if key_eq(rel, "FileHeader".spec_bytes()) {
            PcbPathClass::FileHeader
        } else if key_eq(rel, "FileHeaderSix".spec_bytes()) {
            PcbPathClass::FileHeaderSix
        } else {
            PcbPathClass::UnknownRoot
        }
    } else {
        let sec = rel.subrange(0, s1);
        let leaf = rel.subrange(s1 + 1, rel.len() as int);
        if find_byte(leaf, 47, 0) < leaf.len() {
            PcbPathClass::Nested
        } else {
            match spec_section_kind(sec) {
                None => PcbPathClass::UnknownSection,
                Some(kind) => if key_eq(leaf, "Header".spec_bytes()) {
                    PcbPathClass::Header(sec)
                } else if key_eq(leaf, "Data".spec_bytes()) {
                    PcbPathClass::Data(sec)
                } else if kind is Models {
                    match parse_u32_text(leaf) {
                        Some(i) => PcbPathClass::Entry(sec, i),
                        None => PcbPathClass::BadEntry,
                    }
                } else {
                    PcbPathClass::UnknownLeaf
                },
            }
        }
    }
}

/// The exec form of a path class: kind tag (0 nested, 1 file header,
/// 2 file header six, 3 unknown root, 4 unknown section, 5 header, 6 data,
/// 7 entry, 8 bad entry, 9 unknown leaf), section name and entry index.
pub struct PathClass {
    pub tag: u8,
    pub section: Vec<u8>,
    pub index: u32,
}

pub open spec fn path_class_view(c: PathClass) -> PcbPathClass {
    if c.tag == 0 {
        PcbPathClass::Nested
    } else if c.tag == 1 {
        PcbPathClass::FileHeader
    } else if c.tag == 2 {
        PcbPathClass::FileHeaderSix
    } else if c.tag == 3 {
        PcbPathClass::UnknownRoot
    } else if c.tag == 4 {
        PcbPathClass::UnknownSection
    } else if c.tag == 5 {
        PcbPathClass::Header(c.section@)
    } else if c.tag == 6 {
        PcbPathClass::Data(c.section@)
    } else if c.tag == 7 {
        PcbPathClass::Entry(c.section@, c.index)
    } else if c.tag == 8 {
        PcbPathClass::BadEntry
    } else {
        PcbPathClass::UnknownLeaf
    }
}

fn class_of(tag: u8) -> (r: PathClass)
    requires
        tag != 5 && tag != 6 && tag != 7,
    ensures
        r.tag == tag,
{
    PathClass { tag, section: Vec::new(), index: 0 }
}

/// Classifies a stream path.
pub fn classify_pcb_path(p: &[u8]) -> (r: PathClass)
    ensures
        path_class_view(r) == pcb_path_class(p@),
        r.tag <= 9,
{
    let mut st: usize = 0;
    assert(p@.subrange(0, p@.len() as int) =~= p@);
    while st < p.len() && p[st] == 47
        invariant
            st <= p@.len(),
            strip_slashes(p@.subrange(st as int, p@.len() as int)) == strip_slashes(p@),
        decreases p@.len() - st,
    {
        assert(p@.subrange(st as int, p@.len() as int).drop_first() =~= p@.subrange(st + 1, p@.len() as int));
        st = st + 1;
    }
    let rel = crate::wire::copy_range(p, st, p.len());
    assert(strip_slashes(rel@) == rel@);
    let s1 = find_byte_exec(rel.as_slice(), 47, 0);
    if s1 >= rel.len() {
        if keys_equal(rel.as_slice(), "FileHeader".as_bytes()) {
            return class_of(1);
        } else if keys_equal(rel.as_slice(), "FileHeaderSix".as_bytes()) {
            return class_of(2);
        } else {
            return class_of(3);
        }
    }
    let sec = crate::wire::copy_range(rel.as_slice(), 0, s1);
    let leaf = crate::wire::copy_range(rel.as_slice(), s1 + 1, rel.len());
    if find_byte_exec(leaf.as_slice(), 47, 0) < leaf.len() {
        return class_of(0);
    }
    match classify_section_kind(sec.as_slice()) {
        None => class_of(4),
        Some(kind) => {
            if keys_equal(leaf.as_slice(), "Header".as_bytes()) {
                PathClass { tag: 5, section: sec, index: 0 }
            } else if keys_equal(leaf.as_slice(), "Data".as_bytes()) {
                PathClass { tag: 6, section: sec, index: 0 }
            } else if kind == PcbDocSectionKind::Models {
                match parse_u32_text_exec(leaf.as_slice()) {
                    Some(i) => PathClass { tag: 7, section: sec, index: i },
                    None => class_of(8),
                }
            } else {
                class_of(9)
            }
        },
    }
}

/// The class of path `j`.
pub open spec fn cls_at(paths: Seq<String>, j: int) -> PcbPathClass {
    pcb_path_class(vstd::utf8::encode_utf8(paths[j]@))
}

/// Whether two classes name the same stream slot.
pub open spec fn slot_eq(a: PcbPathClass, b: PcbPathClass) -> bool {
    match (a, b) {
        (PcbPathClass::FileHeader, PcbPathClass::FileHeader) => true,
        (PcbPathClass::FileHeaderSix, PcbPathClass::FileHeaderSix) => true,
        (PcbPathClass::Header(x), PcbPathClass::Header(y)) => x == y,
        (PcbPathClass::Data(x), PcbPathClass::Data(y)) => x == y,
        (PcbPathClass::Entry(x, i), PcbPathClass::Entry(y, j)) => x == y && i == j,
        _ => false,
    }
}

/// Whether a class is a stream a PcbDoc may hold.
pub open spec fn class_ok(c: PcbPathClass) -> bool {
    c is FileHeader || c is FileHeaderSix || c is Header || c is Data || c is Entry
}

/// The section a class belongs to.
pub open spec fn section_of(c: PcbPathClass) -> Option<Seq<u8>> {
    match c {
        PcbPathClass::Header(x) => Some(x),
        PcbPathClass::Data(x) => Some(x),
        PcbPathClass::Entry(x, _) => Some(x),
        _ => None,
    }
}

/// A stream of a kind this library does not read: another root stream, a
/// stream in a storage of no known section, or an unknown stream of a
/// section.
pub open spec fn unimplemented_class(c: PcbPathClass) -> bool {
    c is UnknownRoot || c is UnknownSection || c is UnknownLeaf
}

/// Whether every path before `i` is a known stream and none of them is
/// named twice, so that the walk reaches path `i`.
pub open spec fn first_bad_path(paths: Seq<String>, i: int) -> bool {
    &&& forall|q: int| 0 <= q < i ==> class_ok(#[trigger] cls_at(paths, q))
    &&& forall|a: int, b: int| 0 <= a < b < i ==> !slot_eq(#[trigger] cls_at(paths, a), #[trigger] cls_at(paths, b))
}

/// Whether the paths form a PcbDoc: every path a known stream, none twice,
/// and a `FileHeader`.
pub open spec fn paths_valid(paths: Seq<String>) -> bool {
    &&& forall|i: int| 0 <= i < paths.len() ==> class_ok(#[trigger] cls_at(paths, i))
    &&& forall|i: int, j: int| 0 <= i < j < paths.len() ==> !slot_eq(#[trigger] cls_at(paths, i), #[trigger] cls_at(paths, j))
    &&& exists|i: int| 0 <= i < paths.len() && (#[trigger] cls_at(paths, i)) is FileHeader
}

/// The streams of one section storage.
pub struct PcbDocSectionPaths {
    /// The storage name as written in the paths.
    pub name: Vec<u8>,
    pub header: Option<String>,
    pub data: Option<String>,
    /// `Models` entries, by index.
    pub numbered_entries: Vec<(u32, String)>,
}

/// The stream paths of a PcbDoc: root headers and the sections, in name
/// order.
pub struct PcbDocStreamPaths {
    pub file_header: String,
    pub file_header_six: Option<String>,
    pub sections: Vec<PcbDocSectionPaths>,
}

/// `a` sorts strictly before `b`.
pub open spec fn bytes_lt(a: Seq<u8>, b: Seq<u8>) -> bool {
    bytes_le(a, b) && a != b
}

/// Whether the optional path is the path among the first `n` of class `c`.
pub open spec fn slot_path(o: Option<String>, paths: Seq<String>, n: int, c: PcbPathClass) -> bool {
    match o {
        Some(x) => exists|j: int| 0 <= j < n && #[trigger] cls_at(paths, j) == c && x@ == paths[j]@,
        None => forall|j: int| 0 <= j < n ==> #[trigger] cls_at(paths, j) != c,
    }
}

/// The `Models` entries of the named section among the first `n` paths.
pub open spec fn entry_set(paths: Seq<String>, n: int, name: Seq<u8>) -> Set<(u32, Seq<char>)> {
    Set::new(
        |e: (u32, Seq<char>)|
            exists|j: int| 0 <= j < n && #[trigger] cls_at(paths, j) == PcbPathClass::Entry(name, e.0) && e.1 == paths[j]@,
    )
}

/// The entries' values.
pub open spec fn entries_view(es: Seq<(u32, String)>) -> Seq<(u32, Seq<char>)> {
    es.map_values(|e: (u32, String)| (e.0, e.1@))
}

/// Whether the entries are exactly the `Models` entries of the section
/// among the first `n` paths, by increasing index.
pub open spec fn entries_match(es: Seq<(u32, String)>, paths: Seq<String>, n: int, name: Seq<u8>) -> bool {
    &&& forall|a: int, b: int| 0 <= a < b < es.len() ==> (#[trigger] es[a]).0 < (#[trigger] es[b]).0
    &&& entries_view(es).to_set() == entry_set(paths, n, name)
}

/// The sections' names.
pub open spec fn sec_names(secs: Seq<PcbDocSectionPaths>) -> Seq<Seq<u8>> {
    secs.map_values(|s: PcbDocSectionPaths| s.name@)
}

/// Whether the sections are exactly those of the first `n` paths, in name
/// order, each with its streams.
pub open spec fn sections_match(secs: Seq<PcbDocSectionPaths>, paths: Seq<String>, n: int) -> bool {
    &&& names_strict(sec_names(secs))
    &&& sec_names(secs).to_set() == section_set(paths, n)
    &&& forall|k: int|
        0 <= k < secs.len() ==> {
            let s = #[trigger] secs[k];
            &&& slot_path(s.header, paths, n, PcbPathClass::Header(s.name@))
            &&& slot_path(s.data, paths, n, PcbPathClass::Data(s.name@))
            &&& entries_match(s.numbered_entries@, paths, n, s.name@)
        }
}

/// The class of path `i`.
fn class_at(paths: &[String], i: usize) -> (r: PathClass)
    requires
        i < paths@.len(),
    ensures
        path_class_view(r) == cls_at(paths@, i as int),
        r.tag <= 9,
{
    classify_pcb_path(paths[i].as_str().as_bytes())
}

/// Inserting a name before the first larger one keeps names strictly
/// sorted.
proof fn lemma_insert_name(ns: Seq<Seq<u8>>, pos: int, x: Seq<u8>)
    requires
        forall|a: int, b: int| 0 <= a < b < ns.len() ==> bytes_lt(#[trigger] ns[a], #[trigger] ns[b]),
        0 <= pos <= ns.len(),
        forall|k: int| 0 <= k < pos ==> bytes_le(#[trigger] ns[k], x),
        forall|k: int| 0 <= k < ns.len() ==> #[trigger] ns[k] != x,
        pos < ns.len() ==> !bytes_le(ns[pos], x),
    ensures
        forall|a: int, b: int|
            0 <= a < b < ns.insert(pos, x).len() ==> bytes_lt(#[trigger] ns.insert(pos, x)[a], #[trigger] ns.insert(pos, x)[b]),
{
    let r = ns.insert(pos, x);
    if pos < ns.len() {
        lemma_bytes_le_total(ns[pos], x);
    }
    assert forall|a: int, b: int| 0 <= a < b < r.len() implies bytes_lt(#[trigger] r[a], #[trigger] r[b]) by {
        if b < pos {
            assert(r[a] == ns[a] && r[b] == ns[b]);
        } else if a > pos {
            assert(r[a] == ns[a - 1] && r[b] == ns[b - 1]);
        } else if a == pos {
            assert(r[b] == ns[b - 1]);
            if b - 1 > pos {
                lemma_bytes_le_transitive(x, ns[pos], ns[b - 1]);
                if x == ns[b - 1] {
                    lemma_bytes_le_antisymmetric(ns[pos], ns[b - 1]);
                }
            }
        } else {
            assert(r[a] == ns[a]);
            if b == pos {
                assert(r[b] == x);
            } else {
                assert(r[b] == ns[b - 1]);
            }
        }
    }
}

/// The names' bytes.
pub open spec fn names_view(ns: Seq<Vec<u8>>) -> Seq<Seq<u8>> {
    ns.map_values(|v: Vec<u8>| v@)
}

/// Whether names are strictly sorted.
pub open spec fn names_strict(ns: Seq<Seq<u8>>) -> bool {
    forall|a: int, b: int| 0 <= a < b < ns.len() ==> bytes_lt(#[trigger] ns[a], #[trigger] ns[b])
}

/// Adds a name to strictly sorted names, unless present.
fn add_name(names: &mut Vec<Vec<u8>>, nm: Vec<u8>)
    requires
        names_strict(names_view(old(names)@)),
    ensures
        names_strict(names_view(final(names)@)),
        names_view(final(names)@).to_set() == names_view(old(names)@).to_set().insert(nm@),
{
    let ghost bv = names_view(names@);
    let mut k: usize = 0;
    while k < names.len()
        invariant
            k <= names@.len(),
            bv == names_view(names@),
            bv == names_view(old(names)@),
            names_strict(bv),
            forall|q: int| 0 <= q < k ==> (#[trigger] bv[q]) != nm@,
        decreases names@.len() - k,
    {
        assert(bv[k as int] == names@[k as int]@);
        if crate::documents::pcbdoc_streams::bytes_equal(names[k].as_slice(), nm.as_slice()) {
            assert(bv.contains(nm@));
            assert(bv.to_set() =~= bv.to_set().insert(nm@));
            return;
        }
        k = k + 1;
    }
    let mut pos: usize = 0;
    while pos < names.len() && bytes_le_exec(names[pos].as_slice(), nm.as_slice())
        invariant
            pos <= names@.len(),
            bv == names_view(names@),
            forall|q: int| 0 <= q < pos ==> bytes_le(#[trigger] bv[q], nm@),
        decreases names@.len() - pos,
    {
        assert(bv[pos as int] == names@[pos as int]@);
        pos = pos + 1;
    }
    proof {
        if pos < bv.len() {
            assert(bv[pos as int] == names@[pos as int]@);
        }
        lemma_insert_name(bv, pos as int, nm@);
    }
    let ghost nv = nm@;
    names.insert(pos, nm);
    proof {
        assert(names_view(names@) =~= bv.insert(pos as int, nv));
        assert forall|x: Seq<u8>| #[trigger] names_view(names@).contains(x) <==> bv.contains(x) || x == nv by {
            let r = bv.insert(pos as int, nv);
            if r.contains(x) {
                let q = choose|q: int| 0 <= q < r.len() && r[q] == x;
                if q < pos {
                    assert(bv[q] == x);
                } else if q > pos {
                    assert(bv[q - 1] == x);
                }
            }
            if bv.contains(x) {
                let q = choose|q: int| 0 <= q < bv.len() && bv[q] == x;
                if q < pos {
                    assert(r[q] == x);
                } else {
                    assert(r[q + 1] == x);
                }
            }
            if x == nv {
                assert(r[pos as int] == x);
            }
        }
        assert(names_view(names@).to_set() =~= bv.to_set().insert(nv));
    }
}

/// The section names among the first `n` paths.
pub open spec fn section_set(paths: Seq<String>, n: int) -> Set<Seq<u8>> {
    Set::new(|x: Seq<u8>| exists|j: int| 0 <= j < n && section_of(#[trigger] cls_at(paths, j)) == Some(x))
}

proof fn lemma_section_set_step(paths: Seq<String>, i: int)
    requires
        0 <= i,
    ensures
        section_set(paths, i + 1) == match section_of(cls_at(paths, i)) {
            Some(x) => section_set(paths, i).insert(x),
            None => section_set(paths, i),
        },
{
    let t = match section_of(cls_at(paths, i)) {
        Some(x) => section_set(paths, i).insert(x),
        None => section_set(paths, i),
    };
    assert forall|x: Seq<u8>| section_set(paths, i + 1).contains(x) <==> t.contains(x) by {
        if section_set(paths, i + 1).contains(x) {
            let j = choose|j: int| 0 <= j < i + 1 && section_of(#[trigger] cls_at(paths, j)) == Some(x);
            if j < i {
                assert(section_set(paths, i).contains(x));
            }
        }
        if section_set(paths, i).contains(x) {
            let j = choose|j: int| 0 <= j < i && section_of(#[trigger] cls_at(paths, j)) == Some(x);
            assert(0 <= j < i + 1 && section_of(cls_at(paths, j)) == Some(x));
        }
        if section_of(cls_at(paths, i)) == Some(x) {
            assert(0 <= i < i + 1 && section_of(cls_at(paths, i)) == Some(x));
        }
    }
    assert(section_set(paths, i + 1) =~= t);
}

/// The distinct section names of the paths, in name order.
fn section_names(paths: &[String]) -> (r: Vec<Vec<u8>>)
    ensures
        names_strict(names_view(r@)),
        names_view(r@).to_set() == section_set(paths@, paths@.len() as int),
{
    let mut names: Vec<Vec<u8>> = Vec::new();
    let mut i: usize = 0;
    assert(section_set(paths@, 0) =~= Set::<Seq<u8>>::empty());
    assert(names_view(names@).to_set() =~= Set::<Seq<u8>>::empty());
    while i < paths.len()
        invariant
            i <= paths@.len(),
            names_strict(names_view(names@)),
            names_view(names@).to_set() == section_set(paths@, i as int),
        decreases paths@.len() - i,
    {
        let c = class_at(paths, i);
        proof {
            lemma_section_set_step(paths@, i as int);
        }
        if c.tag == 5 || c.tag == 6 || c.tag == 7 {
            assert(section_of(cls_at(paths@, i as int)) == Some(c.section@));
            add_name(&mut names, c.section);
        } else {
            assert(section_of(cls_at(paths@, i as int)) is None);
        }
        i = i + 1;
    }
    names
}

/// Whether no two of the paths name the same stream.
pub open spec fn no_duplicate_slots(paths: Seq<String>) -> bool {
    forall|i: int, j: int| 0 <= i < j < paths.len() ==> !slot_eq(#[trigger] cls_at(paths, i), #[trigger] cls_at(paths, j))
}

/// Adds an entry with a new index, keeping indices increasing.
fn add_entry(es: &mut Vec<(u32, String)>, idx: u32, path: String)
    requires
        forall|a: int, b: int| 0 <= a < b < old(es)@.len() ==> (#[trigger] old(es)@[a]).0 < (#[trigger] old(es)@[b]).0,
        forall|k: int| 0 <= k < old(es)@.len() ==> (#[trigger] old(es)@[k]).0 != idx,
    ensures
        forall|a: int, b: int| 0 <= a < b < final(es)@.len() ==> (#[trigger] final(es)@[a]).0 < (#[trigger] final(es)@[b]).0,
        entries_view(final(es)@).to_set() == entries_view(old(es)@).to_set().insert((idx, path@)),
{
    let mut pos: usize = 0;
    while pos < es.len() && es[pos].0 < idx
        invariant
            pos <= es@.len(),
            forall|q: int| 0 <= q < pos ==> (#[trigger] es@[q]).0 < idx,
        decreases es@.len() - pos,
    {
        pos = pos + 1;
    }
    let ghost before = es@;
    let ghost pv = path@;
    es.insert(pos, (idx, path));
    proof {
        assert(es@ == before.insert(pos as int, (idx, es@[pos as int].1)));
        assert forall|a: int, b: int| 0 <= a < b < es@.len() implies (#[trigger] es@[a]).0 < (#[trigger] es@[b]).0 by {
            if b < pos {
                assert(es@[a] == before[a] && es@[b] == before[b]);
            } else if a > pos {
                assert(es@[a] == before[a - 1] && es@[b] == before[b - 1]);
            } else if a == pos {
                assert(es@[b] == before[b - 1]);
                assert(before[pos as int].0 >= idx);
                if b - 1 > pos {
                    assert(before[pos as int].0 < before[b - 1].0);
                }
            } else {
                assert(es@[a] == before[a]);
                if b > pos {
                    assert(es@[b] == before[b - 1]);
                    assert(before[a].0 < idx);
                    assert(before[pos as int].0 >= idx);
                    if b - 1 > pos {
                        assert(before[pos as int].0 < before[b - 1].0);
                    }
                }
            }
        }
        let bv = entries_view(before);
        assert(entries_view(es@) =~= bv.insert(pos as int, (idx, pv)));
        assert(entries_view(es@).to_set() =~= bv.to_set().insert((idx, pv))) by {
            let r = bv.insert(pos as int, (idx, pv));
            assert forall|x: (u32, Seq<char>)| r.contains(x) <==> bv.contains(x) || x == (idx, pv) by {
                if r.contains(x) {
                    let q = choose|q: int| 0 <= q < r.len() && r[q] == x;
                    if q < pos {
                        assert(bv[q] == x);
                    } else if q > pos {
                        assert(bv[q - 1] == x);
                    }
                }
                if bv.contains(x) {
                    let q = choose|q: int| 0 <= q < bv.len() && bv[q] == x;
                    if q < pos {
                        assert(r[q] == x);
                    } else {
                        assert(r[q + 1] == x);
                    }
                }
                if x == (idx, pv) {
                    assert(r[pos as int] == x);
                }
            }
        }
    }
}

proof fn lemma_entry_set_step(paths: Seq<String>, j: int, name: Seq<u8>)
    requires
        0 <= j < paths.len(),
    ensures
        entry_set(paths, j + 1, name) == match entry_index(cls_at(paths, j), name) {
            Some(idx) => entry_set(paths, j, name).insert((idx, paths[j]@)),
            None => entry_set(paths, j, name),
        },
{
    let t = match entry_index(cls_at(paths, j), name) {
        Some(idx) => entry_set(paths, j, name).insert((idx, paths[j]@)),
        None => entry_set(paths, j, name),
    };
    assert forall|e: (u32, Seq<char>)| entry_set(paths, j + 1, name).contains(e) <==> t.contains(e) by {
        if entry_set(paths, j + 1, name).contains(e) {
            let q = choose|q: int|
                0 <= q < j + 1 && #[trigger] cls_at(paths, q) == PcbPathClass::Entry(name, e.0) && e.1 == paths[q]@;
            if q < j {
                assert(entry_set(paths, j, name).contains(e));
            }
        }
        if entry_set(paths, j, name).contains(e) {
            let q = choose|q: int|
                0 <= q < j && #[trigger] cls_at(paths, q) == PcbPathClass::Entry(name, e.0) && e.1 == paths[q]@;
            assert(0 <= q < j + 1);
        }
        if entry_index(cls_at(paths, j), name) == Some(e.0) && e.1 == paths[j]@ {
            assert(cls_at(paths, j) == PcbPathClass::Entry(name, e.0));
        }
    }
    assert(entry_set(paths, j + 1, name) =~= t);
}

/// The index of a `Models` entry of the named section.
pub open spec fn entry_index(c: PcbPathClass, name: Seq<u8>) -> Option<u32> {
    match c {
        PcbPathClass::Entry(x, i) => if x == name {
            Some(i)
        } else {
            None
        },
        _ => None,
    }
}

/// The streams of the named section.
#[verifier::rlimit(50)]
#[verifier::spinoff_prover]
fn section_paths_for(paths: &[String], name: &Vec<u8>) -> (r: PcbDocSectionPaths)
    requires
        no_duplicate_slots(paths@),
    ensures
        r.name@ == name@,
        slot_path(r.header, paths@, paths@.len() as int, PcbPathClass::Header(name@)),
        slot_path(r.data, paths@, paths@.len() as int, PcbPathClass::Data(name@)),
        entries_match(r.numbered_entries@, paths@, paths@.len() as int, name@),
{
    let mut header: Option<String> = None;
    let mut data: Option<String> = None;
    let mut es: Vec<(u32, String)> = Vec::new();
    let mut j: usize = 0;
    assert(entry_set(paths@, 0, name@) =~= Set::<(u32, Seq<char>)>::empty());
    assert(entries_view(es@).to_set() =~= Set::<(u32, Seq<char>)>::empty());
    while j < paths.len()
        invariant
            j <= paths@.len(),
            no_duplicate_slots(paths@),
            slot_path(header, paths@, j as int, PcbPathClass::Header(name@)),
            slot_path(data, paths@, j as int, PcbPathClass::Data(name@)),
            entries_match(es@, paths@, j as int, name@),
        decreases paths@.len() - j,
    {
        let c = class_at(paths, j);
        let ghost cj = cls_at(paths@, j as int);
        proof {
            lemma_entry_set_step(paths@, j as int, name@);
        }
        let mine = crate::documents::pcbdoc_streams::bytes_equal(c.section.as_slice(), name.as_slice());
        let ghost es_before = es@;
        if c.tag == 5 && mine {
            proof {
                if header is Some {
                    let q = choose|q: int| 0 <= q < j && #[trigger] cls_at(paths@, q) == PcbPathClass::Header(name@)
                        && header.unwrap()@ == paths@[q]@;
                    assert(slot_eq(cls_at(paths@, q), cls_at(paths@, j as int)));
                }
            }
            header = Some(text(paths[j].as_str()));
        } else if c.tag == 6 && mine {
            proof {
                if data is Some {
                    let q = choose|q: int| 0 <= q < j && #[trigger] cls_at(paths@, q) == PcbPathClass::Data(name@)
                        && data.unwrap()@ == paths@[q]@;
                    assert(slot_eq(cls_at(paths@, q), cls_at(paths@, j as int)));
                }
            }
            data = Some(text(paths[j].as_str()));
        } else if c.tag == 7 && mine {
            proof {
                assert forall|k: int| 0 <= k < es@.len() implies (#[trigger] es@[k]).0 != c.index by {
                    if es@[k].0 == c.index {
                        assert(entries_view(es@)[k] == (es@[k].0, es@[k].1@));
                        assert(entries_view(es@).to_set().contains((es@[k].0, es@[k].1@)));
                        let q = choose|q: int|
                            0 <= q < j && #[trigger] cls_at(paths@, q) == PcbPathClass::Entry(name@, es@[k].0)
                                && es@[k].1@ == paths@[q]@;
                        assert(slot_eq(cls_at(paths@, q), cls_at(paths@, j as int)));
                    }
                }
            }
            add_entry(&mut es, c.index, text(paths[j].as_str()));
        }
        proof {
            assert((c.tag == 5 && mine) <==> cj == PcbPathClass::Header(name@));
            assert((c.tag == 6 && mine) <==> cj == PcbPathClass::Data(name@));
            assert((c.tag == 7 && mine) <==> entry_index(cj, name@) is Some);
            if c.tag == 7 && mine {
                assert(entry_index(cj, name@) == Some(c.index));
            }
        }
        j = j + 1;
    }
    PcbDocSectionPaths { name: crate::wire::copy_range(name.as_slice(), 0, name.len()), header, data, numbered_entries: es }
}

/// Whether two path classes name the same stream.
fn same_slot(a: &PathClass, b: &PathClass) -> (r: bool)
    requires
        a.tag <= 9,
        b.tag <= 9,
    ensures
        r == slot_eq(path_class_view(*a), path_class_view(*b)),
{
    if a.tag != b.tag {
        return false;
    }
    if a.tag == 1 || a.tag == 2 {
        true
    } else if a.tag == 5 || a.tag == 6 {
        crate::documents::pcbdoc_streams::bytes_equal(a.section.as_slice(), b.section.as_slice())
    } else if a.tag == 7 {
        a.index == b.index && crate::documents::pcbdoc_streams::bytes_equal(a.section.as_slice(), b.section.as_slice())
    } else {
        false
    }
}

/// The streams of a PcbDoc from its stream paths, in walk order: a
/// `FileHeader` (required) and `FileHeaderSix`, and `Header`, `Data` and
/// numbered `Models` entries of known section storages; any other stream,
/// a deeper path, or a stream named twice is an error. Sections come in
/// name order.
pub fn collect_pcbdoc_stream_paths(paths: &[String]) -> (r: Result<PcbDocStreamPaths>)
    ensures
        r is Ok <==> paths_valid(paths@),
        r is Err ==> r matches Err(AltiumError::Parse(_)),
        forall|i: int|
            #![trigger cls_at(paths@, i)]
            0 <= i < paths@.len() && first_bad_path(paths@, i) && unimplemented_class(cls_at(paths@, i)) ==> (r matches Err(
                AltiumError::Parse(m),
            ) && m@ == "pcbdoc contains unimplemented stream '"@ + paths@[i]@ + "'"@),
        r matches Ok(sp) ==> {
            &&& exists|f: int|
                0 <= f < paths@.len() && (#[trigger] cls_at(paths@, f)) is FileHeader && sp.file_header@ == paths@[f]@
            &&& slot_path(sp.file_header_six, paths@, paths@.len() as int, PcbPathClass::FileHeaderSix)
            &&& sections_match(sp.sections@, paths@, paths@.len() as int)
        },
{
    let mut file_header: Option<String> = None;
    let mut file_header_six: Option<String> = None;
    let mut i: usize = 0;
    while i < paths.len()
        invariant
            i <= paths@.len(),
            forall|q: int| 0 <= q < i ==> class_ok(#[trigger] cls_at(paths@, q)),
            forall|a: int, b: int| 0 <= a < b < i ==> !slot_eq(#[trigger] cls_at(paths@, a), #[trigger] cls_at(paths@, b)),
            slot_path(file_header, paths@, i as int, PcbPathClass::FileHeader),
            slot_path(file_header_six, paths@, i as int, PcbPathClass::FileHeaderSix),
        decreases paths@.len() - i,
    {
        let c = class_at(paths, i);
        let p = paths[i].as_str();
        if c.tag == 0 {
            return Err(AltiumError::Parse(crate::error::text3("pcbdoc contains nested stream '", p, "'")));
        }
        if c.tag == 3 || c.tag == 4 || c.tag == 9 {
            return Err(AltiumError::Parse(crate::error::text3("pcbdoc contains unimplemented stream '", p, "'")));
        }
        if c.tag == 8 {
            return Err(
                AltiumError::Parse(crate::error::text3("pcbdoc Models stream '", p, "' is not a numeric entry")),
            );
        }
        let mut j: usize = 0;
        while j < i
            invariant
                j <= i < paths@.len(),
                path_class_view(c) == cls_at(paths@, i as int),
                c.tag <= 9,
                class_ok(cls_at(paths@, i as int)),
                p@ == paths@[i as int]@,
                forall|q: int| 0 <= q < i ==> class_ok(#[trigger] cls_at(paths@, q)),
                forall|q: int| 0 <= q < j ==> !slot_eq(#[trigger] cls_at(paths@, q), cls_at(paths@, i as int)),
            decreases i - j,
        {
            let d = class_at(paths, j);
            if same_slot(&d, &c) {
                let m = if c.tag == 1 {
                    text("pcbdoc contains duplicate 'FileHeader' stream")
                } else if c.tag == 2 {
                    text("pcbdoc contains duplicate 'FileHeaderSix' stream")
                } else if c.tag == 5 {
                    crate::error::text3("pcbdoc contains duplicate section Header stream '", p, "'")
                } else if c.tag == 6 {
                    crate::error::text3("pcbdoc contains duplicate section Data stream '", p, "'")
                } else {
                    crate::error::text2("pcbdoc contains duplicate Models entry ", usize_text(c.index as usize).as_str())
                };
                proof {
                    assert forall|k: int|
                        #![trigger cls_at(paths@, k)]
                        0 <= k < paths@.len() && first_bad_path(paths@, k) implies !unimplemented_class(cls_at(paths@, k)) by {
                        if k > i {
                            assert(slot_eq(cls_at(paths@, j as int), cls_at(paths@, i as int)));
                        } else if k < i {
                            assert(class_ok(cls_at(paths@, k)));
                        }
                    }
                }
                return Err(AltiumError::Parse(m));
            }
            j = j + 1;
        }
        if c.tag == 1 {
            file_header = Some(text(p));
        } else if c.tag == 2 {
            file_header_six = Some(text(p));
        }
        proof {
            let ci = cls_at(paths@, i as int);
            assert forall|a: int, b: int| 0 <= a < b < i + 1 implies !slot_eq(
                #[trigger] cls_at(paths@, a),
                #[trigger] cls_at(paths@, b),
            ) by {
                if b == i {
                    assert(!slot_eq(cls_at(paths@, a), ci));
                }
            }
            if c.tag == 1 {
                if exists|q: int| 0 <= q < i && #[trigger] cls_at(paths@, q) == PcbPathClass::FileHeader {
                    let q = choose|q: int| 0 <= q < i && #[trigger] cls_at(paths@, q) == PcbPathClass::FileHeader;
                    assert(slot_eq(cls_at(paths@, q), ci));
                }
            }
        }
        i = i + 1;
    }
    let fh = match file_header {
        Some(f) => f,
        None => {
            proof {
                assert forall|f: int| 0 <= f < paths@.len() implies !((#[trigger] cls_at(paths@, f)) is FileHeader) by {
                    assert(cls_at(paths@, f) != PcbPathClass::FileHeader);
                }
            }
            return Err(AltiumError::Parse(text("pcbdoc missing required 'FileHeader' stream")));
        },
    };
    let names = section_names(paths);
    let mut sections: Vec<PcbDocSectionPaths> = Vec::new();
    let mut k: usize = 0;
    while k < names.len()
        invariant
            k <= names@.len(),
            no_duplicate_slots(paths@),
            sections@.len() == k,
            sec_names(sections@) == names_view(names@).take(k as int),
            forall|q: int|
                0 <= q < k ==> {
                    let s = #[trigger] sections@[q];
                    &&& slot_path(s.header, paths@, paths@.len() as int, PcbPathClass::Header(s.name@))
                    &&& slot_path(s.data, paths@, paths@.len() as int, PcbPathClass::Data(s.name@))
                    &&& entries_match(s.numbered_entries@, paths@, paths@.len() as int, s.name@)
                },
        decreases names@.len() - k,
    {
        let sp = section_paths_for(paths, &names[k]);
        let ghost before = sections@;
        sections.push(sp);
        assert(sec_names(sections@) =~= names_view(names@).take(k + 1));
        k = k + 1;
    }
    assert(names_view(names@).take(k as int) =~= names_view(names@));
    Ok(PcbDocStreamPaths { file_header: fh, file_header_six, sections })
}

} // verus!
