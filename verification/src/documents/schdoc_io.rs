//! Reading SchDoc streams: the root stream names, the header block and the
//! record blocks of `/FileHeader` and `/Additional`.
use vstd::prelude::*;
use vstd::string::StringSliceAdditionalSpecFns;

use crate::documents::blocks::{blocks_view, parse_block_stream, RawBlock};
use crate::documents::schdoc::{
    count_components, spec_place, RecordNode, RecordOrigin, SchDoc, SchDocAdditionalStreamMeta, SchDocFileHeaderStreamMeta, SchDocStorageStreamMeta,
    SchDocStream,
};
use crate::error::{text, text2, text3, AltiumError, Result};
use crate::params::{key_eq, lookup, parse_i32, parse_params, text_before_nul, ParameterCollection};
use crate::record_ids::{is_known_record_code, SchRecordId};
use crate::wire::u32_at;

verus! {

/// The value of a record: record type, stream, and either its parameters or
/// its binary payload.
pub enum RecordValue {
    Text(u8, SchDocStream, Seq<(Seq<u8>, Seq<u8>)>),
    Binary(u8, SchDocStream, Seq<u8>),
}

/// The value of a record node.
pub open spec fn record_value(n: RecordNode) -> RecordValue {
    match n.origin {
        RecordOrigin::Param(p) => RecordValue::Text(n.key, n.stream, p@),
        RecordOrigin::Binary(b) => RecordValue::Binary(n.key, n.stream, b@),
    }
}

/// The record a block holds; `None` for a block that is no supported
/// record. A binary block (flags 1) starts with its record type as a `u32`;
/// a text block names it in its `RECORD` parameter.
pub open spec fn block_record(b: (u8, Seq<u8>), stream: SchDocStream) -> Option<RecordValue> {
    if b.0 != 0 {
        if b.0 != 1 || b.1.len() < 4 {
            None
        } else {
            let rt = u32_at(b.1, 0) as u8;
            if is_known_record_code(rt) {
                Some(RecordValue::Binary(rt, stream, b.1))
            } else {
                None
            }
        }
    } else {
        let ps = parse_params(text_before_nul(b.1));
        match lookup(ps, "RECORD".spec_bytes()) {
            None => None,
            Some(v) => {
                let id: u8 = match parse_i32(v) {
                    Some(x) => x as u8,
                    None => 0u8,
                };
                if id != 0 && is_known_record_code(id) {
                    Some(RecordValue::Text(id, stream, ps))
                } else {
                    None
                }
            },
        }
    }
}

/// The records of a stream's blocks after the header block, with their block
/// indices; `None` when one is no supported record.
pub open spec fn stream_records(bs: Seq<(u8, Seq<u8>)>, stream: SchDocStream) -> Option<Seq<(usize, RecordValue)>>
    decreases bs.len(),
{
    if bs.len() <= 1 {
        Some(Seq::empty())
    } else {
        match (stream_records(bs.drop_last(), stream), block_record(bs.last(), stream)) {
            (Some(r), Some(v)) => Some(r.push(((bs.len() - 1) as usize, v))),
            _ => None,
        }
    }
}

/// The records of a stream: one for each block after the header block,
/// numbered by its block index, each the record its block holds; none at all
/// when one of those blocks holds no supported record.
pub proof fn lemma_stream_records_exact(bs: Seq<(u8, Seq<u8>)>, stream: SchDocStream)
    ensures
        stream_records(bs, stream) is Some <==> forall|i: int|
            1 <= i < bs.len() ==> (#[trigger] block_record(bs[i], stream)) is Some,
        stream_records(bs, stream) matches Some(rs) ==> {
            &&& rs.len() == if bs.len() == 0 { 0 } else { bs.len() - 1 }
            &&& forall|k: int|
                0 <= k < rs.len() ==> #[trigger] rs[k] == ((k + 1) as usize, block_record(bs[k + 1], stream).unwrap())
        },
    decreases bs.len(),
{
    if bs.len() > 1 {
        let pre = bs.drop_last();
        lemma_stream_records_exact(pre, stream);
        let last = block_record(bs.last(), stream);
        let all_bs = forall|i: int| 1 <= i < bs.len() ==> (#[trigger] block_record(bs[i], stream)) is Some;
        let all_pre = forall|i: int| 1 <= i < pre.len() ==> (#[trigger] block_record(pre[i], stream)) is Some;
        assert(all_bs == (all_pre && last is Some)) by {
            if all_bs {
                assert forall|i: int| 1 <= i < pre.len() implies (#[trigger] block_record(pre[i], stream)) is Some by {
                    assert(pre[i] == bs[i]);
                    assert(block_record(bs[i], stream) is Some);
                }
                assert(block_record(bs[bs.len() - 1], stream) is Some);
            }
            if all_pre && last is Some {
                assert forall|i: int| 1 <= i < bs.len() implies (#[trigger] block_record(bs[i], stream)) is Some by {
                    if i < pre.len() {
                        assert(pre[i] == bs[i]);
                        assert(block_record(pre[i], stream) is Some);
                    }
                }
            }
        }
        if stream_records(bs, stream) is Some {
            let rs = stream_records(bs, stream).unwrap();
            let prs = stream_records(pre, stream).unwrap();
            assert forall|k: int| 0 <= k < rs.len() implies #[trigger] rs[k] == (
                (k + 1) as usize,
                block_record(bs[k + 1], stream).unwrap(),
            ) by {
                if k < prs.len() {
                    assert(rs[k] == prs[k]);
                    assert(pre[k + 1] == bs[k + 1]);
                }
            }
        }
    }
}

/// The record of one block.
fn parse_block_record(b: &RawBlock, stream: SchDocStream, stream_name: &str) -> (r: Result<RecordNode>)
    ensures
        match block_record(b@, stream) {
            Some(v) => r matches Ok(n) && record_value(n) == v,
            None => r matches Err(AltiumError::Parse(_)),
        },
{
    if b.flags != 0 {
        if b.flags != 1 {
            return Err(AltiumError::Parse(text3("schdoc ", stream_name, " block has unsupported binary flags")));
        }
        if b.payload.len() < 4 {
            return Err(AltiumError::Parse(text3("schdoc ", stream_name, " binary block too short")));
        }
        let rt = crate::wire::read_u32_le(b.payload.as_slice(), 0) as u8;
        match SchRecordId::from_u8(rt) {
            Some(_) => {},
            None => {
                return Err(AltiumError::Parse(text3("schdoc ", stream_name, " contains unimplemented record_id")));
            },
        }
        let payload = crate::wire::copy_range(b.payload.as_slice(), 0, b.payload.len());
        assert(payload@ =~= b.payload@);
        Ok(RecordNode { key: rt, origin: RecordOrigin::Binary(payload), stream })
    } else {
        let params = ParameterCollection::from_bytes(b.payload.as_slice());
        let id: u8 = match params.get("RECORD") {
            None => {
                return Err(
                    AltiumError::Parse(text3("schdoc ", stream_name, " contains unimplemented non-record text block")),
                );
            },
            Some(v) => {
                let x = v.as_int_or(0);
                proof {
                    if crate::params::parse_i32(v@) is None {
                        assert(x == 0);
                    }
                }
                x as u8
            },
        };
        if id == 0 {
            return Err(
                AltiumError::Parse(text3("schdoc ", stream_name, " contains unimplemented non-record text block")),
            );
        }
        match SchRecordId::from_u8(id) {
            Some(_) => {},
            None => {
                return Err(AltiumError::Parse(text3("schdoc ", stream_name, " contains unimplemented record_id")));
            },
        }
        Ok(RecordNode { key: id, origin: RecordOrigin::Param(params), stream })
    }
}

/// Parse the record blocks of a stream (all but the header block) into
/// `(block index, record)` pairs.
pub fn parse_record_blocks(blocks: &[RawBlock], stream: SchDocStream, stream_name: &str) -> (r: Result<
    Vec<(usize, RecordNode)>,
>)
    ensures
        match stream_records(blocks_view(blocks@), stream) {
            Some(rs) => r matches Ok(v) && v@.len() == rs.len() && forall|k: int|
                0 <= k < rs.len() ==> (#[trigger] v@[k]).0 == rs[k].0 && record_value(v@[k].1) == rs[k].1,
            None => r matches Err(AltiumError::Parse(_)),
        },
{
    let mut out: Vec<(usize, RecordNode)> = Vec::new();
    if blocks.len() <= 1 {
        return Ok(out);
    }
    let mut i: usize = 1;
    while i < blocks.len()
        invariant
            1 <= i <= blocks@.len(),
            stream_records(blocks_view(blocks@.take(i as int)), stream) matches Some(rs) && out@.len() == rs.len()
                && forall|k: int|
                0 <= k < rs.len() ==> (#[trigger] out@[k]).0 == rs[k].0 && record_value(out@[k].1) == rs[k].1,
        decreases blocks@.len() - i,
    {
        assert(blocks_view(blocks@.take(i + 1)).drop_last() =~= blocks_view(blocks@.take(i as int)));
        assert(blocks_view(blocks@.take(i + 1)).last() == blocks@[i as int]@);
        match parse_block_record(&blocks[i], stream, stream_name) {
            Ok(n) => out.push((i, n)),
            Err(e) => {
                proof {
                    lemma_stream_records_prefix_none(blocks_view(blocks@), i + 1, stream);
                }
                return Err(e);
            },
        }
        i = i + 1;
    }
    assert(blocks_view(blocks@.take(i as int)) =~= blocks_view(blocks@));
    Ok(out)
}

/// A failing prefix makes the whole stream fail.
pub proof fn lemma_stream_records_prefix_none(bs: Seq<(u8, Seq<u8>)>, n: int, stream: SchDocStream)
    requires
        2 <= n <= bs.len(),
        stream_records(bs.take(n), stream) is None,
    ensures
        stream_records(bs, stream) is None,
    decreases bs.len(),
{
    if bs.len() > n {
        assert(bs.drop_last().take(n) =~= bs.take(n));
        lemma_stream_records_prefix_none(bs.drop_last(), n, stream);
    } else {
        assert(bs.take(n) =~= bs);
    }
}

/// The header parameters and blocks of a stream: its first block must be a
/// text block.
pub open spec fn stream_header(data: Seq<u8>) -> Option<(Seq<(Seq<u8>, Seq<u8>)>, Seq<(u8, Seq<u8>)>)> {
    match crate::documents::blocks::spec_blocks(data) {
        Some(bs) => if bs.len() > 0 && bs[0].0 == 0 {
            Some((parse_params(text_before_nul(bs[0].1)), bs))
        } else {
            None
        },
        None => None,
    }
}

/// Parse a stream into its header parameters and its blocks.
fn parse_header_and_blocks(data: &[u8], stream_name: &str) -> (r: Result<(ParameterCollection, Vec<RawBlock>)>)
    ensures
        match stream_header(data@) {
            Some((ps, bs)) => r matches Ok((p, v)) && p@ == ps && blocks_view(v@) == bs,
            None => r is Err,
        },
{
    let blocks = match parse_block_stream(data) {
        Ok(b) => b,
        Err(e) => return Err(e),
    };
    if blocks.len() == 0 || blocks[0].flags != 0 {
        return Err(AltiumError::Parse(text3("schdoc ", stream_name, " stream has no header block")));
    }
    let params = ParameterCollection::from_bytes(blocks[0].payload.as_slice());
    Ok((params, blocks))
}

/// Parse `/FileHeader` into its header metadata and its blocks.
pub fn parse_file_header_meta_and_blocks(data: &[u8]) -> (r: Result<(SchDocFileHeaderStreamMeta, Vec<RawBlock>)>)
    ensures
        match stream_header(data@) {
            Some((ps, bs)) => r matches Ok((m, v)) && m.params@ == ps && blocks_view(v@) == bs,
            None => r is Err,
        },
{
    match parse_header_and_blocks(data, "FileHeader") {
        Ok((params, blocks)) => Ok((SchDocFileHeaderStreamMeta { params }, blocks)),
        Err(e) => Err(e),
    }
}

/// Parse `/Additional` into its header metadata and its blocks.
pub fn parse_additional_meta_and_blocks(data: &[u8]) -> (r: Result<(SchDocAdditionalStreamMeta, Vec<RawBlock>)>)
    ensures
        match stream_header(data@) {
            Some((ps, bs)) => r matches Ok((m, v)) && m.params@ == ps && blocks_view(v@) == bs,
            None => r is Err,
        },
{
    match parse_header_and_blocks(data, "Additional") {
        Ok((params, blocks)) => Ok((SchDocAdditionalStreamMeta { params }, blocks)),
        Err(e) => Err(e),
    }
}

/// Which root stream a path names.
#[derive(Clone, Copy, Debug, PartialEq, Eq, Structural)]
pub enum SchDocRootStream {
    FileHeader,
    Additional,
    Storage,
}

/// The stream paths of a SchDoc's root streams.
#[derive(Clone, Debug)]
pub struct SchDocRootStreamPaths {
    pub file_header: String,
    pub additional: Option<String>,
    pub storage: String,
}

/// The path without leading `/` characters.
pub open spec fn strip_slashes(p: Seq<u8>) -> Seq<u8>
    decreases p.len(),
{
    if p.len() > 0 && p[0] == 47 {
        strip_slashes(p.drop_first())
    } else {
        p
    }
}

/// What a stream path names: `None` for a nested path; otherwise the root
/// stream its name matches (ASCII case ignored), or `None` inside for an
/// unknown name.
pub open spec fn root_stream_of(p: Seq<u8>) -> Option<Option<SchDocRootStream>> {
    let rel = strip_slashes(p);
    if crate::params::find_byte(rel, 47, 0) < rel.len() {
        None
    } else if key_eq(rel, "FileHeader".spec_bytes()) {
        Some(Some(SchDocRootStream::FileHeader))
    } else if key_eq(rel, "Additional".spec_bytes()) {
        Some(Some(SchDocRootStream::Additional))
    } else if key_eq(rel, "Storage".spec_bytes()) {
        Some(Some(SchDocRootStream::Storage))
    } else {
        Some(None)
    }
}

/// The root stream a path names, classifying it.
pub fn classify_root_stream(path: &str) -> (r: Option<Option<SchDocRootStream>>)
    ensures
        r == root_stream_of(path.spec_bytes()),
{
    let b = path.as_bytes();
    let mut s: usize = 0;
    assert(b@.subrange(0, b@.len() as int) =~= b@);
    while s < b.len() && b[s] == 47
        invariant
            s <= b@.len(),
            strip_slashes(b@.subrange(s as int, b@.len() as int)) == strip_slashes(b@),
        decreases b@.len() - s,
    {
        assert(b@.subrange(s as int, b@.len() as int).drop_first() =~= b@.subrange(s + 1, b@.len() as int));
        s = s + 1;
    }
    let rel = crate::wire::copy_range(b, s, b.len());
    assert(strip_slashes(rel@) == rel@);
    if crate::params::find_byte_exec(rel.as_slice(), 47, 0) < rel.len() {
        return None;
    }
    if crate::params::keys_equal(rel.as_slice(), "FileHeader".as_bytes()) {
        Some(Some(SchDocRootStream::FileHeader))
    } else if crate::params::keys_equal(rel.as_slice(), "Additional".as_bytes()) {
        Some(Some(SchDocRootStream::Additional))
    } else if crate::params::keys_equal(rel.as_slice(), "Storage".as_bytes()) {
        Some(Some(SchDocRootStream::Storage))
    } else {
        Some(None)
    }
}

/// The UTF-8 bytes of the paths.
pub open spec fn path_bytes(paths: Seq<String>) -> Seq<Seq<u8>> {
    paths.map_values(|p: String| vstd::utf8::encode_utf8(p@))
}

/// Where the root streams are among the paths, scanning in order; `None` on
/// a nested, unknown or repeated stream.
pub open spec fn scan_roots(ps: Seq<Seq<u8>>) -> Option<(Option<int>, Option<int>, Option<int>)>
    decreases ps.len(),
{
    if ps.len() == 0 {
        Some((None, None, None))
    } else {
        match scan_roots(ps.drop_last()) {
            None => None,
            Some((f, a, s)) => {
                let i = ps.len() - 1;
                match root_stream_of(ps.last()) {
                    Some(Some(SchDocRootStream::FileHeader)) => if f is Some {
                        None
                    } else {
                        Some((Some(i), a, s))
                    },
                    Some(Some(SchDocRootStream::Additional)) => if a is Some {
                        None
                    } else {
                        Some((f, Some(i), s))
                    },
                    Some(Some(SchDocRootStream::Storage)) => if s is Some {
                        None
                    } else {
                        Some((f, a, Some(i)))
                    },
                    _ => None,
                }
            },
        }
    }
}

/// The root stream paths of a SchDoc, in walk order: each of the three may
/// appear once; another or a nested stream is an error, and `FileHeader`
/// and `Storage` are required.
pub fn collect_schdoc_root_stream_paths(paths: &[String]) -> (r: Result<SchDocRootStreamPaths>)
    ensures
        match scan_roots(path_bytes(paths@)) {
            Some((Some(f), a, Some(s))) => r matches Ok(sp) && sp.file_header@ == paths@[f]@ && sp.storage@
                == paths@[s]@ && match a {
                Some(ai) => sp.additional matches Some(x) && x@ == paths@[ai]@,
                None => sp.additional is None,
            },
            _ => r matches Err(AltiumError::Parse(_)),
        },
        forall|i: int|
            #![trigger path_bytes(paths@)[i]]
            0 <= i < paths@.len() && scan_roots(path_bytes(paths@).take(i)) is Some && root_stream_of(
                path_bytes(paths@)[i],
            ) == Some(None::<SchDocRootStream>) ==> (r matches Err(AltiumError::Parse(m)) && m@
                == "schdoc contains unimplemented stream '"@ + paths@[i]@ + "'"@),
{
    let mut file_header: Option<String> = None;
    let mut additional: Option<String> = None;
    let mut storage: Option<String> = None;
    let ghost mut fi: Option<int> = None;
    let ghost mut ai: Option<int> = None;
    let ghost mut si: Option<int> = None;
    let mut i: usize = 0;
    while i < paths.len()
        invariant
            i <= paths@.len(),
            scan_roots(path_bytes(paths@).take(i as int)) == Some((fi, ai, si)),
            match fi {
                Some(k) => file_header matches Some(x) && x@ == paths@[k]@ && 0 <= k < paths@.len(),
                None => file_header is None,
            },
            match ai {
                Some(k) => additional matches Some(x) && x@ == paths@[k]@ && 0 <= k < paths@.len(),
                None => additional is None,
            },
            match si {
                Some(k) => storage matches Some(x) && x@ == paths@[k]@ && 0 <= k < paths@.len(),
                None => storage is None,
            },
        decreases paths@.len() - i,
    {
        let ghost pre = path_bytes(paths@).take(i as int);
        assert(path_bytes(paths@).take(i + 1).drop_last() =~= pre);
        assert(path_bytes(paths@).take(i + 1).last() == vstd::utf8::encode_utf8(paths@[i as int]@));
        let p = paths[i].as_str();
        match classify_root_stream(p) {
            None => {
                proof {
                    lemma_scan_prefix_none(path_bytes(paths@), i + 1);
                    assert forall|k: int|
                        #![trigger path_bytes(paths@)[k]]
                        0 <= k < paths@.len() && scan_roots(path_bytes(paths@).take(k)) is Some && root_stream_of(
                            path_bytes(paths@)[k],
                        ) == Some(None::<SchDocRootStream>) implies k == i by {
                        lemma_scan_first_unknown(path_bytes(paths@), k, i as int);
                        if k > i {
                            assert(path_bytes(paths@).take(k).take(i + 1) =~= path_bytes(paths@).take(i + 1));
                            lemma_scan_prefix_none(path_bytes(paths@).take(k), i + 1);
                        }
                    }
                }
                return Err(AltiumError::Parse(text3("schdoc contains nested stream '", p, "'")));
            },
            Some(None) => {
                proof {
                    lemma_scan_prefix_none(path_bytes(paths@), i + 1);
                    assert forall|k: int|
                        #![trigger path_bytes(paths@)[k]]
                        0 <= k < paths@.len() && scan_roots(path_bytes(paths@).take(k)) is Some && root_stream_of(
                            path_bytes(paths@)[k],
                        ) == Some(None::<SchDocRootStream>) implies k == i by {
                        lemma_scan_first_unknown(path_bytes(paths@), k, i as int);
                        if k > i {
                            assert(path_bytes(paths@).take(k).take(i + 1) =~= path_bytes(paths@).take(i + 1));
                            lemma_scan_prefix_none(path_bytes(paths@).take(k), i + 1);
                        }
                    }
                }
                return Err(AltiumError::Parse(text3("schdoc contains unimplemented stream '", p, "'")));
            },
            Some(Some(SchDocRootStream::FileHeader)) => {
                if file_header.is_some() {
                    proof {
                        lemma_scan_prefix_none(path_bytes(paths@), i + 1);
                        assert forall|k: int|
                            #![trigger path_bytes(paths@)[k]]
                            0 <= k < paths@.len() && scan_roots(path_bytes(paths@).take(k)) is Some && root_stream_of(
                                path_bytes(paths@)[k],
                            ) == Some(None::<SchDocRootStream>) implies k == i by {
                            lemma_scan_first_unknown(path_bytes(paths@), k, i as int);
                            if k > i {
                                assert(path_bytes(paths@).take(k).take(i + 1) =~= path_bytes(paths@).take(i + 1));
                                lemma_scan_prefix_none(path_bytes(paths@).take(k), i + 1);
                            }
                        }
                    }
                    return Err(AltiumError::Parse(text("schdoc contains duplicate 'FileHeader' stream")));
                }
                file_header = Some(text(p));
                proof {
                    fi = Some(i as int);
                }
            },
            Some(Some(SchDocRootStream::Additional)) => {
                if additional.is_some() {
                    proof {
                        lemma_scan_prefix_none(path_bytes(paths@), i + 1);
                        assert forall|k: int|
                            #![trigger path_bytes(paths@)[k]]
                            0 <= k < paths@.len() && scan_roots(path_bytes(paths@).take(k)) is Some && root_stream_of(
                                path_bytes(paths@)[k],
                            ) == Some(None::<SchDocRootStream>) implies k == i by {
                            lemma_scan_first_unknown(path_bytes(paths@), k, i as int);
                            if k > i {
                                assert(path_bytes(paths@).take(k).take(i + 1) =~= path_bytes(paths@).take(i + 1));
                                lemma_scan_prefix_none(path_bytes(paths@).take(k), i + 1);
                            }
                        }
                    }
                    return Err(AltiumError::Parse(text("schdoc contains duplicate 'Additional' stream")));
                }
                additional = Some(text(p));
                proof {
                    ai = Some(i as int);
                }
            },
            Some(Some(SchDocRootStream::Storage)) => {
                if storage.is_some() {
                    proof {
                        lemma_scan_prefix_none(path_bytes(paths@), i + 1);
                        assert forall|k: int|
                            #![trigger path_bytes(paths@)[k]]
                            0 <= k < paths@.len() && scan_roots(path_bytes(paths@).take(k)) is Some && root_stream_of(
                                path_bytes(paths@)[k],
                            ) == Some(None::<SchDocRootStream>) implies k == i by {
                            lemma_scan_first_unknown(path_bytes(paths@), k, i as int);
                            if k > i {
                                assert(path_bytes(paths@).take(k).take(i + 1) =~= path_bytes(paths@).take(i + 1));
                                lemma_scan_prefix_none(path_bytes(paths@).take(k), i + 1);
                            }
                        }
                    }
                    return Err(AltiumError::Parse(text("schdoc contains duplicate 'Storage' stream")));
                }
                storage = Some(text(p));
                proof {
                    si = Some(i as int);
                }
            },
        }
        i = i + 1;
    }
    assert(path_bytes(paths@).take(i as int) =~= path_bytes(paths@));
    proof {
        assert forall|k: int|
            #![trigger path_bytes(paths@)[k]]
            0 <= k < paths@.len() && scan_roots(path_bytes(paths@).take(k)) is Some && root_stream_of(
                path_bytes(paths@)[k],
            ) == Some(None::<SchDocRootStream>) implies false by {
            lemma_scan_first_unknown(path_bytes(paths@), k, paths@.len() as int);
        }
    }
    let file_header = match file_header {
        Some(f) => f,
        None => return Err(AltiumError::Parse(text("schdoc missing required 'FileHeader' stream"))),
    };
    let storage = match storage {
        Some(s) => s,
        None => return Err(AltiumError::Parse(text("schdoc missing required 'Storage' stream"))),
    };
    Ok(SchDocRootStreamPaths { file_header, additional, storage })
}

/// A scan that reaches an unknown root stream fails there, so that stream
/// is the first place the scan fails.
pub proof fn lemma_scan_first_unknown(ps: Seq<Seq<u8>>, i: int, f: int)
    requires
        0 <= i < ps.len(),
        scan_roots(ps.take(i)) is Some,
        root_stream_of(ps[i]) == Some(None::<SchDocRootStream>),
        0 <= f <= ps.len(),
        scan_roots(ps.take(f)) is Some,
    ensures
        scan_roots(ps.take(i + 1)) is None,
        f <= i,
{
    assert(ps.take(i + 1).drop_last() =~= ps.take(i));
    assert(ps.take(i + 1).last() == ps[i]);
    if f > i {
        assert(ps.take(f).take(i + 1) =~= ps.take(i + 1));
        lemma_scan_prefix_none(ps.take(f), i + 1);
    }
}

/// A failing prefix makes the whole scan fail.
pub proof fn lemma_scan_prefix_none(ps: Seq<Seq<u8>>, n: int)
    requires
        1 <= n <= ps.len(),
        scan_roots(ps.take(n)) is None,
    ensures
        scan_roots(ps) is None,
    decreases ps.len(),
{
    if ps.len() > n {
        assert(ps.drop_last().take(n) =~= ps.take(n));
        lemma_scan_prefix_none(ps.drop_last(), n);
    } else {
        assert(ps.take(n) =~= ps);
    }
}

/// The bytes of an optional stream.
pub open spec fn opt_bytes(a: Option<&[u8]>) -> Option<Seq<u8>> {
    match a {
        Some(x) => Some(x@),
        None => None,
    }
}

/// The records of a SchDoc's `/FileHeader` and (when present)
/// `/Additional` streams, in stream order; `None` when a stream has no
/// header block or holds a block that is no supported record.
pub open spec fn opened_records(fh: Seq<u8>, add: Option<Seq<u8>>) -> Option<Seq<(usize, RecordValue)>> {
    match stream_header(fh) {
        None => None,
        Some((_, bs)) => match stream_records(bs, SchDocStream::FileHeader) {
            None => None,
            Some(rs) => match add {
                None => Some(rs),
                Some(a) => match stream_header(a) {
                    None => None,
                    Some((_, abs)) => match stream_records(abs, SchDocStream::Additional) {
                        None => None,
                        Some(ars) => Some(rs + ars),
                    },
                },
            },
        },
    }
}

impl SchDoc {
    /// A document from its root streams: the records of `/FileHeader`,
    /// then those of `/Additional`, grouped by `OWNERINDEX`; the header
    /// blocks become the stream metadata and `/Storage` is kept as bytes.
    pub fn from_streams(file_header: &[u8], additional: Option<&[u8]>, storage: &[u8]) -> (r: Result<SchDoc>)
        ensures
            match opened_records(file_header@, opt_bytes(additional)) {
                None => r is Err,
                Some(rs) => r matches Ok(d) && {
                    &&& d.view().len() == rs.len()
                    &&& forall|j: int|
                        0 <= j < rs.len() ==> record_value((#[trigger] d.view()[j]).node) == rs[j].1
                            && d.view()[j].original_index == rs[j].0 && d.view()[j].place == spec_place(
                            d.view()[j].node,
                            count_components(d.view()),
                        )
                    &&& d.spec_file_header() == stream_header(file_header@).unwrap().0
                    &&& d.spec_additional() == match opt_bytes(additional) {
                        Some(a) => Some(stream_header(a).unwrap().0),
                        None => None::<Seq<(Seq<u8>, Seq<u8>)>>,
                    }
                    &&& d.spec_storage() == storage@
                },
            },
    {
        let (fmeta, fblocks) = match parse_file_header_meta_and_blocks(file_header) {
            Ok(x) => x,
            Err(e) => return Err(e),
        };
        let mut records = match parse_record_blocks(fblocks.as_slice(), SchDocStream::FileHeader, "FileHeader") {
            Ok(v) => v,
            Err(e) => return Err(e),
        };
        let mut ameta: Option<SchDocAdditionalStreamMeta> = None;
        match additional {
            Some(a) => {
                let (m, ablocks) = match parse_additional_meta_and_blocks(a) {
                    Ok(x) => x,
                    Err(e) => return Err(e),
                };
                let mut more = match parse_record_blocks(ablocks.as_slice(), SchDocStream::Additional, "Additional") {
                    Ok(v) => v,
                    Err(e) => return Err(e),
                };
                records.append(&mut more);
                ameta = Some(m);
            },
            None => {},
        }
        let storage_meta = SchDocStorageStreamMeta { data: vstd::slice::slice_to_vec(storage) };
        let d = SchDoc::from_records(records, fmeta, ameta, storage_meta);
        Ok(d)
    }
}


/// Whether a record reads back as itself once written: a text record holds
/// valid parameters whose `RECORD` names its known type; a binary record
/// starts with its known type as a `u32`.
pub open spec fn record_rereadable(n: RecordNode) -> bool {
    &&& is_known_record_code(n.key)
    &&& n.key != 0
    &&& match n.origin {
        RecordOrigin::Param(p) => crate::params::entries_ok(p@) && match lookup(p@, "RECORD".spec_bytes()) {
            Some(v) => parse_i32(v) matches Some(x) && x as u8 == n.key,
            None => false,
        },
        RecordOrigin::Binary(b) => b@.len() >= 4 && u32_at(b@, 0) as u8 == n.key,
    }
}

/// The blocks written for the records with the given keys, in key order.
pub open spec fn written_blocks(
    s: Seq<crate::documents::schdoc::SchDocRecord>,
    keys: Seq<(usize, usize, usize)>,
) -> Seq<(u8, Seq<u8>)> {
    keys.map_values(|k: (usize, usize, usize)| crate::documents::schdoc::record_block(s[k.2 as int].node))
}

/// The records read back from written blocks: each record's value at its
/// block position (after the header block).
pub open spec fn written_records(
    s: Seq<crate::documents::schdoc::SchDocRecord>,
    keys: Seq<(usize, usize, usize)>,
) -> Seq<(usize, RecordValue)> {
    Seq::new(keys.len(), |j: int| ((j + 1) as usize, record_value(s[keys[j].2 as int].node)))
}

/// The bytes of the records are the encoding of their blocks.
proof fn lemma_records_bytes_blocks(s: Seq<crate::documents::schdoc::SchDocRecord>, keys: Seq<(usize, usize, usize)>)
    ensures
        crate::documents::schdoc::records_bytes(s, keys) == crate::documents::blocks::enc_blocks(written_blocks(s, keys)),
    decreases keys.len(),
{
    if keys.len() > 0 {
        lemma_records_bytes_blocks(s, keys.drop_last());
        let g = |b: (u8, Seq<u8>)| crate::documents::blocks::enc_block(b);
        let w = written_blocks(s, keys);
        let w0 = written_blocks(s, keys.drop_last());
        assert(w.map_values(g) =~= w0.map_values(g).push(g(w.last())));
        w0.map_values(g).lemma_flatten_push(g(w.last()));
    } else {
        assert(written_blocks(s, keys).map_values(|b: (u8, Seq<u8>)| crate::documents::blocks::enc_block(b)) =~= Seq::<
            Seq<u8>,
        >::empty());
    }
}

/// A rereadable record's block reads back as the record.
proof fn lemma_block_record_written(n: RecordNode)
    requires
        record_rereadable(n),
    ensures
        block_record(crate::documents::schdoc::record_block(n), n.stream) == Some(record_value(n)),
        crate::documents::schdoc::record_block(n).1.len() > 0,
{
    match n.origin {
        RecordOrigin::Param(p) => {
            let ser = crate::params::ser_params(p@);
            let b = ser.push(0u8);
            crate::params::lemma_ser_no_nul(p@);
            assert forall|k: int| 0 <= k < ser.len() implies b[k] != crate::params::NUL by {
                assert(b[k] == ser[k]);
            }
            crate::params::lemma_find_byte_at(b, crate::params::NUL, 0, ser.len() as int);
            assert(text_before_nul(b) =~= ser);
            crate::params::lemma_params_roundtrip(p@);
        },
        RecordOrigin::Binary(b) => {},
    }
}

/// The record blocks after a header block read back as the records, at
/// their block positions.
proof fn lemma_stream_records_written(
    s: Seq<crate::documents::schdoc::SchDocRecord>,
    keys: Seq<(usize, usize, usize)>,
    st: SchDocStream,
    h: (u8, Seq<u8>),
)
    requires
        forall|j: int|
            0 <= j < keys.len() ==> (#[trigger] keys[j]).2 < s.len() && record_rereadable(s[keys[j].2 as int].node)
                && s[keys[j].2 as int].node.stream == st,
    ensures
        stream_records(seq![h] + written_blocks(s, keys), st) == Some(written_records(s, keys)),
    decreases keys.len(),
{
    let bs = seq![h] + written_blocks(s, keys);
    if keys.len() > 0 {
        let k0 = keys.drop_last();
        assert forall|j: int| 0 <= j < k0.len() implies (#[trigger] k0[j]).2 < s.len() && record_rereadable(
            s[k0[j].2 as int].node,
        ) && s[k0[j].2 as int].node.stream == st by {
            assert(k0[j] == keys[j]);
        }
        lemma_stream_records_written(s, k0, st, h);
        assert(bs.drop_last() =~= seq![h] + written_blocks(s, k0));
        let last = keys[keys.len() - 1];
        assert(bs.last() == crate::documents::schdoc::record_block(s[last.2 as int].node));
        lemma_block_record_written(s[last.2 as int].node);
        assert(written_records(s, keys) =~= written_records(s, k0).push(
            ((keys.len()) as usize, record_value(s[last.2 as int].node)),
        ));
    } else {
        assert(written_records(s, keys) =~= Seq::<(usize, RecordValue)>::empty());
    }
}

/// The bytes of one written stream: its header block, then its records.
pub open spec fn written_stream(
    s: Seq<crate::documents::schdoc::SchDocRecord>,
    header: Seq<u8>,
    keys: Seq<(usize, usize, usize)>,
) -> Seq<u8> {
    crate::documents::blocks::enc_block((0u8, header)) + crate::documents::schdoc::records_bytes(s, keys)
}

/// A written stream reads back as its header block's parameters and its
/// records.
proof fn lemma_written_stream_reads(
    s: Seq<crate::documents::schdoc::SchDocRecord>,
    header: Seq<u8>,
    keys: Seq<(usize, usize, usize)>,
    st: SchDocStream,
)
    requires
        0 < header.len() <= crate::wire::SIZE_FLAG_MASK,
        crate::documents::schdoc::records_fit(s, keys),
        forall|j: int|
            0 <= j < keys.len() ==> (#[trigger] keys[j]).2 < s.len() && record_rereadable(s[keys[j].2 as int].node)
                && s[keys[j].2 as int].node.stream == st,
    ensures
        stream_header(written_stream(s, header, keys)) matches Some((_, bs)) && stream_records(bs, st) == Some(
            written_records(s, keys),
        ),
{
    let h = (0u8, header);
    let w = written_blocks(s, keys);
    let bs = seq![h] + w;
    lemma_records_bytes_blocks(s, keys);
    let g = |b: (u8, Seq<u8>)| crate::documents::blocks::enc_block(b);
    assert(bs.map_values(g).drop_first() =~= w.map_values(g));
    assert(crate::documents::blocks::enc_blocks(bs) == written_stream(s, header, keys));
    assert(crate::documents::blocks::blocks_fit(bs)) by {
        assert forall|i: int| 0 <= i < bs.len() implies 0 < (#[trigger] bs[i]).1.len() <= crate::wire::SIZE_FLAG_MASK by {
            if i > 0 {
                let k = keys[i - 1];
                assert(bs[i] == crate::documents::schdoc::record_block(s[k.2 as int].node));
                lemma_block_record_written(s[k.2 as int].node);
                assert(crate::documents::schdoc::record_block(s[keys[i - 1].2 as int].node).1.len() <= crate::wire::SIZE_FLAG_MASK);
            }
        }
    }
    crate::documents::blocks::lemma_blocks_roundtrip(bs);
    lemma_stream_records_written(s, keys, st, h);
}

/// Reading back the streams a document is flattened to gives its records
/// again: those written to `/FileHeader`, then those written to
/// `/Additional`, each with its value, in written order, at its block
/// position.
pub proof fn lemma_schdoc_reopen(
    s: Seq<crate::documents::schdoc::SchDocRecord>,
    file_header: Seq<u8>,
    additional: Option<Seq<u8>>,
)
    requires
        s.len() <= usize::MAX,
        forall|i: int| 0 <= i < s.len() ==> record_rereadable(#[trigger] s[i].node),
        0 < file_header.len() <= crate::wire::SIZE_FLAG_MASK,
        crate::documents::schdoc::records_fit(s, crate::documents::schdoc::written_keys(s, SchDocStream::FileHeader)),
        crate::documents::schdoc::records_fit(s, crate::documents::schdoc::written_keys(s, SchDocStream::Additional)),
        additional matches Some(a) ==> 0 < a.len() <= crate::wire::SIZE_FLAG_MASK,
        additional is None ==> crate::documents::schdoc::written_keys(s, SchDocStream::Additional).len() == 0,
    ensures
        ({
            let fk = crate::documents::schdoc::written_keys(s, SchDocStream::FileHeader);
            let ak = crate::documents::schdoc::written_keys(s, SchDocStream::Additional);
            opened_records(
                written_stream(s, file_header, fk),
                match additional {
                    Some(a) => Some(written_stream(s, a, ak)),
                    None => None,
                },
            ) == Some(written_records(s, fk) + written_records(s, ak))
        }),
{
    let fk = crate::documents::schdoc::written_keys(s, SchDocStream::FileHeader);
    let ak = crate::documents::schdoc::written_keys(s, SchDocStream::Additional);
    crate::documents::schdoc::lemma_written_keys_bounds(s, SchDocStream::FileHeader);
    crate::documents::schdoc::lemma_written_keys_bounds(s, SchDocStream::Additional);
    assert forall|j: int| 0 <= j < fk.len() implies (#[trigger] fk[j]).2 < s.len() && record_rereadable(
        s[fk[j].2 as int].node,
    ) && s[fk[j].2 as int].node.stream == SchDocStream::FileHeader by {
        assert(record_rereadable(s[fk[j].2 as int].node));
    }
    assert forall|j: int| 0 <= j < ak.len() implies (#[trigger] ak[j]).2 < s.len() && record_rereadable(
        s[ak[j].2 as int].node,
    ) && s[ak[j].2 as int].node.stream == SchDocStream::Additional by {
        assert(record_rereadable(s[ak[j].2 as int].node));
    }
    lemma_written_stream_reads(s, file_header, fk, SchDocStream::FileHeader);
    match additional {
        Some(a) => {
            lemma_written_stream_reads(s, a, ak, SchDocStream::Additional);
        },
        None => {
            assert(written_records(s, ak) =~= Seq::<(usize, RecordValue)>::empty());
            assert(written_records(s, fk) + written_records(s, ak) =~= written_records(s, fk));
        },
    }
}

} // verus!
