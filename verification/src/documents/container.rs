//! The compound-file container of SchDoc and PcbDoc files, read and written
//! with the `cfb` crate.
use vstd::prelude::*;

use crate::documents::pcbdoc::{
    dup_bytes, section_data, section_entries, section_writable, PcbDocSectionOut, PcbDocStreamsOut, opened_sections, records_before, section_new_payloads, section_object_id, section_streams_ok, stream_name_bytes,
    meta_view, PcbDoc, PcbDocSectionStreams,
};
use crate::documents::pcbdoc_io::{
    cls_at, collect_pcbdoc_stream_paths, object_record, paths_valid, sections_match, slot_path, PcbDocSectionPaths,
    PcbDocStreamPaths, PcbPathClass,
};
use crate::documents::pcbdoc_io::{text_from_utf8, utf8_lossy};
use crate::documents::pcbdoc_streams::{
    section_header_count, PcbDocModelEntry, PcbDocSection, PcbDocSectionMeta, PcbDocStreamsMeta,
};
use crate::documents::pcbdoc::PcbDocRecord;
use crate::documents::intlib::{buffers_view, intlib_decompress, intlib_inflated, IntLib};
use crate::error::{decimal_text, text3, usize_text};
use crate::wire::le32;
use crate::documents::schdoc::{count_components, flat_streams, spec_place, SchDoc};
use crate::documents::schdoc_io::{
    collect_schdoc_root_stream_paths, opened_records, path_bytes, record_value, scan_roots, stream_header,
};
use crate::error::{text, text2, AltiumError, Result};

verus! {

/// What `cfb::CompoundFile::open` on the bytes and its preorder `walk` give:
/// each entry's path text and whether it is a stream; or the text of the
/// error when the bytes do not open.
pub uninterp spec fn cfb_walk(b: Seq<u8>) -> core::result::Result<Seq<(Seq<char>, bool)>, Seq<char>>;

/// What reading the stream at `path` of the compound file in the bytes gives
/// (`cfb::CompoundFile::open`, `open_stream`, `read_to_end`): its bytes, or
/// the text of the error.
pub uninterp spec fn cfb_stream(b: Seq<u8>, path: Seq<char>) -> core::result::Result<Seq<u8>, Seq<char>>;

/// Lists the entries of a compound file held in bytes with
/// `cfb::CompoundFile::open` and `walk`.
///
/// Trusted: the result, or the displayed error, is what `cfb` gives for these
/// bytes; the entry paths are `Path::to_string_lossy` of each entry's path.
/// Which entries a file holds is not stated.
#[verifier::external_body]
fn cfb_entries(bytes: &[u8]) -> (r: core::result::Result<Vec<(String, bool)>, String>)
    ensures
        match r {
            Ok(v) => cfb_walk(bytes@) == Ok::<Seq<(Seq<char>, bool)>, Seq<char>>(
                v@.map_values(|e: (String, bool)| (e.0@, e.1)),
            ),
            Err(m) => cfb_walk(bytes@) == Err::<Seq<(Seq<char>, bool)>, Seq<char>>(m@),
        },
{
    match cfb::CompoundFile::open(std::io::Cursor::new(bytes)) {
        Ok(f) => Ok(f.walk().map(|e| (e.path().to_string_lossy().into_owned(), e.is_stream())).collect()),
        Err(e) => Err(e.to_string()),
    }
}

/// Reads one stream of a compound file held in bytes with
/// `cfb::CompoundFile::open`, `open_stream` and `Read::read_to_end`.
///
/// Trusted: the result, or the displayed error of the first step that
/// fails, is what `cfb` gives for these bytes and this path. What a stream
/// holds is not stated.
#[verifier::external_body]
fn cfb_read(bytes: &[u8], path: &str) -> (r: core::result::Result<Vec<u8>, String>)
    ensures
        match r {
            Ok(v) => cfb_stream(bytes@, path@) == Ok::<Seq<u8>, Seq<char>>(v@),
            Err(m) => cfb_stream(bytes@, path@) == Err::<Seq<u8>, Seq<char>>(m@),
        },
{
    let mut f = cfb::CompoundFile::open(std::io::Cursor::new(bytes)).map_err(|e| e.to_string())?;
    let mut s = f.open_stream(path).map_err(|e| e.to_string())?;
    let mut out = Vec::new();
    std::io::Read::read_to_end(&mut s, &mut out).map_err(|e| e.to_string())?;
    Ok(out)
}

/// The paths of the stream entries, in walk order.
pub open spec fn stream_paths(es: Seq<(Seq<char>, bool)>) -> Seq<Seq<char>>
    decreases es.len(),
{
    if es.len() == 0 {
        Seq::empty()
    } else {
        stream_paths(es.drop_last()) + if es.last().1 {
            seq![es.last().0]
        } else {
            Seq::empty()
        }
    }
}

/// The texts of path strings.
pub open spec fn path_texts(ps: Seq<String>) -> Seq<Seq<char>> {
    ps.map_values(|s: String| s@)
}

/// The message for a compound file that does not open.
pub open spec fn open_error(m: Seq<char>) -> Seq<char> {
    "Failed to open CFB: "@ + m
}

/// The message for a stream that cannot be read.
pub open spec fn read_error(path: Seq<char>, m: Seq<char>) -> Seq<char> {
    "Failed to open "@ + path + ": "@ + m
}

/// The paths of the stream entries.
fn stream_path_list(es: &Vec<(String, bool)>) -> (r: Vec<String>)
    ensures
        path_texts(r@) == stream_paths(es@.map_values(|e: (String, bool)| (e.0@, e.1))),
{
    let ghost ev = es@.map_values(|e: (String, bool)| (e.0@, e.1));
    let mut out: Vec<String> = Vec::new();
    let mut i: usize = 0;
    while i < es.len()
        invariant
            i <= es@.len(),
            ev == es@.map_values(|e: (String, bool)| (e.0@, e.1)),
            path_texts(out@) == stream_paths(ev.take(i as int)),
        decreases es@.len() - i,
    {
        let ghost before = out@;
        assert(ev.take(i + 1).drop_last() =~= ev.take(i as int));
        assert(ev.take(i + 1).last() == ev[i as int]);
        if es[i].1 {
            out.push(text(es[i].0.as_str()));
            assert(path_texts(out@) =~= path_texts(before).push(es@[i as int].0@));
        } else {
            assert(path_texts(out@) =~= path_texts(before));
        }
        assert(stream_paths(ev.take(i + 1)) =~= path_texts(out@));
        i = i + 1;
    }
    assert(ev.take(i as int) =~= ev);
    out
}

/// Reads a stream, with a failure as a container error naming the path.
fn read_stream(bytes: &[u8], path: &str) -> (r: Result<Vec<u8>>)
    ensures
        match cfb_stream(bytes@, path@) {
            Ok(d) => r matches Ok(v) && v@ == d,
            Err(m) => r matches Err(AltiumError::Cfb(t)) && t@ == read_error(path@, m),
        },
{
    match cfb_read(bytes, path) {
        Ok(v) => Ok(v),
        Err(m) => {
            let head = crate::error::text3("Failed to open ", path, ": ");
            Err(AltiumError::Cfb(text2(head.as_str(), m.as_str())))
        },
    }
}

/// The bytes of an optional stream.
pub open spec fn opt_view(o: Option<Vec<u8>>) -> Option<Seq<u8>> {
    match o {
        Some(x) => Some(x@),
        None => None,
    }
}

/// Whether `d` is what the stream at `p` holds.
pub open spec fn read_ok(b: Seq<u8>, p: Seq<char>, d: Seq<u8>) -> bool {
    cfb_stream(b, p) == Ok::<Seq<u8>, Seq<char>>(d)
}

/// Whether an optional stream was read: absent when there is no path.
pub open spec fn opt_read_ok(b: Seq<u8>, p: Option<String>, d: Option<Vec<u8>>) -> bool {
    match p {
        Some(q) => d matches Some(x) && read_ok(b, q@, x@),
        None => d is None,
    }
}

/// Whether a section's streams are those at its paths.
pub open spec fn section_read(b: Seq<u8>, sp: PcbDocSectionPaths, s: PcbDocSectionStreams) -> bool {
    &&& s.name@ == sp.name@
    &&& opt_read_ok(b, sp.header, s.header)
    &&& opt_read_ok(b, sp.data, s.data)
    &&& s.entries@.len() == sp.numbered_entries@.len()
    &&& forall|j: int|
        0 <= j < s.entries@.len() ==> (#[trigger] s.entries@[j]).index == sp.numbered_entries@[j].0 && read_ok(
            b,
            sp.numbered_entries@[j].1@,
            s.entries@[j].data@,
        )
}

/// Whether every stream a section names can be read.
pub open spec fn section_readable(b: Seq<u8>, sp: PcbDocSectionPaths) -> bool {
    &&& (sp.header matches Some(p) ==> cfb_stream(b, p@) is Ok)
    &&& (sp.data matches Some(p) ==> cfb_stream(b, p@) is Ok)
    &&& forall|j: int| 0 <= j < sp.numbered_entries@.len() ==> cfb_stream(b, (#[trigger] sp.numbered_entries@[j]).1@) is Ok
}

/// Whether every stream the paths name can be read.
pub open spec fn pcbdoc_readable(b: Seq<u8>, sp: PcbDocStreamPaths) -> bool {
    &&& cfb_stream(b, sp.file_header@) is Ok
    &&& (sp.file_header_six matches Some(p) ==> cfb_stream(b, p@) is Ok)
    &&& forall|k: int| 0 <= k < sp.sections@.len() ==> section_readable(b, #[trigger] sp.sections@[k])
}

/// Whether `sp` is what the stream paths of a PcbDoc collect to.
pub open spec fn pcbdoc_paths_collected(ps: Seq<String>, sp: PcbDocStreamPaths) -> bool {
    &&& paths_valid(ps)
    &&& exists|f: int| 0 <= f < ps.len() && (#[trigger] cls_at(ps, f)) is FileHeader && sp.file_header@ == ps[f]@
    &&& slot_path(sp.file_header_six, ps, ps.len() as int, PcbPathClass::FileHeaderSix)
    &&& sections_match(sp.sections@, ps, ps.len() as int)
}

/// Whether a document is the one opened from these streams.
pub open spec fn pcbdoc_opened(doc: PcbDoc, fh: Seq<u8>, fh6: Option<Seq<u8>>, ss: Seq<PcbDocSectionStreams>) -> bool {
    &&& meta_view(doc.spec_meta()) == (fh, fh6, opened_sections(ss))
    &&& doc.spec_records().len() == records_before(ss, ss.len() as int)
    &&& forall|k: int, j: int|
        0 <= k < ss.len() && 0 <= j < section_new_payloads(ss[k]).len() ==> object_record(
            #[trigger] doc.spec_records()[records_before(ss, k) + j],
            section_object_id(ss[k]),
            #[trigger] section_new_payloads(ss[k])[j],
            stream_name_bytes(ss[k]),
        )
}

/// Whether the streams were read from the bytes at the collected paths.
pub open spec fn pcbdoc_streams_read(
    b: Seq<u8>,
    sp: PcbDocStreamPaths,
    fh: Seq<u8>,
    fh6: Option<Seq<u8>>,
    ss: Seq<PcbDocSectionStreams>,
) -> bool {
    &&& read_ok(b, sp.file_header@, fh)
    &&& match sp.file_header_six {
        Some(p) => fh6 matches Some(x) && read_ok(b, p@, x),
        None => fh6 is None,
    }
    &&& ss.len() == sp.sections@.len()
    &&& forall|k: int| 0 <= k < ss.len() ==> section_read(b, sp.sections@[k], #[trigger] ss[k])
}

/// Reads a section's streams.
fn read_section(bytes: &[u8], sp: &PcbDocSectionPaths) -> (r: Result<PcbDocSectionStreams>)
    ensures
        r is Ok <==> section_readable(bytes@, *sp),
        r matches Ok(s) ==> section_read(bytes@, *sp, s),
        r matches Err(e) ==> e is Cfb,
{
    let header = match &sp.header {
        Some(p) => Some(read_stream(bytes, p.as_str())?),
        None => None,
    };
    let data = match &sp.data {
        Some(p) => Some(read_stream(bytes, p.as_str())?),
        None => None,
    };
    let mut entries: Vec<PcbDocModelEntry> = Vec::new();
    let mut j: usize = 0;
    while j < sp.numbered_entries.len()
        invariant
            j <= sp.numbered_entries@.len(),
            entries@.len() == j,
            forall|q: int| 0 <= q < j ==> cfb_stream(bytes@, (#[trigger] sp.numbered_entries@[q]).1@) is Ok,
            forall|q: int|
                0 <= q < j ==> (#[trigger] entries@[q]).index == sp.numbered_entries@[q].0 && read_ok(
                    bytes@,
                    sp.numbered_entries@[q].1@,
                    entries@[q].data@,
                ),
        decreases sp.numbered_entries@.len() - j,
    {
        let d = read_stream(bytes, sp.numbered_entries[j].1.as_str())?;
        entries.push(PcbDocModelEntry { index: sp.numbered_entries[j].0, data: d });
        j = j + 1;
    }
    let name = crate::wire::copy_range(sp.name.as_slice(), 0, sp.name.len());
    assert(name@ =~= sp.name@);
    Ok(PcbDocSectionStreams { name, header, data, entries })
}

impl PcbDoc {
    /// Opens a PcbDoc from the bytes of its compound file: the stream paths
    /// are collected, the streams read, and the document built from them.
    pub fn from_cfb_bytes(bytes: &[u8]) -> (r: Result<PcbDoc>)
        ensures
            match cfb_walk(bytes@) {
                Err(m) => r matches Err(AltiumError::Cfb(t)) && t@ == open_error(m),
                Ok(es) => {
                    &&& (r matches Ok(doc) ==> exists|
                        ps: Seq<String>,
                        sp: PcbDocStreamPaths,
                        fh: Seq<u8>,
                        fh6: Option<Seq<u8>>,
                        ss: Seq<PcbDocSectionStreams>,
                    |
                        path_texts(ps) == stream_paths(es) && pcbdoc_paths_collected(ps, sp) && pcbdoc_streams_read(
                            bytes@,
                            sp,
                            fh,
                            fh6,
                            ss,
                        ) && (forall|k: int| 0 <= k < ss.len() ==> section_streams_ok(#[trigger] ss[k]))
                            && pcbdoc_opened(doc, fh, fh6, ss))
                    &&& (r is Err ==> (exists|ps: Seq<String>| path_texts(ps) == stream_paths(es) && !paths_valid(ps))
                        || (exists|ps: Seq<String>, sp: PcbDocStreamPaths|
                        path_texts(ps) == stream_paths(es) && pcbdoc_paths_collected(ps, sp) && !pcbdoc_readable(
                            bytes@,
                            sp,
                        )) || (exists|
                        ps: Seq<String>,
                        sp: PcbDocStreamPaths,
                        fh: Seq<u8>,
                        fh6: Option<Seq<u8>>,
                        ss: Seq<PcbDocSectionStreams>,
                    |
                        path_texts(ps) == stream_paths(es) && pcbdoc_paths_collected(ps, sp) && pcbdoc_streams_read(
                            bytes@,
                            sp,
                            fh,
                            fh6,
                            ss,
                        ) && !(forall|k: int| 0 <= k < ss.len() ==> section_streams_ok(#[trigger] ss[k]))))
                },
            },
    {
        let es = match cfb_entries(bytes) {
            Ok(v) => v,
            Err(m) => {
                return Err(AltiumError::Cfb(text2("Failed to open CFB: ", m.as_str())));
            },
        };
        let ghost ev = es@.map_values(|e: (String, bool)| (e.0@, e.1));
        let paths = stream_path_list(&es);
        let sp = match collect_pcbdoc_stream_paths(paths.as_slice()) {
            Ok(sp) => sp,
            Err(e) => {
                return Err(e);
            },
        };
        assert(pcbdoc_paths_collected(paths@, sp));
        let fh = match read_stream(bytes, sp.file_header.as_str()) {
            Ok(v) => v,
            Err(e) => {
                assert(!pcbdoc_readable(bytes@, sp));
                return Err(e);
            },
        };
        let fh6: Option<Vec<u8>> = match &sp.file_header_six {
            Some(p) => match read_stream(bytes, p.as_str()) {
                Ok(v) => Some(v),
                Err(e) => {
                    assert(!pcbdoc_readable(bytes@, sp));
                    return Err(e);
                },
            },
            None => None,
        };
        let mut sections: Vec<PcbDocSectionStreams> = Vec::new();
        let mut k: usize = 0;
        while k < sp.sections.len()
            invariant
                k <= sp.sections@.len(),
                sections@.len() == k,
                cfb_walk(bytes@) == Ok::<Seq<(Seq<char>, bool)>, Seq<char>>(ev),
                path_texts(paths@) == stream_paths(ev),
                pcbdoc_paths_collected(paths@, sp),
                forall|q: int| 0 <= q < k ==> section_read(bytes@, sp.sections@[q], #[trigger] sections@[q]),
                forall|q: int| 0 <= q < k ==> section_readable(bytes@, #[trigger] sp.sections@[q]),
            decreases sp.sections@.len() - k,
        {
            match read_section(bytes, &sp.sections[k]) {
                Ok(s) => {
                    sections.push(s);
                },
                Err(e) => {
                    assert(!section_readable(bytes@, sp.sections@[k as int]));
                    assert(!pcbdoc_readable(bytes@, sp));
                    return Err(e);
                },
            }
            k = k + 1;
        }
        let ghost fh6v: Option<Seq<u8>> = opt_view(fh6);
        assert(pcbdoc_streams_read(bytes@, sp, fh@, fh6v, sections@));
        let r = PcbDoc::from_streams(&fh, &fh6, &sections);
        proof {
            if r is Ok {
                assert(pcbdoc_opened(r->Ok_0, fh@, fh6v, sections@));
            }
        }
        r
    }
}


/// Whether a SchDoc is the one opened from its root streams' bytes.
pub open spec fn schdoc_opened(d: SchDoc, fh: Seq<u8>, add: Option<Seq<u8>>, st: Seq<u8>) -> bool {
    match opened_records(fh, add) {
        None => false,
        Some(rs) => {
            &&& d.view().len() == rs.len()
            &&& forall|j: int|
                0 <= j < rs.len() ==> record_value((#[trigger] d.view()[j]).node) == rs[j].1
                    && d.view()[j].original_index == rs[j].0 && d.view()[j].place == spec_place(
                    d.view()[j].node,
                    count_components(d.view()),
                )
            &&& d.spec_file_header() == stream_header(fh).unwrap().0
            &&& d.spec_additional() == match add {
                Some(a) => Some(stream_header(a).unwrap().0),
                None => None::<Seq<(Seq<u8>, Seq<u8>)>>,
            }
            &&& d.spec_storage() == st
        },
    }
}

/// The root streams of a SchDoc at the paths the scan found, when every one
/// reads: `/FileHeader`, `/Additional` (if present) and `/Storage`.
pub open spec fn schdoc_streams(b: Seq<u8>, ps: Seq<String>) -> Option<(Seq<u8>, Option<Seq<u8>>, Seq<u8>)> {
    match scan_roots(path_bytes(ps)) {
        Some((Some(f), a, Some(s))) => match (cfb_stream(b, ps[f]@), cfb_stream(b, ps[s]@)) {
            (Ok(fh), Ok(st)) => match a {
                Some(ai) => match cfb_stream(b, ps[ai]@) {
                    Ok(x) => Some((fh, Some(x), st)),
                    Err(_) => None,
                },
                None => Some((fh, None, st)),
            },
            _ => None,
        },
        _ => None,
    }
}

/// The places the scan finds lie among the paths.
proof fn lemma_scan_bounds(ps: Seq<Seq<u8>>)
    ensures
        scan_roots(ps) matches Some((f, a, s)) ==> (f matches Some(i) ==> 0 <= i < ps.len()) && (a matches Some(i)
            ==> 0 <= i < ps.len()) && (s matches Some(i) ==> 0 <= i < ps.len()),
    decreases ps.len(),
{
    if ps.len() > 0 {
        lemma_scan_bounds(ps.drop_last());
    }
}

impl SchDoc {
    /// Opens a SchDoc from the bytes of its compound file: the root stream
    /// paths are collected, the streams read, and the document built from
    /// them.
    pub fn from_cfb_bytes(bytes: &[u8]) -> (r: Result<SchDoc>)
        ensures
            match cfb_walk(bytes@) {
                Err(m) => r matches Err(AltiumError::Cfb(t)) && t@ == open_error(m),
                Ok(es) => forall|ps: Seq<String>|
                    #![trigger path_texts(ps)]
                    path_texts(ps) == stream_paths(es) ==> match schdoc_streams(bytes@, ps) {
                        None => r is Err,
                        Some((fh, add, st)) => match opened_records(fh, add) {
                            None => r is Err,
                            Some(_) => r matches Ok(d) && schdoc_opened(d, fh, add, st),
                        },
                    },
            },
    {
        let es = match cfb_entries(bytes) {
            Ok(v) => v,
            Err(m) => {
                return Err(AltiumError::Cfb(text2("Failed to open CFB: ", m.as_str())));
            },
        };
        let paths = stream_path_list(&es);
        proof {
            assert forall|ps: Seq<String>| #![trigger path_texts(ps)] path_texts(ps) == path_texts(paths@) implies schdoc_streams(
                bytes@,
                ps,
            ) == schdoc_streams(bytes@, paths@) by {
                assert forall|j: int| 0 <= j < ps.len() implies #[trigger] ps[j]@ == paths@[j]@ by {
                    assert(path_texts(ps)[j] == path_texts(paths@)[j]);
                }
                assert(path_bytes(ps) =~= path_bytes(paths@));
                lemma_scan_bounds(path_bytes(ps));
            }
        }
        let sp = match collect_schdoc_root_stream_paths(paths.as_slice()) {
            Ok(sp) => sp,
            Err(e) => {
                return Err(e);
            },
        };
        let fh = match read_stream(bytes, sp.file_header.as_str()) {
            Ok(v) => v,
            Err(e) => {
                assert(schdoc_streams(bytes@, paths@) is None);
                return Err(e);
            },
        };
        let add: Option<Vec<u8>> = match &sp.additional {
            Some(p) => match read_stream(bytes, p.as_str()) {
                Ok(v) => Some(v),
                Err(e) => {
                    assert(schdoc_streams(bytes@, paths@) is None);
                    return Err(e);
                },
            },
            None => None,
        };
        let st = match read_stream(bytes, sp.storage.as_str()) {
            Ok(v) => v,
            Err(e) => {
                assert(schdoc_streams(bytes@, paths@) is None);
                return Err(e);
            },
        };
        let r = match &add {
            Some(a) => SchDoc::from_streams(fh.as_slice(), Some(a.as_slice()), st.as_slice()),
            None => SchDoc::from_streams(fh.as_slice(), None, st.as_slice()),
        };
        proof {
            assert(schdoc_streams(bytes@, paths@) == Some((fh@, opt_view(add), st@)));
        }
        r
    }
}


// ---------------------------------------------------------------------------
// Writing
// ---------------------------------------------------------------------------

#[verifier::external_type_specification]
#[verifier::external_body]
#[verifier::reject_recursive_types(F)]
pub struct ExCompoundFile<F>(cfb::CompoundFile<F>);

#[verifier::external_type_specification]
#[verifier::external_body]
#[verifier::reject_recursive_types(T)]
pub struct ExCursor<T>(std::io::Cursor<T>);

/// Whether the text at `j` is a `.` or `..` path component.
pub open spec fn dot_component(p: Seq<char>, j: int) -> bool {
    ||| p[j] == '.' && (j + 1 == p.len() || p[j + 1] == '/')
    ||| p[j] == '.' && j + 1 < p.len() && p[j + 1] == '.' && (j + 2 == p.len() || p[j + 2] == '/')
}

/// Whether a path is `/` then ASCII names separated by single `/`, none of
/// them `.` or `..`: a path that names one entry as written.
pub open spec fn plain_path(p: Seq<char>) -> bool {
    &&& p.len() >= 2
    &&& p[0] == '/'
    &&& p.last() != '/'
    &&& forall|i: int| 0 <= i < p.len() ==> (#[trigger] p[i] as u32) < 128
    &&& forall|i: int|
        0 <= i < p.len() - 1 && #[trigger] p[i] == '/' ==> p[i + 1] != '/' && !dot_component(p, i + 1)
}

/// A path with its ASCII letters upper-cased (compound-file names compare
/// that way).
pub open spec fn folded(p: Seq<char>) -> Seq<char> {
    p.map_values(|c: char| if 97 <= (c as u32) <= 122 { ((c as u32) - 32) as char } else { c })
}

/// Whether the paths each name one entry and no two name the same entry.
pub open spec fn writable_paths(d: Set<Seq<char>>) -> bool {
    &&& forall|p: Seq<char>| #[trigger] d.contains(p) ==> plain_path(p)
    &&& forall|p: Seq<char>, q: Seq<char>| #[trigger] d.contains(p) && #[trigger] d.contains(q) && folded(p) == folded(q) ==> p == q
}

/// The streams written so far into a compound file being built in memory,
/// by path.
pub uninterp spec fn cfb_written(f: cfb::CompoundFile<std::io::Cursor<Vec<u8>>>) -> Map<Seq<char>, Seq<u8>>;

/// A new, empty version-3 compound file in memory
/// (`cfb::CompoundFile::create_with_version`).
///
/// Trusted: a created file holds no streams.
#[verifier::external_body]
fn cfb_create() -> (r: core::result::Result<cfb::CompoundFile<std::io::Cursor<Vec<u8>>>, String>)
    ensures
        match r {
            Ok(f) => cfb_written(f) == Map::<Seq<char>, Seq<u8>>::empty(),
            Err(_) => true,
        },
{
    cfb::CompoundFile::create_with_version(cfb::Version::V3, std::io::Cursor::new(Vec::new())).map_err(|e| e.to_string())
}

/// Creates a storage (`cfb::CompoundFile::create_storage`).
///
/// Trusted: the streams written so far stay as they are.
#[verifier::external_body]
fn cfb_add_storage(f: &mut cfb::CompoundFile<std::io::Cursor<Vec<u8>>>, path: &str) -> (r: core::result::Result<
    (),
    String,
>)
    ensures
        cfb_written(*final(f)) == cfb_written(*old(f)),
{
    f.create_storage(path).map_err(|e| e.to_string())
}

/// Creates a stream, replacing one at the same path, and writes the bytes
/// into it (`cfb::CompoundFile::create_stream`, `Write::write_all`,
/// `Write::flush`).
///
/// Trusted: on success the stream at the path holds the bytes and the other
/// streams stay as they are; what a failed write leaves is not stated.
#[verifier::external_body]
fn cfb_add_stream(f: &mut cfb::CompoundFile<std::io::Cursor<Vec<u8>>>, path: &str, data: &[u8]) -> (r:
    core::result::Result<(), String>)
    ensures
        r is Ok ==> cfb_written(*final(f)) == cfb_written(*old(f)).insert(path@, data@),
{
    let mut s = f.create_stream(path).map_err(|e| e.to_string())?;
    std::io::Write::write_all(&mut s, data).map_err(|e| e.to_string())?;
    std::io::Write::flush(&mut s).map_err(|e| e.to_string())
}

/// Flushes the file and takes its bytes (`flush`, `into_inner`).
///
/// Trusted: when the written paths each name one entry and no two name the
/// same one (names compare ignoring ASCII case, and `.`, `..` and repeated
/// `/` are resolved), reading a written stream back from the bytes gives
/// what was written to it. Nothing is stated of other paths.
#[verifier::external_body]
fn cfb_finish(f: cfb::CompoundFile<std::io::Cursor<Vec<u8>>>) -> (r: core::result::Result<Vec<u8>, String>)
    ensures
        match r {
            Ok(b) => writable_paths(cfb_written(f).dom()) ==> forall|p: Seq<char>|
                #![trigger cfb_stream(b@, p)]
                cfb_written(f).dom().contains(p) ==> cfb_stream(b@, p) == Ok::<Seq<u8>, Seq<char>>(cfb_written(f)[p]),
            Err(_) => true,
        },
{
    let mut f = f;
    f.flush().map_err(|e| e.to_string())?;
    Ok(f.into_inner().into_inner())
}

/// The streams a list of writes leaves, later writes to a path replacing
/// earlier ones.
pub open spec fn stream_map(ws: Seq<(Seq<char>, Seq<u8>)>) -> Map<Seq<char>, Seq<u8>>
    decreases ws.len(),
{
    if ws.len() == 0 {
        Map::empty()
    } else {
        stream_map(ws.drop_last()).insert(ws.last().0, ws.last().1)
    }
}

/// Stream paths under the root: `/` before each relative path.
pub open spec fn rooted(ws: Seq<(Seq<char>, Seq<u8>)>) -> Seq<(Seq<char>, Seq<u8>)> {
    ws.map_values(|w: (Seq<char>, Seq<u8>)| ("/"@ + w.0, w.1))
}

/// The relative paths and bytes of a list of streams.
pub open spec fn writes_view(ws: Seq<(String, Vec<u8>)>) -> Seq<(Seq<char>, Seq<u8>)> {
    ws.map_values(|w: (String, Vec<u8>)| (w.0@, w.1@))
}

/// Whether reading every stream of the map back from the bytes gives its
/// bytes.
pub open spec fn holds_streams(b: Seq<u8>, m: Map<Seq<char>, Seq<u8>>) -> bool {
    forall|p: Seq<char>| #![trigger m.dom().contains(p)] m.dom().contains(p) ==> read_ok(b, p, m[p])
}

/// Builds a compound file: the storages (full paths), then the streams in
/// order, each at `/` and its relative path.
fn write_container(storages: &Vec<String>, streams: &Vec<(String, Vec<u8>)>) -> (r: Result<Vec<u8>>)
    ensures
        r matches Ok(b) ==> (writable_paths(stream_map(rooted(writes_view(streams@))).dom()) ==> holds_streams(
            b@,
            stream_map(rooted(writes_view(streams@))),
        )),
        r matches Err(e) ==> e is Cfb,
{
    let mut f = match cfb_create() {
        Ok(f) => f,
        Err(m) => {
            return Err(AltiumError::Cfb(text2("Failed to create CFB: ", m.as_str())));
        },
    };
    let mut i: usize = 0;
    while i < storages.len()
        invariant
            i <= storages@.len(),
            cfb_written(f) == Map::<Seq<char>, Seq<u8>>::empty(),
        decreases storages@.len() - i,
    {
        match cfb_add_storage(&mut f, storages[i].as_str()) {
            Ok(()) => {},
            Err(m) => {
                let head = crate::error::text3("Failed to create pcbdoc storage '", storages[i].as_str(), "': ");
                return Err(AltiumError::Cfb(text2(head.as_str(), m.as_str())));
            },
        }
        i = i + 1;
    }
    let ghost wv = rooted(writes_view(streams@));
    let mut k: usize = 0;
    while k < streams.len()
        invariant
            k <= streams@.len(),
            wv == rooted(writes_view(streams@)),
            cfb_written(f) == stream_map(wv.take(k as int)),
        decreases streams@.len() - k,
    {
        let full = text2("/", streams[k].0.as_str());
        match cfb_add_stream(&mut f, full.as_str(), streams[k].1.as_slice()) {
            Ok(()) => {},
            Err(m) => {
                let head = crate::error::text3("Failed to create ", streams[k].0.as_str(), ": ");
                return Err(AltiumError::Cfb(text2(head.as_str(), m.as_str())));
            },
        }
        assert(wv.take(k + 1).drop_last() =~= wv.take(k as int));
        assert(wv.take(k + 1).last() == wv[k as int]);
        k = k + 1;
    }
    assert(wv.take(k as int) =~= wv);
    match cfb_finish(f) {
        Ok(b) => {
            assert(writable_paths(stream_map(wv).dom()) ==> holds_streams(b@, stream_map(wv)));
            Ok(b)
        },
        Err(m) => Err(AltiumError::Cfb(text2("CFB flush: ", m.as_str()))),
    }
}

/// The root streams a SchDoc is saved as: `FileHeader`, `Additional` when
/// it is not empty, then `Storage`.
pub open spec fn schdoc_writes(fh: Seq<u8>, add: Seq<u8>, st: Seq<u8>) -> Seq<(Seq<char>, Seq<u8>)> {
    seq![("FileHeader"@, fh)] + (if add.len() > 0 {
        seq![("Additional"@, add)]
    } else {
        Seq::empty()
    }) + seq![("Storage"@, st)]
}

/// The paths a SchDoc is saved at each name their own entry.
proof fn lemma_schdoc_paths_writable(fh: Seq<u8>, add: Seq<u8>, st: Seq<u8>)
    ensures
        writable_paths(stream_map(rooted(schdoc_writes(fh, add, st))).dom()),
{
    reveal_strlit("/");
    reveal_strlit("FileHeader");
    reveal_strlit("Additional");
    reveal_strlit("Storage");
    let a = "/"@ + "FileHeader"@;
    let b = "/"@ + "Additional"@;
    let c = "/"@ + "Storage"@;
    let ws = rooted(schdoc_writes(fh, add, st));
    if add.len() > 0 {
        assert(ws =~= seq![(a, fh), (b, add), (c, st)]);
    } else {
        assert(ws =~= seq![(a, fh), (c, st)]);
    }
    let m = stream_map(ws);
    assert(m.dom() =~= if add.len() > 0 { set![a, b, c] } else { set![a, c] }) by {
        reveal_with_fuel(stream_map, 4);
    }
    assert(plain_path(a));
    assert(plain_path(b));
    assert(plain_path(c));
    assert(folded(a)[1] != folded(b)[1]);
    assert(folded(a).len() != folded(c).len());
    assert(folded(b).len() != folded(c).len());
}

impl SchDoc {
    /// Saves the document as the bytes of a version-3 compound file whose
    /// root streams hold what `flatten_to_streams` gives.
    pub fn to_cfb_bytes(&self) -> (r: Result<Vec<u8>>)
        ensures
            flat_streams(*self) is None ==> r is Err,
            r matches Ok(b) ==> flat_streams(*self) matches Some((fh, add, st)) && holds_streams(
                b@,
                stream_map(rooted(schdoc_writes(fh, add, st))),
            ),
    {
        let flat = match self.flatten_to_streams() {
            Ok(f) => f,
            Err(e) => {
                return Err(e);
            },
        };
        let mut streams: Vec<(String, Vec<u8>)> = Vec::new();
        streams.push(("FileHeader".to_owned(), flat.file_header));
        if flat.additional.len() > 0 {
            streams.push(("Additional".to_owned(), flat.additional));
        }
        streams.push(("Storage".to_owned(), flat.storage));
        let storages: Vec<String> = Vec::new();
        proof {
            let (fh, add, st) = flat_streams(*self).unwrap();
            assert(writes_view(streams@) =~= schdoc_writes(fh, add, st));
            lemma_schdoc_paths_writable(fh, add, st);
        }
        write_container(&storages, &streams)
    }
}

/// The numbered entries of a `Models` section, each at the section's name,
/// `/` and its index.
pub open spec fn entry_writes(n: Seq<char>, es: Seq<(u32, Seq<u8>)>) -> Seq<(Seq<char>, Seq<u8>)> {
    es.map_values(|e: (u32, Seq<u8>)| (n + "/"@ + decimal_text(e.0 as nat), e.1))
}

/// The streams of one section under its storage: `Header` (the count as a
/// `u32`), the numbered `Models` entries, then `Data`.
pub open spec fn section_writes(name: Seq<u8>, m: PcbDocSectionMeta, recs: Seq<PcbDocRecord>) -> Seq<
    (Seq<char>, Seq<u8>),
> {
    let n = utf8_lossy(name);
    seq![(n + "/Header"@, le32(section_header_count(m)))] + entry_writes(n, section_entries(m)) + seq![
        (n + "/Data"@, section_data(m, recs)),
    ]
}

/// The streams of the sections, section by section.
pub open spec fn sections_writes(secs: Seq<PcbDocSection>, recs: Seq<PcbDocRecord>) -> Seq<(Seq<char>, Seq<u8>)>
    decreases secs.len(),
{
    if secs.len() == 0 {
        Seq::empty()
    } else {
        sections_writes(secs.drop_last(), recs) + section_writes(secs.last().name@, secs.last().meta, recs)
    }
}

/// The streams a PcbDoc is saved as: `FileHeader`, `FileHeaderSix` when
/// present, then each section's streams.
pub open spec fn pcbdoc_writes(meta: PcbDocStreamsMeta, recs: Seq<PcbDocRecord>) -> Seq<(Seq<char>, Seq<u8>)> {
    seq![("FileHeader"@, meta.file_header@)] + (match meta.file_header_six {
        Some(b) => seq![("FileHeaderSix"@, b@)],
        None => Seq::empty(),
    }) + sections_writes(meta.sections@, recs)
}

/// Whether every section of the document can be written.
pub open spec fn pcbdoc_writable(meta: PcbDocStreamsMeta, recs: Seq<PcbDocRecord>) -> bool {
    forall|k: int| 0 <= k < meta.sections@.len() ==> section_writable((#[trigger] meta.sections@[k]).meta, recs)
}

/// Whether written sections carry what the metadata and records give.
pub open spec fn sections_out(outs: Seq<PcbDocSectionOut>, meta: PcbDocStreamsMeta, recs: Seq<PcbDocRecord>) -> bool {
    &&& outs.len() == meta.sections@.len()
    &&& forall|q: int|
        0 <= q < outs.len() ==> {
            let sec = meta.sections@[q];
            &&& (#[trigger] outs[q]).name@ == sec.name@
            &&& outs[q].header@ == le32(section_header_count(sec.meta))
            &&& outs[q].data@ == section_data(sec.meta, recs)
            &&& outs[q].entries@.map_values(|e: PcbDocModelEntry| (e.index, e.data@)) == section_entries(sec.meta)
        }
}

/// Appends the streams of one written section, and its storage.
fn push_section(
    o: &PcbDocSectionOut,
    storages: &mut Vec<String>,
    streams: &mut Vec<(String, Vec<u8>)>,
    Ghost(m): Ghost<PcbDocSectionMeta>,
    Ghost(recs): Ghost<Seq<PcbDocRecord>>,
)
    requires
        o.header@ == le32(section_header_count(m)),
        o.data@ == section_data(m, recs),
        o.entries@.map_values(|e: PcbDocModelEntry| (e.index, e.data@)) == section_entries(m),
    ensures
        writes_view(final(streams)@) == writes_view(old(streams)@) + section_writes(o.name@, m, recs),
{
    let name = text_from_utf8(o.name.as_slice());
    storages.push(text2("/", name.as_str()));
    let ghost n = name@;
    let ghost start = writes_view(streams@);
    let ghost es = section_entries(m);
    streams.push((text2(name.as_str(), "/Header"), dup_bytes(&o.header)));
    assert(writes_view(streams@) =~= start + seq![(n + "/Header"@, le32(section_header_count(m)))]);
    let mut j: usize = 0;
    while j < o.entries.len()
        invariant
            j <= o.entries@.len(),
            name@ == n,
            es == o.entries@.map_values(|e: PcbDocModelEntry| (e.index, e.data@)),
            writes_view(streams@) == start + seq![(n + "/Header"@, le32(section_header_count(m)))] + entry_writes(
                n,
                es.take(j as int),
            ),
        decreases o.entries@.len() - j,
    {
        let e = &o.entries[j];
        let idx = usize_text(e.index as usize);
        let p = text3(name.as_str(), "/", idx.as_str());
        assert(idx@ == decimal_text(e.index as nat));
        assert(p@ == n + "/"@ + decimal_text(e.index as nat));
        let ghost before = writes_view(streams@);
        streams.push((p, dup_bytes(&e.data)));
        proof {
            assert(es[j as int] == (e.index, e.data@));
            assert(entry_writes(n, es.take(j + 1)) =~= entry_writes(n, es.take(j as int)).push(
                (n + "/"@ + decimal_text(e.index as nat), e.data@),
            ));
            assert(writes_view(streams@) =~= before.push((n + "/"@ + decimal_text(e.index as nat), e.data@)));
        }
        j = j + 1;
    }
    assert(es.take(j as int) =~= es);
    let ghost before = writes_view(streams@);
    streams.push((text2(name.as_str(), "/Data"), dup_bytes(&o.data)));
    assert(writes_view(streams@) =~= before.push((n + "/Data"@, section_data(m, recs))));
    assert(writes_view(streams@) =~= start + section_writes(o.name@, m, recs));
}

impl PcbDoc {
    /// Saves the document as the bytes of a version-3 compound file: the
    /// root headers, then each section as a storage with its `Header`,
    /// numbered `Models` entries and `Data` streams.
    pub fn to_cfb_bytes(&self) -> (r: Result<Vec<u8>>)
        ensures
            !crate::documents::pcbdoc::ids_valid(self.spec_meta(), self.spec_records().len()) ==> (r matches Err(
                AltiumError::Parse(m),
            ) && m@ == "pcbdoc section names a record id out of range"@),
            !pcbdoc_writable(self.spec_meta(), self.spec_records()) ==> r is Err,
            r matches Ok(b) ==> (writable_paths(
                stream_map(rooted(pcbdoc_writes(self.spec_meta(), self.spec_records()))).dom(),
            ) ==> holds_streams(b@, stream_map(rooted(pcbdoc_writes(self.spec_meta(), self.spec_records()))))),
    {
        let ghost meta = self.spec_meta();
        let ghost recs = self.spec_records();
        if !self.ids_in_range() {
            return Err(AltiumError::Parse(text("pcbdoc section names a record id out of range")));
        }
        let o = match self.to_streams() {
            Ok(o) => o,
            Err(e) => {
                return Err(e);
            },
        };
        let PcbDocStreamsOut { file_header, file_header_six, sections } = o;
        proof {
            assert(sections_out(sections@, meta, recs));
        }
        let mut streams: Vec<(String, Vec<u8>)> = Vec::new();
        let mut storages: Vec<String> = Vec::new();
        streams.push(("FileHeader".to_owned(), file_header));
        match file_header_six {
            Some(b) => {
                streams.push(("FileHeaderSix".to_owned(), b));
            },
            None => {},
        }
        let ghost head = writes_view(streams@);
        assert(head =~= seq![("FileHeader"@, meta.file_header@)] + (match meta.file_header_six {
            Some(b) => seq![("FileHeaderSix"@, b@)],
            None => Seq::empty(),
        }));
        let mut k: usize = 0;
        while k < sections.len()
            invariant
                k <= sections@.len(),
                sections_out(sections@, meta, recs),
                writes_view(streams@) == head + sections_writes(meta.sections@.take(k as int), recs),
            decreases sections@.len() - k,
        {
            let ghost sec = meta.sections@[k as int];
            assert(sections@[k as int].name@ == sec.name@);
            push_section(&sections[k], &mut storages, &mut streams, Ghost(sec.meta), Ghost(recs));
            assert(meta.sections@.take(k + 1).drop_last() =~= meta.sections@.take(k as int));
            assert(meta.sections@.take(k + 1).last() == sec);
            k = k + 1;
        }
        assert(meta.sections@.take(k as int) =~= meta.sections@);
        write_container(&storages, &streams)
    }
}

/// Whether `p` names a stream directly inside the storage `dir`.
pub open spec fn is_child_path(p: Seq<char>, dir: Seq<char>) -> bool {
    &&& p.len() > dir.len() + 1
    &&& p.take(dir.len() as int) == dir
    &&& p[dir.len() as int] == '/'
    &&& !p.skip(dir.len() + 1 as int).contains('/')
}

/// The streams of the walk that lie directly inside `dir`, in walk order.
pub open spec fn child_streams(es: Seq<(Seq<char>, bool)>, dir: Seq<char>) -> Seq<Seq<char>>
    decreases es.len(),
{
    if es.len() == 0 {
        Seq::empty()
    } else {
        let pre = child_streams(es.drop_last(), dir);
        if es.last().1 && is_child_path(es.last().0, dir) {
            pre.push(es.last().0)
        } else {
            pre
        }
    }
}

/// Whether every stream reads and inflates.
pub open spec fn libs_readable(b: Seq<u8>, ps: Seq<Seq<char>>) -> bool {
    forall|i: int|
        0 <= i < ps.len() ==> (cfb_stream(b, #[trigger] ps[i]) matches Ok(d) && intlib_inflated(d) is Some)
}

/// Whether `ls` are the inflated streams, in order.
pub open spec fn libs_read(b: Seq<u8>, ps: Seq<Seq<char>>, ls: Seq<Seq<u8>>) -> bool {
    &&& ls.len() == ps.len()
    &&& forall|i: int|
        0 <= i < ps.len() ==> (cfb_stream(b, #[trigger] ps[i]) matches Ok(d) && intlib_inflated(d) == Some(ls[i]))
}

/// Whether the path text lies directly inside the storage.
fn is_child_exec(p: &str, dir: &str) -> (r: bool)
    ensures
        r == is_child_path(p@, dir@),
{
    let n = p.unicode_len();
    let m = dir.unicode_len();
    if n <= m || n - m <= 1 {
        return false;
    }
    let mut i: usize = 0;
    while i < m
        invariant
            i <= m,
            m == dir@.len(),
            n == p@.len(),
            m + 1 < n,
            forall|k: int| 0 <= k < i ==> p@[k] == dir@[k],
        decreases m - i,
    {
        if p.get_char(i) != dir.get_char(i) {
            assert(p@.take(m as int)[i as int] != dir@[i as int]);
            return false;
        }
        i = i + 1;
    }
    assert(p@.take(m as int) =~= dir@);
    if p.get_char(m) != '/' {
        return false;
    }
    let mut j: usize = m + 1;
    while j < n
        invariant
            m + 1 <= j <= n,
            n == p@.len(),
            m == dir@.len(),
            forall|k: int| m + 1 <= k < j ==> p@[k] != '/',
        decreases n - j,
    {
        if p.get_char(j) == '/' {
            assert(p@.skip(m + 1)[j - (m + 1)] == '/');
            return false;
        }
        j = j + 1;
    }
    assert(!p@.skip(m + 1 as int).contains('/')) by {
        let s = p@.skip(m + 1 as int);
        assert forall|k: int| 0 <= k < s.len() implies s[k] != '/' by {
            assert(s[k] == p@[k + m + 1]);
        }
    }
    true
}

/// Reads and inflates the streams of the walk directly inside `dir`.
fn read_libs(bytes: &[u8], es: &Vec<(String, bool)>, dir: &str) -> (r: Result<Vec<Vec<u8>>>)
    ensures
        ({
            let ps = child_streams(es@.map_values(|e: (String, bool)| (e.0@, e.1)), dir@);
            &&& (r is Ok <==> libs_readable(bytes@, ps))
            &&& r matches Ok(v) ==> libs_read(bytes@, ps, buffers_view(v@))
        }),
{
    let ghost ev = es@.map_values(|e: (String, bool)| (e.0@, e.1));
    let mut out: Vec<Vec<u8>> = Vec::new();
    let mut i: usize = 0;
    while i < es.len()
        invariant
            i <= es@.len(),
            ev == es@.map_values(|e: (String, bool)| (e.0@, e.1)),
            libs_readable(bytes@, child_streams(ev.take(i as int), dir@)),
            libs_read(bytes@, child_streams(ev.take(i as int), dir@), buffers_view(out@)),
        decreases es@.len() - i,
    {
        let ghost pre = child_streams(ev.take(i as int), dir@);
        assert(ev.take(i + 1).drop_last() =~= ev.take(i as int));
        assert(ev.take(i + 1).last() == ev[i as int]);
        if es[i].1 && is_child_exec(es[i].0.as_str(), dir) {
            let ghost p = es@[i as int].0@;
            let raw = match read_stream(bytes, es[i].0.as_str()) {
                Ok(v) => v,
                Err(e) => {
                    proof {
                        let ps = child_streams(ev.take(i + 1), dir@);
                        assert(ps =~= pre.push(p));
                        lemma_child_streams_prefix(ev, dir@, i as int + 1);
                        let full = child_streams(ev, dir@);
                        assert(full[pre.len() as int] == p);
                        assert(!(cfb_stream(bytes@, full[pre.len() as int]) matches Ok(d) && intlib_inflated(d) is Some));
                    }
                    return Err(e);
                },
            };
            let lib = match intlib_decompress(raw.as_slice()) {
                Ok(l) => l,
                Err(e) => {
                    proof {
                        let ps = child_streams(ev.take(i + 1), dir@);
                        assert(ps =~= pre.push(p));
                        lemma_child_streams_prefix(ev, dir@, i as int + 1);
                        let full = child_streams(ev, dir@);
                        assert(full[pre.len() as int] == p);
                        assert(!(cfb_stream(bytes@, full[pre.len() as int]) matches Ok(d) && intlib_inflated(d) is Some));
                    }
                    return Err(e);
                },
            };
            let ghost before = buffers_view(out@);
            out.push(lib);
            proof {
                assert(buffers_view(out@) =~= before.push(lib@));
                let ps = child_streams(ev.take(i + 1), dir@);
                assert(ps =~= pre.push(p));
                assert forall|k: int| 0 <= k < ps.len() implies (cfb_stream(bytes@, #[trigger] ps[k]) matches Ok(d)
                    && intlib_inflated(d) == Some(buffers_view(out@)[k])) by {
                    if k < pre.len() {
                        assert(ps[k] == pre[k]);
                    }
                }
            }
        }
        i = i + 1;
    }
    assert(ev.take(i as int) =~= ev);
    Ok(out)
}

/// A failing stream among the children of a prefix of the walk fails the
/// whole walk's children too.
proof fn lemma_child_streams_prefix(es: Seq<(Seq<char>, bool)>, dir: Seq<char>, k: int)
    requires
        0 <= k <= es.len(),
    ensures
        child_streams(es.take(k), dir).len() <= child_streams(es, dir).len(),
        forall|j: int|
            0 <= j < child_streams(es.take(k), dir).len() ==> #[trigger] child_streams(es, dir)[j] == child_streams(
                es.take(k),
                dir,
            )[j],
    decreases es.len() - k,
{
    if k < es.len() {
        lemma_child_streams_prefix(es, dir, k + 1);
        assert(es.take(k + 1).drop_last() =~= es.take(k));
    } else {
        assert(es.take(k) =~= es);
    }
}

impl IntLib {
    /// Opens an integrated library from the bytes of its compound file: each
    /// stream directly inside `/SchLib`, then each directly inside
    /// `/PCBLib`, is read and inflated.
    pub fn from_cfb_bytes(bytes: &[u8]) -> (r: Result<IntLib>)
        ensures
            match cfb_walk(bytes@) {
                Err(m) => r matches Err(AltiumError::Cfb(t)) && t@ == open_error(m),
                Ok(es) => {
                    let sp = child_streams(es, "/SchLib"@);
                    let pp = child_streams(es, "/PCBLib"@);
                    &&& (r is Ok <==> libs_readable(bytes@, sp) && libs_readable(bytes@, pp))
                    &&& r matches Ok(lib) ==> libs_read(bytes@, sp, lib.spec_schlibs()) && libs_read(
                        bytes@,
                        pp,
                        lib.spec_pcblibs(),
                    )
                },
            },
    {
        let es = match cfb_entries(bytes) {
            Ok(v) => v,
            Err(m) => {
                return Err(AltiumError::Cfb(text2("Failed to open CFB: ", m.as_str())));
            },
        };
        let schlibs = match read_libs(bytes, &es, "/SchLib") {
            Ok(v) => v,
            Err(e) => {
                return Err(e);
            },
        };
        let pcblibs = match read_libs(bytes, &es, "/PCBLib") {
            Ok(v) => v,
            Err(e) => {
                return Err(e);
            },
        };
        Ok(IntLib::from_parts(schlibs, pcblibs))
    }
}

} // verus!
