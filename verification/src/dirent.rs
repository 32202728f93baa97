//! Directory entries of a ZIM archive: a fixed part, a kind-dependent part,
//! two NUL-terminated strings and an optional parameter.
use vstd::prelude::*;
use vstd::slice::{slice_subrange, slice_to_vec};
use vstd::utf8::{decode_utf8, valid_utf8};
use crate::byte_reader::{le_u16_at, le_u32_at, read_u16_le, read_u32_le};
use vstd::bytes::{spec_u16_to_le_bytes, spec_u32_to_le_bytes, lemma_auto_spec_u16_to_from_le_bytes, lemma_auto_spec_u32_to_from_le_bytes};
use crate::text::{spec_utf8_failure, utf8_to_string};
use crate::zim_error::ZimError;

verus! {

/// MIME type number that marks a redirect entry.
pub const REDIRECT_MIME_TYPE: u16 = 0xffff;
/// MIME type number that marks a link target entry.
pub const LINK_TARGET_MIME_TYPE: u16 = 0xfffe;
/// MIME type number that marks a deleted entry.
pub const DELETED_MIME_TYPE: u16 = 0xfffd;

/// The kind-dependent part of a directory entry.
#[derive(Debug, Clone, Copy, PartialEq, Eq, Structural)]
pub enum DirentData {
    Content { cluster_number: u32, blob_number: u32 },
    Redirect { redirect_index: u32 },
    LinkTarget,
    Deleted,
}

/// A directory entry.
#[derive(Debug)]
pub struct Dirent {
    pub mime_type: u16,
    pub extra_len: u8,
    pub namespace: char,
    pub revision: u32,
    pub data: DirentData,
    pub url: String,
    pub title: String,
    pub parameter: Vec<u8>,
}

/// Position of the first NUL byte at or after `pos`, or the length of the
/// data when there is none.
pub open spec fn first_nul_from(d: Seq<u8>, pos: int) -> int
    decreases d.len() - pos,
{
    if pos < 0 || pos >= d.len() {
        d.len() as int
    } else if d[pos] == 0 {
        pos
    } else {
        first_nul_from(d, pos + 1)
    }
}

/// The NUL-terminated UTF-8 string at `pos` and the position just after its NUL byte.
pub open spec fn spec_cstring(d: Seq<u8>, pos: int) -> Result<(Seq<char>, int), ZimError> {
    let end = first_nul_from(d, pos);
    if pos < 0 || end >= d.len() {
        Err(ZimError::UnexpectedEof)
    } else if !valid_utf8(d.subrange(pos, end)) {
        Err(ZimError::InvalidUtf8(spec_utf8_failure(d.subrange(pos, end))))
    } else {
        Ok((decode_utf8(d.subrange(pos, end)), end + 1))
    }
}

/// The kind-dependent part of an entry with MIME type number `mime`, read at
/// byte 8, and the position after it.
pub open spec fn spec_dirent_data(d: Seq<u8>, mime: u16) -> Result<(DirentData, int), ZimError> {
    if mime == REDIRECT_MIME_TYPE {
        if d.len() < 12 {
            Err(ZimError::UnexpectedEof)
        } else {
            Ok((DirentData::Redirect { redirect_index: le_u32_at(d, 8) }, 12))
        }
    } else if mime == LINK_TARGET_MIME_TYPE {
        Ok((DirentData::LinkTarget, 8))
    } else if mime == DELETED_MIME_TYPE {
        Ok((DirentData::Deleted, 8))
    } else if d.len() < 16 {
        Err(ZimError::UnexpectedEof)
    } else {
        Ok((DirentData::Content { cluster_number: le_u32_at(d, 8), blob_number: le_u32_at(d, 12) }, 16))
    }
}

/// The fields of the directory entry at the start of `d`: MIME type number,
/// parameter length, namespace, revision, kind-dependent part, URL, title and parameter.
pub open spec fn spec_parse_dirent(d: Seq<u8>) -> Result<
    (u16, u8, char, u32, DirentData, Seq<char>, Seq<char>, Seq<u8>),
    ZimError,
> {
    if d.len() < 8 {
        Err(ZimError::UnexpectedEof)
    } else {
        let mime = le_u16_at(d, 0);
        let extra = d[2];
        match spec_dirent_data(d, mime) {
            Err(e) => Err(e),
            Ok((data, p)) => match spec_cstring(d, p) {
                Err(e) => Err(e),
                Ok((url, p1)) => match spec_cstring(d, p1) {
                    Err(e) => Err(e),
                    Ok((title, p2)) => if p2 + extra > d.len() {
                        Err(ZimError::UnexpectedEof)
                    } else {
                        Ok((mime, extra, d[3] as char, le_u32_at(d, 4), data, url, title, d.subrange(p2, p2 + extra)))
                    },
                },
            },
        }
    }
}

/// The NUL-terminated UTF-8 string at `pos`, and the position just after its NUL byte.
pub fn read_null_terminated_string(data: &[u8], pos: usize) -> (res: Result<(String, usize), ZimError>)
    ensures
        match (res, spec_cstring(data@, pos as int)) {
            (Ok((s, next)), Ok((t, n))) => s@ == t && next == n,
            (Err(e), Err(f)) => e == f,
            _ => false,
        },
{
    let mut i = pos;
    while i < data.len() && data[i] != 0
        invariant
            pos <= i,
            first_nul_from(data@, pos as int) == first_nul_from(data@, i as int),
        decreases data@.len() - i,
    {
        i = i + 1;
    }
    if i >= data.len() {
        return Err(ZimError::UnexpectedEof);
    }
    let bytes = slice_to_vec(slice_subrange(data, pos, i));
    match utf8_to_string(bytes) {
        Ok(s) => Ok((s, i + 1)),
        Err(f) => Err(ZimError::InvalidUtf8(f)),
    }
}

impl Dirent {
    /// The entry holds exactly the given fields.
    pub open spec fn has_fields(&self, t: (u16, u8, char, u32, DirentData, Seq<char>, Seq<char>, Seq<u8>)) -> bool {
        &&& self.mime_type == t.0
        &&& self.extra_len == t.1
        &&& self.namespace == t.2
        &&& self.revision == t.3
        &&& self.data == t.4
        &&& self.url@ == t.5
        &&& self.title@ == t.6
        &&& self.parameter@ == t.7
    }

    /// Parses the directory entry at the start of `data`.
    pub fn parse(data: &[u8]) -> (res: Result<Dirent, ZimError>)
        ensures
            match (res, spec_parse_dirent(data@)) {
                (Ok(d), Ok(t)) => d.has_fields(t),
                (Err(e), Err(f)) => e == f,
                _ => false,
            },
    {
        if data.len() < 8 {
            return Err(ZimError::UnexpectedEof);
        }
        let mime_type = match read_u16_le(data, 0) {
            Some(v) => v,
            None => return Err(ZimError::UnexpectedEof),
        };
        let extra_len = data[2];
        let namespace = data[3] as char;
        let revision = match read_u32_le(data, 4) {
            Some(v) => v,
            None => return Err(ZimError::UnexpectedEof),
        };
        let (kind, pos): (DirentData, usize) = if mime_type == REDIRECT_MIME_TYPE {
            match read_u32_le(data, 8) {
                Some(v) => (DirentData::Redirect { redirect_index: v }, 12),
                None => return Err(ZimError::UnexpectedEof),
            }
        } else if mime_type == LINK_TARGET_MIME_TYPE {
            (DirentData::LinkTarget, 8)
        } else if mime_type == DELETED_MIME_TYPE {
            (DirentData::Deleted, 8)
        } else {
            match (read_u32_le(data, 8), read_u32_le(data, 12)) {
                (Some(c), Some(b)) => (DirentData::Content { cluster_number: c, blob_number: b }, 16),
                _ => return Err(ZimError::UnexpectedEof),
            }
        };
        let (url, p1) = match read_null_terminated_string(data, pos) {
            Ok(r) => r,
            Err(e) => return Err(e),
        };
        let (title, p2) = match read_null_terminated_string(data, p1) {
            Ok(r) => r,
            Err(e) => return Err(e),
        };
        if p2 > data.len() || (extra_len as usize) > data.len() - p2 {
            return Err(ZimError::UnexpectedEof);
        }
        let parameter = slice_to_vec(slice_subrange(data, p2, p2 + extra_len as usize));
        Ok(Dirent { mime_type, extra_len, namespace, revision, data: kind, url, title, parameter })
    }

    /// Whether the entry redirects to another entry.
    pub fn is_redirect(&self) -> (b: bool)
        ensures
            b == (self.mime_type == REDIRECT_MIME_TYPE),
    {
        self.mime_type == REDIRECT_MIME_TYPE
    }

    /// Whether the entry is a link target.
    pub fn is_link_target(&self) -> (b: bool)
        ensures
            b == (self.mime_type == LINK_TARGET_MIME_TYPE),
    {
        self.mime_type == LINK_TARGET_MIME_TYPE
    }

    /// Whether the entry is deleted.
    pub fn is_deleted(&self) -> (b: bool)
        ensures
            b == (self.mime_type == DELETED_MIME_TYPE),
    {
        self.mime_type == DELETED_MIME_TYPE
    }

    /// Whether the entry is an article: none of redirect, link target or deleted.
    pub fn is_article(&self) -> (b: bool)
        ensures
            b == (self.mime_type != REDIRECT_MIME_TYPE && self.mime_type != LINK_TARGET_MIME_TYPE
                && self.mime_type != DELETED_MIME_TYPE),
    {
        !self.is_redirect() && !self.is_link_target() && !self.is_deleted()
    }

    /// The title, or the URL when the title is empty.
    pub fn get_title(&self) -> (res: &str)
        ensures
            res@ == if self.title@.len() == 0 { self.url@ } else { self.title@ },
    {
        if self.title.as_str().is_empty() {
            self.url.as_str()
        } else {
            self.title.as_str()
        }
    }
}

/// The bytes of the kind-dependent part of an entry.
pub open spec fn data_bytes(data: DirentData) -> Seq<u8> {
    match data {
        DirentData::Content { cluster_number, blob_number } => spec_u32_to_le_bytes(cluster_number) + spec_u32_to_le_bytes(blob_number),
        DirentData::Redirect { redirect_index } => spec_u32_to_le_bytes(redirect_index),
        DirentData::LinkTarget => Seq::empty(),
        DirentData::Deleted => Seq::empty(),
    }
}

/// Whether the kind-dependent part is the one the MIME type number calls for.
pub open spec fn data_matches_mime(mime: u16, data: DirentData) -> bool {
    match data {
        DirentData::Redirect { .. } => mime == REDIRECT_MIME_TYPE,
        DirentData::LinkTarget => mime == LINK_TARGET_MIME_TYPE,
        DirentData::Deleted => mime == DELETED_MIME_TYPE,
        DirentData::Content { .. } => mime != REDIRECT_MIME_TYPE && mime != LINK_TARGET_MIME_TYPE && mime != DELETED_MIME_TYPE,
    }
}

/// The bytes of a directory entry: MIME type number, parameter length,
/// namespace byte, revision, kind-dependent part, URL and title each
/// followed by a NUL byte, and the parameter.
pub open spec fn spec_encode_dirent(
    mime: u16,
    extra: u8,
    namespace: u8,
    revision: u32,
    data: DirentData,
    url: Seq<u8>,
    title: Seq<u8>,
    parameter: Seq<u8>,
) -> Seq<u8> {
    spec_u16_to_le_bytes(mime) + seq![extra, namespace] + spec_u32_to_le_bytes(revision) + data_bytes(data)
        + url + seq![0u8] + title + seq![0u8] + parameter
}

/// The first NUL byte at or after `pos` is `k` bytes on when those `k` bytes
/// are not NUL and the next one is.
proof fn lemma_first_nul_at(d: Seq<u8>, pos: int, k: int)
    requires
        0 <= pos,
        0 <= k,
        pos + k < d.len(),
        forall|i: int| pos <= i < pos + k ==> d[i] != 0,
        d[pos + k] == 0,
    ensures
        first_nul_from(d, pos) == pos + k,
    decreases k,
{
    if k > 0 {
        lemma_first_nul_at(d, pos + 1, k - 1);
    }
}

/// A NUL-terminated string written at `pos` reads back.
proof fn lemma_cstring_at(d: Seq<u8>, pos: int, s: Seq<u8>)
    requires
        0 <= pos,
        pos + s.len() < d.len(),
        d.subrange(pos, pos + s.len()) == s,
        d[pos + s.len()] == 0,
        !s.contains(0),
        valid_utf8(s),
    ensures
        spec_cstring(d, pos) == Ok::<(Seq<char>, int), ZimError>((decode_utf8(s), pos + s.len() + 1)),
{
    assert forall|i: int| pos <= i < pos + s.len() implies d[i] != 0 by {
        assert(d[i] == d.subrange(pos, pos + s.len())[i - pos]);
        if d[i] == 0 {
            assert(s[i - pos] == 0);
            assert(s.contains(0));
        }
    }
    lemma_first_nul_at(d, pos, s.len() as int);
}

/// Law: a directory entry written out reads back. Whatever bytes follow the
/// entry, parsing gives back every field, the URL and title decoded from
/// their UTF-8 bytes.
pub proof fn lemma_dirent_round_trip(
    mime: u16,
    extra: u8,
    namespace: u8,
    revision: u32,
    data: DirentData,
    url: Seq<u8>,
    title: Seq<u8>,
    parameter: Seq<u8>,
    rest: Seq<u8>,
)
    requires
        data_matches_mime(mime, data),
        valid_utf8(url),
        valid_utf8(title),
        !url.contains(0),
        !title.contains(0),
        parameter.len() == extra,
    ensures
        spec_parse_dirent(spec_encode_dirent(mime, extra, namespace, revision, data, url, title, parameter) + rest)
            == Ok::<(u16, u8, char, u32, DirentData, Seq<char>, Seq<char>, Seq<u8>), ZimError>(
                (mime, extra, namespace as char, revision, data, decode_utf8(url), decode_utf8(title), parameter)),
{
    lemma_auto_spec_u16_to_from_le_bytes();
    lemma_auto_spec_u32_to_from_le_bytes();
    let head = spec_u16_to_le_bytes(mime) + seq![extra, namespace] + spec_u32_to_le_bytes(revision);
    let db = data_bytes(data);
    let d = spec_encode_dirent(mime, extra, namespace, revision, data, url, title, parameter) + rest;
    assert(head.len() == 8);
    let p: int = 8 + db.len() as int;
    let p1: int = p + url.len() + 1;
    let p2: int = p1 + title.len() + 1;
    assert(d =~= head + db + url + seq![0u8] + title + seq![0u8] + parameter + rest);
    assert(d.subrange(0, 2) =~= spec_u16_to_le_bytes(mime));
    assert(d[2] == extra && d[3] == namespace);
    assert(d.subrange(4, 8) =~= spec_u32_to_le_bytes(revision));
    match data {
        DirentData::Content { cluster_number, blob_number } => {
            assert(d.subrange(8, 12) =~= spec_u32_to_le_bytes(cluster_number));
            assert(d.subrange(12, 16) =~= spec_u32_to_le_bytes(blob_number));
        },
        DirentData::Redirect { redirect_index } => {
            assert(d.subrange(8, 12) =~= spec_u32_to_le_bytes(redirect_index));
        },
        _ => {},
    }
    assert(spec_dirent_data(d, mime) == Ok::<(DirentData, int), ZimError>((data, p)));
    assert(d.subrange(p, p + url.len()) =~= url);
    assert(d[p + url.len()] == 0);
    lemma_cstring_at(d, p, url);
    assert(d.subrange(p1, p1 + title.len()) =~= title);
    assert(d[p1 + title.len()] == 0);
    lemma_cstring_at(d, p1, title);
    assert(d.subrange(p2, p2 + extra) =~= parameter);
}

/// No NUL byte from `pos` on: the search for one reaches the end.
proof fn lemma_no_nul_from(d: Seq<u8>, pos: int)
    requires
        0 <= pos,
        forall|i: int| pos <= i < d.len() ==> d[i] != 0,
    ensures
        first_nul_from(d, pos) == d.len(),
    decreases d.len() - pos,
{
    if pos < d.len() {
        lemma_no_nul_from(d, pos + 1);
    }
}

/// Law: an entry cut short does not parse. Every proper prefix of the bytes
/// of a directory entry is refused, so parsing reads the whole entry.
pub proof fn lemma_dirent_prefix_refused(
    mime: u16,
    extra: u8,
    namespace: u8,
    revision: u32,
    data: DirentData,
    url: Seq<u8>,
    title: Seq<u8>,
    parameter: Seq<u8>,
    k: int,
)
    requires
        data_matches_mime(mime, data),
        valid_utf8(url),
        valid_utf8(title),
        !url.contains(0),
        !title.contains(0),
        parameter.len() == extra,
        0 <= k < spec_encode_dirent(mime, extra, namespace, revision, data, url, title, parameter).len(),
    ensures
        spec_parse_dirent(spec_encode_dirent(mime, extra, namespace, revision, data, url, title, parameter).take(k)) is Err,
{
    lemma_auto_spec_u16_to_from_le_bytes();
    lemma_auto_spec_u32_to_from_le_bytes();
    let head = spec_u16_to_le_bytes(mime) + seq![extra, namespace] + spec_u32_to_le_bytes(revision);
    let db = data_bytes(data);
    let e = spec_encode_dirent(mime, extra, namespace, revision, data, url, title, parameter);
    assert(e =~= head + db + url + seq![0u8] + title + seq![0u8] + parameter);
    let q = e.take(k);
    let p: int = 8 + db.len() as int;
    let p1: int = p + url.len() + 1;
    let p2: int = p1 + title.len() + 1;
    if k >= 8 {
        assert(q.subrange(0, 2) =~= spec_u16_to_le_bytes(mime));
        let data_fits = match data {
            DirentData::Content { .. } => k >= 16,
            DirentData::Redirect { .. } => k >= 12,
            _ => true,
        };
        if data_fits {
            match data {
                DirentData::Content { cluster_number, blob_number } => {
                    assert(q.subrange(8, 12) =~= spec_u32_to_le_bytes(cluster_number));
                    assert(q.subrange(12, 16) =~= spec_u32_to_le_bytes(blob_number));
                },
                DirentData::Redirect { redirect_index } => {
                    assert(q.subrange(8, 12) =~= spec_u32_to_le_bytes(redirect_index));
                },
                _ => {},
            }
            assert(spec_dirent_data(q, mime) == Ok::<(DirentData, int), ZimError>((data, p)));
            if k <= p + url.len() {
                assert forall|i: int| p <= i < q.len() implies q[i] != 0 by {
                    assert(q[i] == url[i - p]);
                    if q[i] == 0 {
                        assert(url.contains(0));
                    }
                }
                lemma_no_nul_from(q, p);
            } else {
                assert(q.subrange(p, p + url.len()) =~= url);
                assert(q[p + url.len()] == 0);
                lemma_cstring_at(q, p, url);
                if k <= p1 + title.len() {
                    assert forall|i: int| p1 <= i < q.len() implies q[i] != 0 by {
                        assert(q[i] == title[i - p1]);
                        if q[i] == 0 {
                            assert(title.contains(0));
                        }
                    }
                    lemma_no_nul_from(q, p1);
                } else {
                    assert(q.subrange(p1, p1 + title.len()) =~= title);
                    assert(q[p1 + title.len()] == 0);
                    lemma_cstring_at(q, p1, title);
                }
            }
        }
    }
}

} // verus!
