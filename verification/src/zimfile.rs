//! A ZIM archive held in memory: its header, MIME type list, cluster and
//! directory entry pointers, directory entries, and a cache of parsed clusters.
use vstd::prelude::*;
use vstd::slice::slice_subrange;
use vstd::utf8::{decode_utf8, valid_utf8};
use crate::byte_reader::{le_u64_at, position_in, read_u64_le};
use crate::cache::{ClusterCache, key_seq, keys_after_uses, lemma_distinct_uses, lemma_put_wf, spec_put, spec_touched, spec_use_keys};
use crate::cluster::{Cluster, ClusterFailure, spec_blob_in, spec_parse_cluster, Compression};
use crate::dirent::{Dirent, DirentData, first_nul_from, spec_parse_dirent};
use crate::text::{chars_of, spec_utf8_failure, str_eq, string_from_chars, utf8_to_string};
use crate::zim_error::ZimError;
use crate::zim_header::{ZimHeader, spec_header_result};

verus! {

/// Number of clusters cached when no capacity is given.
pub const DEFAULT_CACHE_CAPACITY: usize = 16;

/// How many redirects are followed when looking up metadata.
pub const REDIRECT_LIMIT: u32 = 50;

/// The fields of a directory entry, as `spec_parse_dirent` gives them.
pub type DirentFields = (u16, u8, char, u32, DirentData, Seq<char>, Seq<char>, Seq<u8>);

/// The parsed contents of a cluster, as `spec_parse_cluster` gives them.
pub type ClusterFields = (Compression, bool, Seq<u64>, Seq<u8>);

/// The cluster stored at file position `off`; a position past the end reads nothing.
pub open spec fn spec_cluster_at(d: Seq<u8>, off: u64) -> Result<ClusterFields, ClusterFailure> {
    if off <= d.len() {
        spec_parse_cluster(d.skip(off as int))
    } else {
        Err(ClusterFailure::Zim(ZimError::UnexpectedEof))
    }
}

/// The directory entry stored at file position `off`.
pub open spec fn spec_dirent_at(d: Seq<u8>, off: u64) -> Result<DirentFields, ZimError> {
    if off <= d.len() {
        spec_parse_dirent(d.skip(off as int))
    } else {
        Err(ZimError::UnexpectedEof)
    }
}

/// `count` little-endian `u64` pointers stored from file position `pos` on.
pub open spec fn spec_pointers(d: Seq<u8>, pos: u64, count: u32) -> Result<Seq<u64>, ZimError> {
    if count == 0 {
        Ok(Seq::empty())
    } else if pos + 8 * count <= d.len() {
        Ok(Seq::new(count as nat, |i: int| le_u64_at(d, pos + 8 * i)))
    } else {
        Err(ZimError::UnexpectedEof)
    }
}

/// The directory entries at the given positions, or the first error met.
pub open spec fn spec_dirents(d: Seq<u8>, ptrs: Seq<u64>) -> Result<Seq<DirentFields>, ZimError>
    decreases ptrs.len(),
{
    if ptrs.len() == 0 {
        Ok(Seq::empty())
    } else {
        match spec_dirents(d, ptrs.drop_last()) {
            Err(e) => Err(e),
            Ok(s) => match spec_dirent_at(d, ptrs.last()) {
                Err(e) => Err(e),
                Ok(t) => Ok(s.push(t)),
            },
        }
    }
}

/// The MIME types listed in `buf` from position `start` on: NUL-terminated
/// UTF-8 strings, up to an empty string or the end of the buffer.
pub open spec fn spec_mime_list_from(buf: Seq<u8>, start: int) -> Result<Seq<Seq<char>>, ZimError>
    decreases buf.len() - start,
{
    if start < 0 || start >= buf.len() || buf[start] == 0 {
        Ok(Seq::empty())
    } else {
        let e = first_nul_from(buf, start);
        if e >= buf.len() {
            Err(ZimError::MimeListNotTerminated)
        } else if !valid_utf8(buf.subrange(start, e)) {
            Err(ZimError::InvalidMimeTypeUtf8(spec_utf8_failure(buf.subrange(start, e))))
        } else {
            proof {
                lemma_first_nul_from(buf, start);
            }
            match spec_mime_list_from(buf, e + 1) {
                Err(x) => Err(x),
                Ok(rest) => Ok(seq![decode_utf8(buf.subrange(start, e))] + rest),
            }
        }
    }
}

/// Where the MIME type list ends: at the first of the path pointer list, the
/// title index (when present) and the cluster pointer list.
pub open spec fn mime_list_end(h: &ZimHeader) -> u64 {
    let e1 = h.path_ptr_pos;
    let e2 = if h.title_idx_pos > 0 && h.title_idx_pos < e1 { h.title_idx_pos } else { e1 };
    if h.cluster_ptr_pos < e2 { h.cluster_ptr_pos } else { e2 }
}

/// The MIME type list of the archive `d` with header `h`.
pub open spec fn spec_mime_types(d: Seq<u8>, h: &ZimHeader) -> Result<Seq<Seq<char>>, ZimError> {
    let start = h.mime_list_pos;
    let end = mime_list_end(h);
    if end <= start {
        Err(ZimError::InvalidMimeListPosition)
    } else if end > d.len() {
        Err(ZimError::UnexpectedEof)
    } else {
        spec_mime_list_from(d.subrange(start as int, end as int), 0)
    }
}

/// What reading the archive `d` after its header gives: the MIME types, the
/// cluster pointers, the directory entry pointers and the directory entries,
/// or the first error met.
pub open spec fn spec_archive(d: Seq<u8>, h: &ZimHeader) -> Result<
    (Seq<Seq<char>>, Seq<u64>, Seq<u64>, Seq<DirentFields>),
    ZimError,
> {
    match spec_mime_types(d, h) {
        Err(e) => Err(e),
        Ok(m) => match spec_pointers(d, h.cluster_ptr_pos, h.cluster_count) {
            Err(e) => Err(e),
            Ok(cp) => match spec_pointers(d, h.path_ptr_pos, h.article_count) {
                Err(e) => Err(e),
                Ok(dp) => match spec_dirents(d, dp) {
                    Err(e) => Err(e),
                    Ok(ds) => Ok((m, cp, dp, ds)),
                },
            },
        },
    }
}

/// Blob `blob` of cluster `cluster` of the archive `d` with cluster pointers `ptrs`.
pub open spec fn spec_zim_blob(d: Seq<u8>, ptrs: Seq<u64>, cluster: int, blob: int) -> Option<Seq<u8>> {
    if cluster < 0 || cluster >= ptrs.len() {
        None
    } else {
        match spec_cluster_at(d, ptrs[cluster]) {
            Err(_) => None,
            Ok(t) => spec_blob_in(t.2, t.3, blob),
        }
    }
}

/// The cluster `cluster` of the archive, when it can be read.
pub open spec fn spec_zim_cluster(d: Seq<u8>, ptrs: Seq<u64>, cluster: int) -> Option<ClusterFields> {
    if cluster < 0 || cluster >= ptrs.len() {
        None
    } else {
        match spec_cluster_at(d, ptrs[cluster]) {
            Err(_) => None,
            Ok(t) => Some(t),
        }
    }
}

/// The URLs of the metadata entries (namespace `M`), in entry order.
pub open spec fn spec_metadata_keys(ds: Seq<Dirent>) -> Seq<Seq<char>>
    decreases ds.len(),
{
    if ds.len() == 0 {
        Seq::empty()
    } else {
        let r = spec_metadata_keys(ds.drop_last());
        if ds.last().namespace == 'M' {
            r.push(ds.last().url@)
        } else {
            r
        }
    }
}

/// Index of the first metadata entry named `name`, at or after `i`.
pub open spec fn spec_first_metadata(ds: Seq<Dirent>, name: Seq<char>, i: int) -> Option<int>
    decreases ds.len() - i,
{
    if i < 0 || i >= ds.len() {
        None
    } else if ds[i].namespace == 'M' && ds[i].url@ == name {
        Some(i)
    } else {
        spec_first_metadata(ds, name, i + 1)
    }
}

/// Follows redirects from entry `idx`, at most `fuel` of them, to an entry
/// that is not a redirect; `None` when the limit is reached or a redirect
/// points outside the entries.
pub open spec fn spec_follow_redirects(ds: Seq<Dirent>, idx: int, fuel: nat) -> Option<int>
    decreases fuel,
{
    if idx < 0 || idx >= ds.len() {
        None
    } else {
        match ds[idx].data {
            DirentData::Redirect { redirect_index } => {
                if fuel == 0 || redirect_index >= ds.len() {
                    None
                } else {
                    spec_follow_redirects(ds, redirect_index as int, (fuel - 1) as nat)
                }
            },
            _ => Some(idx),
        }
    }
}

/// The entry the metadata name `name` resolves to: the first metadata entry
/// with that URL, after following at most `REDIRECT_LIMIT` redirects.
pub open spec fn spec_metadata_entry(ds: Seq<Dirent>, name: Seq<char>) -> Option<int> {
    match spec_first_metadata(ds, name, 0) {
        None => None,
        Some(i) => spec_follow_redirects(ds, i, REDIRECT_LIMIT as nat),
    }
}

/// The content of a directory entry: its blob when it is a content entry.
pub open spec fn spec_content(d: Seq<u8>, ptrs: Seq<u64>, data: DirentData) -> Option<Seq<u8>> {
    match data {
        DirentData::Content { cluster_number, blob_number } => spec_zim_blob(
            d,
            ptrs,
            cluster_number as int,
            blob_number as int,
        ),
        _ => None,
    }
}

/// The characters of `s` without one trailing NUL character.
pub open spec fn strip_one_nul(s: Seq<char>) -> Seq<char> {
    if s.len() > 0 && s.last() == '\0' {
        s.drop_last()
    } else {
        s
    }
}

/// A cache entry holds the cluster that is stored where its pointer points.
pub open spec fn entry_matches_file(d: Seq<u8>, ptrs: Seq<u64>, e: (usize, Cluster)) -> bool {
    &&& e.0 < ptrs.len()
    &&& spec_cluster_at(d, ptrs[e.0 as int]) matches Ok(t)
    &&& e.1.has_contents(t)
}

#[derive(Debug)]
struct ClusterStore {
    data: Vec<u8>,
    cache: ClusterCache,
}

/// A ZIM archive read from bytes.
#[derive(Debug)]
pub struct ZimFile {
    pub header: ZimHeader,
    pub mime_types: Vec<String>,
    pub cluster_pointers: Vec<u64>,
    pub dirent_pointers: Vec<u64>,
    pub dirents: Vec<Dirent>,
    store: ClusterStore,
}

impl ZimFile {
    /// The bytes of the archive.
    pub closed spec fn file_bytes(&self) -> Seq<u8> {
        self.store.data@
    }

    /// The cluster cache.
    pub closed spec fn cache(&self) -> ClusterCache {
        self.store.cache
    }

    /// The header.
    pub closed spec fn spec_header(&self) -> ZimHeader {
        self.header
    }

    /// The MIME types.
    pub closed spec fn spec_mime_types(&self) -> Seq<String> {
        self.mime_types@
    }

    /// The cluster pointers.
    pub closed spec fn spec_cluster_pointers(&self) -> Seq<u64> {
        self.cluster_pointers@
    }

    /// The directory entry pointers.
    pub closed spec fn spec_dirent_pointers(&self) -> Seq<u64> {
        self.dirent_pointers@
    }

    /// The directory entries.
    pub closed spec fn spec_dirents(&self) -> Seq<Dirent> {
        self.dirents@
    }

    /// The cache is well formed and every cached cluster is the cluster its
    /// pointer designates in the archive bytes.
    pub open spec fn wf(&self) -> bool {
        &&& self.cache().wf()
        &&& forall|i: int| 0 <= i < self.cache().entries().len()
            ==> entry_matches_file(self.file_bytes(), self.spec_cluster_pointers(), #[trigger] self.cache().entries()[i])
    }

    /// Everything but the cache is the same in both archives.
    pub open spec fn same_archive(&self, other: &ZimFile) -> bool {
        &&& self.spec_header() == other.spec_header()
        &&& self.spec_mime_types() == other.spec_mime_types()
        &&& self.spec_cluster_pointers() == other.spec_cluster_pointers()
        &&& self.spec_dirent_pointers() == other.spec_dirent_pointers()
        &&& self.spec_dirents() == other.spec_dirents()
        &&& self.file_bytes() == other.file_bytes()
        &&& self.cache().spec_capacity() == other.cache().spec_capacity()
    }

    /// Reads an archive with the default cache capacity.
    pub fn parse_bytes(data: Vec<u8>) -> (res: Result<ZimFile, ZimError>)
        ensures
            Self::parsed_from(res, data@, DEFAULT_CACHE_CAPACITY),
    {
        Self::parse_bytes_with_cache_capacity(data, DEFAULT_CACHE_CAPACITY)
    }

    /// The outcome of reading archive `d` with cache capacity `capacity`: an
    /// archive that holds what `d` stores, with an empty cache, or the first
    /// error met.
    pub open spec fn parsed_from(res: Result<ZimFile, ZimError>, d: Seq<u8>, capacity: usize) -> bool {
        match res {
            Ok(z) => {
                &&& spec_header_result(d) is Ok
                &&& z.spec_header().read_from(d)
                &&& spec_archive(d, &z.spec_header()) matches Ok((m, cp, dp, ds))
                &&& z.spec_mime_types().map_values(|s: String| s@) == m
                &&& z.spec_cluster_pointers() == cp
                &&& z.spec_dirent_pointers() == dp
                &&& z.spec_dirents().len() == ds.len()
                &&& forall|i: int| 0 <= i < ds.len() ==> (#[trigger] z.spec_dirents()[i]).has_fields(ds[i])
                &&& z.file_bytes() == d
                &&& z.wf()
                &&& z.cache().entries().len() == 0
                &&& z.cache().spec_capacity() == if capacity == 0 { 1 } else { capacity as nat }
            },
            Err(e) => match spec_header_result(d) {
                Err(f) => e == f,
                Ok(()) => exists|h: ZimHeader| h.read_from(d) && spec_archive(d, &h) == Err::<
                    (Seq<Seq<char>>, Seq<u64>, Seq<u64>, Seq<DirentFields>),
                    ZimError,
                >(e),
            },
        }
    }

    /// Reads an archive whose clusters are cached `capacity` at a time
    /// (at least one).
    pub fn parse_bytes_with_cache_capacity(data: Vec<u8>, capacity: usize) -> (res: Result<ZimFile, ZimError>)
        ensures
            Self::parsed_from(res, data@, capacity),
    {
        let header = match ZimHeader::parse_header(data.as_slice()) {
            Ok(h) => h,
            Err(e) => return Err(e),
        };
        let mime_types = match Self::parse_mime_types(data.as_slice(), &header) {
            Ok(m) => m,
            Err(e) => return Err(e),
        };
        let cluster_pointers = match Self::parse_pointers(data.as_slice(), header.cluster_ptr_pos, header.cluster_count) {
            Ok(p) => p,
            Err(e) => return Err(e),
        };
        let dirent_pointers = match Self::parse_pointers(data.as_slice(), header.path_ptr_pos, header.article_count) {
            Ok(p) => p,
            Err(e) => return Err(e),
        };
        let dirents = match Self::parse_dirents(data.as_slice(), &dirent_pointers) {
            Ok(d) => d,
            Err(e) => return Err(e),
        };
        let store = ClusterStore { data, cache: ClusterCache::new(capacity) };
        Ok(ZimFile { header, mime_types, cluster_pointers, dirent_pointers, dirents, store })
    }

    /// Reads `count` pointers from position `pos` on.
    fn parse_pointers(data: &[u8], pos: u64, count: u32) -> (res: Result<Vec<u64>, ZimError>)
        ensures
            match (res, spec_pointers(data@, pos, count)) {
                (Ok(v), Ok(s)) => v@ == s,
                (Err(e), Err(f)) => e == f,
                _ => false,
            },
    {
        let mut pointers: Vec<u64> = Vec::new();
        let mut i: u32 = 0;
        while i < count
            invariant
                i <= count,
                pointers@.len() == i,
                forall|j: int| 0 <= j < i ==> pointers@[j] == le_u64_at(data@, pos + 8 * j),
                i > 0 ==> pos + 8 * i <= data@.len(),
            decreases count - i,
        {
            let p = pos as u128 + 8 * (i as u128);
            if p > data.len() as u128 {
                return Err(ZimError::UnexpectedEof);
            }
            match read_u64_le(data, p as usize) {
                Some(v) => pointers.push(v),
                None => return Err(ZimError::UnexpectedEof),
            }
            i = i + 1;
        }
        proof {
            if count > 0 {
                assert(pointers@ =~= Seq::new(count as nat, |j: int| le_u64_at(data@, pos + 8 * j)));
            } else {
                assert(pointers@ =~= Seq::<u64>::empty());
            }
        }
        Ok(pointers)
    }

    /// Reads the directory entries at the given positions.
    fn parse_dirents(data: &[u8], pointers: &Vec<u64>) -> (res: Result<Vec<Dirent>, ZimError>)
        ensures
            match (res, spec_dirents(data@, pointers@)) {
                (Ok(v), Ok(s)) => v@.len() == s.len() && forall|i: int| 0 <= i < s.len() ==> (#[trigger] v@[i]).has_fields(s[i]),
                (Err(e), Err(f)) => e == f,
                _ => false,
            },
    {
        let mut dirents: Vec<Dirent> = Vec::new();
        let mut i: usize = 0;
        while i < pointers.len()
            invariant
                i <= pointers@.len(),
                spec_dirents(data@, pointers@.take(i as int)) matches Ok(s) && dirents@.len() == s.len()
                    && forall|j: int| 0 <= j < s.len() ==> (#[trigger] dirents@[j]).has_fields(s[j]),
            decreases pointers@.len() - i,
        {
            let ghost before = pointers@.take(i as int);
            assert(pointers@.take(i + 1).drop_last() =~= before);
            let parsed = match position_in(data, pointers[i]) {
                Some(p) => Dirent::parse(slice_subrange(data, p, data.len())),
                None => Err(ZimError::UnexpectedEof),
            };
            match parsed {
                Ok(d) => {
                    proof {
                        if pointers[i as int] <= data@.len() {
                            assert(data@.subrange(pointers[i as int] as int, data@.len() as int) =~= data@.skip(pointers[i as int] as int));
                        }
                    }
                    dirents.push(d);
                },
                Err(e) => {
                    proof {
                        if pointers[i as int] <= data@.len() {
                            assert(data@.subrange(pointers[i as int] as int, data@.len() as int) =~= data@.skip(pointers[i as int] as int));
                        }
                        lemma_dirents_error_extends(data@, pointers@, i as int + 1);
                        lemma_dirents_prefix_error(data@, pointers@, i as int + 1);
                    }
                    return Err(e);
                },
            }
            i = i + 1;
        }
        assert(pointers@.take(pointers@.len() as int) =~= pointers@);
        Ok(dirents)
    }

    /// Reads the MIME type list.
    fn parse_mime_types(data: &[u8], header: &ZimHeader) -> (res: Result<Vec<String>, ZimError>)
        ensures
            match (res, spec_mime_types(data@, header)) {
                (Ok(v), Ok(s)) => v@.map_values(|x: String| x@) == s,
                (Err(e), Err(f)) => e == f,
                _ => false,
            },
    {
        let mut end_pos = header.path_ptr_pos;
        if header.title_idx_pos > 0 && header.title_idx_pos < end_pos {
            end_pos = header.title_idx_pos;
        }
        if header.cluster_ptr_pos < end_pos {
            end_pos = header.cluster_ptr_pos;
        }
        let start_pos = header.mime_list_pos;
        if end_pos <= start_pos {
            return Err(ZimError::InvalidMimeListPosition);
        }
        if end_pos > data.len() as u64 {
            return Err(ZimError::UnexpectedEof);
        }
        assert(end_pos == mime_list_end(header));
        let buffer = slice_subrange(data, start_pos as usize, end_pos as usize);
        let mut mime_types: Vec<String> = Vec::new();
        let mut start: usize = 0;
        while start < buffer.len() && buffer[start] != 0
            invariant
                start <= buffer@.len(),
                mime_list_end(header) > header.mime_list_pos,
                mime_list_end(header) <= data@.len(),
                buffer@ == data@.subrange(header.mime_list_pos as int, mime_list_end(header) as int),
                spec_mime_list_from(buffer@, 0) == match spec_mime_list_from(buffer@, start as int) {
                    Ok(rest) => Ok(mime_types@.map_values(|x: String| x@) + rest),
                    Err(e) => Err::<Seq<Seq<char>>, ZimError>(e),
                },
            decreases buffer@.len() - start,
        {
            let mut end = start;
            while end < buffer.len() && buffer[end] != 0
                invariant
                    start <= end <= buffer@.len(),
                    first_nul_from(buffer@, start as int) == first_nul_from(buffer@, end as int),
                decreases buffer@.len() - end,
            {
                end = end + 1;
            }
            assert(first_nul_from(buffer@, start as int) == end);
            if end >= buffer.len() {
                assert(spec_mime_list_from(buffer@, start as int) == Err::<Seq<Seq<char>>, ZimError>(ZimError::MimeListNotTerminated));
                return Err(ZimError::MimeListNotTerminated);
            }
            let ghost before = mime_types@.map_values(|x: String| x@);
            match utf8_to_string(vstd::slice::slice_to_vec(slice_subrange(buffer, start, end))) {
                Ok(s) => mime_types.push(s),
                Err(f) => {
                    return Err(ZimError::InvalidMimeTypeUtf8(f));
                },
            }
            proof {
                lemma_first_nul_from(buffer@, start as int);
                assert(mime_types@.map_values(|x: String| x@) =~= before.push(decode_utf8(buffer@.subrange(start as int, end as int))));
                match spec_mime_list_from(buffer@, end + 1) {
                    Ok(rest) => {
                        assert(before + (seq![decode_utf8(buffer@.subrange(start as int, end as int))] + rest)
                            =~= mime_types@.map_values(|x: String| x@) + rest);
                    },
                    Err(_) => {},
                }
            }
            start = end + 1;
        }
        proof {
            assert(spec_mime_list_from(buffer@, start as int) == Ok::<Seq<Seq<char>>, ZimError>(Seq::empty()));
            assert(mime_types@.map_values(|x: String| x@) + Seq::<Seq<char>>::empty() =~= mime_types@.map_values(|x: String| x@));
        }
        Ok(mime_types)
    }

    /// The cluster number `idx`, from the cache or read from the archive and
    /// then cached.
    fn cluster(&mut self, idx: usize) -> (res: Option<&Cluster>)
        requires
            old(self).wf(),
        ensures
            final(self).wf(),
            final(self).same_archive(old(self)),
            match res {
                Some(c) => (spec_zim_cluster(old(self).file_bytes(), old(self).spec_cluster_pointers(), idx as int) matches Some(t)
                    && c.has_contents(t)),
                None => spec_zim_cluster(old(self).file_bytes(), old(self).spec_cluster_pointers(), idx as int) is None,
            },
            spec_zim_cluster(old(self).file_bytes(), old(self).spec_cluster_pointers(), idx as int) is Some
                ==> final(self).cache().keys().contains(idx),
            final(self).cache().keys() == match spec_zim_cluster(old(self).file_bytes(), old(self).spec_cluster_pointers(), idx as int) {
                Some(_) => spec_use_keys(old(self).cache().keys(), old(self).cache().spec_capacity(), idx),
                None => old(self).cache().keys(),
            },
    {
        if idx >= self.cluster_pointers.len() {
            return None;
        }
        let offset = self.cluster_pointers[idx];
        let ghost d = self.store.data@;
        let ghost ptrs = self.cluster_pointers@;
        let ghost e0 = self.store.cache.entries();
        let ghost cap0 = self.store.cache.spec_capacity();
        let ghost was_cached = key_seq(e0).contains(idx);
        if !self.store.cache.contains(idx) {
            let parsed = match position_in(self.store.data.as_slice(), offset) {
                Some(p) => Cluster::parse(slice_subrange(self.store.data.as_slice(), p, self.store.data.len())),
                None => Err(ZimError::UnexpectedEof),
            };
            match parsed {
                Ok(c) => {
                    proof {
                        assert(d.subrange(offset as int, d.len() as int) =~= d.skip(offset as int));
                    }
                    let ghost e = self.store.cache.entries();
                    let ghost cap = self.store.cache.spec_capacity();
                    let ghost cc = c;
                    self.store.cache.put(idx, c);
                    proof {
                        lemma_put_wf(e, cap, idx, cc);
                        assert forall|i: int| 0 <= i < self.store.cache.entries().len()
                            implies entry_matches_file(d, ptrs, #[trigger] self.store.cache.entries()[i]) by {
                            let r = spec_put(e, cap, idx, cc);
                            if r[i].0 == idx {
                                crate::cache::lemma_key_seq_unique_entry(r, i, r.len() - 1);
                            } else {
                                let q0 = crate::cache::lemma_put_entries_from(e, cap, idx, cc, i);
                                assert(entry_matches_file(d, ptrs, e[q0]));
                            }
                        }
                        assert(key_seq(self.store.cache.entries()).last() == idx) by {
                            crate::cache::lemma_key_seq_len(self.store.cache.entries());
                        }
                    }
                },
                Err(_) => {
                    proof {
                        if offset <= d.len() {
                            assert(d.subrange(offset as int, d.len() as int) =~= d.skip(offset as int));
                        }
                    }
                    return None;
                },
            }
        }
        let ghost e = self.store.cache.entries();
        proof {
            crate::cache::lemma_key_seq_len(e);
            let p = key_seq(e).index_of(idx);
            assert(entry_matches_file(d, ptrs, e[p]));
        }
        let res = self.store.cache.get(idx);
        proof {
            crate::cache::lemma_touch_keeps_lookups(e, idx, idx);
            assert forall|i: int| 0 <= i < spec_touched(e, idx).len()
                implies entry_matches_file(d, ptrs, #[trigger] spec_touched(e, idx)[i]) by {
                let q0 = crate::cache::lemma_touched_entries_from(e, idx, i);
                assert(entry_matches_file(d, ptrs, e[q0]));
            }
            assert(key_seq(spec_touched(e, idx)).contains(idx)) by {
                assert(key_seq(spec_touched(e, idx)).to_set().contains(idx));
            }
            if was_cached {
                crate::cache::lemma_touched_keys(e0, cap0, idx);
            } else {
                crate::cache::lemma_put_fresh_keys(e0, cap0, idx, e.last().1);
                crate::cache::lemma_touch_last(e, idx);
            }
        }
        res
    }

    /// Blob `blob_number` of cluster `cluster_number`.
    pub fn get_blob(&mut self, cluster_number: usize, blob_number: usize) -> (res: Option<Vec<u8>>)
        requires
            old(self).wf(),
        ensures
            final(self).wf(),
            final(self).same_archive(old(self)),
            final(self).cache().keys() == match spec_zim_cluster(old(self).file_bytes(), old(self).spec_cluster_pointers(), cluster_number as int) {
                Some(_) => spec_use_keys(old(self).cache().keys(), old(self).cache().spec_capacity(), cluster_number),
                None => old(self).cache().keys(),
            },
            res matches Some(b) ==> spec_zim_blob(old(self).file_bytes(), old(self).spec_cluster_pointers(), cluster_number as int, blob_number as int) == Some(b@),
            res is None ==> spec_zim_blob(old(self).file_bytes(), old(self).spec_cluster_pointers(), cluster_number as int, blob_number as int) is None,
    {
        match self.cluster(cluster_number) {
            Some(c) => c.get_blob_vec(blob_number),
            None => None,
        }
    }

    /// Number of blobs in cluster `cluster_number`.
    pub fn blob_count(&mut self, cluster_number: usize) -> (res: Option<usize>)
        requires
            old(self).wf(),
        ensures
            final(self).wf(),
            final(self).same_archive(old(self)),
            final(self).cache().keys() == match spec_zim_cluster(old(self).file_bytes(), old(self).spec_cluster_pointers(), cluster_number as int) {
                Some(_) => spec_use_keys(old(self).cache().keys(), old(self).cache().spec_capacity(), cluster_number),
                None => old(self).cache().keys(),
            },
            match spec_zim_cluster(old(self).file_bytes(), old(self).spec_cluster_pointers(), cluster_number as int) {
                Some(t) => res == Some((if t.2.len() == 0 { 0 } else { t.2.len() - 1 }) as usize),
                None => res is None,
            },
    {
        match self.cluster(cluster_number) {
            Some(c) => Some(c.blob_count()),
            None => None,
        }
    }

    /// Size of blob `blob_number` of cluster `cluster_number`: the difference
    /// between its offset and the next one.
    pub fn blob_size(&mut self, cluster_number: usize, blob_number: usize) -> (res: Option<u64>)
        requires
            old(self).wf(),
        ensures
            final(self).wf(),
            final(self).same_archive(old(self)),
            final(self).cache().keys() == match spec_zim_cluster(old(self).file_bytes(), old(self).spec_cluster_pointers(), cluster_number as int) {
                Some(_) => spec_use_keys(old(self).cache().keys(), old(self).cache().spec_capacity(), cluster_number),
                None => old(self).cache().keys(),
            },
            match spec_zim_cluster(old(self).file_bytes(), old(self).spec_cluster_pointers(), cluster_number as int) {
                Some(t) => if blob_number + 1 < t.2.len() && t.2[blob_number as int] <= t.2[blob_number + 1] {
                    res == Some((t.2[blob_number + 1] - t.2[blob_number as int]) as u64)
                } else {
                    res is None
                },
                None => res is None,
            },
    {
        match self.cluster(cluster_number) {
            Some(c) => c.get_blob_size(blob_number),
            None => None,
        }
    }

    /// The cached cluster numbers after the content of an entry with `data`
    /// is read: a content entry's cluster is used when it parses.
    pub open spec fn keys_after_content(&self, data: DirentData) -> Seq<usize> {
        match data {
            DirentData::Content { cluster_number, blob_number } =>
                match spec_zim_cluster(self.file_bytes(), self.spec_cluster_pointers(), cluster_number as int) {
                    Some(_) => spec_use_keys(self.cache().keys(), self.cache().spec_capacity(), cluster_number as usize),
                    None => self.cache().keys(),
                },
            _ => self.cache().keys(),
        }
    }

    /// The cached cluster numbers after metadata entry `name` is read.
    pub open spec fn keys_after_metadata(&self, name: Seq<char>) -> Seq<usize> {
        match spec_metadata_entry(self.spec_dirents(), name) {
            Some(i) => self.keys_after_content(self.spec_dirents()[i].data),
            None => self.cache().keys(),
        }
    }

    /// The content of a directory entry: its blob when it is a content entry.
    pub fn get_content(&mut self, dirent: &Dirent) -> (res: Option<Vec<u8>>)
        requires
            old(self).wf(),
        ensures
            final(self).wf(),
            final(self).same_archive(old(self)),
            match res {
                Some(b) => spec_content(old(self).file_bytes(), old(self).spec_cluster_pointers(), dirent.data) == Some(b@),
                None => spec_content(old(self).file_bytes(), old(self).spec_cluster_pointers(), dirent.data) is None,
            },
            final(self).cache().keys() == old(self).keys_after_content(dirent.data),
    {
        match dirent.data {
            DirentData::Content { cluster_number, blob_number } => self.get_blob(cluster_number as usize, blob_number as usize),
            _ => None,
        }
    }

    /// The MIME type with number `mime_type_index`, if listed.
    pub fn get_mime_type(&self, mime_type_index: u16) -> (res: Option<&str>)
        ensures
            mime_type_index < self.spec_mime_types().len() ==> (res matches Some(s) && s@ == self.spec_mime_types()[mime_type_index as int]@),
            mime_type_index >= self.spec_mime_types().len() ==> res is None,
    {
        if mime_type_index as usize >= self.mime_types.len() {
            return None;
        }
        Some(self.mime_types[mime_type_index as usize].as_str())
    }

    /// Number of clusters in the cache.
    pub fn cached_cluster_count(&self) -> (n: usize)
        requires
            self.wf(),
        ensures
            n == self.cache().entries().len(),
    {
        self.store.cache.len()
    }

    /// The URLs of the metadata entries, in entry order.
    pub fn metadata_keys(&self) -> (res: Vec<String>)
        ensures
            res@.map_values(|s: String| s@) == spec_metadata_keys(self.spec_dirents()),
    {
        let mut keys: Vec<String> = Vec::new();
        let mut i: usize = 0;
        while i < self.dirents.len()
            invariant
                i <= self.dirents@.len(),
                keys@.map_values(|s: String| s@) == spec_metadata_keys(self.dirents@.take(i as int)),
            decreases self.dirents@.len() - i,
        {
            let ghost before = keys@.map_values(|s: String| s@);
            assert(self.dirents@.take(i + 1).drop_last() =~= self.dirents@.take(i as int));
            if self.dirents[i].namespace == 'M' {
                keys.push(self.dirents[i].url.clone());
                assert(keys@.map_values(|s: String| s@) =~= before.push(self.dirents@[i as int].url@));
            }
            i = i + 1;
        }
        assert(self.dirents@.take(self.dirents@.len() as int) =~= self.dirents@);
        keys
    }

    /// Index of the first metadata entry named `name`.
    fn first_metadata_index(&self, name: &str) -> (res: Option<usize>)
        ensures
            match res {
                Some(i) => spec_first_metadata(self.dirents@, name@, 0) == Some(i as int) && i < self.dirents@.len(),
                None => spec_first_metadata(self.dirents@, name@, 0) is None,
            },
    {
        let mut idx: usize = 0;
        while idx < self.dirents.len()
            invariant
                idx <= self.dirents@.len(),
                spec_first_metadata(self.dirents@, name@, 0) == spec_first_metadata(self.dirents@, name@, idx as int),
            decreases self.dirents@.len() - idx,
        {
            if self.dirents[idx].namespace == 'M' && str_eq(self.dirents[idx].url.as_str(), name) {
                return Some(idx);
            }
            idx = idx + 1;
        }
        None
    }

    /// Index of the entry the metadata name resolves to: the first metadata
    /// entry named `name`, after following at most `REDIRECT_LIMIT` redirects.
    fn find_metadata_dirent(&self, name: &str) -> (res: Option<usize>)
        ensures
            match res {
                Some(i) => spec_metadata_entry(self.spec_dirents(), name@) == Some(i as int),
                None => spec_metadata_entry(self.spec_dirents(), name@) is None,
            },
    {
        let mut idx = match self.first_metadata_index(name) {
            Some(i) => i,
            None => return None,
        };
        let mut watchdog: u32 = REDIRECT_LIMIT;
        loop
            invariant
                idx < self.dirents@.len(),
                watchdog <= REDIRECT_LIMIT,
                spec_metadata_entry(self.dirents@, name@) == spec_follow_redirects(self.dirents@, idx as int, watchdog as nat),
            decreases watchdog,
        {
            match self.dirents[idx].data {
                DirentData::Redirect { redirect_index } => {
                    if watchdog == 0 {
                        return None;
                    }
                    if redirect_index as usize >= self.dirents.len() {
                        return None;
                    }
                    watchdog = watchdog - 1;
                    idx = redirect_index as usize;
                },
                _ => {
                    return Some(idx);
                },
            }
        }
    }

    /// The content of the metadata entry `name`.
    pub fn get_metadata(&mut self, name: &str) -> (res: Option<Vec<u8>>)
        requires
            old(self).wf(),
        ensures
            final(self).wf(),
            final(self).same_archive(old(self)),
            final(self).cache().keys() == old(self).keys_after_metadata(name@),
            match spec_metadata_entry(old(self).spec_dirents(), name@) {
                Some(i) => match res {
                    Some(b) => spec_content(old(self).file_bytes(), old(self).spec_cluster_pointers(), old(self).spec_dirents()[i].data) == Some(b@),
                    None => spec_content(old(self).file_bytes(), old(self).spec_cluster_pointers(), old(self).spec_dirents()[i].data) is None,
                },
                None => res is None,
            },
    {
        match self.find_metadata_dirent(name) {
            Some(i) => {
                proof {
                    let j = spec_first_metadata(self.dirents@, name@, 0)->Some_0;
                    lemma_follow_redirects_in_range(self.dirents@, j, REDIRECT_LIMIT as nat);
                }
                let data = self.dirents[i].data;
                match data {
                    DirentData::Content { cluster_number, blob_number } => self.get_blob(cluster_number as usize, blob_number as usize),
                    _ => None,
                }
            },
            None => None,
        }
    }

    /// The content of the metadata entry `name` as UTF-8 text, without one
    /// trailing NUL character.
    pub fn get_metadata_str(&mut self, name: &str) -> (res: Option<String>)
        requires
            old(self).wf(),
        ensures
            final(self).wf(),
            final(self).same_archive(old(self)),
            final(self).cache().keys() == old(self).keys_after_metadata(name@),
            match Self::spec_metadata(old(self), name@) {
                Some(b) => if valid_utf8(b) {
                    (res matches Some(s) && s@ == strip_one_nul(decode_utf8(b)))
                } else {
                    res is None
                },
                None => res is None,
            },
    {
        let bytes = match self.get_metadata(name) {
            Some(b) => b,
            None => return None,
        };
        let s = match utf8_to_string(bytes) {
            Ok(s) => s,
            Err(_) => return None,
        };
        let cs = chars_of(s.as_str());
        if cs.len() > 0 && cs[cs.len() - 1] == '\0' {
            Some(string_from_chars(slice_subrange(cs.as_slice(), 0, cs.len() - 1)))
        } else {
            Some(s)
        }
    }

    /// The content of the metadata entry `name` as text, without one trailing
    /// NUL character, when there is one and it is UTF-8.
    pub open spec fn spec_metadata_str(z: &ZimFile, name: Seq<char>) -> Option<Seq<char>> {
        match Self::spec_metadata(z, name) {
            Some(b) => if valid_utf8(b) {
                Some(strip_one_nul(decode_utf8(b)))
            } else {
                None
            },
            None => None,
        }
    }

    /// The content of the metadata entry `name`, when there is one.
    pub open spec fn spec_metadata(z: &ZimFile, name: Seq<char>) -> Option<Seq<u8>> {
        match spec_metadata_entry(z.spec_dirents(), name) {
            Some(i) => spec_content(z.file_bytes(), z.spec_cluster_pointers(), z.spec_dirents()[i].data),
            None => None,
        }
    }
}

/// Law: a well-formed archive holds at most as many clusters in its cache as
/// its capacity allows, and at least one may be held.
pub proof fn lemma_cache_bounded(z: &ZimFile)
    requires
        z.wf(),
    ensures
        z.cache().entries().len() <= z.cache().spec_capacity(),
        z.cache().spec_capacity() >= 1,
{
}

/// What a read gives does not depend on what the cache holds: two values of
/// the same archive give the same blobs and the same metadata.
pub proof fn lemma_reads_agree(a: &ZimFile, b: &ZimFile, cluster: int, blob: int, name: Seq<char>)
    requires
        b.same_archive(a),
    ensures
        spec_zim_blob(a.file_bytes(), a.spec_cluster_pointers(), cluster, blob)
            == spec_zim_blob(b.file_bytes(), b.spec_cluster_pointers(), cluster, blob),
        ZimFile::spec_metadata(a, name) == ZimFile::spec_metadata(b, name),
        ZimFile::spec_metadata_str(a, name) == ZimFile::spec_metadata_str(b, name),
{
}

/// Bounds of `first_nul_from`: the position lies at or after `pos`, no NUL
/// byte comes before it, and it is a NUL byte unless it is the end.
pub proof fn lemma_first_nul_from(d: Seq<u8>, pos: int)
    requires
        0 <= pos,
    ensures
        pos <= d.len() ==> pos <= first_nul_from(d, pos) <= d.len(),
        pos > d.len() ==> first_nul_from(d, pos) == d.len(),
        first_nul_from(d, pos) < d.len() ==> d[first_nul_from(d, pos)] == 0,
        forall|j: int| pos <= j < first_nul_from(d, pos) ==> d[j] != 0,
    decreases d.len() - pos,
{
    if pos < d.len() && d[pos] != 0 {
        lemma_first_nul_from(d, pos + 1);
    }
}

/// Once reading the entries at a prefix of the pointers fails, reading a longer prefix fails the same way.
proof fn lemma_dirents_error_extends(d: Seq<u8>, ptrs: Seq<u64>, n: int)
    requires
        0 < n <= ptrs.len(),
        spec_dirents(d, ptrs.take(n - 1)) is Ok,
        spec_dirent_at(d, ptrs[n - 1]) is Err,
    ensures
        spec_dirents(d, ptrs.take(n)) == Err::<Seq<DirentFields>, ZimError>(spec_dirent_at(d, ptrs[n - 1])->Err_0),
{
    assert(ptrs.take(n).drop_last() =~= ptrs.take(n - 1));
}

/// Following redirects ends at an entry.
pub proof fn lemma_follow_redirects_in_range(ds: Seq<Dirent>, idx: int, fuel: nat)
    ensures
        spec_follow_redirects(ds, idx, fuel) matches Some(j) ==> 0 <= j < ds.len(),
    decreases fuel,
{
    if 0 <= idx < ds.len() {
        if let DirentData::Redirect { redirect_index } = ds[idx].data {
            if fuel > 0 {
                lemma_follow_redirects_in_range(ds, redirect_index as int, (fuel - 1) as nat);
            }
        }
    }
}

/// An error in reading the entries at a prefix of the pointers is the error
/// of reading the entries at all of them.
proof fn lemma_dirents_prefix_error(d: Seq<u8>, ptrs: Seq<u64>, n: int)
    requires
        0 <= n <= ptrs.len(),
        spec_dirents(d, ptrs.take(n)) is Err,
    ensures
        spec_dirents(d, ptrs) == spec_dirents(d, ptrs.take(n)),
    decreases ptrs.len(),
{
    if n == ptrs.len() {
        assert(ptrs.take(n) =~= ptrs);
    } else {
        assert(ptrs.drop_last().take(n) =~= ptrs.take(n));
        lemma_dirents_prefix_error(d, ptrs.drop_last(), n);
    }
}

/// The cached cluster numbers of each archive in `zs` are those left by using
/// the first clusters of `ks` one after the other, starting from an empty cache.
proof fn lemma_keys_follow_uses(zs: Seq<ZimFile>, ks: Seq<usize>, i: int)
    requires
        zs.len() == ks.len() + 1,
        0 <= i <= ks.len(),
        zs[0].cache().entries().len() == 0,
        forall|j: int| 0 <= j < ks.len() ==> #[trigger] zs[j + 1].cache().spec_capacity() == zs[0].cache().spec_capacity()
            && zs[j + 1].cache().keys() == spec_use_keys(zs[j].cache().keys(), zs[j].cache().spec_capacity(), ks[j]),
    ensures
        zs[i].cache().keys() == keys_after_uses(zs[0].cache().spec_capacity(), ks.take(i)),
        zs[i].cache().spec_capacity() == zs[0].cache().spec_capacity(),
    decreases i,
{
    if i == 0 {
        crate::cache::lemma_key_seq_len(zs[0].cache().entries());
        assert(zs[0].cache().keys() =~= Seq::<usize>::empty());
    } else {
        lemma_keys_follow_uses(zs, ks, i - 1);
        assert(ks.take(i).drop_last() =~= ks.take(i - 1));
        assert(zs[(i - 1) + 1].cache().spec_capacity() == zs[0].cache().spec_capacity());
    }
}

/// Law: starting from an empty cache, reading from `k` distinct clusters one
/// after the other leaves `min(k, capacity)` clusters cached. Each step is what
/// `get_blob`, `blob_count`, `blob_size` and `get_content` state of a cluster
/// that parses: its number is used in the cache.
pub proof fn lemma_cached_count_after_distinct_uses(zs: Seq<ZimFile>, ks: Seq<usize>)
    requires
        zs.len() == ks.len() + 1,
        zs[0].wf(),
        zs[0].cache().entries().len() == 0,
        ks.no_duplicates(),
        forall|j: int| 0 <= j < ks.len() ==> #[trigger] zs[j + 1].cache().spec_capacity() == zs[0].cache().spec_capacity()
            && zs[j + 1].cache().keys() == spec_use_keys(zs[j].cache().keys(), zs[j].cache().spec_capacity(), ks[j]),
    ensures
        zs.last().cache().entries().len() == if ks.len() < zs[0].cache().spec_capacity() {
            ks.len()
        } else {
            zs[0].cache().spec_capacity()
        },
{
    let n = ks.len() as int;
    lemma_keys_follow_uses(zs, ks, n);
    assert(ks.take(n) =~= ks);
    lemma_distinct_uses(zs[0].cache().spec_capacity(), ks);
    crate::cache::lemma_key_seq_len(zs.last().cache().entries());
}

/// Law: the metadata entry a name is looked up at is the first entry, from
/// position `i` on, that is in namespace `M` and has the name as its URL;
/// there is none exactly when no such entry exists. Entries of other
/// namespaces never answer a metadata lookup.
pub proof fn lemma_first_metadata_is_first_m_entry(ds: Seq<Dirent>, name: Seq<char>, i: int)
    requires
        0 <= i,
    ensures
        match spec_first_metadata(ds, name, i) {
            Some(k) => {
                &&& i <= k < ds.len()
                &&& ds[k].namespace == 'M'
                &&& ds[k].url@ == name
                &&& forall|j: int| i <= j < k ==> !(ds[j].namespace == 'M' && #[trigger] ds[j].url@ == name)
            },
            None => forall|j: int| i <= j < ds.len() ==> !(ds[j].namespace == 'M' && #[trigger] ds[j].url@ == name),
        },
    decreases ds.len() - i,
{
    if i < ds.len() && !(ds[i].namespace == 'M' && ds[i].url@ == name) {
        lemma_first_metadata_is_first_m_entry(ds, name, i + 1);
    }
}

/// Law: a metadata name that no entry of namespace `M` carries resolves to
/// no entry, so reading it gives nothing; a name that one carries resolves,
/// unless a redirect chain from it is too long or leaves the entries, to an
/// entry that is not a redirect.
pub proof fn lemma_metadata_entry_needs_m_entry(ds: Seq<Dirent>, name: Seq<char>)
    ensures
        (forall|j: int| 0 <= j < ds.len() ==> !(ds[j].namespace == 'M' && #[trigger] ds[j].url@ == name))
            ==> spec_metadata_entry(ds, name) is None,
        spec_metadata_entry(ds, name) matches Some(k) ==> 0 <= k < ds.len() && !(ds[k].data is Redirect),
        spec_first_metadata(ds, name, 0) matches Some(k) ==> ds[k].namespace == 'M' && ds[k].url@ == name,
{
    lemma_first_metadata_is_first_m_entry(ds, name, 0);
    match spec_first_metadata(ds, name, 0) {
        Some(k) => lemma_follow_redirects_lands(ds, k, REDIRECT_LIMIT as nat),
        None => {},
    }
}

/// Following redirects ends, when it ends, at an entry that is not a redirect.
proof fn lemma_follow_redirects_lands(ds: Seq<Dirent>, idx: int, fuel: nat)
    ensures
        spec_follow_redirects(ds, idx, fuel) matches Some(k) ==> 0 <= k < ds.len() && !(ds[k].data is Redirect),
    decreases fuel,
{
    if 0 <= idx < ds.len() {
        match ds[idx].data {
            DirentData::Redirect { redirect_index } => {
                if fuel > 0 && redirect_index < ds.len() {
                    lemma_follow_redirects_lands(ds, redirect_index as int, (fuel - 1) as nat);
                }
            },
            _ => {},
        }
    }
}

/// Law: the metadata keys are the URLs of the entries of namespace `M`: each
/// key is the URL of such an entry, and each such entry's URL is a key.
pub proof fn lemma_metadata_keys_are_m_urls(ds: Seq<Dirent>)
    ensures
        forall|k: Seq<char>| spec_metadata_keys(ds).contains(k)
            <==> exists|j: int| 0 <= j < ds.len() && ds[j].namespace == 'M' && #[trigger] ds[j].url@ == k,
    decreases ds.len(),
{
    if ds.len() > 0 {
        let init = ds.drop_last();
        lemma_metadata_keys_are_m_urls(init);
        let r = spec_metadata_keys(init);
        assert forall|k: Seq<char>| spec_metadata_keys(ds).contains(k)
            implies exists|j: int| 0 <= j < ds.len() && ds[j].namespace == 'M' && #[trigger] ds[j].url@ == k by {
            if r.contains(k) {
                let j = choose|j: int| 0 <= j < init.len() && init[j].namespace == 'M' && #[trigger] init[j].url@ == k;
                assert(ds[j] == init[j]);
            } else {
                let q = choose|q: int| 0 <= q < spec_metadata_keys(ds).len() && spec_metadata_keys(ds)[q] == k;
                assert(ds.last().namespace == 'M');
                assert(q == r.len());
                assert(ds[ds.len() - 1].url@ == k);
            }
        }
        assert forall|k: Seq<char>| (exists|j: int| 0 <= j < ds.len() && ds[j].namespace == 'M' && #[trigger] ds[j].url@ == k)
            implies spec_metadata_keys(ds).contains(k) by {
            let j = choose|j: int| 0 <= j < ds.len() && ds[j].namespace == 'M' && #[trigger] ds[j].url@ == k;
            if j < init.len() {
                assert(init[j] == ds[j]);
                assert(init[j].url@ == k);
                assert(r.contains(k));
                let q = choose|q: int| 0 <= q < r.len() && r[q] == k;
                assert(spec_metadata_keys(ds)[q] == k);
            } else {
                assert(spec_metadata_keys(ds) == r.push(ds.last().url@));
                assert(spec_metadata_keys(ds)[r.len() as int] == k);
            }
        }
    }
}

} // verus!
