//! ZIM clusters: a compression byte followed by a list of blob offsets and the
//! blob data they point into, optionally compressed with zstd.
use std::io::Read;
use vstd::prelude::*;
use vstd::slice::{slice_subrange, slice_to_vec};
use crate::byte_reader::{can_read, le_u32_at, le_u64_at, read_u32_le, read_u64_le};
use crate::zim_error::ZimError;

verus! {

/// Largest blob count a cluster may announce.
pub const MAX_BLOBS: u64 = 1_000_000;

/// Compression of a cluster, from the low nibble of its first byte.
#[derive(Debug, PartialEq, Eq, Clone, Copy, Structural)]
pub enum Compression {
    Uncompressed,
    Zip,
    Bzip2,
    Lzma,
    Zstd,
}

/// What decoding the first zstd frame at the start of `input` gives: the
/// frame's contents, or, when the decoder cannot be created (`true`) or the
/// frame cannot be decoded (`false`), the text of zstd's error.
pub uninterp spec fn zstd_first_frame(input: Seq<u8>) -> Result<Seq<u8>, (bool, Seq<char>)>;

/// Decodes the first zstd frame of `input` with `zstd::stream::read::Decoder`
/// in single-frame mode; the bytes after that frame are left unread.
/// Claimed: the contents, or which step failed and the error's text, are
/// `zstd_first_frame` of the input.
#[verifier::external_body]
fn decode_zstd_frame(input: &[u8]) -> (res: Result<Vec<u8>, (bool, String)>)
    ensures
        match res {
            Ok(v) => zstd_first_frame(input@) == Ok::<Seq<u8>, (bool, Seq<char>)>(v@),
            Err((create, t)) => zstd_first_frame(input@) == Err::<Seq<u8>, (bool, Seq<char>)>((create, t@)),
        },
{
    let mut decoder = match zstd::stream::read::Decoder::new(input) {
        Ok(d) => d.single_frame(),
        Err(e) => return Err((true, e.to_string())),
    };
    let mut out = Vec::new();
    match decoder.read_to_end(&mut out) {
        Ok(_) => Ok(out),
        Err(e) => Err((false, e.to_string())),
    }
}

/// Why a cluster could not be read; a zstd failure carries the text of zstd's error.
pub enum ClusterFailure {
    Zim(ZimError),
    ZstdCreate(Seq<char>),
    ZstdDecode(Seq<char>),
}

/// Whether the error `e` reports the failure `f`.
pub open spec fn reports(e: ZimError, f: ClusterFailure) -> bool {
    match f {
        ClusterFailure::Zim(z) => e == z,
        ClusterFailure::ZstdCreate(t) => e matches ZimError::ZstdCreate(s) && s@ == t,
        ClusterFailure::ZstdDecode(t) => e matches ZimError::ZstdDecode(s) && s@ == t,
    }
}

/// The compression type a low nibble stands for, if any.
pub open spec fn compression_of_nibble(v: u8) -> Option<Compression> {
    if v == 0 || v == 1 {
        Some(Compression::Uncompressed)
    } else if v == 2 {
        Some(Compression::Zip)
    } else if v == 3 {
        Some(Compression::Bzip2)
    } else if v == 4 {
        Some(Compression::Lzma)
    } else if v == 5 {
        Some(Compression::Zstd)
    } else {
        None
    }
}

/// Whether the compression type can be read by this library.
pub open spec fn is_supported(c: Compression) -> bool {
    c == Compression::Uncompressed || c == Compression::Zstd
}

/// Width in bytes of one blob offset.
pub open spec fn offset_width(is_extended: bool) -> int {
    if is_extended { 8 } else { 4 }
}

/// The `i`-th blob offset of a cluster payload.
pub open spec fn offset_at(payload: Seq<u8>, is_extended: bool, i: int) -> u64 {
    if is_extended {
        le_u64_at(payload, 8 * i)
    } else {
        le_u32_at(payload, 4 * i) as u64
    }
}

/// Size in bytes of `n` blob offsets.
pub open spec fn offsets_size(n: int, is_extended: bool) -> int {
    if is_extended { 8 * n } else { 4 * n }
}

/// The blob count announced by the first offset: the first offset divided by
/// the offset width.
pub open spec fn announced_count(first: u64, is_extended: bool) -> int {
    if is_extended { first as int / 8 } else { first as int / 4 }
}

/// Number of offsets stored in a payload whose first offset is `first`:
/// the announced count, and at least one.
pub open spec fn offset_count(first: u64, is_extended: bool) -> int {
    let c = announced_count(first, is_extended);
    if c == 0 { 1 } else { c }
}

/// The blob offsets at the start of a cluster payload.
pub open spec fn spec_blob_offsets(payload: Seq<u8>, is_extended: bool) -> Result<Seq<u64>, ZimError> {
    let w = offset_width(is_extended);
    if payload.len() < w {
        Err(ZimError::UnexpectedEof)
    } else {
        let first = offset_at(payload, is_extended, 0);
        if announced_count(first, is_extended) > MAX_BLOBS {
            Err(ZimError::TooManyBlobs(announced_count(first, is_extended) as u64))
        } else {
            let n = offset_count(first, is_extended);
            if payload.len() < offsets_size(n, is_extended) {
                Err(ZimError::UnexpectedEof)
            } else {
                Ok(Seq::new(n as nat, |i: int| offset_at(payload, is_extended, i)))
            }
        }
    }
}

/// The blob offsets and the blob data of a cluster payload.
pub open spec fn spec_cluster_payload(payload: Seq<u8>, is_extended: bool) -> Result<(Seq<u64>, Seq<u8>), ZimError> {
    match spec_blob_offsets(payload, is_extended) {
        Err(e) => Err(e),
        Ok(offsets) => {
            let base = offsets[0];
            let end = offsets.last();
            let header = offsets_size(offsets.len() as int, is_extended);
            if end < base {
                Err(ZimError::BlobOffsetsOutOfOrder)
            } else if payload.len() < header + (end - base) {
                Err(ZimError::BlobDataEof)
            } else {
                Ok((offsets, payload.subrange(header, header + (end - base))))
            }
        },
    }
}

/// What a cluster starting at the first byte of `data` holds: its compression,
/// whether its offsets are 64-bit, its blob offsets and its blob data.
pub open spec fn spec_parse_cluster(data: Seq<u8>) -> Result<(Compression, bool, Seq<u64>, Seq<u8>), ClusterFailure> {
    if data.len() == 0 {
        Err(ClusterFailure::Zim(ZimError::UnexpectedEof))
    } else {
        let nibble = data[0] & 0x0F;
        let is_extended = (data[0] & 0x10) != 0;
        match compression_of_nibble(nibble) {
            None => Err(ClusterFailure::Zim(ZimError::InvalidCompression(nibble))),
            Some(c) => {
                if !is_supported(c) {
                    Err(ClusterFailure::Zim(ZimError::UnsupportedCompression(c)))
                } else {
                    let raw = data.skip(1);
                    let payload = if c == Compression::Zstd {
                        zstd_first_frame(raw)
                    } else {
                        Ok(raw)
                    };
                    match payload {
                        Err((true, t)) => Err(ClusterFailure::ZstdCreate(t)),
                        Err((false, t)) => Err(ClusterFailure::ZstdDecode(t)),
                        Ok(p) => match spec_cluster_payload(p, is_extended) {
                            Err(e) => Err(ClusterFailure::Zim(e)),
                            Ok((offsets, blobs)) => Ok((c, is_extended, offsets, blobs)),
                        },
                    }
                }
            },
        }
    }
}

/// Blob `index` of blob data `bytes` with offsets `offs`: the data between its
/// offset and the next one, relative to the first offset. `None` when the index
/// is out of range, when one of the two offsets lies before the first offset,
/// or when the range does not lie inside the data.
pub open spec fn spec_blob_in(offs: Seq<u64>, bytes: Seq<u8>, index: int) -> Option<Seq<u8>> {
    if index < 0 || index + 1 >= offs.len() {
        None
    } else if offs[index] < offs[0] || offs[index + 1] < offs[0] {
        None
    } else {
        let start = offs[index] - offs[0];
        let end = offs[index + 1] - offs[0];
        if start <= end && end <= bytes.len() {
            Some(bytes.subrange(start, end))
        } else {
            None
        }
    }
}

/// A parsed cluster.
#[derive(Debug)]
pub struct Cluster {
    pub compression: Compression,
    pub is_extended: bool,
    pub blob_offsets: Vec<u64>,
    blob_data: Vec<u8>,
}

impl Cluster {
    /// The compression the cluster was stored with.
    pub closed spec fn spec_compression(&self) -> Compression {
        self.compression
    }

    /// Whether the blob offsets are 64-bit.
    pub closed spec fn spec_is_extended(&self) -> bool {
        self.is_extended
    }

    /// The blob offsets.
    pub closed spec fn offsets(&self) -> Seq<u64> {
        self.blob_offsets@
    }

    /// The blob data of the cluster (all blobs, back to back).
    pub closed spec fn blob_bytes(&self) -> Seq<u8> {
        self.blob_data@
    }

    /// The cluster holds exactly the given parsed contents.
    pub open spec fn has_contents(&self, t: (Compression, bool, Seq<u64>, Seq<u8>)) -> bool {
        &&& self.spec_compression() == t.0
        &&& self.spec_is_extended() == t.1
        &&& self.offsets() == t.2
        &&& self.blob_bytes() == t.3
    }

    /// Number of blobs: one less than the number of offsets.
    pub open spec fn spec_blob_count(&self) -> nat {
        if self.offsets().len() == 0 { 0 } else { (self.offsets().len() - 1) as nat }
    }

    /// Blob `index` of the cluster.
    pub open spec fn spec_blob(&self, index: int) -> Option<Seq<u8>> {
        spec_blob_in(self.offsets(), self.blob_bytes(), index)
    }

    /// Parses a cluster from bytes that begin at the cluster's compression byte.
    /// Bytes after the cluster are ignored.
    pub fn parse(data: &[u8]) -> (res: Result<Cluster, ZimError>)
        ensures
            match (res, spec_parse_cluster(data@)) {
                (Ok(c), Ok(t)) => c.has_contents(t),
                (Err(e), Err(f)) => reports(e, f),
                _ => false,
            },
    {
        if data.len() == 0 {
            return Err(ZimError::UnexpectedEof);
        }
        let nibble = data[0] & 0x0F;
        let is_extended = (data[0] & 0x10) != 0;
        let compression = if nibble == 0 || nibble == 1 {
            Compression::Uncompressed
        } else if nibble == 2 {
            Compression::Zip
        } else if nibble == 3 {
            Compression::Bzip2
        } else if nibble == 4 {
            Compression::Lzma
        } else if nibble == 5 {
            Compression::Zstd
        } else {
            return Err(ZimError::InvalidCompression(nibble));
        };
        match compression {
            Compression::Zip | Compression::Bzip2 | Compression::Lzma => {
                return Err(ZimError::UnsupportedCompression(compression));
            },
            _ => {},
        }
        let raw = slice_subrange(data, 1, data.len());
        assert(raw@ == data@.skip(1));
        let parsed = if compression == Compression::Zstd {
            match decode_zstd_frame(raw) {
                Ok(payload) => read_cluster_payload(payload.as_slice(), is_extended),
                Err((true, t)) => return Err(ZimError::ZstdCreate(t)),
                Err((false, t)) => return Err(ZimError::ZstdDecode(t)),
            }
        } else {
            read_cluster_payload(raw, is_extended)
        };
        match parsed {
            Ok((blob_offsets, blob_data)) => Ok(Cluster { compression, is_extended, blob_offsets, blob_data }),
            Err(e) => Err(e),
        }
    }

    /// Number of blobs in the cluster.
    pub fn blob_count(&self) -> (n: usize)
        ensures
            n == self.spec_blob_count(),
    {
        if self.blob_offsets.len() == 0 {
            0
        } else {
            self.blob_offsets.len() - 1
        }
    }

    /// Size of blob `index`: the difference between its offset and the next
    /// one; `None` when there is no next offset or the next offset is smaller.
    pub fn get_blob_size(&self, index: usize) -> (res: Option<u64>)
        ensures
            res == if index + 1 < self.offsets().len() && self.offsets()[index as int] <= self.offsets()[index + 1] {
                Some((self.offsets()[index + 1] - self.offsets()[index as int]) as u64)
            } else {
                None::<u64>
            },
    {
        if index >= self.blob_offsets.len() || index + 1 >= self.blob_offsets.len() {
            return None;
        }
        if self.blob_offsets[index] > self.blob_offsets[index + 1] {
            return None;
        }
        Some(self.blob_offsets[index + 1] - self.blob_offsets[index])
    }

    /// Blob `index` of the cluster.
    pub fn get_blob(&self, index: usize) -> (res: Option<&[u8]>)
        ensures
            match res {
                Some(b) => self.spec_blob(index as int) == Some(b@),
                None => self.spec_blob(index as int) is None,
            },
    {
        if index >= self.blob_offsets.len() || index + 1 >= self.blob_offsets.len() {
            return None;
        }
        let base = self.blob_offsets[0];
        if self.blob_offsets[index] < base || self.blob_offsets[index + 1] < base {
            return None;
        }
        let start = self.blob_offsets[index] - base;
        let end = self.blob_offsets[index + 1] - base;
        if start <= end && end <= self.blob_data.len() as u64 {
            Some(slice_subrange(self.blob_data.as_slice(), start as usize, end as usize))
        } else {
            None
        }
    }

    /// Blob `index` copied into a vector.
    pub fn get_blob_vec(&self, index: usize) -> (res: Option<Vec<u8>>)
        ensures
            match res {
                Some(b) => self.spec_blob(index as int) == Some(b@),
                None => self.spec_blob(index as int) is None,
            },
    {
        match self.get_blob(index) {
            Some(b) => Some(slice_to_vec(b)),
            None => None,
        }
    }
}

/// Reads offset `i` of a payload.
fn read_offset(payload: &[u8], i: usize, is_extended: bool) -> (res: Option<u64>)
    requires
        i <= MAX_BLOBS,
    ensures
        res is Some <==> can_read(payload@, offsets_size(i as int, is_extended), offset_width(is_extended)),
        res matches Some(v) ==> v == offset_at(payload@, is_extended, i as int),
{
    if is_extended {
        read_u64_le(payload, i * 8)
    } else {
        match read_u32_le(payload, i * 4) {
            Some(v) => Some(v as u64),
            None => None,
        }
    }
}

/// Reads the blob offsets at the start of a payload.
fn read_blob_offsets(payload: &[u8], is_extended: bool) -> (res: Result<Vec<u64>, ZimError>)
    ensures
        match (res, spec_blob_offsets(payload@, is_extended)) {
            (Ok(v), Ok(s)) => v@ == s,
            (Err(e), Err(f)) => e == f,
            _ => false,
        },
{
    let first = match read_offset(payload, 0, is_extended) {
        Some(v) => v,
        None => return Err(ZimError::UnexpectedEof),
    };
    let count = if is_extended { first / 8 } else { first / 4 };
    assert(count == announced_count(first, is_extended));
    if count > MAX_BLOBS {
        return Err(ZimError::TooManyBlobs(count));
    }
    let mut offsets: Vec<u64> = Vec::new();
    offsets.push(first);
    let mut i: u64 = 1;
    while i < count
        invariant
            1 <= i,
            i <= count || i == 1,
            count == announced_count(first, is_extended),
            count <= MAX_BLOBS,
            payload@.len() >= offsets_size(i as int, is_extended),
            first == offset_at(payload@, is_extended, 0),
            offsets@.len() == i,
            forall|j: int| 0 <= j < i ==> offsets@[j] == offset_at(payload@, is_extended, j),
        decreases count - i,
    {
        match read_offset(payload, i as usize, is_extended) {
            Some(v) => {
                offsets.push(v);
            },
            None => {
                return Err(ZimError::UnexpectedEof);
            },
        }
        i = i + 1;
    }
    assert(offsets@ =~= Seq::new(offset_count(first, is_extended) as nat, |j: int| offset_at(payload@, is_extended, j)));
    Ok(offsets)
}

/// Reads the blob offsets and the blob data of a payload.
fn read_cluster_payload(payload: &[u8], is_extended: bool) -> (res: Result<(Vec<u64>, Vec<u8>), ZimError>)
    ensures
        match (res, spec_cluster_payload(payload@, is_extended)) {
            (Ok((o, d)), Ok((so, sd))) => o@ == so && d@ == sd,
            (Err(e), Err(f)) => e == f,
            _ => false,
        },
{
    let offsets = match read_blob_offsets(payload, is_extended) {
        Ok(o) => o,
        Err(e) => return Err(e),
    };
    let base = offsets[0];
    let end = offsets[offsets.len() - 1];
    if end < base {
        return Err(ZimError::BlobOffsetsOutOfOrder);
    }
    let header: usize = if is_extended { offsets.len() * 8 } else { offsets.len() * 4 };
    let data_len = end - base;
    if header > payload.len() || data_len > (payload.len() - header) as u64 {
        return Err(ZimError::BlobDataEof);
    }
    let data = slice_to_vec(slice_subrange(payload, header, header + data_len as usize));
    Ok((offsets, data))
}

/// Whether the offsets never decrease.
pub open spec fn offsets_sorted(offs: Seq<u64>) -> bool {
    forall|i: int, j: int| 0 <= i <= j < offs.len() ==> offs[i] <= offs[j]
}

/// The first `k` blobs, back to back (a missing blob contributes nothing).
pub open spec fn concat_blobs(offs: Seq<u64>, bytes: Seq<u8>, k: int) -> Seq<u8>
    decreases k,
{
    if k <= 0 {
        Seq::empty()
    } else {
        concat_blobs(offs, bytes, k - 1) + match spec_blob_in(offs, bytes, k - 1) {
            Some(b) => b,
            None => Seq::empty(),
        }
    }
}

/// With sorted offsets spanning the blob data, every blob is present and the
/// first `k` blobs are the data up to offset `k`.
pub proof fn lemma_concat_blobs_prefix(offs: Seq<u64>, bytes: Seq<u8>, k: int)
    requires
        offs.len() >= 1,
        offsets_sorted(offs),
        bytes.len() == offs.last() - offs[0],
        0 <= k < offs.len(),
    ensures
        concat_blobs(offs, bytes, k) == bytes.subrange(0, offs[k] - offs[0]),
        forall|i: int| 0 <= i < k ==> #[trigger] spec_blob_in(offs, bytes, i) is Some,
    decreases k,
{
    if k == 0 {
        assert(bytes.subrange(0, 0) =~= Seq::<u8>::empty());
    } else {
        lemma_concat_blobs_prefix(offs, bytes, k - 1);
        assert(offs[k - 1] <= offs[k]);
        assert(offs[0] <= offs[k - 1]);
        assert(offs[k] <= offs[offs.len() - 1]);
        let b = spec_blob_in(offs, bytes, k - 1);
        assert(b == Some(bytes.subrange(offs[k - 1] - offs[0], offs[k] - offs[0])));
        assert(bytes.subrange(0, offs[k - 1] - offs[0]) + bytes.subrange(offs[k - 1] - offs[0], offs[k] - offs[0])
            =~= bytes.subrange(0, offs[k] - offs[0]));
    }
}

/// Law: the blobs of a parsed cluster whose offsets never decrease are all
/// present, and put back to back they give exactly the cluster's blob data.
pub proof fn lemma_blobs_concatenate(data: Seq<u8>)
    requires
        spec_parse_cluster(data) is Ok,
        offsets_sorted(spec_parse_cluster(data)->Ok_0.2),
    ensures
        ({
            let t = spec_parse_cluster(data)->Ok_0;
            let n = t.2.len() - 1;
            &&& t.2.len() >= 1
            &&& forall|i: int| 0 <= i < n ==> #[trigger] spec_blob_in(t.2, t.3, i) is Some
            &&& concat_blobs(t.2, t.3, n) == t.3
        }),
{
    let t = spec_parse_cluster(data)->Ok_0;
    let nibble = data[0] & 0x0F;
    let is_extended = (data[0] & 0x10) != 0;
    let c = compression_of_nibble(nibble)->Some_0;
    let raw = data.skip(1);
    let payload = if c == Compression::Zstd { zstd_first_frame(raw) } else { Ok(raw) };
    let p = payload->Ok_0;
    let offs = spec_blob_offsets(p, is_extended)->Ok_0;
    assert(spec_cluster_payload(p, is_extended) == Ok::<(Seq<u64>, Seq<u8>), ZimError>((t.2, t.3)));
    assert(offs == t.2);
    assert(t.2.len() >= 1);
    assert(t.3.len() == t.2.last() - t.2[0]);
    lemma_concat_blobs_prefix(t.2, t.3, t.2.len() - 1);
    assert(t.3.subrange(0, t.3.len() as int) =~= t.3);
}

/// Law: a zstd-compressed cluster reads as the uncompressed cluster made of
/// what its first zstd frame decodes to: the same offset width, offsets and
/// blob data, or the same error; nothing after that frame is read.
pub proof fn lemma_zstd_cluster_reads_as_uncompressed(extended: bool, rest: Seq<u8>, payload: Seq<u8>)
    requires
        zstd_first_frame(rest) == Ok::<Seq<u8>, (bool, Seq<char>)>(payload),
    ensures
        ({
            let z: u8 = if extended { 0x15 } else { 0x05 };
            let u: u8 = if extended { 0x11 } else { 0x01 };
            match (spec_parse_cluster(seq![z] + rest), spec_parse_cluster(seq![u] + payload)) {
                (Ok(a), Ok(b)) => a.0 == Compression::Zstd && b.0 == Compression::Uncompressed
                    && a.1 == extended && b.1 == extended && a.2 == b.2 && a.3 == b.3,
                (Err(e), Err(f)) => e == f,
                _ => false,
            }
        }),
{
    let z: u8 = if extended { 0x15 } else { 0x05 };
    let u: u8 = if extended { 0x11 } else { 0x01 };
    assert(0x15u8 & 0x0Fu8 == 5u8 && 0x05u8 & 0x0Fu8 == 5u8 && 0x11u8 & 0x0Fu8 == 1u8 && 0x01u8 & 0x0Fu8 == 1u8) by (bit_vector);
    assert((0x15u8 & 0x10u8) != 0u8 && (0x11u8 & 0x10u8) != 0u8 && (0x05u8 & 0x10u8) == 0u8 && (0x01u8 & 0x10u8) == 0u8) by (bit_vector);
    let dz = seq![z] + rest;
    let du = seq![u] + payload;
    assert(dz[0] == z && du[0] == u);
    assert(dz.skip(1) =~= rest);
    assert(du.skip(1) =~= payload);
}

} // verus!
