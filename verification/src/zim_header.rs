//! The fixed-size header at the start of a ZIM archive.
use vstd::prelude::*;
use vstd::slice::{slice_subrange, slice_to_vec};
use crate::byte_reader::{le_u16_at, le_u32_at, le_u64_at, read_u16_le, read_u32_le, read_u64_le};
use crate::zim_error::ZimError;

verus! {

/// Size in bytes of the header.
pub const HEADER_SIZE: usize = 80;
/// The number every ZIM archive starts with.
pub const ZIM_MAGIC_NUMBER: u32 = 72173914;

/// The header of a ZIM archive.
#[derive(Debug)]
pub struct ZimHeader {
    pub magic_number: u32,
    pub major_version: u16,
    pub minor_version: u16,
    pub uuid: Vec<u8>,
    pub article_count: u32,
    pub cluster_count: u32,
    pub path_ptr_pos: u64,
    pub title_idx_pos: u64,
    pub cluster_ptr_pos: u64,
    pub mime_list_pos: u64,
    pub main_page: u32,
    pub layout_page: u32,
    pub checksum_pos: u64,
}

/// Whether a header can be read from `d`: it is long enough and starts with the magic number.
pub open spec fn spec_header_result(d: Seq<u8>) -> Result<(), ZimError> {
    if d.len() < HEADER_SIZE {
        Err(ZimError::UnexpectedEof)
    } else if le_u32_at(d, 0) != ZIM_MAGIC_NUMBER {
        Err(ZimError::InvalidMagicNumber(le_u32_at(d, 0)))
    } else {
        Ok(())
    }
}

impl ZimHeader {
    /// The header holds the fields stored at the start of `d`.
    pub open spec fn read_from(&self, d: Seq<u8>) -> bool {
        &&& self.magic_number == le_u32_at(d, 0)
        &&& self.major_version == le_u16_at(d, 4)
        &&& self.minor_version == le_u16_at(d, 6)
        &&& self.uuid@ == d.subrange(8, 24)
        &&& self.article_count == le_u32_at(d, 24)
        &&& self.cluster_count == le_u32_at(d, 28)
        &&& self.path_ptr_pos == le_u64_at(d, 32)
        &&& self.title_idx_pos == le_u64_at(d, 40)
        &&& self.cluster_ptr_pos == le_u64_at(d, 48)
        &&& self.mime_list_pos == le_u64_at(d, 56)
        &&& self.main_page == le_u32_at(d, 64)
        &&& self.layout_page == le_u32_at(d, 68)
        &&& self.checksum_pos == le_u64_at(d, 72)
    }

    /// Reads the header at the start of `data`.
    pub fn parse_header(data: &[u8]) -> (res: Result<ZimHeader, ZimError>)
        ensures
            match (res, spec_header_result(data@)) {
                (Ok(h), Ok(())) => h.read_from(data@),
                (Err(e), Err(f)) => e == f,
                _ => false,
            },
    {
        if data.len() < HEADER_SIZE {
            return Err(ZimError::UnexpectedEof);
        }
        let magic_number = read_u32_le(data, 0).unwrap();
        if magic_number != ZIM_MAGIC_NUMBER {
            return Err(ZimError::InvalidMagicNumber(magic_number));
        }
        Ok(ZimHeader {
            magic_number,
            major_version: read_u16_le(data, 4).unwrap(),
            minor_version: read_u16_le(data, 6).unwrap(),
            uuid: slice_to_vec(slice_subrange(data, 8, 24)),
            article_count: read_u32_le(data, 24).unwrap(),
            cluster_count: read_u32_le(data, 28).unwrap(),
            path_ptr_pos: read_u64_le(data, 32).unwrap(),
            title_idx_pos: read_u64_le(data, 40).unwrap(),
            cluster_ptr_pos: read_u64_le(data, 48).unwrap(),
            mime_list_pos: read_u64_le(data, 56).unwrap(),
            main_page: read_u32_le(data, 64).unwrap(),
            layout_page: read_u32_le(data, 68).unwrap(),
            checksum_pos: read_u64_le(data, 72).unwrap(),
        })
    }
}

} // verus!
