use std::io::Read;
use tipiak::cache::ClusterCache;
use tipiak::cluster::{Cluster, Compression};
use tipiak::dirent::{
    read_null_terminated_string, Dirent, DirentData, DELETED_MIME_TYPE, LINK_TARGET_MIME_TYPE,
    REDIRECT_MIME_TYPE,
};
use tipiak::zim_header::{HEADER_SIZE, ZIM_MAGIC_NUMBER};
use tipiak::zimfile::ZimFile;

fn make_cluster(compression_byte: u8, payload: Vec<u8>) -> Cluster {
    let mut data = Vec::new();
    data.push(compression_byte);
    data.extend(payload);
    Cluster::parse(&data).expect("Failed to parse test cluster")
}

fn uncompressed_payload() -> Vec<u8> {
    let mut payload = Vec::new();
    payload.extend_from_slice(&8u32.to_le_bytes());
    payload.extend_from_slice(&10u32.to_le_bytes());
    payload.extend(vec![0xAA, 0xBB]);
    payload
}

fn build_uncompressed_cluster_payload() -> Vec<u8> {
    let mut payload = Vec::new();
    let off0 = 12u32;
    let off1 = 22u32;
    let off2 = 27u32;
    payload.extend_from_slice(&off0.to_le_bytes());
    payload.extend_from_slice(&off1.to_le_bytes());
    payload.extend_from_slice(&off2.to_le_bytes());
    payload.extend(std::iter::repeat(0xAA).take(10));
    payload.extend(std::iter::repeat(0xBB).take(5));
    payload
}

fn build_extended_cluster_payload() -> Vec<u8> {
    let mut payload = Vec::new();
    let off0 = 24u64;
    let off1 = 34u64;
    let off2 = 39u64;
    payload.extend_from_slice(&off0.to_le_bytes());
    payload.extend_from_slice(&off1.to_le_bytes());
    payload.extend_from_slice(&off2.to_le_bytes());
    payload.extend(std::iter::repeat(0xAA).take(10));
    payload.extend(std::iter::repeat(0xBB).take(5));
    payload
}

fn copy_dirent(d: &Dirent) -> Dirent {
    Dirent {
        mime_type: d.mime_type,
        extra_len: d.extra_len,
        namespace: d.namespace,
        revision: d.revision,
        data: d.data,
        url: d.url.clone(),
        title: d.title.clone(),
        parameter: d.parameter.clone(),
    }
}

#[test]
fn test_capacity_minimum_one() {
    let mut cache = ClusterCache::new(0);
    cache.put(0, make_cluster(0x01, uncompressed_payload()));
    cache.put(1, make_cluster(0x01, uncompressed_payload()));
    assert_eq!(cache.len(), 1);
}

#[test]
fn test_put_and_get() {
    let mut cache = ClusterCache::new(2);
    cache.put(0, make_cluster(0x01, uncompressed_payload()));
    cache.put(1, make_cluster(0x01, uncompressed_payload()));

    assert_eq!(cache.len(), 2);
    assert!(cache.get(0).is_some());
    assert!(cache.get(1).is_some());
}

#[test]
fn test_eviction_removes_lru() {
    let mut cache = ClusterCache::new(2);
    cache.put(0, make_cluster(0x01, uncompressed_payload()));
    cache.put(1, make_cluster(0x01, uncompressed_payload()));
    cache.put(2, make_cluster(0x01, uncompressed_payload()));

    assert_eq!(cache.len(), 2);
    assert!(!cache.contains(0));
    assert!(cache.contains(1));
    assert!(cache.contains(2));
}

#[test]
fn test_get_promotes_to_mru() {
    let mut cache = ClusterCache::new(2);
    cache.put(0, make_cluster(0x01, uncompressed_payload()));
    cache.put(1, make_cluster(0x01, uncompressed_payload()));

    assert!(cache.get(0).is_some());

    cache.put(2, make_cluster(0x01, uncompressed_payload()));

    assert!(!cache.contains(1));
    assert!(cache.contains(0));
    assert!(cache.contains(2));
}

#[test]
fn test_put_update_existing() {
    let mut cache = ClusterCache::new(2);
    cache.put(0, make_cluster(0x01, uncompressed_payload()));
    cache.put(0, make_cluster(0x01, uncompressed_payload()));

    assert_eq!(cache.len(), 1);
    assert!(cache.contains(0));
}

#[test]
fn test_cluster_blob_accessible_from_cache() {
    let mut cache = ClusterCache::new(1);
    cache.put(0, make_cluster(0x01, uncompressed_payload()));

    let cluster = cache.get(0).expect("cluster");
    assert_eq!(cluster.compression, Compression::Uncompressed);
    assert_eq!(cluster.get_blob(0), Some(&[0xAA, 0xBB][..]));
}

#[test]
fn test_parse_uncompressed_cluster_32bit() {
    let mut data = Vec::new();
    data.push(0x01);
    data.extend(build_uncompressed_cluster_payload());

    let cluster = Cluster::parse(&data).expect("Failed to parse cluster");

    assert_eq!(cluster.compression, Compression::Uncompressed);
    assert!(!cluster.is_extended);
    assert_eq!(cluster.blob_offsets.len(), 3);
    assert_eq!(cluster.blob_offsets[0], 12);
    assert_eq!(cluster.blob_offsets[1], 22);
    assert_eq!(cluster.blob_offsets[2], 27);

    assert_eq!(cluster.blob_count(), 2);
    assert_eq!(cluster.get_blob_size(0), Some(10));
    assert_eq!(cluster.get_blob_size(1), Some(5));
    assert_eq!(cluster.get_blob(0), Some(&[0xAA; 10][..]));
    assert_eq!(cluster.get_blob(1), Some(&[0xBB; 5][..]));
}

#[test]
fn test_parse_zstd_cluster() {
    let payload = build_uncompressed_cluster_payload();
    let compressed =
        zstd::stream::encode_all(payload.as_slice(), 0).expect("Failed to compress test cluster");

    let mut data = Vec::new();
    data.push(0x05);
    data.extend_from_slice(&compressed);

    let cluster = Cluster::parse(&data).expect("Failed to parse zstd cluster");

    assert_eq!(cluster.compression, Compression::Zstd);
    assert!(!cluster.is_extended);
    assert_eq!(cluster.blob_count(), 2);
    assert_eq!(cluster.get_blob(0), Some(&[0xAA; 10][..]));
    assert_eq!(cluster.get_blob(1), Some(&[0xBB; 5][..]));
}

#[test]
fn test_parse_zstd_cluster_with_trailing_data() {
    let payload = build_uncompressed_cluster_payload();
    let compressed =
        zstd::stream::encode_all(payload.as_slice(), 0).expect("Failed to compress test cluster");

    let mut data = Vec::new();
    data.push(0x05);
    data.extend_from_slice(&compressed);
    data.push(0x05);
    data.extend_from_slice(&[0xDE, 0xAD, 0xBE, 0xEF]);

    let cluster = Cluster::parse(&data).expect("Failed to parse zstd cluster");

    assert_eq!(cluster.compression, Compression::Zstd);
    assert_eq!(cluster.blob_count(), 2);
    assert_eq!(cluster.get_blob(0), Some(&[0xAA; 10][..]));
    assert_eq!(cluster.get_blob(1), Some(&[0xBB; 5][..]));
}

#[test]
fn test_parse_compressed_cluster_info() {
    let payload = build_extended_cluster_payload();
    let compressed =
        zstd::stream::encode_all(payload.as_slice(), 0).expect("Failed to compress test cluster");

    let mut data = Vec::new();
    data.push(0x15);
    data.extend_from_slice(&compressed);

    let cluster = Cluster::parse(&data).expect("Failed to parse cluster");

    assert_eq!(cluster.compression, Compression::Zstd);
    assert!(cluster.is_extended);
    assert_eq!(cluster.blob_count(), 2);
    assert_eq!(cluster.get_blob(0), Some(&[0xAA; 10][..]));
}

#[test]
fn test_unsupported_compression() {
    let data = vec![0x04];
    let result = Cluster::parse(&data);
    assert!(result.is_err());
    assert!(result.unwrap_err().to_string().contains("Unsupported compression"));
}

#[test]
fn test_read_null_terminated_string() {
    let data = b"hello\0world\0";
    let (first, next) = read_null_terminated_string(data, 0).unwrap();
    assert_eq!(first, "hello");
    let (second, _) = read_null_terminated_string(data, next).unwrap();
    assert_eq!(second, "world");
}

#[test]
fn test_parse_content_entry_dirent() {
    let mut data = Vec::new();
    data.extend_from_slice(&1u16.to_le_bytes());
    data.push(0);
    data.push(b'C');
    data.extend_from_slice(&123u32.to_le_bytes());
    data.extend_from_slice(&10u32.to_le_bytes());
    data.extend_from_slice(&20u32.to_le_bytes());
    data.extend_from_slice(b"foo\0");
    data.extend_from_slice(b"Bar\0");

    let dirent = Dirent::parse(&data).unwrap();

    assert_eq!(dirent.mime_type, 1);
    assert_eq!(dirent.extra_len, 0);
    assert_eq!(dirent.namespace, 'C');
    assert_eq!(dirent.revision, 123);
    assert!(dirent.is_article());
    if let DirentData::Content { cluster_number, blob_number } = dirent.data {
        assert_eq!(cluster_number, 10);
        assert_eq!(blob_number, 20);
    } else {
        panic!("Expected Content data");
    }
    assert_eq!(dirent.url, "foo");
    assert_eq!(dirent.title, "Bar");
    assert_eq!(dirent.get_title(), "Bar");
}

#[test]
fn test_parse_redirect_dirent() {
    let mut data = Vec::new();
    data.extend_from_slice(&REDIRECT_MIME_TYPE.to_le_bytes());
    data.push(0);
    data.push(b'R');
    data.extend_from_slice(&0u32.to_le_bytes());
    data.extend_from_slice(&500u32.to_le_bytes());
    data.extend_from_slice(b"redir\0");
    data.extend_from_slice(b"\0");

    let dirent = Dirent::parse(&data).unwrap();

    assert!(dirent.is_redirect());
    if let DirentData::Redirect { redirect_index } = dirent.data {
        assert_eq!(redirect_index, 500);
    } else {
        panic!("Expected Redirect data");
    }
    assert_eq!(dirent.url, "redir");
    assert_eq!(dirent.title, "");
    assert_eq!(dirent.get_title(), "redir");
}

#[test]
fn test_parse_dirent_with_parameter() {
    let mut data = Vec::new();
    data.extend_from_slice(&1u16.to_le_bytes());
    data.push(4);
    data.push(b'C');
    data.extend_from_slice(&0u32.to_le_bytes());
    data.extend_from_slice(&0u32.to_le_bytes());
    data.extend_from_slice(&0u32.to_le_bytes());
    data.extend_from_slice(b"a\0");
    data.extend_from_slice(b"b\0");
    data.extend_from_slice(&[1, 2, 3, 4]);

    let dirent = Dirent::parse(&data).unwrap();

    assert_eq!(dirent.extra_len, 4);
    assert_eq!(dirent.parameter, vec![1, 2, 3, 4]);
}

#[test]
fn test_parse_link_target_dirent() {
    let mut data = Vec::new();
    data.extend_from_slice(&LINK_TARGET_MIME_TYPE.to_le_bytes());
    data.push(0);
    data.push(b'L');
    data.extend_from_slice(&0u32.to_le_bytes());
    data.extend_from_slice(b"link\0");
    data.extend_from_slice(b"Title\0");

    let dirent = Dirent::parse(&data).unwrap();

    assert!(dirent.is_link_target());
    assert!(matches!(dirent.data, DirentData::LinkTarget));
}

#[test]
fn test_parse_deleted_dirent() {
    let mut data = Vec::new();
    data.extend_from_slice(&DELETED_MIME_TYPE.to_le_bytes());
    data.push(0);
    data.push(b'D');
    data.extend_from_slice(&0u32.to_le_bytes());
    data.extend_from_slice(b"gone\0");
    data.extend_from_slice(b"Gone\0");

    let dirent = Dirent::parse(&data).unwrap();

    assert!(dirent.is_deleted());
    assert!(matches!(dirent.data, DirentData::Deleted));
}

#[test]
fn test_parse_bytes_less_than_80_bytes() {
    let data = vec![0u8; 79];
    let result = ZimFile::parse_bytes(data);
    assert!(result.is_err());
    assert_eq!(result.unwrap_err().to_string(), "failed to fill whole buffer");
}

#[test]
fn test_parse_mime_types() {
    let mut data = vec![0u8; HEADER_SIZE];
    data[0..4].copy_from_slice(&ZIM_MAGIC_NUMBER.to_le_bytes());
    data[56..64].copy_from_slice(&80_u64.to_le_bytes());
    data[32..40].copy_from_slice(&100_u64.to_le_bytes());
    data[48..56].copy_from_slice(&120_u64.to_le_bytes());
    data.extend_from_slice(b"text/html\0image/png\0");

    let result = ZimFile::parse_bytes(data);
    assert!(result.is_ok(), "Parse failed: {:?}", result.as_ref().err());
    let zim = result.unwrap();
    assert_eq!(zim.mime_types.len(), 2);
    assert_eq!(zim.mime_types[0], "text/html");
    assert_eq!(zim.mime_types[1], "image/png");
}

#[test]
fn test_parse_cluster_pointers() {
    let mut data = vec![0u8; HEADER_SIZE];
    data[0..4].copy_from_slice(&ZIM_MAGIC_NUMBER.to_le_bytes());
    data[28..32].copy_from_slice(&2_u32.to_le_bytes());
    data[56..64].copy_from_slice(&80_u64.to_le_bytes());
    data[32..40].copy_from_slice(&90_u64.to_le_bytes());
    data[48..56].copy_from_slice(&100_u64.to_le_bytes());

    data.extend(std::iter::repeat(0).take(10));
    data.extend(std::iter::repeat(0).take(10));

    let current_size = data.len() + 16;
    let c0_offset = current_size as u64;
    let c1_offset = c0_offset + 20;

    data.extend_from_slice(&c0_offset.to_le_bytes());
    data.extend_from_slice(&c1_offset.to_le_bytes());

    data.push(0x01);
    data.extend_from_slice(&8u32.to_le_bytes());
    data.extend_from_slice(&10u32.to_le_bytes());
    data.extend(vec![0xAA, 0xBB]);

    while data.len() < c1_offset as usize {
        data.push(0);
    }

    let mut zstd_payload = Vec::new();
    zstd_payload.extend_from_slice(&16u64.to_le_bytes());
    zstd_payload.extend_from_slice(&18u64.to_le_bytes());
    zstd_payload.extend(vec![0xCC, 0xDD]);
    let zstd_compressed = zstd::stream::encode_all(zstd_payload.as_slice(), 0)
        .expect("Failed to compress test cluster");
    data.push(0x15);
    data.extend_from_slice(&zstd_compressed);

    let mut zim = ZimFile::parse_bytes(data).expect("Parse failed");

    assert_eq!(zim.header.cluster_count, 2);
    assert_eq!(zim.cluster_pointers.len(), 2);
    assert_eq!(zim.cluster_pointers[0], c0_offset);
    assert_eq!(zim.cluster_pointers[1], c1_offset);
    assert_eq!(zim.cached_cluster_count(), 0);

    assert_eq!(zim.get_blob(0, 0), Some(vec![0xAA, 0xBB]));
    assert_eq!(zim.get_blob(1, 0), Some(vec![0xCC, 0xDD]));
    assert_eq!(zim.cached_cluster_count(), 2);
}

#[test]
fn test_parse_dirent_pointers_and_dirents() {
    let mut data = vec![0u8; HEADER_SIZE];
    data[0..4].copy_from_slice(&ZIM_MAGIC_NUMBER.to_le_bytes());
    data[24..28].copy_from_slice(&2_u32.to_le_bytes());
    data[56..64].copy_from_slice(&80_u64.to_le_bytes());
    data[32..40].copy_from_slice(&90_u64.to_le_bytes());
    data[48..56].copy_from_slice(&120_u64.to_le_bytes());

    data.extend(std::iter::repeat(0).take(10));

    let d0_ptr = 150_u64;
    let d1_ptr = 200_u64;
    data.extend_from_slice(&d0_ptr.to_le_bytes());
    data.extend_from_slice(&d1_ptr.to_le_bytes());

    while data.len() < 120 {
        data.push(0);
    }

    data[28..32].copy_from_slice(&0_u32.to_le_bytes());

    while data.len() < d0_ptr as usize {
        data.push(0);
    }
    data.extend_from_slice(&1u16.to_le_bytes());
    data.push(0);
    data.push(b'C');
    data.extend_from_slice(&0u32.to_le_bytes());
    data.extend_from_slice(&0u32.to_le_bytes());
    data.extend_from_slice(&0u32.to_le_bytes());
    data.extend_from_slice(b"u0\0t0\0");

    while data.len() < d1_ptr as usize {
        data.push(0);
    }
    data.extend_from_slice(&1u16.to_le_bytes());
    data.push(0);
    data.push(b'C');
    data.extend_from_slice(&0u32.to_le_bytes());
    data.extend_from_slice(&0u32.to_le_bytes());
    data.extend_from_slice(&1u32.to_le_bytes());
    data.extend_from_slice(b"u1\0t1\0");

    let zim = ZimFile::parse_bytes(data).expect("Parse failed");

    assert_eq!(zim.header.article_count, 2);
    assert_eq!(zim.dirent_pointers.len(), 2);
    assert_eq!(zim.dirent_pointers[0], d0_ptr);
    assert_eq!(zim.dirent_pointers[1], d1_ptr);
    assert_eq!(zim.dirents.len(), 2);
    assert_eq!(zim.dirents[0].url, "u0");
    assert_eq!(zim.dirents[1].url, "u1");
}

fn content_archive() -> Vec<u8> {
    let mut data = vec![0u8; HEADER_SIZE];
    data[0..4].copy_from_slice(&ZIM_MAGIC_NUMBER.to_le_bytes());
    data[24..28].copy_from_slice(&1_u32.to_le_bytes());
    data[28..32].copy_from_slice(&1_u32.to_le_bytes());
    data[56..64].copy_from_slice(&80_u64.to_le_bytes());
    data[32..40].copy_from_slice(&100_u64.to_le_bytes());
    data[48..56].copy_from_slice(&108_u64.to_le_bytes());

    data.extend(std::iter::repeat(0).take(20));

    let c0_offset = 116_u64;
    let d0_ptr = 130_u64;
    data.extend_from_slice(&d0_ptr.to_le_bytes());
    data.extend_from_slice(&c0_offset.to_le_bytes());

    while data.len() < c0_offset as usize {
        data.push(0);
    }

    data.push(0x01);
    data.extend_from_slice(&8u32.to_le_bytes());
    data.extend_from_slice(&13u32.to_le_bytes());
    data.extend(b"hello");

    while data.len() < d0_ptr as usize {
        data.push(0);
    }

    data.extend_from_slice(&1u16.to_le_bytes());
    data.push(0);
    data.push(b'C');
    data.extend_from_slice(&0u32.to_le_bytes());
    data.extend_from_slice(&0u32.to_le_bytes());
    data.extend_from_slice(&0u32.to_le_bytes());
    data.extend_from_slice(b"article\0Article\0");
    data
}

#[test]
fn test_get_content() {
    let mut zim = ZimFile::parse_bytes(content_archive()).expect("Parse failed");

    let entry = copy_dirent(&zim.dirents[0]);
    let content = zim.get_content(&entry).expect("content");
    assert_eq!(content, b"hello");
    assert_eq!(zim.get_mime_type(zim.dirents[0].mime_type), None);
}

fn metadata_archive() -> Vec<u8> {
    let mut data = vec![0u8; HEADER_SIZE];
    data[0..4].copy_from_slice(&ZIM_MAGIC_NUMBER.to_le_bytes());
    data[24..28].copy_from_slice(&3_u32.to_le_bytes());
    data[28..32].copy_from_slice(&1_u32.to_le_bytes());
    data[56..64].copy_from_slice(&80_u64.to_le_bytes());
    data[32..40].copy_from_slice(&100_u64.to_le_bytes());
    data[48..56].copy_from_slice(&124_u64.to_le_bytes());

    data.extend(std::iter::repeat(0).take(20));

    let c0_offset = 132_u64;
    let d0_ptr = 157_u64;
    let d1_ptr = 184_u64;
    let d2_ptr = 213_u64;

    data.extend_from_slice(&d0_ptr.to_le_bytes());
    data.extend_from_slice(&d1_ptr.to_le_bytes());
    data.extend_from_slice(&d2_ptr.to_le_bytes());

    while data.len() < 124 {
        data.push(0);
    }

    data.extend_from_slice(&c0_offset.to_le_bytes());

    while data.len() < c0_offset as usize {
        data.push(0);
    }

    data.push(0x01);
    data.extend_from_slice(&12u32.to_le_bytes());
    data.extend_from_slice(&17u32.to_le_bytes());
    data.extend_from_slice(&24u32.to_le_bytes());
    data.extend_from_slice(b"Kiwix");
    data.extend_from_slice(b"Offline");

    while data.len() < d0_ptr as usize {
        data.push(0);
    }

    data.extend_from_slice(&1u16.to_le_bytes());
    data.push(0);
    data.push(b'M');
    data.extend_from_slice(&0u32.to_le_bytes());
    data.extend_from_slice(&0u32.to_le_bytes());
    data.extend_from_slice(&0u32.to_le_bytes());
    data.extend_from_slice(b"Publisher\0\0");

    while data.len() < d1_ptr as usize {
        data.push(0);
    }

    data.extend_from_slice(&1u16.to_le_bytes());
    data.push(0);
    data.push(b'M');
    data.extend_from_slice(&0u32.to_le_bytes());
    data.extend_from_slice(&0u32.to_le_bytes());
    data.extend_from_slice(&1u32.to_le_bytes());
    data.extend_from_slice(b"Description\0\0");

    while data.len() < d2_ptr as usize {
        data.push(0);
    }

    data.extend_from_slice(&REDIRECT_MIME_TYPE.to_le_bytes());
    data.push(0);
    data.push(b'M');
    data.extend_from_slice(&0u32.to_le_bytes());
    data.extend_from_slice(&0u32.to_le_bytes());
    data.extend_from_slice(b"Title\0\0");
    data
}

#[test]
fn test_metadata() {
    let mut zim = ZimFile::parse_bytes(metadata_archive()).expect("Parse failed");

    let mut keys = zim.metadata_keys();
    keys.sort();
    assert_eq!(keys, vec!["Description", "Publisher", "Title"]);

    assert_eq!(zim.get_metadata_str("Publisher"), Some("Kiwix".to_string()));
    assert_eq!(zim.get_metadata_str("Description"), Some("Offline".to_string()));
    assert_eq!(zim.get_metadata_str("Title"), Some("Kiwix".to_string()));
    assert_eq!(zim.get_metadata_str("Unknown"), None);
    assert_eq!(zim.get_metadata("Publisher"), Some(b"Kiwix".to_vec()));
}

fn two_cluster_archive() -> Vec<u8> {
    let mut data = vec![0u8; HEADER_SIZE];
    data[0..4].copy_from_slice(&ZIM_MAGIC_NUMBER.to_le_bytes());
    data[28..32].copy_from_slice(&2_u32.to_le_bytes());
    data[56..64].copy_from_slice(&80_u64.to_le_bytes());
    data[32..40].copy_from_slice(&90_u64.to_le_bytes());
    data[48..56].copy_from_slice(&100_u64.to_le_bytes());

    data.extend(std::iter::repeat(0).take(10));
    data.extend(std::iter::repeat(0).take(10));

    let c0_offset = 116_u64;
    let c1_offset = 140_u64;
    data.extend_from_slice(&c0_offset.to_le_bytes());
    data.extend_from_slice(&c1_offset.to_le_bytes());

    while data.len() < c0_offset as usize {
        data.push(0);
    }

    data.push(0x01);
    data.extend_from_slice(&8u32.to_le_bytes());
    data.extend_from_slice(&13u32.to_le_bytes());
    data.extend(b"first");

    while data.len() < c1_offset as usize {
        data.push(0);
    }

    data.push(0x01);
    data.extend_from_slice(&8u32.to_le_bytes());
    data.extend_from_slice(&14u32.to_le_bytes());
    data.extend(b"second");
    data
}

#[test]
fn test_cache_eviction() {
    let mut zim =
        ZimFile::parse_bytes_with_cache_capacity(two_cluster_archive(), 1).expect("Parse failed");

    assert_eq!(zim.get_blob(0, 0), Some(b"first".to_vec()));
    assert_eq!(zim.cached_cluster_count(), 1);

    assert_eq!(zim.get_blob(1, 0), Some(b"second".to_vec()));
    assert_eq!(zim.cached_cluster_count(), 1);

    assert_eq!(zim.get_blob(0, 0), Some(b"first".to_vec()));
    assert_eq!(zim.get_blob(1, 0), Some(b"second".to_vec()));
}

// Own tests.

#[test]
fn cache_keeps_at_most_its_capacity() {
    let mut cache = ClusterCache::new(3);
    for i in 0..10 {
        cache.put(i, make_cluster(0x01, uncompressed_payload()));
        assert!(cache.len() <= 3);
    }
    assert!(cache.contains(7) && cache.contains(8) && cache.contains(9));
    assert!(!cache.contains(6));
}

#[test]
fn invalid_compression_nibble_is_refused() {
    let data = vec![0x07];
    let result = Cluster::parse(&data);
    assert_eq!(result.unwrap_err().to_string(), "Invalid compression type: 7");
}

#[test]
fn empty_cluster_input_is_eof() {
    let data: Vec<u8> = vec![];
    assert_eq!(Cluster::parse(&data).unwrap_err().to_string(), "failed to fill whole buffer");
}

#[test]
fn bad_magic_number_is_refused() {
    let data = vec![0u8; 100];
    assert!(ZimFile::parse_bytes(data).is_err());
}

#[test]
fn blob_out_of_range_is_none() {
    let mut zim = ZimFile::parse_bytes(content_archive()).expect("Parse failed");
    assert_eq!(zim.get_blob(0, 1), None);
    assert_eq!(zim.get_blob(1, 0), None);
    assert_eq!(zim.blob_count(0), Some(1));
    assert_eq!(zim.blob_size(0, 0), Some(5));
}

#[test]
fn metadata_reads_are_the_same_cached_or_not() {
    let mut zim = ZimFile::parse_bytes(metadata_archive()).expect("Parse failed");
    let first = zim.get_metadata_str("Description");
    let second = zim.get_metadata_str("Description");
    assert_eq!(first, second);
    assert_eq!(zim.cached_cluster_count(), 1);
}

#[test]
fn unterminated_string_is_eof() {
    let data = b"abc";
    assert!(read_null_terminated_string(data, 0).is_err());
}

#[test]
fn cluster_blobs_concatenate_to_blob_data() {
    let payload = build_uncompressed_cluster_payload();
    let cluster = make_cluster(1, payload.clone());
    let mut joined = Vec::new();
    for i in 0..cluster.blob_count() {
        joined.extend_from_slice(cluster.get_blob(i).unwrap());
    }
    assert_eq!(joined, payload[12..].to_vec());
    assert_eq!(cluster.get_blob(cluster.blob_count()), None);
    assert_eq!(cluster.get_blob(usize::MAX), None);
}

fn encoded_content_dirent() -> Vec<u8> {
    let mut data = Vec::new();
    data.extend_from_slice(&7u16.to_le_bytes());
    data.push(2);
    data.push(b'C');
    data.extend_from_slice(&9u32.to_le_bytes());
    data.extend_from_slice(&3u32.to_le_bytes());
    data.extend_from_slice(&4u32.to_le_bytes());
    data.extend_from_slice(b"page\0");
    data.extend_from_slice(b"Page\0");
    data.extend_from_slice(&[5, 6]);
    data
}

#[test]
fn dirent_survives_encode_then_parse_with_trailing_bytes() {
    let mut data = encoded_content_dirent();
    data.extend_from_slice(b"rest of the table");
    let d = Dirent::parse(&data).unwrap();
    assert_eq!(d.mime_type, 7);
    assert_eq!(d.extra_len, 2);
    assert_eq!(d.namespace, 'C');
    assert_eq!(d.revision, 9);
    assert!(matches!(d.data, DirentData::Content { cluster_number: 3, blob_number: 4 }));
    assert_eq!(d.url, "page");
    assert_eq!(d.title, "Page");
    assert_eq!(d.parameter, vec![5, 6]);
}

#[test]
fn every_proper_prefix_of_a_dirent_is_refused() {
    let data = encoded_content_dirent();
    for k in 0..data.len() {
        assert!(Dirent::parse(&data[..k]).is_err(), "prefix of length {} parsed", k);
    }
    assert!(Dirent::parse(&data).is_ok());
}

#[test]
fn cache_keeps_min_of_distinct_uses_and_capacity() {
    let mut cache = ClusterCache::new(2);
    assert_eq!(cache.len(), 0);
    cache.put(10, make_cluster(1, uncompressed_payload()));
    assert_eq!(cache.len(), 1);
    cache.put(11, make_cluster(1, uncompressed_payload()));
    assert_eq!(cache.len(), 2);
    cache.put(12, make_cluster(1, uncompressed_payload()));
    assert_eq!(cache.len(), 2);
    assert!(!cache.contains(10));
    assert!(cache.contains(11) && cache.contains(12));
}

fn std_utf8_message(bytes: &[u8]) -> String {
    String::from_utf8(bytes.to_vec()).unwrap_err().to_string()
}

fn dirent_with_url(url: &[u8]) -> Vec<u8> {
    let mut data = Vec::new();
    data.extend_from_slice(&1u16.to_le_bytes());
    data.push(0);
    data.push(b'C');
    data.extend_from_slice(&0u32.to_le_bytes());
    data.extend_from_slice(&0u32.to_le_bytes());
    data.extend_from_slice(&0u32.to_le_bytes());
    data.extend_from_slice(url);
    data.push(0);
    data.extend_from_slice(b"t\0");
    data
}

#[test]
fn invalid_utf8_in_an_entry_reports_what_std_reports() {
    let bad = [b'a', b'b', 0xff, b'c'];
    let err = Dirent::parse(&dirent_with_url(&bad)).unwrap_err();
    assert_eq!(err.to_string(), std_utf8_message(&bad));
    assert_eq!(err.to_string(), "invalid utf-8 sequence of 1 bytes from index 2");
    let cut = [b'a', 0xe2, 0x82];
    let err = Dirent::parse(&dirent_with_url(&cut)).unwrap_err();
    assert_eq!(err.to_string(), std_utf8_message(&cut));
    assert_eq!(err.to_string(), "incomplete utf-8 byte sequence from index 1");
}

#[test]
fn short_blob_data_is_reported_as_a_blob_data_read() {
    let mut payload = Vec::new();
    payload.extend_from_slice(&8u32.to_le_bytes());
    payload.extend_from_slice(&12u32.to_le_bytes());
    payload.extend_from_slice(&[1, 2]);
    let mut data = vec![0x01];
    data.extend(payload);
    let err = Cluster::parse(&data).unwrap_err();
    assert_eq!(err.to_string(), "Failed to read blob data: failed to fill whole buffer");
}

#[test]
fn zstd_failure_carries_the_decoder_message() {
    let garbage = [0x28, 0xb5, 0x2f, 0xfd, 0xff, 0xff, 0xff, 0xff];
    let mut out = Vec::new();
    let expected = zstd::stream::read::Decoder::new(&garbage[..])
        .unwrap()
        .single_frame()
        .read_to_end(&mut out)
        .unwrap_err()
        .to_string();
    let mut data = vec![0x05];
    data.extend_from_slice(&garbage);
    let err = Cluster::parse(&data).unwrap_err();
    assert_eq!(err.to_string(), format!("Failed to decompress zstd cluster: {}", expected));
}

#[test]
fn zstd_cluster_reads_as_the_uncompressed_cluster_of_its_frame() {
    let payload = build_extended_cluster_payload();
    let compressed = zstd::stream::encode_all(payload.as_slice(), 0).unwrap();
    let mut zdata = vec![0x15];
    zdata.extend_from_slice(&compressed);
    zdata.extend_from_slice(&[0x05, 0xDE, 0xAD, 0xBE, 0xEF]);
    let mut udata = vec![0x11];
    udata.extend_from_slice(&payload);
    let z = Cluster::parse(&zdata).unwrap();
    let u = Cluster::parse(&udata).unwrap();
    assert_eq!(z.compression, Compression::Zstd);
    assert_eq!(u.compression, Compression::Uncompressed);
    assert_eq!(z.is_extended, u.is_extended);
    assert_eq!(z.blob_offsets, u.blob_offsets);
    assert_eq!(z.blob_count(), u.blob_count());
    for i in 0..z.blob_count() {
        assert_eq!(z.get_blob(i), u.get_blob(i));
    }
}
