use qcow::error::{CompressionType, ReadError};
use qcow::geometry::{check_cluster_bits, cluster_size, ENTRY_SIZE};
use qcow::image::{Qcow2, QcowHeader, Version3Header};
use qcow::levels::{read_record, L1Entry, L2Entry, COMPRESSED_FLAG, OFFSET_MASK};

#[test]
fn cluster_bits_that_can_be_read() {
    assert!(!check_cluster_bits(0));
    assert!(!check_cluster_bits(2));
    assert!(check_cluster_bits(3));
    assert!(check_cluster_bits(9));
    assert!(check_cluster_bits(16));
    assert!(check_cluster_bits(21));
    assert_eq!(check_cluster_bits(32), usize::BITS > 32);
    assert_eq!(check_cluster_bits(63), usize::BITS > 63);
    assert!(!check_cluster_bits(64));
    assert!(!check_cluster_bits(u32::MAX));
}

#[test]
fn cluster_size_is_power_of_two() {
    assert_eq!(cluster_size(0), 1);
    assert_eq!(cluster_size(3), 8);
    assert_eq!(cluster_size(9), 512);
    assert_eq!(cluster_size(16), 65536);
    assert_eq!(cluster_size(63), 1 << 63);
    assert_eq!(ENTRY_SIZE, 8);
}

#[test]
fn image_geometry_and_codec() {
    let mut qcow = Qcow2 {
        header: QcowHeader { cluster_bits: 16, size: 1 << 30, v3_header: None },
        l1_table: Vec::new(),
    };
    assert!(qcow.is_well_formed());
    assert_eq!(qcow.cluster_size(), 65536);
    assert_eq!(qcow.compression_type(), CompressionType::Uncompressed);
    assert_eq!(CompressionType::default(), CompressionType::Uncompressed);
    qcow.header.v3_header = Some(Version3Header { compression_type: CompressionType::Zlib });
    assert_eq!(qcow.compression_type(), CompressionType::Zlib);
    qcow.header.v3_header = Some(Version3Header { compression_type: CompressionType::Zstd });
    assert_eq!(qcow.compression_type(), CompressionType::Zstd);
    qcow.header.cluster_bits = 2;
    assert!(!qcow.is_well_formed());
    qcow.header.cluster_bits = 64;
    assert!(!qcow.is_well_formed());
}

#[test]
fn record_is_big_endian() {
    let host = [0xffu8, 0x01, 0x02, 0x03, 0x04, 0x05, 0x06, 0x07, 0x08, 0x09];
    assert_eq!(read_record(&host, 1), 0x0102_0304_0506_0708);
    assert_eq!(read_record(&host, 0), 0xff01_0203_0405_0607);
    assert_eq!(read_record(&host, 2), 0x0203_0405_0607_0809);
    assert_eq!(read_record(&[0xff; 8], 0), u64::MAX);
    assert_eq!(read_record(&[0; 8], 0), 0);
    assert_eq!(read_record(&[0, 0, 0, 0, 0, 0, 0, 1], 0), 1);
    assert_eq!(read_record(&[1, 0, 0, 0, 0, 0, 0, 0], 0), 1 << 56);
}

#[test]
fn second_level_record_fields() {
    assert_eq!(L2Entry::from_raw(0), L2Entry { host_offset: 0, compressed: false });
    assert_eq!(
        L2Entry::from_raw(0x8000_0000_0005_0000),
        L2Entry { host_offset: 0x5_0000, compressed: false }
    );
    assert_eq!(
        L2Entry::from_raw(0x4000_0000_0005_0000),
        L2Entry { host_offset: 0x5_0000, compressed: true }
    );
    assert_eq!(
        L2Entry::from_raw(u64::MAX),
        L2Entry { host_offset: 0x00ff_ffff_ffff_fe00, compressed: true }
    );
    assert_eq!(L2Entry::from_raw(0x1ff), L2Entry { host_offset: 0, compressed: false });
    assert_eq!(OFFSET_MASK, 0x00ff_ffff_ffff_fe00);
    assert_eq!(COMPRESSED_FLAG, 1 << 62);
}

#[test]
fn contents_of_a_stored_cluster() {
    let host: Vec<u8> = (0..2048u32).map(|i| (i % 253) as u8).collect();
    let entry = L2Entry { host_offset: 1024, compressed: false };
    let mut buf = vec![0u8; 512];
    assert_eq!(entry.read_contents(&host, &mut buf, CompressionType::Uncompressed), Ok(()));
    assert_eq!(buf[..], host[1024..1536]);
    let last = L2Entry { host_offset: 1536, compressed: false };
    assert_eq!(last.read_contents(&host, &mut buf, CompressionType::Zlib), Ok(()));
    assert_eq!(buf[..], host[1536..]);
}

#[test]
fn contents_of_an_unallocated_cluster() {
    let host = vec![0x11u8; 2048];
    let entry = L2Entry { host_offset: 0, compressed: false };
    let mut buf = vec![0x22u8; 512];
    assert_eq!(entry.read_contents(&host, &mut buf, CompressionType::Uncompressed), Ok(()));
    assert_eq!(buf, vec![0u8; 512]);
    let mut buf = vec![0x22u8; 512];
    assert_eq!(entry.read_contents(&[], &mut buf, CompressionType::Uncompressed), Ok(()));
    assert_eq!(buf, vec![0u8; 512]);
}

#[test]
fn contents_failures_leave_buffer() {
    let host = vec![0x11u8; 2048];
    let mut buf = vec![0x22u8; 512];
    let short = L2Entry { host_offset: 1537, compressed: false };
    assert_eq!(
        short.read_contents(&host, &mut buf, CompressionType::Uncompressed),
        Err(ReadError::HostIOFailure)
    );
    assert_eq!(buf, vec![0x22u8; 512]);
    let far = L2Entry { host_offset: u64::MAX & OFFSET_MASK, compressed: false };
    assert_eq!(
        far.read_contents(&host, &mut buf, CompressionType::Uncompressed),
        Err(ReadError::HostIOFailure)
    );
    let mut big = vec![0x22u8; 4096];
    let first = L2Entry { host_offset: 512, compressed: false };
    assert_eq!(
        first.read_contents(&host, &mut big, CompressionType::Uncompressed),
        Err(ReadError::HostIOFailure)
    );
    assert_eq!(big, vec![0x22u8; 4096]);
    let packed = L2Entry { host_offset: 512, compressed: true };
    assert_eq!(
        packed.read_contents(&host, &mut buf, CompressionType::Zlib),
        Err(ReadError::DecodeFailure(CompressionType::Zlib))
    );
    assert_eq!(
        packed.read_contents(&host, &mut buf, CompressionType::Zstd),
        Err(ReadError::DecodeFailure(CompressionType::Zstd))
    );
    let packed_nowhere = L2Entry { host_offset: 0, compressed: true };
    assert_eq!(
        packed_nowhere.read_contents(&host, &mut buf, CompressionType::Uncompressed),
        Err(ReadError::DecodeFailure(CompressionType::Uncompressed))
    );
    assert_eq!(buf, vec![0x22u8; 512]);
}

#[test]
fn second_level_table_of_a_sparse_slot() {
    let table = L1Entry { l2_offset: 0 }.read_l2(&[], 9).unwrap();
    assert_eq!(table.len(), 64);
    assert!(table.iter().all(|e| *e == L2Entry { host_offset: 0, compressed: false }));
    let table = L1Entry { l2_offset: 0 }.read_l2(&[1, 2, 3], 3).unwrap();
    assert_eq!(table, vec![L2Entry { host_offset: 0, compressed: false }]);
}

#[test]
fn second_level_table_from_host() {
    let mut host = vec![0u8; 1024 + 512];
    for i in 0..64u64 {
        let raw = (i + 1) * 512 | if i % 3 == 0 { 1 << 62 } else { 0 } | (1 << 63);
        host[1024 + 8 * i as usize..1024 + 8 * i as usize + 8].copy_from_slice(&raw.to_be_bytes());
    }
    let table = L1Entry { l2_offset: 1024 }.read_l2(&host, 9).unwrap();
    assert_eq!(table.len(), 64);
    for i in 0..64u64 {
        assert_eq!(
            table[i as usize],
            L2Entry { host_offset: (i + 1) * 512, compressed: i % 3 == 0 }
        );
    }
    assert_eq!(L1Entry { l2_offset: 1025 }.read_l2(&host, 9), None);
    assert_eq!(L1Entry { l2_offset: u64::MAX }.read_l2(&host, 9), None);
    assert_eq!(L1Entry { l2_offset: 512 }.read_l2(&host, 10), Some(
        L1Entry { l2_offset: 512 }.read_l2(&host, 10).unwrap()
    ));
    assert_eq!(L1Entry { l2_offset: 513 }.read_l2(&host, 10), None);
    assert_eq!(L1Entry { l2_offset: 512 }.read_l2(&host, 11), None);
    assert_eq!(L1Entry { l2_offset: 1 }.read_l2(&host, 3).unwrap().len(), 1);
}
