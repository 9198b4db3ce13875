use fatfs::FatDirReader;
use fatfs::{ClusterLink, FatError, FatFile, FatFileSystem, FatSlice, FatTable, FatType, SeekFrom};

/// A small FAT12 volume: 512-byte sectors, one sector per cluster, one
/// reserved sector, one table copy of one sector, a 16-entry root directory,
/// and a two-cluster file chain 2 -> 3 -> end-of-chain.
fn make_fat12_image() -> Vec<u8> {
    let mut d = vec![0u8; 2560];
    // boot sector
    d[11] = 0x00;
    d[12] = 0x02; // bytes per sector = 512
    d[13] = 1; // sectors per cluster
    d[14] = 1;
    d[15] = 0; // reserved sectors = 1
    d[16] = 1; // one table copy
    d[17] = 16;
    d[18] = 0; // root entries = 16 -> one root sector
    d[19] = 100;
    d[20] = 0; // total sectors = 100
    d[21] = 0xF8; // media
    d[22] = 1;
    d[23] = 0; // sectors per table = 1
    // legacy extended fields
    d[38] = 0x29; // extended signature
    d[39] = 0x78;
    d[40] = 0x56;
    d[41] = 0x34;
    d[42] = 0x12; // volume id = 0x12345678
    let label = b"FOO        ";
    d[43..54].copy_from_slice(label);
    d[54..62].copy_from_slice(b"FAT12   ");
    d[510] = 0x55;
    d[511] = 0xAA;
    // the table at sector 1: entries [0, 0, 3, 0xFFF]
    d[512] = 0;
    d[513] = 0;
    d[514] = 0;
    d[515] = 3;
    d[516] = 0xF0;
    d[517] = 0xFF;
    // the root directory at sector 2 (offset 1024):
    // entry 0: a valid file, cluster 2, size 700
    d[1024..1035].copy_from_slice(b"FILE1   TXT");
    d[1035] = 0x20;
    d[1050] = 2; // low cluster word at offset 26
    d[1052] = 0xBC;
    d[1053] = 0x02; // size = 700
    // entry 1: deleted
    d[1056] = 0xE5;
    for i in 1057..1088 {
        d[i] = 0x41;
    }
    // entry 2: a valid subdirectory, cluster 3
    d[1088..1099].copy_from_slice(b"DIR1       ");
    d[1099] = 0x10;
    d[1114] = 3;
    // entry 3: end-of-directory marker, then garbage
    d[1120] = 0x00;
    for i in 1152..1184 {
        d[i] = 0xFF;
    }
    // data: cluster 2 at offset 1536, cluster 3 at offset 2048
    for i in 0..512 {
        d[1536 + i] = (i % 251) as u8;
        d[2048 + i] = ((i * 3) % 249) as u8;
    }
    d
}

/// A FAT32 volume: zero legacy table size, extended fields present, enough
/// claimed sectors for the 32-bit variant, root directory in cluster 2.
fn make_fat32_image() -> Vec<u8> {
    let mut d = vec![0u8; 68608];
    d[11] = 0x00;
    d[12] = 0x02; // bytes per sector = 512
    d[13] = 1; // sectors per cluster
    d[14] = 32;
    d[15] = 0; // reserved sectors = 32
    d[16] = 1; // one table copy
    d[17] = 0;
    d[18] = 0; // no legacy root entries
    d[19] = 0;
    d[20] = 0; // 16-bit total is zero
    d[22] = 0;
    d[23] = 0; // 16-bit table size is zero -> extended layout
    // total sectors (32-bit) = 70000
    d[32..36].copy_from_slice(&70000u32.to_le_bytes());
    // table size (32-bit) = 100 sectors
    d[36..40].copy_from_slice(&100u32.to_le_bytes());
    // root directory first cluster = 2
    d[44..48].copy_from_slice(&2u32.to_le_bytes());
    d[66] = 0x29;
    d[67..71].copy_from_slice(&0xCAFEBABEu32.to_le_bytes());
    d[71..82].copy_from_slice(b"BIGVOL     ");
    d[82..90].copy_from_slice(b"FAT32   ");
    d[510] = 0x55;
    d[511] = 0xAA;
    // the table at offset 32 * 512 = 16384: cluster 2 ends its chain
    let fat = 16384;
    d[fat + 8..fat + 12].copy_from_slice(&0x0FFFFFFFu32.to_le_bytes());
    // root directory: cluster 2 at sector 132 (offset 67584), holding a
    // valid entry, a deleted one, a second valid one, and the end marker
    let root = 67584;
    d[root..root + 11].copy_from_slice(b"DEEP    BIN");
    d[root + 11] = 0x20;
    // high cluster word 0x0001, low word 0x0002 -> cluster 0x10002
    d[root + 20] = 0x01;
    d[root + 26] = 0x02;
    d[root + 28..root + 32].copy_from_slice(&12345u32.to_le_bytes());
    d[root + 32] = 0xE5;
    for i in 33..64 {
        d[root + i] = 0x42;
    }
    d[root + 64..root + 75].copy_from_slice(b"SECOND  DAT");
    d[root + 75] = 0x20;
    d[root + 90] = 0x07;
    d[root + 96] = 0;
    d
}

#[test]
fn detects_fat12_and_geometry() {
    let fs = FatFileSystem::new(make_fat12_image()).unwrap();
    assert_eq!(fs.fat_type(), FatType::Fat12);
    assert_eq!(fs.volume_id(), 0x12345678);
    assert_eq!(fs.volume_label(), "FOO");
    assert_eq!(fs.get_cluster_size(), 512);
    assert_eq!(fs.offset_from_sector(2), 1024);
    assert_eq!(fs.sector_from_cluster(2), 3);
    assert_eq!(fs.offset_from_cluster(2), 1536);
    assert_eq!(fs.offset_from_cluster(3), 2048);
}

#[test]
fn variant_boundaries_are_exact() {
    assert_eq!(FatFileSystem::fat_type_from_clusters(0), FatType::Fat12);
    assert_eq!(FatFileSystem::fat_type_from_clusters(4084), FatType::Fat12);
    assert_eq!(FatFileSystem::fat_type_from_clusters(4085), FatType::Fat16);
    assert_eq!(FatFileSystem::fat_type_from_clusters(65524), FatType::Fat16);
    assert_eq!(FatFileSystem::fat_type_from_clusters(65525), FatType::Fat32);
    assert_eq!(FatFileSystem::fat_type_from_clusters(u32::MAX), FatType::Fat32);
}

#[test]
fn cluster_sector_arithmetic_round_trips() {
    let fs = FatFileSystem::new(make_fat12_image()).unwrap();
    // first data sector is 3, one sector per cluster
    for c in 2u32..97 {
        let s = fs.sector_from_cluster(c);
        let back = (s - 3) / 1 + 2;
        assert_eq!(back, c);
    }
}

#[test]
fn twelve_bit_decoding_round_trips() {
    // the three-byte group [0x34, 0x52, 0xFA] packs 0x234 and 0xFA5
    let t = FatTable::from_bytes(&[0x34, 0x52, 0xFA], FatType::Fat12);
    assert_eq!(t.entries, vec![0x234, 0xFA5]);
    // and the entries reconstruct the bytes
    let (e, o) = (t.entries[0], t.entries[1]);
    assert_eq!((e & 0xFF) as u8, 0x34);
    assert_eq!(((e >> 8) | ((o & 0x0F) << 4)) as u8, 0x52);
    assert_eq!((o >> 4) as u8, 0xFA);
}

#[test]
fn sixteen_bit_table_decoding() {
    let t = FatTable::from_bytes(&[0x34, 0x12, 0xF8, 0xFF, 0x00, 0x00, 0xF7, 0xFF], FatType::Fat16);
    assert_eq!(t.entries, vec![0x1234, 0xFFF8, 0, 0xFFF7]);
    assert_eq!(t.lookup(0), Ok(ClusterLink::Next(0x1234)));
    assert_eq!(t.lookup(1), Ok(ClusterLink::EndOfChain));
    assert_eq!(t.lookup(2), Ok(ClusterLink::Free));
    assert_eq!(t.lookup(3), Ok(ClusterLink::Bad));
    assert_eq!(t.lookup(4), Err(FatError::Corrupted));
}

#[test]
fn thirty_two_bit_table_masks_high_nibble() {
    let t = FatTable::from_bytes(&[0x78, 0x56, 0x34, 0xF2], FatType::Fat32);
    assert_eq!(t.entries, vec![0x02345678]);
    assert_eq!(t.lookup(0), Ok(ClusterLink::Next(0x02345678)));
}

#[test]
fn byte_range_view_exhausts_and_bounds_seeks() {
    let fs = FatFileSystem::new(make_fat12_image()).unwrap();
    let mut s = FatSlice::new(1536, 10);
    let got = s.read(&fs, 100);
    assert_eq!(got.len(), 10);
    assert_eq!(got, (0..10).map(|i| (i % 251) as u8).collect::<Vec<u8>>());
    // exhausted: further reads yield nothing
    assert_eq!(s.read(&fs, 100).len(), 0);
    assert_eq!(s.read(&fs, 1).len(), 0);
    // seeking to the size is legal
    assert_eq!(s.seek(SeekFrom::Start(10)), Ok(10));
    // one past the size is an input error
    assert_eq!(s.seek(SeekFrom::Start(11)), Err(FatError::InvalidSeek));
    // below zero is an input error
    assert_eq!(s.seek(SeekFrom::Start(0)), Ok(0));
    assert_eq!(s.seek(SeekFrom::Current(-1)), Err(FatError::InvalidSeek));
    assert_eq!(s.seek(SeekFrom::End(1)), Err(FatError::InvalidSeek));
    assert_eq!(s.seek(SeekFrom::End(-4)), Ok(6));
    let tail = s.read(&fs, 100);
    assert_eq!(tail.len(), 4);
}

#[test]
fn partial_reads_never_cross_cluster_bounds() {
    let fs = FatFileSystem::new(make_fat12_image()).unwrap();
    let mut f = FatFile::new(2, Some(700));
    let first = f.read(&fs, 300).unwrap();
    assert_eq!(first.len(), 300);
    let second = f.read(&fs, 300).unwrap();
    // only 212 bytes remain in cluster 2
    assert_eq!(second.len(), 212);
    let third = f.read(&fs, 300).unwrap();
    assert_eq!(third.len(), 188);
}

#[test]
fn chain_reader_yields_declared_length_then_nothing() {
    let fs = FatFileSystem::new(make_fat12_image()).unwrap();
    let mut f = FatFile::new(2, Some(700));
    let mut content: Vec<u8> = Vec::new();
    loop {
        let chunk = f.read(&fs, 4096).unwrap();
        if chunk.is_empty() {
            break;
        }
        content.extend_from_slice(&chunk);
    }
    assert_eq!(content.len(), 700);
    for i in 0..512 {
        assert_eq!(content[i], (i % 251) as u8);
    }
    for i in 0..188 {
        assert_eq!(content[512 + i], ((i * 3) % 249) as u8);
    }
    // exhaustion is not an error: further reads yield zero bytes
    assert_eq!(f.read(&fs, 4096).unwrap().len(), 0);
    assert_eq!(f.read(&fs, 1).unwrap().len(), 0);
}

#[test]
fn undeclared_length_stops_at_end_of_chain() {
    let fs = FatFileSystem::new(make_fat12_image()).unwrap();
    let mut f = FatFile::new(2, None);
    let mut total = 0usize;
    loop {
        let chunk = f.read(&fs, 4096).unwrap();
        if chunk.is_empty() {
            break;
        }
        total += chunk.len();
    }
    // both whole clusters of the chain
    assert_eq!(total, 1024);
}

#[test]
fn bad_cluster_mid_chain_is_a_corruption_error() {
    let mut d = make_fat12_image();
    // repoint entry 2 to the bad-cluster value 0xFF7: group 1 holds
    // entries 2 and 3, so its bytes become [0xF7, 0xFF, 0xFF]
    d[515] = 0xF7;
    d[516] = 0xFF;
    d[517] = 0xFF;
    let fs = FatFileSystem::new(d).unwrap();
    let mut f = FatFile::new(2, None);
    // the first cluster still reads fully, then the chain fails
    let err = loop {
        match f.read(&fs, 4096) {
            Ok(chunk) => assert!(!chunk.is_empty(), "chain ended instead of failing"),
            Err(e) => break e,
        }
    };
    assert_eq!(err, FatError::Corrupted);
}

#[test]
fn directory_filters_deleted_and_stops_at_marker() {
    let fs = FatFileSystem::new(make_fat12_image()).unwrap();
    let mut dir = fs.root_dir();
    let e1 = dir.next_entry(&fs).unwrap().expect("first entry");
    assert_eq!(e1.name, b"FILE1   TXT");
    assert_eq!(e1.attrs, 0x20);
    assert_eq!(e1.first_cluster, 2);
    assert_eq!(e1.size, 700);
    let e2 = dir.next_entry(&fs).unwrap().expect("second entry");
    assert_eq!(e2.name, b"DIR1       ");
    assert_eq!(e2.attrs, 0x10);
    assert_eq!(e2.first_cluster, 3);
    // the deleted record was skipped and the marker ends the sequence
    assert!(dir.next_entry(&fs).unwrap().is_none());
    assert!(dir.next_entry(&fs).unwrap().is_none());
}

#[test]
fn fat32_root_is_a_cluster_chain() {
    let fs = FatFileSystem::new(make_fat32_image()).unwrap();
    assert_eq!(fs.fat_type(), FatType::Fat32);
    assert_eq!(fs.volume_id(), 0xCAFEBABE);
    assert_eq!(fs.volume_label(), "BIGVOL");
    let mut dir = fs.root_dir();
    assert!(matches!(dir.rdr, FatDirReader::File(_)));
    let e = dir.next_entry(&fs).unwrap().expect("one entry");
    assert_eq!(e.name, b"DEEP    BIN");
    // the high cluster word counts on FAT32
    assert_eq!(e.first_cluster, 0x10002);
    assert_eq!(e.size, 12345);
    // the deleted record between the two valid ones is filtered out
    let e2 = dir.next_entry(&fs).unwrap().expect("second entry");
    assert_eq!(e2.name, b"SECOND  DAT");
    assert_eq!(e2.first_cluster, 7);
    assert!(dir.next_entry(&fs).unwrap().is_none());
    assert!(dir.next_entry(&fs).unwrap().is_none());
}

#[test]
fn invalid_signature_is_rejected() {
    let mut d = make_fat12_image();
    d[511] = 0xAB;
    assert_eq!(FatFileSystem::new(d).unwrap_err(), FatError::InvalidSignature);
    let mut d2 = make_fat12_image();
    d2[510] = 0;
    assert_eq!(FatFileSystem::new(d2).unwrap_err(), FatError::InvalidSignature);
}

#[test]
fn truncated_images_are_rejected() {
    assert_eq!(FatFileSystem::new(vec![]).unwrap_err(), FatError::UnexpectedEof);
    assert_eq!(FatFileSystem::new(vec![0u8; 511]).unwrap_err(), FatError::UnexpectedEof);
    // a boot sector alone, without room for the table region
    let d = make_fat12_image()[..512].to_vec();
    assert_eq!(FatFileSystem::new(d).unwrap_err(), FatError::UnexpectedEof);
}

#[test]
fn unusable_geometry_is_rejected() {
    // zero bytes per sector
    let mut d = make_fat12_image();
    d[11] = 0;
    d[12] = 0;
    assert_eq!(FatFileSystem::new(d).unwrap_err(), FatError::InvalidGeometry);
    // zero sectors per cluster
    let mut d2 = make_fat12_image();
    d2[13] = 0;
    assert_eq!(FatFileSystem::new(d2).unwrap_err(), FatError::InvalidGeometry);
    // data area past the claimed volume end
    let mut d3 = make_fat12_image();
    d3[19] = 2;
    d3[20] = 0;
    assert_eq!(FatFileSystem::new(d3).unwrap_err(), FatError::InvalidGeometry);
}

#[test]
fn lookup_outside_the_table_fails() {
    let fs = FatFileSystem::new(make_fat12_image()).unwrap();
    // one table sector of 512 bytes holds 340 twelve-bit entries
    assert_eq!(fs.table.entries.len(), 340);
    assert_eq!(fs.table.lookup(340), Err(FatError::Corrupted));
    assert_eq!(fs.table.lookup(2), Ok(ClusterLink::Next(3)));
    assert_eq!(fs.table.lookup(3), Ok(ClusterLink::EndOfChain));
}

#[test]
fn boot_record_fields_decode_little_endian() {
    let fs = FatFileSystem::new(make_fat12_image()).unwrap();
    assert_eq!(fs.boot.bpb.bytes_per_sector, 512);
    assert_eq!(fs.boot.bpb.sectors_per_cluster, 1);
    assert_eq!(fs.boot.bpb.reserved_sectors, 1);
    assert_eq!(fs.boot.bpb.fats, 1);
    assert_eq!(fs.boot.bpb.root_entries, 16);
    assert_eq!(fs.boot.bpb.total_sectors_16, 100);
    assert_eq!(fs.boot.bpb.media, 0xF8);
    assert_eq!(fs.boot.bpb.sectors_per_fat_16, 1);
    assert_eq!(fs.first_data_sector, 3);
    assert_eq!(fs.root_dir_sectors, 1);
    assert_eq!(fs.boot.bpb.fs_type_label, b"FAT12   ");
    assert_eq!(fs.boot.boot_sig, vec![0x55, 0xAA]);
}

#[test]
fn chain_seek_rederives_the_cluster() {
    let fs = FatFileSystem::new(make_fat12_image()).unwrap();
    let mut f = FatFile::new(2, Some(700));
    // into the second cluster of the chain
    assert_eq!(f.seek(&fs, SeekFrom::Start(600)), Ok(600));
    let chunk = f.read(&fs, 16).unwrap();
    assert_eq!(chunk.len(), 16);
    for i in 0..16 {
        assert_eq!(chunk[i], (((88 + i) * 3) % 249) as u8);
    }
    // back to the start
    assert_eq!(f.seek(&fs, SeekFrom::Start(0)), Ok(0));
    assert_eq!(f.read(&fs, 4).unwrap(), vec![0, 1, 2, 3]);
    // relative and end-relative positioning
    assert_eq!(f.seek(&fs, SeekFrom::Current(508)), Ok(512));
    assert_eq!(f.seek(&fs, SeekFrom::End(-700)), Ok(0));
    // past the declared length is an input error
    assert_eq!(f.seek(&fs, SeekFrom::Start(701)), Err(FatError::InvalidSeek));
    assert_eq!(f.seek(&fs, SeekFrom::Current(-1)), Err(FatError::InvalidSeek));
}

#[test]
fn chain_seek_without_declared_length() {
    let fs = FatFileSystem::new(make_fat12_image()).unwrap();
    let mut f = FatFile::new(2, None);
    // end-relative seeks need a declared length
    assert_eq!(f.seek(&fs, SeekFrom::End(0)), Err(FatError::InvalidSeek));
    // a target past the end of the chain parks the cursor there
    assert_eq!(f.seek(&fs, SeekFrom::Start(3000)), Ok(3000));
    assert_eq!(f.read(&fs, 16).unwrap().len(), 0);
}

/// A contrived FAT32 volume with 16-byte clusters, so every 32-byte
/// directory record spans a cluster boundary and must be assembled from
/// two chain links.
fn make_tiny_cluster_image() -> Vec<u8> {
    let mut d = vec![0u8; 768];
    d[11] = 16;
    d[12] = 0; // bytes per sector = 16
    d[13] = 1; // sectors per cluster
    d[14] = 40;
    d[15] = 0; // reserved sectors = 40
    d[16] = 1; // one table copy
    // legacy total and table size stay zero -> extended layout
    d[32..36].copy_from_slice(&70000u32.to_le_bytes());
    d[36..40].copy_from_slice(&2u32.to_le_bytes()); // 2 table sectors
    d[44..48].copy_from_slice(&2u32.to_le_bytes()); // root at cluster 2
    d[510] = 0x55;
    d[511] = 0xAA;
    // the table at offset 640: chain 2 -> 3 -> 4 -> 5 -> end
    let fat = 640;
    d[fat + 8..fat + 12].copy_from_slice(&3u32.to_le_bytes());
    d[fat + 12..fat + 16].copy_from_slice(&4u32.to_le_bytes());
    d[fat + 16..fat + 20].copy_from_slice(&5u32.to_le_bytes());
    d[fat + 20..fat + 24].copy_from_slice(&0x0FFFFFFFu32.to_le_bytes());
    // first data sector is 42, so cluster 2 begins at offset 672; one
    // record fills clusters 2 and 3, the end marker starts cluster 4
    let rec = 672;
    d[rec..rec + 11].copy_from_slice(b"SPAN    DAT");
    d[rec + 11] = 0x20;
    d[rec + 26] = 7;
    d[rec + 28..rec + 32].copy_from_slice(&99u32.to_le_bytes());
    d[704] = 0;
    d
}

#[test]
fn records_assemble_across_cluster_bounds() {
    let fs = FatFileSystem::new(make_tiny_cluster_image()).unwrap();
    assert_eq!(fs.fat_type(), FatType::Fat32);
    assert_eq!(fs.get_cluster_size(), 16);
    let mut dir = fs.root_dir();
    let e = dir.next_entry(&fs).unwrap().expect("spanning entry");
    assert_eq!(e.name, b"SPAN    DAT");
    assert_eq!(e.first_cluster, 7);
    assert_eq!(e.size, 99);
    assert!(dir.next_entry(&fs).unwrap().is_none());
}

#[test]
fn whole_directory_listing() {
    let fs = FatFileSystem::new(make_fat12_image()).unwrap();
    let mut dir = fs.root_dir();
    let es = dir.entries(&fs).unwrap();
    assert_eq!(es.len(), 2);
    assert_eq!(es[0].name, b"FILE1   TXT");
    assert_eq!(es[1].name, b"DIR1       ");
    // exhausted for good
    assert_eq!(dir.entries(&fs).unwrap().len(), 0);
    let fs32 = FatFileSystem::new(make_fat32_image()).unwrap();
    let es32 = fs32.root_dir().entries(&fs32).unwrap();
    assert_eq!(es32.len(), 2);
    assert_eq!(es32[0].name, b"DEEP    BIN");
    assert_eq!(es32[1].name, b"SECOND  DAT");
}

#[test]
fn entries_open_as_files_or_subdirectories() {
    let fs = FatFileSystem::new(make_fat12_image()).unwrap();
    let es = fs.root_dir().entries(&fs).unwrap();
    assert!(!es[0].is_dir());
    assert!(es[1].is_dir());
    let mut f = es[0].open_file();
    let mut total = 0usize;
    loop {
        let chunk = f.read(&fs, 4096).unwrap();
        if chunk.is_empty() {
            break;
        }
        total += chunk.len();
    }
    assert_eq!(total, 700);
    let d = es[1].open_dir();
    assert!(matches!(d.rdr, FatDirReader::File(_)));
}


#[test]
fn corrupt_chain_surfaces_from_directory_iteration() {
    // mark the FAT32 root's own cluster bad: listing the root must fail
    // with the corruption error, not end quietly
    let mut d = make_fat32_image();
    let fat = 16384;
    d[fat + 8..fat + 12].copy_from_slice(&0x0FFFFFF7u32.to_le_bytes());
    // fill the root cluster with records that never end the directory
    for r in 0..16 {
        let at = 67584 + 32 * r;
        d[at] = 0x41;
    }
    let fs = FatFileSystem::new(d).unwrap();
    assert_eq!(fs.root_dir().entries(&fs).unwrap_err(), FatError::Corrupted);
    // next_entry yields the whole records before the bad boundary, then fails
    let mut dir = fs.root_dir();
    let err = loop {
        match dir.next_entry(&fs) {
            Ok(Some(_)) => {},
            Ok(None) => panic!("listing ended instead of failing"),
            Err(e) => break e,
        }
    };
    assert_eq!(err, FatError::Corrupted);
}

#[test]
fn chain_link_below_two_is_a_corruption_error() {
    // repoint the file chain 2 -> 1: a link below 2 is out of range
    let mut d = make_fat12_image();
    d[515] = 1;
    d[516] = 0xF0;
    d[517] = 0xFF;
    let fs = FatFileSystem::new(d).unwrap();
    let mut f = FatFile::new(2, None);
    let err = loop {
        match f.read(&fs, 4096) {
            Ok(chunk) => assert!(!chunk.is_empty(), "chain ended instead of failing"),
            Err(e) => break e,
        }
    };
    assert_eq!(err, FatError::Corrupted);
}
