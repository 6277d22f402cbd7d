use hyntix::wim::{
    push_res_hdr, read_lookup_table, SwmPart, SwmSplitter, WimError, WimHeader, WimLookupEntry,
    WimResHdr,
};

fn header_bytes() -> Vec<u8> {
    let mut b = vec![0u8; 208];
    b[0..8].copy_from_slice(b"MSWIM\0\0\0");
    b[16..20].copy_from_slice(&0x20000u32.to_le_bytes());
    b[20..24].copy_from_slice(&32768u32.to_le_bytes());
    for i in 0..16 {
        b[24 + i] = i as u8;
    }
    b[40..42].copy_from_slice(&1u16.to_le_bytes());
    b[42..44].copy_from_slice(&1u16.to_le_bytes());
    b[44..48].copy_from_slice(&3u32.to_le_bytes());
    b[72..79].copy_from_slice(&[100, 0, 0, 0, 0, 0, 0]);
    b[80..88].copy_from_slice(&5000u64.to_le_bytes());
    b[88..96].copy_from_slice(&100u64.to_le_bytes());
    b[96..100].copy_from_slice(&2u32.to_le_bytes());
    b
}

fn blob(size: u64, flags: u8, tag: u8) -> WimLookupEntry {
    WimLookupEntry {
        res_hdr: WimResHdr { size, flags, offset: 9999, original_size: size },
        part_number: 1,
        ref_count: 1,
        hash: [tag; 20],
    }
}

#[test]
fn header_read() {
    let b = header_bytes();
    let h = WimHeader::read(&b).unwrap();
    assert_eq!(h.flags, 0x20000);
    assert_eq!(h.compression_size, 32768);
    assert_eq!(h.guid[15], 15);
    assert_eq!(h.image_count, 3);
    assert_eq!(h.xml_data_resource.size, 100);
    assert_eq!(h.xml_data_resource.offset, 5000);
    assert_eq!(h.boot_index, 2);
    let mut bad = b.clone();
    bad[0] = b'X';
    assert!(matches!(WimHeader::read(&bad), Err(WimError::InvalidSignature)));
}

#[test]
fn res_hdr_roundtrip_values() {
    let h = WimResHdr { size: 0x00AB_CDEF_0123_4567, flags: 2, offset: u64::MAX - 3, original_size: 77 };
    let mut v = Vec::new();
    push_res_hdr(&mut v, &h);
    assert_eq!(v.len(), 24);
    let back = WimResHdr::from_bytes(&v);
    assert_eq!(back.size, h.size);
    assert_eq!(back.flags, 2);
    assert_eq!(back.offset, h.offset);
    assert_eq!(back.original_size, 77);
    let big = WimResHdr { size: 0xFF00_0000_0000_0001, flags: 0, offset: 0, original_size: 0 };
    let mut v = Vec::new();
    push_res_hdr(&mut v, &big);
    assert_eq!(WimResHdr::from_bytes(&v).size, 1);
}

#[test]
fn lookup_table_roundtrip() {
    let part = SwmPart { part_number: 1, total_parts: 1, blobs_to_write: vec![], lookup_table: vec![blob(10, 0, 1), blob(20, 2, 2)] };
    let bytes = part.write_lookup_table();
    assert_eq!(bytes.len(), 100);
    let back = read_lookup_table(&bytes);
    assert_eq!(back.len(), 2);
    assert_eq!(back[1].res_hdr.size, 20);
    assert_eq!(back[1].hash, [2u8; 20]);
    let e = WimLookupEntry::read(&bytes[50..100]);
    assert_eq!(e.res_hdr.flags, 2);
}

#[test]
fn split_keeps_metadata_first_and_every_blob() {
    let h = WimHeader::read(&header_bytes()).unwrap();
    let entries = vec![blob(300, 0, 1), blob(50, 2, 2), blob(400, 0, 3), blob(500, 0, 4)];
    let parts = SwmSplitter::new(h, entries).split(1000);
    assert_eq!(parts.len(), 3);
    let tags: Vec<Vec<u8>> = parts.iter().map(|p| p.blobs_to_write.iter().map(|b| b.hash[0]).collect()).collect();
    assert_eq!(tags, vec![vec![2, 1], vec![3], vec![4]]);
    let flat: Vec<u8> = tags.concat();
    assert_eq!(flat, vec![2, 1, 3, 4]);
    for (i, p) in parts.iter().enumerate() {
        assert_eq!(p.part_number as usize, i + 1);
        assert_eq!(p.total_parts, 3);
        assert_eq!(p.lookup_table.len(), 4);
        assert!(!p.blobs_to_write.is_empty());
    }
    let table = &parts[0].lookup_table;
    assert_eq!(table[0].part_number, 1);
    assert_eq!(table[0].res_hdr.offset, 208);
    assert_eq!(table[1].res_hdr.offset, 258);
}

#[test]
fn split_sizes() {
    let h = WimHeader::read(&header_bytes()).unwrap();
    let entries = vec![blob(300, 0, 1), blob(300, 0, 2), blob(300, 0, 3), blob(2000, 0, 4)];
    let parts = SwmSplitter::new(h, entries).split(1000);
    let sizes: Vec<usize> = parts.iter().map(|p| p.blobs_to_write.len()).collect();
    assert_eq!(sizes, vec![2, 1, 1]);
    let table = &parts[0].lookup_table;
    assert_eq!(table[2].part_number, 2);
    assert_eq!(table[2].res_hdr.offset, 208);
    assert_eq!(table[3].part_number, 3);
}

#[test]
fn part_header() {
    let h = WimHeader::read(&header_bytes()).unwrap();
    let part = SwmPart { part_number: 1, total_parts: 2, blobs_to_write: vec![blob(300, 0, 1)], lookup_table: vec![blob(300, 0, 1), blob(10, 0, 2)] };
    let b = part.write_header(&h);
    assert_eq!(b.len(), 208);
    assert_eq!(&b[0..8], b"MSWIM\0\0\0");
    assert_eq!(&b[8..12], &208u32.to_le_bytes());
    assert_eq!(&b[12..16], &0x00010d00u32.to_le_bytes());
    assert_eq!(&b[16..20], &0x20008u32.to_le_bytes());
    assert_eq!(&b[40..42], &1u16.to_le_bytes());
    assert_eq!(&b[42..44], &2u16.to_le_bytes());
    let lt = WimResHdr::from_bytes(&b[48..72]);
    assert_eq!(lt.size, 100);
    assert_eq!(lt.flags, 2);
    assert_eq!(lt.offset, 508);
    let xml = WimResHdr::from_bytes(&b[72..96]);
    assert_eq!(xml.size, 100);
    assert_eq!(xml.offset, 608);
    assert_eq!(&b[96..100], &2u32.to_le_bytes());
    assert!(b[100..].iter().all(|x| *x == 0));
    let second = SwmPart { part_number: 2, ..part };
    let b2 = second.write_header(&h);
    assert!(b2[72..96].iter().all(|x| *x == 0));
}

#[test]
fn part_header_reads_back() {
    let h = WimHeader::read(&header_bytes()).unwrap();
    let part = SwmPart { part_number: 1, total_parts: 3, blobs_to_write: vec![blob(300, 0, 1), blob(7, 0, 3)], lookup_table: vec![blob(300, 0, 1)] };
    let back = WimHeader::read(&part.write_header(&h)).unwrap();
    assert_eq!(back.flags, 0x20008);
    assert_eq!(back.compression_size, 32768);
    assert_eq!(back.guid, h.guid);
    assert_eq!(back.part_number, 1);
    assert_eq!(back.total_parts, 3);
    assert_eq!(back.image_count, 3);
    assert_eq!(back.lookup_table_resource.size, 50);
    assert_eq!(back.lookup_table_resource.offset, 208 + 307);
    assert_eq!(back.lookup_table_resource.original_size, 50);
    assert_eq!(back.xml_data_resource.offset, 208 + 307 + 50);
    assert_eq!(back.xml_data_resource.size, 100);
    assert_eq!(back.boot_index, 2);
    assert_eq!(back.integrity_resource.size, 0);
    assert_eq!(back.integrity_resource.offset, 0);
}
