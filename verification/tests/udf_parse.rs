use hyntix::udf::{
    decode_dstring, join_path, parse_avdp, parse_directory, parse_file_entry, vds_sector_count,
    DirRecord, TreeWalk, UdfEntry, UdfError, UdfVolume, VdsScan, WalkStep,
};

fn sector() -> Vec<u8> {
    vec![0u8; 2048]
}

fn put16(b: &mut [u8], off: usize, v: u16) {
    b[off..off + 2].copy_from_slice(&v.to_le_bytes());
}

fn put32(b: &mut [u8], off: usize, v: u32) {
    b[off..off + 4].copy_from_slice(&v.to_le_bytes());
}

#[test]
fn anchor() {
    let mut s = sector();
    assert!(matches!(parse_avdp(&s), Err(UdfError::InvalidAvdp)));
    put16(&mut s, 0, 2);
    put32(&mut s, 16, 16 * 2048);
    put32(&mut s, 20, 32);
    assert_eq!(parse_avdp(&s).unwrap(), (16 * 2048, 32));
    assert_eq!(vds_sector_count(16 * 2048 + 100), 16);
}

#[test]
fn descriptor_sequence() {
    let mut scan = VdsScan::new();
    let mut pd = sector();
    put16(&mut pd, 0, 5);
    put32(&mut pd, 188, 257);
    assert!(scan.scan_sector(&pd));
    let mut pd2 = sector();
    put16(&mut pd2, 0, 5);
    put32(&mut pd2, 188, 999);
    assert!(scan.scan_sector(&pd2));
    let mut lvd = sector();
    put16(&mut lvd, 0, 6);
    put32(&mut lvd, 252, 3);
    assert!(scan.scan_sector(&lvd));
    let mut term = sector();
    put16(&mut term, 0, 8);
    assert!(!scan.scan_sector(&term));
    assert_eq!(scan.partition_start, Some(257));
    assert_eq!(scan.fsd_lbn, Some(3));
    assert_eq!(scan.fsd_sector().unwrap(), 260);
}

#[test]
fn missing_descriptors() {
    let scan = VdsScan::new();
    match scan.fsd_sector() {
        Err(UdfError::MissingDescriptor(d)) => assert_eq!(d, "Partition Descriptor"),
        _ => panic!("expected a missing partition descriptor"),
    }
    let scan = VdsScan { partition_start: Some(1), fsd_lbn: None };
    match scan.fsd_sector() {
        Err(UdfError::MissingDescriptor(d)) => assert_eq!(d, "Logical Volume Descriptor"),
        _ => panic!("expected a missing logical volume descriptor"),
    }
}

#[test]
fn file_set_descriptor() {
    let mut fsd = sector();
    put16(&mut fsd, 0, 7);
    match UdfVolume::from_fsd(257, 260, &fsd) {
        Err(UdfError::Parse(m)) => assert_eq!(m, "Expected FSD (tag 256) at sector 260, got tag 7"),
        _ => panic!("expected a parse error"),
    }
    put16(&mut fsd, 0, 256);
    put32(&mut fsd, 404, 42);
    let v = UdfVolume::from_fsd(257, 260, &fsd).unwrap();
    assert_eq!(v.partition_start, 257);
    assert_eq!(v.root_icb_loc, 42);
    assert_eq!(v.file_entry_sector(42), 299);
}

#[test]
fn file_entries() {
    let mut fe = sector();
    put16(&mut fe, 0, 266);
    fe[56..64].copy_from_slice(&5000u64.to_le_bytes());
    put32(&mut fe, 168, 8);
    put16(&mut fe, 34, 1);
    put32(&mut fe, 216 + 8 + 4, 77);
    assert_eq!(parse_file_entry(257, 300, &fe).unwrap(), ((257 + 77) * 2048, 5000));
    put16(&mut fe, 34, 3);
    assert_eq!(parse_file_entry(257, 300, &fe).unwrap(), (300 * 2048 + 224, 5000));
    put16(&mut fe, 34, 2);
    match parse_file_entry(257, 300, &fe) {
        Err(UdfError::Parse(m)) => assert_eq!(m, "Unsupported allocation type 2 at sector 300"),
        _ => panic!("expected an allocation type error"),
    }
    put16(&mut fe, 34, 0);
    put32(&mut fe, 168, 2000);
    match parse_file_entry(257, 300, &fe) {
        Err(UdfError::Parse(m)) => assert_eq!(m, "Short AD out of bounds"),
        _ => panic!("expected an bounds error"),
    }
    put16(&mut fe, 0, 1);
    match parse_file_entry(257, 300, &fe) {
        Err(UdfError::Parse(m)) => assert_eq!(m, "Expected File Entry (261/266) at sector 300, got tag 1"),
        _ => panic!("expected a tag error"),
    }
}

fn fid(characteristics: u8, icb: u32, name: &[u8]) -> Vec<u8> {
    let mut f = vec![0u8; 38];
    put16(&mut f, 0, 257);
    f[18] = characteristics;
    f[19] = name.len() as u8;
    put32(&mut f, 24, icb);
    f.extend_from_slice(name);
    while f.len() % 4 != 0 {
        f.push(0);
    }
    f
}

#[test]
fn directory_records() {
    let mut data = Vec::new();
    data.extend(fid(0x08, 1, b""));
    data.extend(fid(0x02, 10, b"\x08sources"));
    data.extend(fid(0x04, 11, b"\x08deleted"));
    data.extend(fid(0x00, 12, &[16, 0, b's', 0, b'e', 0, b't', 0, 0]));
    data.extend(fid(0x00, 13, b"\x08x\0\0"));
    data.extend([0u8; 40]);
    let records = parse_directory(&data);
    assert_eq!(records.len(), 3);
    assert_eq!(records[0].name, "sources");
    assert!(records[0].is_dir);
    assert_eq!(records[0].icb_location, 10);
    assert_eq!(records[1].name, "set");
    assert!(!records[1].is_dir);
    assert_eq!(records[2].name, "x");
}

#[test]
fn dstrings() {
    let d = [8u8, b'a', b'b', 0, 0];
    assert_eq!(decode_dstring(&d, 0, d.len()), "ab");
    let d = [16u8, 0x00, 0x41, 0x00, 0xE9, 0x00];
    assert_eq!(decode_dstring(&d, 0, d.len()), "A\u{e9}");
    let d = [b'h', b'i'];
    assert_eq!(decode_dstring(&d, 0, 2), "hi");
    let d = [8u8, 0xFF, b'x'];
    assert_eq!(decode_dstring(&d, 0, 3), "\u{ff}x");
    assert_eq!(decode_dstring(&d, 0, 0), "");
}

#[test]
fn entries_and_paths() {
    let rec = DirRecord { name: "install.wim".to_string(), is_dir: false, icb_location: 5 };
    let e = UdfEntry::from_record(rec, Some(Ok((0, 1234))));
    assert_eq!(e.size(), 1234);
    assert_eq!(e.icb_location(), 5);
    let rec = DirRecord { name: "x".to_string(), is_dir: false, icb_location: 6 };
    let e2 = UdfEntry::from_record(rec, Some(Err(UdfError::InvalidAvdp)));
    assert_eq!(e2.size(), 0);
    let dir = DirRecord { name: "sources".to_string(), is_dir: true, icb_location: 7 };
    let d = UdfEntry::from_record(dir, None);
    assert_eq!(d.size(), 0);
    let v = UdfVolume { partition_start: 100, root_icb_loc: 1 };
    assert_eq!(v.open_location(&e).unwrap(), 105);
    match v.open_location(&d) {
        Err(UdfError::Parse(m)) => assert_eq!(m, "Cannot open a directory as a file"),
        _ => panic!("expected an error"),
    }
    assert_eq!(join_path("", "sources"), "sources");
    assert_eq!(join_path("sources", "boot.wim"), "sources/boot.wim");
}

#[test]
fn latin1_dstring() {
    let d = [8u8, 0x43, 0x61, 0x66, 0xE9, 0, 0];
    assert_eq!(decode_dstring(&d, 0, 5), "Café");
    assert_eq!(decode_dstring(&d, 0, 7), "Café");
}

#[test]
fn non_file_entry_tag_is_refused_whatever_its_fields() {
    let mut s = sector();
    put16(&mut s, 0, 257);
    put32(&mut s, 168, u32::MAX);
    match parse_file_entry(0, 300, &s) {
        Err(UdfError::Parse(m)) => assert_eq!(m, "Expected File Entry (261/266) at sector 300, got tag 257"),
        other => panic!("unexpected {:?}", other),
    }
    let mut s = sector();
    put16(&mut s, 0, 261);
    put32(&mut s, 168, u32::MAX - 176);
    match parse_file_entry(0, 300, &s) {
        Err(UdfError::Parse(m)) => assert_eq!(m, "Short AD out of bounds"),
        other => panic!("unexpected {:?}", other),
    }
}

fn entry(name: &str, is_dir: bool, icb: u32) -> UdfEntry {
    let rec = DirRecord { name: name.to_string(), is_dir, icb_location: icb };
    UdfEntry::from_record(rec, if is_dir { None } else { Some(Ok((0, 1))) })
}

#[test]
fn walk_visits_each_directory_right_after_itself() {
    // root: boot/ (holding a.efi), setup.exe, sources/ (holding install.wim)
    let mut walk = TreeWalk::new(vec![entry("boot", true, 10), entry("setup.exe", false, 11), entry("sources", true, 12)]);
    let mut seen = vec![];
    loop {
        match walk.step() {
            WalkStep::Done => break,
            WalkStep::Visit { path, entry: _, descend } => {
                seen.push(path.clone());
                match descend {
                    Some(10) => walk.enter(path, vec![entry("a.efi", false, 20)]),
                    Some(12) => walk.enter(path, vec![entry("install.wim", false, 21)]),
                    Some(other) => panic!("unexpected directory {}", other),
                    None => {}
                }
            }
        }
    }
    assert_eq!(seen, vec!["boot", "boot/a.efi", "setup.exe", "sources", "sources/install.wim"]);
}

#[test]
fn walk_top_level_is_root_listing() {
    let root = vec![entry("efi", true, 30), entry("autorun.inf", false, 31), entry("sources", true, 32)];
    let root_names: Vec<String> = root.iter().map(|e| e.name.clone()).collect();
    let mut walk = TreeWalk::new(root);
    let mut top = vec![];
    loop {
        match walk.step() {
            WalkStep::Done => break,
            WalkStep::Visit { path, entry: visited, descend } => {
                if path == visited.name {
                    top.push(visited.name.clone());
                }
                match descend {
                    Some(30) => walk.enter(path, vec![entry("boot", true, 40)]),
                    Some(40) => walk.enter(path, vec![entry("efi", false, 41)]),
                    Some(32) => walk.enter(path, vec![entry("sources", false, 33)]),
                    Some(other) => panic!("unexpected directory {}", other),
                    None => {}
                }
            }
        }
    }
    assert_eq!(top, root_names);
}
