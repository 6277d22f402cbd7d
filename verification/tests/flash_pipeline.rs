use hyntix::async_plan::{
    job_end, merge_into_blocks, plan_block_write, read_window, returns_to_pool, seek_position,
    BlockWrite, PendingWrites, SeekTarget,
};
use hyntix::config::ASYNC_BUFFER_SIZE;
use hyntix::error::{Error, IoError, IoErrorKind};
use hyntix::flash::{
    check_digests, check_verify_read, is_windows_tree, progress_due, read_request,
    verify_chunk_len, verify_progress_due, FlashConfig, FlashPhase, StreamDigest,
};
use hyntix::iso::{contains_bytes, linux_iso_verdict, IsoReader};
use hyntix::jni::{FlashPhase as AppPhase, FlasherError};
use hyntix::linux::{LinuxFlashConfig, LinuxFlasher};
use hyntix::windows::{
    copy_plan, is_main_image, lookup_dir_cluster, split_path, swm_part_name, swm_part_total_size,
    tree_total_size, CopyStep, WindowsError,
};
use hyntix::wim::{SwmPart, WimLookupEntry, WimResHdr};
use std::sync::atomic::AtomicBool;
use std::sync::Arc;

#[test]
fn phase_names() {
    assert_eq!(FlashPhase::Validating.as_str(), "Validating");
    assert_eq!(FlashPhase::Finalizing.as_str(), "Finalizing");
    assert!(matches!(AppPhase::from_core(FlashPhase::Verifying), AppPhase::Verifying));
}

#[test]
fn configs() {
    let c = FlashConfig::default();
    assert!(c.verify);
    assert!(c.volume_label.is_none());
    let l = LinuxFlashConfig::default();
    assert_eq!(l.volume_label, "LINUX_USB");
    assert!(l.persistence_size.is_none());
}

#[test]
fn linux_flash_is_refused() {
    let mut f = LinuxFlasher::new(Arc::new(AtomicBool::new(false)));
    match f.flash((), ()) {
        Err(Error::Io(x)) => {
            assert_eq!(x.message, "Linux ISO flashing not yet implemented");
            assert_eq!(x.kind, IoErrorKind::Unsupported);
        }
        _ => panic!("expected an error"),
    }
}

#[test]
fn iso_verdicts() {
    let mut pvd = vec![0u8; 2048];
    pvd[1..6].copy_from_slice(b"CD001");
    let mut hay = vec![0u8; 4096];
    hay[100..108].copy_from_slice(b"isolinux");
    assert!(linux_iso_verdict(&pvd, &hay));
    hay[2000..2009].copy_from_slice(b"setup.exe");
    assert!(!linux_iso_verdict(&pvd, &hay));
    let plain = vec![0u8; 4096];
    assert!(!linux_iso_verdict(&pvd, &plain));
    let not_iso = vec![0u8; 2048];
    assert!(!linux_iso_verdict(&not_iso, &hay[0..1000]));
    assert!(contains_bytes(b"abcabd", b"abd"));
    assert!(!contains_bytes(b"ab", b"abc"));
    let mut r = IsoReader::new(()).unwrap();
    assert!(r.list_root().unwrap().is_empty());
}

#[test]
fn windows_tree_detection() {
    assert!(is_windows_tree(&vec!["boot".to_string(), "sources/boot.wim".to_string()]));
    assert!(!is_windows_tree(&vec!["Sources/Install.wim".to_string()]));
}

#[test]
fn raw_flash_helpers() {
    assert_eq!(read_request(100, 0, 0), 100);
    assert_eq!(read_request(u64::MAX, 0, 10), ASYNC_BUFFER_SIZE - 10);
    assert!(progress_due(4194304, 0));
    assert!(!progress_due(4194303, 0));
    assert_eq!(verify_chunk_len(5000000, 4000000), 1000000);
    assert_eq!(verify_chunk_len(5000000, 0), 1048576);
    assert!(check_verify_read(10, 10).is_ok());
    match check_verify_read(10, 9) {
        Err(Error::SizeMismatch { operation, expected, actual }) => {
            assert_eq!(operation, "verify read");
            assert_eq!(expected, 10);
            assert_eq!(actual, 9);
        }
        _ => panic!("expected a size mismatch"),
    }
    assert!(verify_progress_due(8388608, 9000000));
    assert!(verify_progress_due(9000000, 9000000));
    assert!(!verify_progress_due(1, 9000000));
    assert!(check_digests(&[1, 2, 3], &[1, 2, 3]).is_ok());
    match check_digests(&[1, 2, 3], &[1, 2, 4]) {
        Err(Error::Io(x)) => {
            assert_eq!(x.message, "Verification Failed: BLAKE3 data mismatch");
            assert_eq!(x.kind, IoErrorKind::InvalidData);
        }
        _ => panic!("expected a mismatch"),
    }
}

#[test]
fn windows_helpers() {
    let (p, n) = split_path("sources/install.wim");
    assert_eq!(p, "sources");
    assert_eq!(n, "install.wim");
    let (p, n) = split_path("bootmgr");
    assert_eq!(p, "");
    assert_eq!(n, "bootmgr");
    let (p, n) = split_path("a/b/c");
    assert_eq!(p, "a/b");
    assert_eq!(n, "c");
    assert!(is_main_image("Sources/INSTALL.WIM"));
    assert!(is_main_image("sources/install.esd"));
    assert!(!is_main_image("sources/boot.wim"));
    assert_eq!(swm_part_name(0), "install.swm");
    assert_eq!(swm_part_name(1), "install2.swm");
    assert_eq!(swm_part_name(11), "install12.swm");
    assert_eq!(tree_total_size(&vec![1, 2, 3]), 6);
    let dirs = vec![("sources".to_string(), 3u32), ("boot".to_string(), 4), ("sources".to_string(), 9)];
    assert_eq!(lookup_dir_cluster(&dirs, "sources", 2), 9);
    assert_eq!(lookup_dir_cluster(&dirs, "efi", 2), 2);
    let e = WimLookupEntry { res_hdr: WimResHdr { size: 1000, flags: 0, offset: 0, original_size: 1000 }, part_number: 1, ref_count: 1, hash: [0; 20] };
    let part = SwmPart { part_number: 1, total_parts: 1, blobs_to_write: vec![e], lookup_table: vec![e, e] };
    assert_eq!(swm_part_total_size(&part, 50), 208 + 1000 + 100 + 50);
    let part2 = SwmPart { part_number: 2, ..part };
    assert_eq!(swm_part_total_size(&part2, 50), 208 + 1000 + 100);
    let err = WindowsError::Fat32("disk full".to_string());
    assert_eq!(err.message(), "FAT32 error: disk full");
}

#[test]
fn flasher_errors() {
    assert!(matches!(FlasherError::from_error(Error::Io(IoError::new(IoErrorKind::Other, "x".to_string()))), FlasherError::IoError { msg } if msg == "x"));
    assert!(matches!(FlasherError::from_error(Error::UsbError("u".to_string())), FlasherError::UsbError { msg } if msg == "u"));
    assert!(matches!(FlasherError::from_error(Error::Cancelled), FlasherError::Cancelled));
    match FlasherError::from_error(Error::DeviceTooLarge(5)) {
        FlasherError::Unknown { msg } => assert_eq!(msg, "DeviceTooLarge(5)"),
        _ => panic!("expected unknown"),
    }
}

#[test]
fn block_write_plans() {
    assert_eq!(plan_block_write(1024, 1024, 512), BlockWrite::Aligned { lba: 2 });
    assert_eq!(
        plan_block_write(1000, 100, 512),
        BlockWrite::ReadModifyWrite { start_lba: 1, offset: 488, total_bytes: 1024 }
    );
    assert_eq!(read_window(1000, 100, 512), (1, 488, 1024));
    let mut blocks = vec![0u8; 8];
    merge_into_blocks(&mut blocks, 2, &[9, 9, 9]);
    assert_eq!(blocks, vec![0, 0, 9, 9, 9, 0, 0, 0]);
    assert_eq!(seek_position(SeekTarget::Start(5), 100, 1000), 5);
    assert_eq!(seek_position(SeekTarget::Current(-10), 100, 1000), 90);
    assert_eq!(seek_position(SeekTarget::End(-24), 100, 1000), 976);
}

#[test]
fn pending_writes() {
    let mut p = PendingWrites::new();
    assert!(p.write(&[1, 2, 3]).is_empty());
    assert_eq!(p.current_pos, 3);
    assert_eq!(p.pending_start, 0);
    let job = p.flush_pending().unwrap();
    assert_eq!(job.position, 0);
    assert_eq!(job.buffer, vec![1, 2, 3]);
    assert_eq!(job_end(&job), 3);
    assert!(!returns_to_pool(&job));
    assert_eq!(p.pending_start, 3);
    assert!(p.flush_pending().is_none());
    assert!(p.seek_to(512));
    let big = vec![7u8; ASYNC_BUFFER_SIZE];
    let jobs = p.write(&big);
    assert_eq!(jobs.len(), 1);
    assert_eq!(jobs[0].position, 512);
    assert!(returns_to_pool(&jobs[0]));
    assert_eq!(p.current_pos, 512 + ASYNC_BUFFER_SIZE as u64);
}

#[test]
fn digest_ignores_chunking() {
    let mut image = StreamDigest::new();
    image.update(b"hello ");
    image.update(b"world");
    let mut device = StreamDigest::new();
    device.update(b"hello world");
    assert!(image.verdict(&device).is_ok());
}

#[test]
fn digest_mismatch_fails_verification() {
    let mut image = StreamDigest::new();
    image.update(b"hello world");
    let mut device = StreamDigest::new();
    device.update(b"hello worle");
    match image.verdict(&device) {
        Err(Error::Io(x)) => {
            assert_eq!(x.message, "Verification Failed: BLAKE3 data mismatch");
            assert_eq!(x.kind, IoErrorKind::InvalidData);
        }
        other => panic!("unexpected {:?}", other),
    }
    let empty = StreamDigest::new();
    assert!(empty.verdict(&StreamDigest::new()).is_ok());
    assert!(empty.verdict(&device).is_err());
}

#[test]
fn pending_writes_keep_positions() {
    let mut p = PendingWrites::new();
    let jobs = p.write(&[1u8; 100]);
    assert!(jobs.is_empty());
    assert_eq!(p.pending_start + p.pending.len() as u64, p.current_pos);
    let big = vec![2u8; ASYNC_BUFFER_SIZE];
    let jobs = p.write(&big);
    assert_eq!(jobs.len(), 1);
    assert_eq!(jobs[0].position, 0);
    assert_eq!(jobs[0].buffer.len(), 100 + ASYNC_BUFFER_SIZE);
    assert_eq!(jobs[0].buffer[99], 1);
    assert_eq!(jobs[0].buffer[100], 2);
    assert_eq!(jobs[0].position + jobs[0].buffer.len() as u64, p.current_pos);
    assert!(p.pending.is_empty());
    assert_eq!(p.pending_start, p.current_pos);
}

#[test]
fn flasher_error_texts() {
    assert_eq!(FlasherError::IoError { msg: "gone".to_string() }.message(), "IO Error: gone");
    assert_eq!(FlasherError::UsbError { msg: "stall".to_string() }.message(), "USB Error: stall");
    assert_eq!(FlasherError::Cancelled.message(), "Cancelled");
    assert_eq!(FlasherError::InvalidIso { msg: "x".to_string() }.message(), "Invalid ISO: x");
    assert_eq!(FlasherError::Unknown { msg: "y".to_string() }.message(), "Unknown error: y");
}

#[test]
fn iso_reader_reads_from_its_source() {
    let mut iso = IsoReader::new(vec![1u8, 2, 3]).unwrap();
    assert_eq!(iso.reader(), &mut vec![1u8, 2, 3]);
}

#[test]
fn copy_plan_creates_directories_before_files() {
    let tree = vec![
        ("boot".to_string(), true, 0u64),
        ("boot/a.efi".to_string(), false, 10),
        ("setup.ini".to_string(), false, 0),
        ("sources".to_string(), true, 0),
        ("sources/Install.WIM".to_string(), false, 100),
        ("zz.txt".to_string(), false, 5),
    ];
    assert_eq!(
        copy_plan(&tree),
        vec![
            CopyStep::Directory(0),
            CopyStep::Directory(3),
            CopyStep::Copy(1, 0),
            CopyStep::Empty(2),
            CopyStep::MainImage(4, 10),
            CopyStep::Copy(5, 110),
        ]
    );
}
