use hyntix::error::{Error, IoError, IoErrorKind};

#[test]
fn error_codes() {
    assert_eq!(Error::InvalidIso("x".to_string()).code(), -100);
    assert_eq!(Error::FileNotFound("x".to_string()).code(), -104);
    assert_eq!(Error::DeviceTooSmall { required: 1, available: 0 }.code(), -200);
    assert_eq!(Error::WimSplitError("x".to_string()).code(), -301);
    assert_eq!(Error::Io(IoError::new(IoErrorKind::Other, "x".to_string())).code(), -400);
    assert_eq!(Error::SizeMismatch { operation: "op", expected: 1, actual: 0 }.code(), -402);
    assert_eq!(Error::Cancelled.code(), -500);
    assert_eq!(Error::UsbError("x".to_string()).code(), -600);
}

#[test]
fn error_texts() {
    let s = |t: &str| t.to_string();
    let cases = vec![
        (Error::InvalidIso(s("bad")), "Invalid ISO 9660 format: bad"),
        (Error::NotWindowsIso(s("setup")), "Not a Windows installation ISO: missing setup"),
        (Error::UdfError(s("x")), "UDF parsing error: x"),
        (Error::DirectoryReadError(s("x")), "Failed to read directory: x"),
        (Error::FileNotFound(s("a.txt")), "File not found in ISO: a.txt"),
        (
            Error::DeviceTooSmall { required: 536870912, available: 1024 },
            "Device too small: need at least 536870912 bytes, have 1024 bytes",
        ),
        (Error::DeviceTooLarge(7), "Device too large for FAT32: 7 bytes (max 2TB)"),
        (Error::GptError(s("x")), "Failed to create GPT: x"),
        (Error::Fat32FormatError(s("x")), "FAT32 format error: x"),
        (Error::ClusterAllocationError(s("x")), "Failed to allocate cluster: x"),
        (Error::InvalidWimHeader(s("x")), "Invalid WIM header: x"),
        (Error::WimSplitError(s("x")), "WIM split error: x"),
        (Error::Io(IoError::new(IoErrorKind::NotFound, s("disk gone"))), "I/O error: disk gone"),
        (Error::SeekError { offset: 4096, message: s("nope") }, "Seek error at offset 4096: nope"),
        (
            Error::SizeMismatch { operation: "verify read", expected: 10, actual: 3 },
            "Expected to verify read 10 bytes, but got 3",
        ),
        (Error::Cancelled, "Operation cancelled"),
        (Error::AlreadyInProgress, "Flash operation already in progress"),
        (Error::DeviceBusy(s("x")), "Device is busy: x"),
        (Error::UsbError(s("stall")), "USB error: stall"),
    ];
    for (e, text) in cases {
        assert_eq!(e.message(), text);
    }
}

#[test]
fn debug_texts_match_rust_debug() {
    let s = |t: &str| t.to_string();
    let cases = vec![
        Error::InvalidIso(s("say \"hi\"\\n\t")),
        Error::NotWindowsIso(s("café")),
        Error::UdfError(s("x")),
        Error::DirectoryReadError(s("x")),
        Error::FileNotFound(s("a.txt")),
        Error::DeviceTooSmall { required: 536870912, available: 1024 },
        Error::DeviceTooLarge(7),
        Error::GptError(s("x")),
        Error::Fat32FormatError(s("x")),
        Error::ClusterAllocationError(s("x")),
        Error::InvalidWimHeader(s("x")),
        Error::WimSplitError(s("x")),
        Error::Io(IoError::new(IoErrorKind::TimedOut, s("late"))),
        Error::SeekError { offset: 4096, message: s("nope") },
        Error::SizeMismatch { operation: "verify read", expected: 10, actual: 3 },
        Error::Cancelled,
        Error::AlreadyInProgress,
        Error::DeviceBusy(s("x")),
        Error::UsbError(s("stall")),
    ];
    for e in cases {
        assert_eq!(e.debug_text(), format!("{:?}", e));
    }
    assert_eq!(Error::DeviceTooLarge(7).debug_text(), "DeviceTooLarge(7)");
}
