use zedit::swap::{
    check_swap, decode_swap, encode_swap, swap_path, swap_path_untitled, write_swap, write_swap_untitled, SwapError,
    SwapStatus,
};

#[test]
fn test_swap_path() {
    let swp = swap_path("/home/user/project/foo.rs");
    assert_eq!(swp, "/home/user/project/.foo.rs.swp");
}

#[test]
fn test_swap_path_untitled() {
    let swp = swap_path_untitled("/home/user/.local/state/zedit", 1);
    assert!(swp.contains("NewBuffer01.swp"));
    let swp2 = swap_path_untitled("/home/user/.local/state/zedit", 12);
    assert!(swp2.contains("NewBuffer12.swp"));
}

// ---------------------------------------------------------------------------

#[test]
fn swap_roundtrip() {
    let bytes = encode_swap("/tmp/test.txt", 4242, 1_700_000_000, true, b"modified content here");
    let (header, content) = decode_swap(&bytes).unwrap();
    assert_eq!(header.pid, 4242);
    assert_eq!(header.timestamp, 1_700_000_000);
    assert_eq!(header.original_path, "/tmp/test.txt");
    assert!(header.modified);
    assert_eq!(content, "modified content here");
}

#[test]
fn swap_decode_errors() {
    assert_eq!(decode_swap(b"not a swap file").err(), Some(SwapError::TooShort));
    let mut bytes = encode_swap("p", 1, 2, false, b"");
    bytes[0] = b'X';
    assert_eq!(decode_swap(&bytes).err(), Some(SwapError::BadMagic));
    let mut bytes = encode_swap("p", 1, 2, false, b"");
    bytes[4] = 2;
    assert_eq!(decode_swap(&bytes).err(), Some(SwapError::UnsupportedVersion(2)));
    let mut bytes = encode_swap("p", 1, 2, false, b"");
    bytes[20] = 200;
    assert_eq!(decode_swap(&bytes).err(), Some(SwapError::Truncated));
    let mut bytes = encode_swap("p", 1, 2, false, b"");
    bytes[24] = 0xff;
    assert_eq!(decode_swap(&bytes).err(), Some(SwapError::InvalidPath));
}

#[test]
fn swap_status_cases() {
    let ok = decode_swap(&encode_swap("/f", 10, 0, false, b"x"));
    assert_eq!(check_swap(None, 10, false), SwapStatus::Missing);
    assert_eq!(check_swap(Some(&ok), 10, false), SwapStatus::OwnedByUs);
    assert_eq!(check_swap(Some(&ok), 11, true), SwapStatus::OwnedByUs);
    assert_eq!(check_swap(Some(&ok), 11, false), SwapStatus::Orphaned);
    let bad = decode_swap(b"garbage");
    assert_eq!(check_swap(Some(&bad), 11, false), SwapStatus::Corrupt);
}

#[test]
fn write_swap_pairs() {
    let (p, bytes) = write_swap("/a/b.txt", b"hi", false, 7, 8);
    assert_eq!(p, "/a/.b.txt.swp");
    assert_eq!(decode_swap(&bytes).unwrap().0.original_path, "/a/b.txt");
    let (p, bytes) = write_swap_untitled("/s", 3, b"", true, 7, 8);
    assert_eq!(p, "/s/swap/NewBuffer03.swp");
    assert_eq!(decode_swap(&bytes).unwrap().0.original_path, "NewBuffer03");
    assert_eq!(swap_path("foo.rs"), ".foo.rs.swp");
}
