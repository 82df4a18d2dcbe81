use zedit::simd::{scan_newlines, scan_swar};

fn scan_scalar(data: &[u8], base: usize) -> Vec<usize> {
    data.iter()
        .enumerate()
        .filter(|(_, b)| **b == b'\n')
        .map(|(i, _)| base + i + 1)
        .collect()
}

#[test]
fn swar_empty() {
    let mut out = Vec::new();
    scan_swar(b"", 0, &mut out);
    assert!(out.is_empty());
}

#[test]
fn swar_no_newlines() {
    let mut out = Vec::new();
    scan_swar(b"hello world", 0, &mut out);
    assert!(out.is_empty());
}

#[test]
fn swar_single_newline() {
    let mut out = Vec::new();
    scan_swar(b"hello\nworld", 0, &mut out);
    assert_eq!(out, vec![6]);
}

#[test]
fn swar_trailing_newline() {
    let mut out = Vec::new();
    scan_swar(b"abc\n", 0, &mut out);
    assert_eq!(out, vec![4]);
}

#[test]
fn swar_only_newlines() {
    let mut out = Vec::new();
    scan_swar(b"\n\n\n", 0, &mut out);
    assert_eq!(out, vec![1, 2, 3]);
}

#[test]
fn swar_base_offset() {
    let mut out = Vec::new();
    scan_swar(b"a\nb\n", 100, &mut out);
    assert_eq!(out, vec![102, 104]);
}

#[test]
fn swar_matches_scalar_lengths_0_to_64() {
    for len in 0..=64_usize {
        let text: Vec<u8> = (0..len).map(|i| if i % 7 == 6 { b'\n' } else { b'x' }).collect();
        let expected = scan_scalar(&text, 0);
        let mut actual = Vec::new();
        scan_swar(&text, 0, &mut actual);
        assert_eq!(actual, expected, "swar mismatch at len={len}");
    }
}

#[test]
fn dispatch_newline_at_every_position_256() {
    for pos in 0..256_usize {
        let mut data = vec![b'x'; 256];
        data[pos] = b'\n';
        let mut actual = Vec::new();
        scan_newlines(&data, 0, &mut actual);
        assert_eq!(actual, vec![pos + 1]);
    }
}

#[test]
fn scan_appends_to_existing() {
    let mut out = vec![0];
    scan_newlines(b"a\n", 5, &mut out);
    assert_eq!(out, vec![0, 7]);
}

#[test]
fn dispatch_empty() {
    let mut out = Vec::new();
    scan_newlines(b"", 0, &mut out);
    assert!(out.is_empty());
}

#[test]
fn dispatch_matches_scalar() {
    let text = b"line1\nline2\nline3\nno newline at end";
    let expected = scan_scalar(text, 0);
    let mut actual = Vec::new();
    scan_newlines(text, 0, &mut actual);
    assert_eq!(actual, expected);
}

#[test]
fn dispatch_base_offset() {
    let text = b"a\nb";
    let mut out = Vec::new();
    scan_newlines(text, 1000, &mut out);
    assert_eq!(out, vec![1002]);
}

#[test]
fn dispatch_no_newlines_256_bytes() {
    let data = vec![b'a'; 256];
    let mut out = Vec::new();
    scan_newlines(&data, 0, &mut out);
    assert!(out.is_empty());
}

#[test]
fn dispatch_large_buffer() {
    // 512 KB of "a\n" repeated — 262 144 newlines.
    let data: Vec<u8> = b"a\n".iter().cycle().take(524_288).copied().collect();
    let expected = scan_scalar(&data, 0);
    let mut actual = Vec::new();
    scan_newlines(&data, 0, &mut actual);
    assert_eq!(actual.len(), 262_144, "wrong newline count in large buffer");
    assert_eq!(actual, expected, "large buffer results diverge from scalar");
}

#[test]
fn dispatch_matches_scalar_lengths_0_to_256() {
    for len in 0..=256_usize {
        let text: Vec<u8> = (0..len)
            .map(|i| if i % 11 == 10 { b'\n' } else { b'y' })
            .collect();
        let expected = scan_scalar(&text, 0);
        let mut actual = Vec::new();
        scan_newlines(&text, 0, &mut actual);
        assert_eq!(actual, expected, "dispatch mismatch at len={len}");
    }
}
