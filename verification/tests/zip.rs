use prism_llae::zip::{crc32, zip_store};

#[test]
fn crc_check_value() {
    assert_eq!(crc32(b"123456789"), 0xCBF4_3926);
    assert_eq!(crc32(b""), 0);
    assert_eq!(crc32(b"a"), 0xE8B7_BE43);
}

#[test]
fn archive_of_two_entries() {
    let expected: Vec<u8> = vec![
        0x50, 0x4b, 0x03, 0x04, 0x14, 0x00, 0x00, 0x00, 0x00, 0x00, 0x00, 0x00, 0x00, 0x00,
        0x86, 0xa6, 0x10, 0x36, 0x05, 0x00, 0x00, 0x00, 0x05, 0x00, 0x00, 0x00, 0x05, 0x00,
        0x00, 0x00, 0x61, 0x2e, 0x74, 0x78, 0x74, 0x68, 0x65, 0x6c, 0x6c, 0x6f, 0x50, 0x4b,
        0x03, 0x04, 0x14, 0x00, 0x00, 0x00, 0x00, 0x00, 0x00, 0x00, 0x00, 0x00, 0x46, 0xd7,
        0x6c, 0x45, 0x0a, 0x00, 0x00, 0x00, 0x0a, 0x00, 0x00, 0x00, 0x09, 0x00, 0x00, 0x00,
        0x64, 0x69, 0x72, 0x2f, 0x62, 0x2e, 0x62, 0x69, 0x6e, 0x00, 0x01, 0x02, 0x03, 0x04,
        0x05, 0x06, 0x07, 0x08, 0x09, 0x50, 0x4b, 0x01, 0x02, 0x14, 0x00, 0x14, 0x00, 0x00,
        0x00, 0x00, 0x00, 0x00, 0x00, 0x00, 0x00, 0x86, 0xa6, 0x10, 0x36, 0x05, 0x00, 0x00,
        0x00, 0x05, 0x00, 0x00, 0x00, 0x05, 0x00, 0x00, 0x00, 0x00, 0x00, 0x00, 0x00, 0x00,
        0x00, 0x00, 0x00, 0x00, 0x00, 0x00, 0x00, 0x00, 0x00, 0x61, 0x2e, 0x74, 0x78, 0x74,
        0x50, 0x4b, 0x01, 0x02, 0x14, 0x00, 0x14, 0x00, 0x00, 0x00, 0x00, 0x00, 0x00, 0x00,
        0x00, 0x00, 0x46, 0xd7, 0x6c, 0x45, 0x0a, 0x00, 0x00, 0x00, 0x0a, 0x00, 0x00, 0x00,
        0x09, 0x00, 0x00, 0x00, 0x00, 0x00, 0x00, 0x00, 0x00, 0x00, 0x00, 0x00, 0x00, 0x00,
        0x28, 0x00, 0x00, 0x00, 0x64, 0x69, 0x72, 0x2f, 0x62, 0x2e, 0x62, 0x69, 0x6e, 0x50,
        0x4b, 0x05, 0x06, 0x00, 0x00, 0x00, 0x00, 0x02, 0x00, 0x02, 0x00, 0x6a, 0x00, 0x00,
        0x00, 0x59, 0x00, 0x00, 0x00, 0x00, 0x00
    ];
    let entries = vec![
        ("a.txt", b"hello".to_vec()),
        ("dir/b.bin", (0u8..10).collect::<Vec<u8>>()),
    ];
    assert_eq!(zip_store(&entries), expected);
}

#[test]
fn empty_archive_is_an_end_record() {
    let out = zip_store(&[]);
    assert_eq!(out.len(), 22);
    assert_eq!(&out[..4], &[0x50, 0x4b, 0x05, 0x06]);
    assert!(out[4..].iter().all(|b| *b == 0));
}

#[test]
fn directory_offsets_find_the_entries() {
    let entries = vec![("x", vec![1u8; 100]), ("yy", vec![2u8; 7]), ("zzz", Vec::new())];
    let out = zip_store(&entries);
    let u32_at = |i: usize| u32::from_le_bytes([out[i], out[i + 1], out[i + 2], out[i + 3]]) as usize;
    let end = out.len() - 22;
    let mut at = u32_at(end + 16);
    assert_eq!(u32_at(end + 12), end - at);
    for (name, data) in &entries {
        assert_eq!(u32_at(at), 0x0201_4b50);
        let offset = u32_at(at + 42);
        assert_eq!(u32_at(offset), 0x0403_4b50);
        let start = offset + 30 + name.len();
        assert_eq!(&out[offset + 30..start], name.as_bytes());
        assert_eq!(&out[start..start + data.len()], data.as_slice());
        at += 46 + name.len();
    }
    assert_eq!(at, end);
}
