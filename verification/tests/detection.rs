use compu::decoder::Detection;

const ZLIB_HEADERS: [[u8; 5]; 8] = [
    [0x08, 0x1d, 0x5b, 0x99, 0xd7],
    [0x18, 0x19, 0x57, 0x95, 0xd3],
    [0x28, 0x15, 0x53, 0x91, 0xcf],
    [0x38, 0x11, 0x4f, 0x8d, 0xcb],
    [0x48, 0x0d, 0x4b, 0x89, 0xc7],
    [0x58, 0x09, 0x47, 0x85, 0xc3],
    [0x68, 0x05, 0x43, 0x81, 0xde],
    [0x78, 0x01, 0x5e, 0x9c, 0xda],
];

#[test]
fn should_detect_gzip() {
    assert_eq!(Detection::detect(&[0x1f, 0x8b]), Some(Detection::Gzip));
    assert_eq!(Detection::detect(&[0x1f, 0x8b, 0x08]), Some(Detection::Gzip));
    assert_eq!(
        Detection::detect(&[0x1f, 0x8b, 0x08, 0x00, 0x00, 0x00, 0x00, 0x00, 0x02, 0x03]),
        Some(Detection::Gzip)
    );
    assert_eq!(Detection::detect(&[0x8b, 0x1f, 0x08, 0x00]), Some(Detection::Unknown));
}

#[test]
fn should_detect_every_zlib_header() {
    for row in ZLIB_HEADERS {
        for flag in &row[1..] {
            assert_eq!((row[0] as u32 * 256 + *flag as u32) % 31, 0);
            assert_eq!(Detection::detect(&[row[0], *flag]), Some(Detection::Zlib));
            assert_eq!(Detection::detect(&[row[0], *flag, 0, 0, 0, 0]), Some(Detection::Zlib));
        }
    }
}

#[test]
fn should_detect_exactly_the_listed_zlib_headers() {
    let mut count = 0;
    for first in 0..=255u8 {
        for second in 0..=255u8 {
            let listed = ZLIB_HEADERS.iter().any(|row| row[0] == first && row[1..].contains(&second));
            let found = Detection::detect(&[first, second, 0, 0]);
            if listed {
                count += 1;
                assert_eq!(found, Some(Detection::Zlib));
            } else if first == 0x1f && second == 0x8b {
                assert_eq!(found, Some(Detection::Gzip));
            } else {
                assert_eq!(found, Some(Detection::Unknown));
            }
        }
    }
    assert_eq!(count, 32);
}

#[test]
fn should_not_take_multiple_of_31_alone_for_zlib() {
    //0x7820 is a multiple of 31 with a preset dictionary flag, which is not listed
    assert_eq!((0x78u32 * 256 + 0x20) % 31, 0);
    assert_eq!(Detection::detect(&[0x78, 0x20, 0, 0]), Some(Detection::Unknown));
    //listed flag byte, but of another first byte
    assert_eq!(Detection::detect(&[0x78, 0x1d, 0, 0]), Some(Detection::Unknown));
}

#[test]
fn should_detect_zstd() {
    assert_eq!(Detection::detect(&[0x28, 0xb5, 0x2f, 0xfd]), Some(Detection::Zstd));
    assert_eq!(Detection::detect(&[0x28, 0xb5, 0x2f, 0xfd, 0x00]), Some(Detection::Zstd));
    assert_eq!(Detection::detect(&[0xfd, 0x2f, 0xb5, 0x28]), Some(Detection::Unknown));
    assert_eq!(Detection::detect(&[0x28, 0xb5, 0x2f, 0xfc]), Some(Detection::Unknown));
}

#[test]
fn should_ask_for_more_bytes_when_undecided() {
    assert_eq!(Detection::detect(&[]), None);
    for byte in 0..=255u8 {
        assert_eq!(Detection::detect(&[byte]), None);
    }
    //neither gzip nor zlib, and too short to rule out zstd
    assert_eq!(Detection::detect(&[0x28, 0xb5]), None);
    assert_eq!(Detection::detect(&[0x28, 0xb5, 0x2f]), None);
    assert_eq!(Detection::detect(&[0x00, 0x00, 0x00]), None);
}

#[test]
fn should_classify_four_unmatched_bytes_as_unknown() {
    assert_eq!(Detection::detect(&[0, 0, 0, 0]), Some(Detection::Unknown));
    assert_eq!(Detection::detect(b"test"), Some(Detection::Unknown));
    assert_eq!(Detection::detect(b"XXXXXXXXXXYYYYYYYYYY"), Some(Detection::Unknown));
}

#[test]
fn should_keep_detection_when_more_bytes_follow() {
    let samples: [&[u8]; 4] = [&[0x1f, 0x8b], &[0x78, 0x9c], &[0x28, 0xb5, 0x2f, 0xfd], b"none"];
    for sample in samples {
        let found = Detection::detect(sample);
        assert!(found.is_some());
        let mut longer = sample.to_vec();
        for extra in [0x00, 0x1f, 0x8b, 0x78, 0xff] {
            longer.push(extra);
            assert_eq!(Detection::detect(&longer), found);
        }
    }
}
