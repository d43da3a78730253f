use ips_gui::exif::{extract_user_comment, TAG_USER_COMMENT};

fn make_exif_user_comment(comment: &str) -> Vec<u8> {
    let charset = b"ASCII\0\0\0";
    let text = comment.as_bytes();
    let count = (8 + text.len()) as u32;
    let value_offset: u32 = 26;

    let mut buf = Vec::new();
    buf.extend_from_slice(b"II");
    buf.extend_from_slice(&42u16.to_le_bytes());
    buf.extend_from_slice(&8u32.to_le_bytes());
    buf.extend_from_slice(&1u16.to_le_bytes());
    buf.extend_from_slice(&TAG_USER_COMMENT.to_le_bytes());
    buf.extend_from_slice(&7u16.to_le_bytes());
    buf.extend_from_slice(&count.to_le_bytes());
    buf.extend_from_slice(&value_offset.to_le_bytes());
    buf.extend_from_slice(&0u32.to_le_bytes());
    buf.extend_from_slice(charset);
    buf.extend_from_slice(text);
    buf
}

#[test]
fn ascii_user_comment() {
    let exif = make_exif_user_comment("1girl, masterpiece");
    assert_eq!(extract_user_comment(&exif).unwrap(), "1girl, masterpiece");
}

#[test]
fn with_exif_prefix() {
    let mut exif = b"Exif\0\0".to_vec();
    exif.extend_from_slice(&make_exif_user_comment("sunset landscape"));
    assert_eq!(extract_user_comment(&exif).unwrap(), "sunset landscape");
}

#[test]
fn returns_none_for_empty_comment() {
    let exif = make_exif_user_comment("   ");
    assert!(extract_user_comment(&exif).is_none());
}

#[test]
fn returns_none_for_garbage() {
    assert!(extract_user_comment(b"not exif data").is_none());
}

#[test]
fn unicode_le_user_comment() {
    let text = "cyberpunk city";
    let utf16: Vec<u8> = text.encode_utf16().flat_map(|c| c.to_le_bytes()).collect();
    let count = (8 + utf16.len()) as u32;
    let value_offset: u32 = 26;

    let mut buf = Vec::new();
    buf.extend_from_slice(b"II");
    buf.extend_from_slice(&42u16.to_le_bytes());
    buf.extend_from_slice(&8u32.to_le_bytes());
    buf.extend_from_slice(&1u16.to_le_bytes());
    buf.extend_from_slice(&TAG_USER_COMMENT.to_le_bytes());
    buf.extend_from_slice(&7u16.to_le_bytes());
    buf.extend_from_slice(&count.to_le_bytes());
    buf.extend_from_slice(&value_offset.to_le_bytes());
    buf.extend_from_slice(&0u32.to_le_bytes());
    buf.extend_from_slice(b"UNICODE\0");
    buf.extend_from_slice(&utf16);

    assert_eq!(extract_user_comment(&buf).unwrap(), "cyberpunk city");
}

#[test]
fn unicode_be_user_comment() {
    let text = "score_9, masterpiece";
    let utf16: Vec<u8> = text.encode_utf16().flat_map(|c| c.to_be_bytes()).collect();
    let count = (8 + utf16.len()) as u32;
    let value_offset: u32 = 26;

    let mut buf = Vec::new();
    buf.extend_from_slice(b"MM");
    buf.extend_from_slice(&42u16.to_be_bytes());
    buf.extend_from_slice(&8u32.to_be_bytes());
    buf.extend_from_slice(&1u16.to_be_bytes());
    buf.extend_from_slice(&TAG_USER_COMMENT.to_be_bytes());
    buf.extend_from_slice(&7u16.to_be_bytes());
    buf.extend_from_slice(&count.to_be_bytes());
    buf.extend_from_slice(&value_offset.to_be_bytes());
    buf.extend_from_slice(&0u32.to_be_bytes());
    buf.extend_from_slice(b"UNICODE\0");
    buf.extend_from_slice(&utf16);

    assert_eq!(extract_user_comment(&buf).unwrap(), "score_9, masterpiece");
}

#[test]
fn unicode_bom_overrides_tiff_order() {
    let text = "landscape";
    let utf16: Vec<u8> = text.encode_utf16().flat_map(|c| c.to_le_bytes()).collect();
    let bom = [0xFF_u8, 0xFE];
    let count = (8 + 2 + utf16.len()) as u32;
    let value_offset: u32 = 26;

    let mut buf = Vec::new();
    buf.extend_from_slice(b"MM");
    buf.extend_from_slice(&42u16.to_be_bytes());
    buf.extend_from_slice(&8u32.to_be_bytes());
    buf.extend_from_slice(&1u16.to_be_bytes());
    buf.extend_from_slice(&TAG_USER_COMMENT.to_be_bytes());
    buf.extend_from_slice(&7u16.to_be_bytes());
    buf.extend_from_slice(&count.to_be_bytes());
    buf.extend_from_slice(&value_offset.to_be_bytes());
    buf.extend_from_slice(&0u32.to_be_bytes());
    buf.extend_from_slice(b"UNICODE\0");
    buf.extend_from_slice(&bom);
    buf.extend_from_slice(&utf16);

    assert_eq!(extract_user_comment(&buf).unwrap(), "landscape");
}

// A comment reached through the EXIF sub-IFD that IFD0 points to.
#[test]
fn follows_exif_sub_ifd() {
    let text = b"nested comment";
    let mut buf = Vec::new();
    buf.extend_from_slice(b"II");
    buf.extend_from_slice(&42u16.to_le_bytes());
    buf.extend_from_slice(&8u32.to_le_bytes());
    // IFD0 at 8: one entry, the EXIF sub-IFD pointer to offset 26.
    buf.extend_from_slice(&1u16.to_le_bytes());
    buf.extend_from_slice(&0x8769u16.to_le_bytes());
    buf.extend_from_slice(&4u16.to_le_bytes());
    buf.extend_from_slice(&1u32.to_le_bytes());
    buf.extend_from_slice(&26u32.to_le_bytes());
    buf.extend_from_slice(&0u32.to_le_bytes());
    // Sub-IFD at 26: one UserComment entry whose value is at 44.
    buf.extend_from_slice(&1u16.to_le_bytes());
    buf.extend_from_slice(&TAG_USER_COMMENT.to_le_bytes());
    buf.extend_from_slice(&7u16.to_le_bytes());
    buf.extend_from_slice(&((8 + text.len()) as u32).to_le_bytes());
    buf.extend_from_slice(&44u32.to_le_bytes());
    buf.extend_from_slice(&0u32.to_le_bytes());
    buf.extend_from_slice(b"ASCII\0\0\0");
    buf.extend_from_slice(text);
    assert_eq!(extract_user_comment(&buf).unwrap(), "nested comment");
}

// NULs and whitespace around the text are removed.
#[test]
fn trims_nul_padding() {
    let exif = make_exif_user_comment("\0\0 portrait \0");
    assert_eq!(extract_user_comment(&exif).unwrap(), "portrait");
}

// A header with the wrong magic number is not TIFF.
#[test]
fn rejects_wrong_magic() {
    let mut exif = make_exif_user_comment("text");
    exif[2] = 43;
    assert!(extract_user_comment(&exif).is_none());
}

fn le_unicode_comment(body: &[u8]) -> Vec<u8> {
    let mut buf = Vec::new();
    buf.extend_from_slice(b"II");
    buf.extend_from_slice(&42u16.to_le_bytes());
    buf.extend_from_slice(&8u32.to_le_bytes());
    buf.extend_from_slice(&1u16.to_le_bytes());
    buf.extend_from_slice(&TAG_USER_COMMENT.to_le_bytes());
    buf.extend_from_slice(&7u16.to_le_bytes());
    buf.extend_from_slice(&((8 + body.len()) as u32).to_le_bytes());
    buf.extend_from_slice(&26u32.to_le_bytes());
    buf.extend_from_slice(&0u32.to_le_bytes());
    buf.extend_from_slice(b"UNICODE\0");
    buf.extend_from_slice(body);
    buf
}

#[test]
fn utf16_comment_round_trips_beyond_the_bmp() {
    let text = "\0 palette 🎨 of 𝄞 music \0";
    let le: Vec<u8> = text.encode_utf16().flat_map(|c| c.to_le_bytes()).collect();
    assert_eq!(extract_user_comment(&le_unicode_comment(&le)).unwrap(), "palette 🎨 of 𝄞 music");
    let mut be = vec![0xFE, 0xFF];
    be.extend(text.encode_utf16().flat_map(|c| c.to_be_bytes()));
    assert_eq!(extract_user_comment(&le_unicode_comment(&be)).unwrap(), "palette 🎨 of 𝄞 music");
}

#[test]
fn unpaired_surrogate_becomes_replacement() {
    let units: [u16; 4] = [0x61, 0xD800, 0x62, 0xDC00];
    let body: Vec<u8> = units.iter().flat_map(|u| u.to_le_bytes()).collect();
    assert_eq!(extract_user_comment(&le_unicode_comment(&body)).unwrap(), "a\u{FFFD}b\u{FFFD}");
}
