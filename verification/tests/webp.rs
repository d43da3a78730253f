use ips_gui::types::ScanIssue;
use ips_gui::webp::scan_webp;
use std::path::PathBuf;

fn make_webp_with_xmp(xmp: &str) -> Vec<u8> {
    let xmp_bytes = xmp.as_bytes();
    let chunk_size = xmp_bytes.len() as u32;
    let padded_size = (xmp_bytes.len() + (xmp_bytes.len() & 1)) as u32;
    let riff_size = (4 + 8 + padded_size).to_le_bytes();

    let mut webp = Vec::new();
    webp.extend_from_slice(b"RIFF");
    webp.extend_from_slice(&riff_size);
    webp.extend_from_slice(b"WEBP");
    webp.extend_from_slice(b"XMP ");
    webp.extend_from_slice(&chunk_size.to_le_bytes());
    webp.extend_from_slice(xmp_bytes);
    if xmp_bytes.len() % 2 != 0 {
        webp.push(0);
    }
    webp
}

fn path() -> PathBuf {
    PathBuf::from("test.webp")
}

#[test]
fn extracts_xmp_from_webp() {
    let xmp = r#"<rdf:RDF>
  <rdf:Description>
    <dc:description>
      <rdf:Alt>
        <rdf:li xml:lang="x-default">sunset landscape, watercolor</rdf:li>
      </rdf:Alt>
    </dc:description>
  </rdf:Description>
</rdf:RDF>"#;
    let webp_bytes = make_webp_with_xmp(xmp);
    let records = scan_webp(&path(), &webp_bytes).records;
    assert_eq!(records.len(), 1);
    assert_eq!(records[0].prompt, "sunset landscape, watercolor");
}

#[test]
fn skips_vp8_chunk_before_xmp() {
    let xmp = r#"<rdf:RDF><rdf:Description><dc:description><rdf:Alt>
            <rdf:li xml:lang="x-default">after image data</rdf:li>
            </rdf:Alt></dc:description></rdf:Description></rdf:RDF>"#;
    let xmp_bytes = xmp.as_bytes();
    let fake_vp8l = vec![0u8; 1024];

    let xmp_chunk_size = xmp_bytes.len() as u32;
    let vp8l_chunk_size = fake_vp8l.len() as u32;
    let riff_size = (4u32 + 8 + vp8l_chunk_size + 8 + xmp_chunk_size).to_le_bytes();

    let mut webp = Vec::new();
    webp.extend_from_slice(b"RIFF");
    webp.extend_from_slice(&riff_size);
    webp.extend_from_slice(b"WEBP");
    webp.extend_from_slice(b"VP8L");
    webp.extend_from_slice(&vp8l_chunk_size.to_le_bytes());
    webp.extend_from_slice(&fake_vp8l);
    webp.extend_from_slice(b"XMP ");
    webp.extend_from_slice(&xmp_chunk_size.to_le_bytes());
    webp.extend_from_slice(xmp_bytes);

    let records = scan_webp(&path(), &webp).records;
    assert_eq!(records.len(), 1);
    assert!(records[0].prompt.contains("after image data"));
}

#[test]
fn rejects_invalid_webp() {
    let scan = scan_webp(&path(), b"not a webp file at all");
    assert!(scan.records.is_empty());
    assert_eq!(scan.issue, Some(ScanIssue::NotWebp));
}

#[test]
fn too_small_for_header() {
    assert_eq!(scan_webp(&path(), b"RIFF").issue, Some(ScanIssue::WebpTooSmall));
}

#[test]
fn truncated_xmp_is_reported() {
    let mut webp = make_webp_with_xmp("<dc:description>");
    webp.truncate(webp.len() - 4);
    let scan = scan_webp(&path(), &webp);
    assert!(scan.records.is_empty());
    assert_eq!(scan.issue, Some(ScanIssue::TruncatedXmp));
}

#[test]
fn odd_sized_chunk_is_padded() {
    let mut webp = Vec::new();
    webp.extend_from_slice(b"RIFF\0\0\0\0WEBP");
    webp.extend_from_slice(b"ICCP");
    webp.extend_from_slice(&3u32.to_le_bytes());
    webp.extend_from_slice(b"abc\0");
    let xmp = b"<dc:description><rdf:li>odd</rdf:li></dc:description>";
    webp.extend_from_slice(b"XMP ");
    webp.extend_from_slice(&(xmp.len() as u32).to_le_bytes());
    webp.extend_from_slice(xmp);
    let records = scan_webp(&path(), &webp).records;
    assert_eq!(records.len(), 1);
    assert_eq!(records[0].prompt, "odd");
}

#[test]
fn truncated_exif_is_reported() {
    let mut webp = Vec::new();
    webp.extend_from_slice(b"RIFF\0\0\0\0WEBP");
    webp.extend_from_slice(b"EXIF");
    webp.extend_from_slice(&40u32.to_le_bytes());
    webp.extend_from_slice(b"II*\0\x08\0\0\0");
    let scan = scan_webp(&path(), &webp);
    assert!(scan.records.is_empty());
    assert_eq!(scan.issue, Some(ScanIssue::TruncatedExif));
}

#[test]
fn exif_chunk_gives_user_comment() {
    let comment = b"ASCII\0\0\0a lighthouse in fog";
    let mut tiff = Vec::new();
    tiff.extend_from_slice(b"MM\0\x2a\0\0\0\x08");
    tiff.extend_from_slice(&1u16.to_be_bytes());
    tiff.extend_from_slice(&0x9286u16.to_be_bytes());
    tiff.extend_from_slice(&7u16.to_be_bytes());
    tiff.extend_from_slice(&(comment.len() as u32).to_be_bytes());
    tiff.extend_from_slice(&26u32.to_be_bytes());
    tiff.extend_from_slice(&0u32.to_be_bytes());
    tiff.extend_from_slice(comment);
    let mut webp = Vec::new();
    webp.extend_from_slice(b"RIFF\0\0\0\0WEBP");
    webp.extend_from_slice(b"EXIF");
    webp.extend_from_slice(&(tiff.len() as u32).to_le_bytes());
    webp.extend_from_slice(&tiff);
    let scan = scan_webp(&path(), &webp);
    assert_eq!(scan.issue, None);
    assert_eq!(scan.records.len(), 1);
    assert_eq!(scan.records[0].prompt, "a lighthouse in fog");
    assert_eq!(scan.records[0].metadata_key, "UserComment");
}
