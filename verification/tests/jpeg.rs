use ips_gui::jpeg::{
    description_in_xmp, detect_xmp_generator, extract_xmp_description, scan_jpeg,
};
use ips_gui::types::{Generator, ScanIssue};
use std::path::PathBuf;

#[test]
fn xmp_description_extraction() {
    let xmp = r#"<?xpacket?>
<rdf:RDF>
  <rdf:Description>
    <dc:description>
      <rdf:Alt>
        <rdf:li xml:lang="x-default">cyberpunk city, neon lights</rdf:li>
      </rdf:Alt>
    </dc:description>
  </rdf:Description>
</rdf:RDF>"#;
    let result = extract_xmp_description(xmp.as_bytes()).unwrap();
    assert_eq!(result, "cyberpunk city, neon lights");
}

#[test]
fn xmp_description_returns_none_when_absent() {
    let xmp = b"<rdf:RDF><rdf:Description></rdf:Description></rdf:RDF>";
    assert!(extract_xmp_description(xmp).is_none());
}

fn make_jpeg_with_com(comment: &str) -> Vec<u8> {
    let mut jpeg = Vec::new();
    jpeg.extend_from_slice(&[0xFF, 0xD8]);
    jpeg.extend_from_slice(&[0xFF, 0xFE]);
    let body = comment.as_bytes();
    let len = (body.len() as u16 + 2).to_be_bytes();
    jpeg.extend_from_slice(&len);
    jpeg.extend_from_slice(body);
    jpeg.extend_from_slice(&[0xFF, 0xD9]);
    jpeg
}

#[test]
fn extracts_com_comment() {
    let jpeg_bytes = make_jpeg_with_com("portrait of a woman, oil painting");
    let records = scan_jpeg(&PathBuf::from("test.jpg"), &jpeg_bytes).records;
    assert_eq!(records.len(), 1);
    assert_eq!(records[0].generator, Generator::A1111);
    assert_eq!(records[0].prompt, "portrait of a woman, oil painting");
}

#[test]
fn detects_invokeai_namespace() {
    assert_eq!(detect_xmp_generator(b"<x xmlns:invokeai=\"u\" invokeai:a=\"1\"/>"), Generator::InvokeAI);
    assert_eq!(detect_xmp_generator(b"<x/>"), Generator::Unknown);
}

#[test]
fn empty_description_is_none() {
    let x = "<dc:description><rdf:Alt><rdf:li>   </rdf:li></rdf:Alt></dc:description>";
    assert!(description_in_xmp(x).is_none());
}

#[test]
fn xmp_app1_segment() {
    let xmp = b"<dc:description><rdf:li x=\"1\">glass city</rdf:li></dc:description> invokeai:x";
    let mut body = b"http://ns.adobe.com/xap/1.0/\0".to_vec();
    body.extend_from_slice(xmp);
    let mut jpeg = vec![0xFF, 0xD8, 0xFF, 0xE1];
    jpeg.extend_from_slice(&((body.len() + 2) as u16).to_be_bytes());
    jpeg.extend_from_slice(&body);
    let records = scan_jpeg(&PathBuf::from("a.jpg"), &jpeg).records;
    assert_eq!(records.len(), 1);
    assert_eq!(records[0].prompt, "glass city");
    assert_eq!(records[0].generator, Generator::InvokeAI);
    assert_eq!(records[0].metadata_key, "XMP");
}

#[test]
fn stops_at_start_of_scan() {
    let mut jpeg = make_jpeg_with_com("first");
    jpeg.truncate(jpeg.len() - 2);
    jpeg.extend_from_slice(&[0xFF, 0xDA, 0x00, 0x02]);
    jpeg.extend_from_slice(&[0xFF, 0xFE, 0x00, 0x07]);
    jpeg.extend_from_slice(b"after");
    let records = scan_jpeg(&PathBuf::from("a.jpg"), &jpeg).records;
    assert_eq!(records.len(), 1);
    assert_eq!(records[0].prompt, "first");
}

#[test]
fn rejects_non_jpeg_and_reports_truncation() {
    let scan = scan_jpeg(&PathBuf::from("a.jpg"), b"PNG");
    assert_eq!(scan.issue, Some(ScanIssue::NotJpeg));
    let scan = scan_jpeg(&PathBuf::from("a.jpg"), &[0xFF, 0xD8, 0xFF, 0xFE, 0x00, 0x10, b'a']);
    assert!(scan.records.is_empty());
    assert_eq!(scan.issue, Some(ScanIssue::TruncatedSegment));
}
