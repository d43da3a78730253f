use ips_gui::a1111::extract_details;
use ips_gui::exif::{extract_user_comment, TAG_USER_COMMENT};
use ips_gui::jpeg::scan_jpeg;
use ips_gui::matcher::match_record;
use ips_gui::png::scan_png;
use ips_gui::types::{Config, Generator, MatchMode, PromptRecord};
use ips_gui::webp::scan_webp;
use std::path::PathBuf;

fn prompts(records: &[PromptRecord]) -> Vec<String> {
    records.iter().map(|r| r.prompt.clone()).collect()
}

fn png_chunk(kind: &[u8; 4], data: &[u8]) -> Vec<u8> {
    let mut chunk = Vec::new();
    chunk.extend_from_slice(&(data.len() as u32).to_be_bytes());
    chunk.extend_from_slice(kind);
    chunk.extend_from_slice(data);
    chunk.extend_from_slice(&[0u8; 4]);
    chunk
}

fn tiff_with_comment(comment: &[u8]) -> Vec<u8> {
    let count = (8 + comment.len()) as u32;
    let mut buf = Vec::new();
    buf.extend_from_slice(b"II");
    buf.extend_from_slice(&42u16.to_le_bytes());
    buf.extend_from_slice(&8u32.to_le_bytes());
    buf.extend_from_slice(&1u16.to_le_bytes());
    buf.extend_from_slice(&TAG_USER_COMMENT.to_le_bytes());
    buf.extend_from_slice(&7u16.to_le_bytes());
    buf.extend_from_slice(&count.to_le_bytes());
    buf.extend_from_slice(&26u32.to_le_bytes());
    buf.extend_from_slice(&0u32.to_le_bytes());
    buf.extend_from_slice(b"ASCII\0\0\0");
    buf.extend_from_slice(comment);
    buf
}

fn record(prompt: &str) -> PromptRecord {
    PromptRecord {
        path: PathBuf::from("a.png"),
        prompt: prompt.to_string(),
        model: Some("base".to_string()),
        loras: Vec::new(),
        positive_prompt: None,
        negative_prompt: None,
        generator: Generator::A1111,
        metadata_key: "parameters",
    }
}

fn config(query: &str, mode: MatchMode, min_score: i64) -> Config {
    Config {
        query: query.to_string(),
        path: PathBuf::from("."),
        match_mode: mode,
        min_score,
        depth: None,
        no_recursive: false,
        verbose: false,
    }
}

fn is_prefix(a: &[String], b: &[String]) -> bool {
    a.len() <= b.len() && a == &b[..a.len()]
}

#[test]
fn png_cut_short_gives_leading_records() {
    let mut png = b"\x89PNG\r\n\x1a\n".to_vec();
    png.extend_from_slice(&png_chunk(b"tEXt", b"parameters\x00first prompt"));
    png.extend_from_slice(&png_chunk(b"tEXt", b"Description\x00second prompt"));
    png.extend_from_slice(&png_chunk(b"IEND", b""));
    let full = prompts(&scan_png(&PathBuf::from("a.png"), &png).records);
    assert_eq!(full, vec!["first prompt".to_string(), "second prompt".to_string()]);
    for m in 0..=png.len() {
        let part = prompts(&scan_png(&PathBuf::from("a.png"), &png[..m]).records);
        assert!(is_prefix(&part, &full), "cut at {m}");
    }
    let first_end = 8 + 12 + b"parameters\x00first prompt".len();
    let part = prompts(&scan_png(&PathBuf::from("a.png"), &png[..first_end]).records);
    assert_eq!(part, vec!["first prompt".to_string()]);
}

#[test]
fn jpeg_cut_short_gives_leading_records() {
    let mut jpeg = vec![0xFF, 0xD8];
    for text in ["first comment", "second comment"] {
        jpeg.extend_from_slice(&[0xFF, 0xFE]);
        jpeg.extend_from_slice(&(text.len() as u16 + 2).to_be_bytes());
        jpeg.extend_from_slice(text.as_bytes());
    }
    jpeg.extend_from_slice(&[0xFF, 0xD9]);
    let full = prompts(&scan_jpeg(&PathBuf::from("a.jpg"), &jpeg).records);
    assert_eq!(full.len(), 2);
    for m in 0..=jpeg.len() {
        let part = prompts(&scan_jpeg(&PathBuf::from("a.jpg"), &jpeg[..m]).records);
        assert!(is_prefix(&part, &full), "cut at {m}");
    }
}

#[test]
fn webp_cut_short_gives_leading_records() {
    let xmp = br#"<dc:description><rdf:Alt><rdf:li xml:lang="x-default">a fox in snow</rdf:li></rdf:Alt></dc:description>"#;
    let exif = tiff_with_comment(b"a cat on a roof");
    let mut body = Vec::new();
    body.extend_from_slice(b"XMP ");
    body.extend_from_slice(&(xmp.len() as u32).to_le_bytes());
    body.extend_from_slice(xmp);
    if xmp.len() % 2 == 1 {
        body.push(0);
    }
    body.extend_from_slice(b"EXIF");
    body.extend_from_slice(&(exif.len() as u32).to_le_bytes());
    body.extend_from_slice(&exif);
    let mut webp = b"RIFF".to_vec();
    webp.extend_from_slice(&((4 + body.len()) as u32).to_le_bytes());
    webp.extend_from_slice(b"WEBP");
    webp.extend_from_slice(&body);
    let full = prompts(&scan_webp(&PathBuf::from("a.webp"), &webp).records);
    assert_eq!(full, vec!["a fox in snow".to_string(), "a cat on a roof".to_string()]);
    for m in 0..=webp.len() {
        let part = prompts(&scan_webp(&PathBuf::from("a.webp"), &webp[..m]).records);
        assert!(is_prefix(&part, &full), "cut at {m}");
    }
}

#[test]
fn exif_marker_is_optional() {
    let tiff = tiff_with_comment(b"sunset over hills");
    let mut marked = b"Exif\0\0".to_vec();
    marked.extend_from_slice(&tiff);
    assert_eq!(extract_user_comment(&marked), extract_user_comment(&tiff));
    assert_eq!(extract_user_comment(&tiff).as_deref(), Some("sunset over hills"));
}

#[test]
fn user_comment_is_trimmed_and_never_empty() {
    let padded = tiff_with_comment(b"\0 \t lake at dawn \n\0\0");
    assert_eq!(extract_user_comment(&padded).as_deref(), Some("lake at dawn"));
    let blank = tiff_with_comment(b"\0  \t\0");
    assert_eq!(extract_user_comment(&blank), None);
}

#[test]
fn refiltering_decides_as_the_source_record() {
    let rec = record("Cyberpunk city at night, neon lights");
    let queries = [
        config("cyberpunk", MatchMode::Exact, 50),
        config("NEON", MatchMode::Exact, 50),
        config("forest", MatchMode::Exact, 50),
        config("cybr nght", MatchMode::Fuzzy, 10),
        config(r"\bcity\b", MatchMode::Regex, 0),
        config("(", MatchMode::Regex, 0),
    ];
    let first = match_record(&rec, &config("city", MatchMode::Exact, 50)).unwrap();
    for q in &queries {
        let on_result = match_record(&first.record, q).map(|m| m.score);
        let on_source = match_record(&rec, q).map(|m| m.score);
        assert_eq!(on_result, on_source);
    }
    let again = match_record(&first.record, &config("city", MatchMode::Exact, 50)).unwrap();
    assert_eq!(again.score, first.score);
    assert_eq!(again.record.prompt, rec.prompt);
    assert_eq!(again.record.model, rec.model);
}

#[test]
fn scores_follow_the_mode() {
    let rec = record("a beautiful cyberpunk cityscape");
    let fuzzy = match_record(&rec, &config("cyber", MatchMode::Fuzzy, 20)).unwrap();
    assert!(fuzzy.score.unwrap() >= 20);
    let exact = match_record(&rec, &config("cyber", MatchMode::Exact, 20)).unwrap();
    assert_eq!(exact.score, None);
    let regex = match_record(&rec, &config("cyber", MatchMode::Regex, 20)).unwrap();
    assert_eq!(regex.score, None);
    assert!(match_record(&rec, &config("cyber", MatchMode::Fuzzy, i64::MAX)).is_none());
}

#[test]
fn a1111_fields_are_clean() {
    let text = "  a castle ,<lora: stone wall : 0.6 >, <lora:stone wall:0.9>, <lora: :1>\n\
                Negative prompt:   \nSteps: 20, Model:  dream  , Seed: 3";
    let d = extract_details(text);
    assert_eq!(d.positive_prompt.as_deref(), Some("a castle ,<lora: stone wall : 0.6 >, <lora:stone wall:0.9>, <lora: :1>"));
    assert_eq!(d.negative_prompt, None);
    assert_eq!(d.model.as_deref(), Some("dream"));
    assert_eq!(d.loras.len(), 1);
    assert_eq!(d.loras[0].name, "stone wall");
    assert_eq!(d.loras[0].weight, "0.6");
}

#[test]
fn bytes_after_idat_header_are_never_read() {
    let mut head = b"\x89PNG\r\n\x1a\n".to_vec();
    head.extend_from_slice(&png_chunk(b"tEXt", b"parameters\x00kept prompt"));
    head.extend_from_slice(&5u32.to_be_bytes());
    head.extend_from_slice(b"IDAT");
    let tails: [&[u8]; 3] = [
        b"",
        b"\x00\x00\x00\x00\x00\x00\x00\x00\x00",
        b"\x00\x00\x00\x10tEXtDescription\x00x\x00\x00\x00\x00",
    ];
    for tail in tails {
        let mut png = head.clone();
        png.extend_from_slice(tail);
        let scan = scan_png(&PathBuf::from("a.png"), &png);
        assert_eq!(prompts(&scan.records), vec!["kept prompt".to_string()]);
        assert_eq!(scan.issue, None);
    }
}

#[test]
fn bytes_after_start_of_scan_are_never_read() {
    let mut head = vec![0xFF, 0xD8, 0xFF, 0xFE];
    head.extend_from_slice(&(2 + 9u16).to_be_bytes());
    head.extend_from_slice(b"a comment");
    head.extend_from_slice(&[0xFF, 0xDA]);
    let tails: [&[u8]; 3] = [b"", b"\x00\x01\x02", b"\xFF\xFE\x00\x07hidden"];
    for tail in tails {
        let mut jpeg = head.clone();
        jpeg.extend_from_slice(tail);
        let scan = scan_jpeg(&PathBuf::from("a.jpg"), &jpeg);
        assert_eq!(prompts(&scan.records), vec!["a comment".to_string()]);
        assert_eq!(scan.issue, None);
    }
}
