use ips_gui::png::{parse_itxt_chunk, parse_text_chunk, scan_png};
use ips_gui::types::{Generator, ScanIssue};
use std::path::PathBuf;

const PNG_SIGNATURE: &[u8; 8] = b"\x89PNG\r\n\x1a\n";

fn make_png_chunk(chunk_type: &[u8; 4], data: &[u8]) -> Vec<u8> {
    let length = (data.len() as u32).to_be_bytes();
    let mut chunk = Vec::new();
    chunk.extend_from_slice(&length);
    chunk.extend_from_slice(chunk_type);
    chunk.extend_from_slice(data);
    chunk.extend_from_slice(&[0u8; 4]);
    chunk
}

fn make_png_with_chunks(chunks: &[Vec<u8>]) -> Vec<u8> {
    let mut png = Vec::new();
    png.extend_from_slice(PNG_SIGNATURE);
    for chunk in chunks {
        png.extend_from_slice(chunk);
    }
    png.extend_from_slice(&make_png_chunk(b"IEND", &[]));
    png
}

fn path() -> PathBuf {
    PathBuf::from("test.png")
}

#[test]
fn parse_text_chunk_basic() {
    let data = b"parameters\x00a1111 prompt text";
    let result = parse_text_chunk(data).unwrap();
    assert_eq!(result.0, "parameters");
    assert_eq!(result.1, "a1111 prompt text");
}

#[test]
fn extracts_a1111_parameters() {
    let chunk_data = b"parameters\x00masterpiece, 1girl, solo".to_vec();
    let chunks = vec![make_png_chunk(b"tEXt", &chunk_data)];
    let png_bytes = make_png_with_chunks(&chunks);

    let records = scan_png(&path(), &png_bytes).records;
    assert_eq!(records.len(), 1);
    assert_eq!(records[0].generator, Generator::A1111);
    assert_eq!(records[0].prompt, "masterpiece, 1girl, solo");
}

#[test]
fn extracts_novelai_comment() {
    let json = r#"{"prompt":"1girl, masterpiece","steps":28}"#;
    let mut data = b"Comment\x00".to_vec();
    data.extend_from_slice(json.as_bytes());
    let chunks = vec![make_png_chunk(b"tEXt", &data)];
    let png_bytes = make_png_with_chunks(&chunks);

    let records = scan_png(&path(), &png_bytes).records;
    assert_eq!(records.len(), 1);
    assert_eq!(records[0].generator, Generator::NovelAI);
    assert_eq!(records[0].prompt, "1girl, masterpiece");
}

#[test]
fn stops_at_idat() {
    let chunk_before = make_png_chunk(b"tEXt", b"parameters\x00before idat");
    let idat = make_png_chunk(b"IDAT", b"\x00\x00");
    let chunk_after = make_png_chunk(b"tEXt", b"parameters\x00after idat");

    let mut png = Vec::new();
    png.extend_from_slice(PNG_SIGNATURE);
    png.extend_from_slice(&chunk_before);
    png.extend_from_slice(&idat);
    png.extend_from_slice(&chunk_after);

    let records = scan_png(&path(), &png).records;
    assert_eq!(records.len(), 1);
    assert_eq!(records[0].prompt, "before idat");
}

#[test]
fn rejects_non_png() {
    let scan = scan_png(&path(), b"GIF89a....");
    assert!(scan.records.is_empty());
    assert_eq!(scan.issue, Some(ScanIssue::NotPng));
}

#[test]
fn reports_truncated_chunk() {
    let mut png = make_png_with_chunks(&[make_png_chunk(b"tEXt", b"parameters\x00kept")]);
    png.extend_from_slice(&100u32.to_be_bytes());
    png.extend_from_slice(b"tEXt");
    png.extend_from_slice(b"short");
    let scan = scan_png(&path(), &png);
    assert_eq!(scan.records.len(), 1);
    assert_eq!(scan.issue, Some(ScanIssue::TruncatedChunk));
}

#[test]
fn comfyui_prompt_chunk() {
    let json = r#"{"1":{"class_type":"CLIPTextEncode","inputs":{"text":"red fox"}},"2":{"class_type":"CLIPTextEncode","inputs":{"text":"snow"}},"3":{"class_type":"KSampler","inputs":{"positive":["1",0],"negative":["2",0]}}}"#;
    let mut data = b"prompt\x00".to_vec();
    data.extend_from_slice(json.as_bytes());
    let png = make_png_with_chunks(&[make_png_chunk(b"tEXt", &data)]);
    let records = scan_png(&path(), &png).records;
    assert_eq!(records.len(), 1);
    assert_eq!(records[0].generator, Generator::ComfyUI);
    assert_eq!(records[0].prompt, "red fox | snow");
    assert_eq!(records[0].metadata_key, "prompt");
    assert_eq!(records[0].positive_prompt.as_deref(), Some("red fox"));
    assert_eq!(records[0].negative_prompt.as_deref(), Some("snow"));
}

#[test]
fn plain_prompt_text_is_kept() {
    let png = make_png_with_chunks(&[make_png_chunk(b"tEXt", b"prompt\x00not json")]);
    let records = scan_png(&path(), &png).records;
    assert_eq!(records[0].generator, Generator::Unknown);
    assert_eq!(records[0].prompt, "not json");
}

#[test]
fn itxt_description() {
    let data = b"Description\x00\x00\x00en\x00Beschreibung\x00a quiet lake";
    let (k, v) = parse_itxt_chunk(data).unwrap();
    assert_eq!(k, "Description");
    assert_eq!(v, "a quiet lake");
    let png = make_png_with_chunks(&[make_png_chunk(b"iTXt", data)]);
    let records = scan_png(&path(), &png).records;
    assert_eq!(records[0].generator, Generator::NovelAI);
    assert_eq!(records[0].prompt, "a quiet lake");
}

#[test]
fn parameters_carry_a1111_details() {
    let png = make_png_with_chunks(&[make_png_chunk(
        b"tEXt",
        b"parameters\x00cat\nNegative prompt: dog\nSteps: 20, Model: m1",
    )]);
    let records = scan_png(&path(), &png).records;
    assert_eq!(records[0].model.as_deref(), Some("m1"));
    assert_eq!(records[0].negative_prompt.as_deref(), Some("dog"));
    assert_eq!(records[0].path, path());
}
