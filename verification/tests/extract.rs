use ips_gui::discovery::{file_extension, is_image};
use ips_gui::export::{lora_summary, prompt_for_display, PROMPT_PREVIEW_CHARS};
use ips_gui::extract::{image_format, scan_image, ImageFormat};
use ips_gui::types::{LoraInfo, ScanIssue};
use std::path::PathBuf;

#[test]
fn formats_by_extension() {
    assert_eq!(image_format("a.png"), Some(ImageFormat::Png));
    assert_eq!(image_format("photo.JPG"), Some(ImageFormat::Jpeg));
    assert_eq!(image_format("photo.jpeg"), Some(ImageFormat::Jpeg));
    assert_eq!(image_format("x.WebP"), Some(ImageFormat::Webp));
    assert_eq!(image_format("notes.txt"), None);
    assert_eq!(image_format(".png"), None);
    assert_eq!(image_format("png"), None);
    for name in ["a.png", "b.JPG", "c.webp", "d.gif", ".jpg", "e.tar.png", "f."] {
        assert_eq!(image_format(name).is_some(), is_image(name), "{name}");
    }
}

#[test]
fn extensions_as_path_gives_them() {
    assert_eq!(file_extension("archive.tar.gz").as_deref(), Some("gz"));
    assert_eq!(file_extension("file.").as_deref(), Some(""));
    assert_eq!(file_extension(".hidden"), None);
    assert_eq!(file_extension(".."), None);
    assert_eq!(file_extension("plain"), None);
}

#[test]
fn scan_image_reads_by_format() {
    let mut jpeg = vec![0xFF, 0xD8, 0xFF, 0xFE];
    let text = b"a red bicycle";
    jpeg.extend_from_slice(&((text.len() + 2) as u16).to_be_bytes());
    jpeg.extend_from_slice(text);
    let path = PathBuf::from("x.jpg");
    let as_jpeg = scan_image(ImageFormat::Jpeg, &path, &jpeg);
    assert_eq!(as_jpeg.records.len(), 1);
    assert_eq!(as_jpeg.records[0].prompt, "a red bicycle");
    assert_eq!(as_jpeg.records[0].path, path);
    let as_png = scan_image(ImageFormat::Png, &path, &jpeg);
    assert!(as_png.records.is_empty());
    assert_eq!(as_png.issue, Some(ScanIssue::NotPng));
    let as_webp = scan_image(ImageFormat::Webp, &path, &jpeg);
    assert_eq!(as_webp.issue, Some(ScanIssue::NotWebp));
}

#[test]
fn issue_messages() {
    assert_eq!(ScanIssue::NotPng.message(), "not a valid PNG");
    assert_eq!(ScanIssue::TruncatedChunk.message(), "truncated chunk");
    assert_eq!(ScanIssue::NotJpeg.message(), "not a valid JPEG");
    assert_eq!(ScanIssue::TruncatedSegment.message(), "truncated JPEG segment");
    assert_eq!(ScanIssue::WebpTooSmall.message(), "file too small to be a WebP");
    assert_eq!(ScanIssue::NotWebp.message(), "not a valid WebP");
    assert_eq!(ScanIssue::TruncatedXmp.message(), "truncated XMP chunk");
    assert_eq!(ScanIssue::TruncatedExif.message(), "truncated EXIF chunk");
}

#[test]
fn lora_summary_joins_entries() {
    let loras = vec![
        LoraInfo { name: "detail".to_string(), weight: "0.7".to_string() },
        LoraInfo { name: "style".to_string(), weight: "1 / 0.5".to_string() },
    ];
    assert_eq!(lora_summary(&loras), "detail: 0.7 | style: 1 / 0.5");
    assert_eq!(lora_summary(&loras[..1].to_vec()), "detail: 0.7");
    assert_eq!(lora_summary(&Vec::new()), "");
}

#[test]
fn long_prompts_are_shortened_for_display() {
    let short = "a cat";
    assert_eq!(prompt_for_display(short, false), short);
    let exact: String = "é".repeat(PROMPT_PREVIEW_CHARS);
    assert_eq!(prompt_for_display(&exact, false), exact);
    let long: String = "x".repeat(PROMPT_PREVIEW_CHARS + 7);
    let shown = prompt_for_display(&long, false);
    assert_eq!(shown.chars().count(), PROMPT_PREVIEW_CHARS + 1);
    assert!(shown.ends_with('\u{2026}'));
    assert_eq!(&shown[..PROMPT_PREVIEW_CHARS], &long[..PROMPT_PREVIEW_CHARS]);
    assert_eq!(prompt_for_display(&long, true), long);
}
