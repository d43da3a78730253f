use ips_gui::discovery::{is_image, max_walk_depth, parse_depth, select_files, WalkEntry};
use ips_gui::types::{Config, Generator, LoraInfo, MatchMode, PromptDetails, PromptRecord};
use std::path::PathBuf;

#[test]
fn with_details_copies_fields() {
    let details = PromptDetails {
        model: Some("m".to_string()),
        loras: vec![LoraInfo { name: "l".to_string(), weight: "1".to_string() }],
        positive_prompt: Some("p".to_string()),
        negative_prompt: None,
    };
    let r = PromptRecord::with_details(
        PathBuf::from("x.png"),
        "prompt".to_string(),
        Generator::ComfyUI,
        "prompt",
        details,
    );
    assert_eq!(r.model.as_deref(), Some("m"));
    assert_eq!(r.loras[0].name, "l");
    assert_eq!(r.positive_prompt.as_deref(), Some("p"));
    assert!(r.negative_prompt.is_none());
    assert_eq!(r.path, PathBuf::from("x.png"));
    let d = r.duplicate();
    assert_eq!(d.prompt, "prompt");
    assert_eq!(d.path, r.path);
}

#[test]
fn generator_names() {
    assert_eq!(Generator::A1111.name(), "a1111");
    assert_eq!(Generator::ComfyUI.name(), "comfyui");
    assert_eq!(Generator::NovelAI.name(), "novelai");
    assert_eq!(Generator::InvokeAI.name(), "invokeai");
    assert_eq!(Generator::Unknown.name(), "unknown");
}

#[test]
fn image_extensions() {
    assert!(is_image("a.png"));
    assert!(is_image("b.JPG"));
    assert!(is_image("c.tar.Jpeg"));
    assert!(is_image("d.webp"));
    assert!(!is_image("ignore.txt"));
    assert!(!is_image(".png"));
    assert!(!is_image("png"));
    assert!(!is_image(".."));
    assert!(!is_image("x."));
}

fn config(depth: Option<usize>, no_recursive: bool) -> Config {
    Config {
        query: String::new(),
        path: PathBuf::from("."),
        match_mode: MatchMode::Exact,
        min_score: 50,
        depth,
        no_recursive,
        verbose: false,
    }
}

#[test]
fn walk_depth_choice() {
    assert_eq!(max_walk_depth(&config(Some(3), true)), Some(1));
    assert_eq!(max_walk_depth(&config(Some(3), false)), Some(3));
    assert_eq!(max_walk_depth(&config(None, false)), None);
}

#[test]
fn depth_field_parsing() {
    assert_eq!(parse_depth(" 12 "), Some(12));
    assert_eq!(parse_depth("+3"), Some(3));
    assert_eq!(parse_depth(""), None);
    assert_eq!(parse_depth("x1"), None);
    assert_eq!(parse_depth("-1"), None);
    assert_eq!(parse_depth("+"), None);
    assert_eq!(parse_depth("99999999999999999999999"), None);
    assert_eq!(parse_depth(" 7 "), " 7 ".trim().parse().ok());
}

// The entries a directory walk lists for the tree a.png, b.jpg,
// ignore.txt, sub/c.webp below `root`: the walk itself reads the disk and
// lives with the program; the library selects among its entries.
fn temp_tree_entries() -> Vec<WalkEntry> {
    let entry = |path: &str, depth: usize, is_file: bool| WalkEntry {
        path: PathBuf::from(path),
        name: PathBuf::from(path).file_name().unwrap().to_string_lossy().into_owned(),
        depth,
        is_file,
    };
    vec![
        entry("root", 0, false),
        entry("root/a.png", 1, true),
        entry("root/b.jpg", 1, true),
        entry("root/ignore.txt", 1, true),
        entry("root/sub", 1, false),
        entry("root/sub/c.webp", 2, true),
    ]
}

#[test]
fn finds_image_files_recursively() {
    let config = config(None, false);
    assert_eq!(config.min_score, 50);
    let files = select_files(&temp_tree_entries(), &config);
    assert_eq!(files.len(), 3);
    assert_eq!(files[2], PathBuf::from("root/sub/c.webp"));
}

#[test]
fn respects_no_recursive() {
    let config = config(None, true);
    assert_eq!(config.min_score, 50);
    let files = select_files(&temp_tree_entries(), &config);
    assert_eq!(files.len(), 2);
    assert_eq!(files, vec![PathBuf::from("root/a.png"), PathBuf::from("root/b.jpg")]);
}

#[test]
fn depth_limit_selects_by_walk_depth() {
    assert_eq!(select_files(&temp_tree_entries(), &config(Some(2), false)).len(), 3);
    assert_eq!(select_files(&temp_tree_entries(), &config(Some(0), false)).len(), 0);
}
