use ips_gui::order::{sort_by_path_key, sort_order};
use ips_gui::types::{Generator, MatchResult, PromptRecord};
use std::path::{Component, Path, PathBuf};

fn path_key(path: &Path) -> Vec<Vec<u8>> {
    path.components()
        .map(|c| {
            let kind: u8 = match c {
                Component::Prefix(_) => 0,
                Component::RootDir => 1,
                Component::CurDir => 2,
                Component::ParentDir => 3,
                Component::Normal(_) => 4,
            };
            let mut key = vec![kind];
            key.extend_from_slice(c.as_os_str().as_encoded_bytes());
            key
        })
        .collect()
}

fn result(path: &str, prompt: &str) -> MatchResult {
    MatchResult {
        record: PromptRecord {
            path: PathBuf::from(path),
            prompt: prompt.to_string(),
            model: None,
            loras: Vec::new(),
            positive_prompt: None,
            negative_prompt: None,
            generator: Generator::Unknown,
            metadata_key: "parameters",
        },
        score: None,
    }
}

#[test]
fn sorts_like_paths_do() {
    let paths = [
        "img/b.png", "img-2/a.png", "img/a.png", "./img/a.png", "/abs/x.jpg", "img//c.webp",
        "img/a.png.bak", "../up.png", "img/A.png", "img/ä.png",
    ];
    let results: Vec<MatchResult> = paths.iter().map(|p| result(p, p)).collect();
    let keys: Vec<Vec<Vec<u8>>> = results.iter().map(|r| path_key(&r.record.path)).collect();
    let sorted = sort_by_path_key(&results, &keys);
    let mut expected: Vec<PathBuf> = paths.iter().map(PathBuf::from).collect();
    expected.sort();
    let got: Vec<PathBuf> = sorted.iter().map(|r| r.record.path.clone()).collect();
    assert_eq!(got, expected);
}

#[test]
fn records_of_one_file_keep_their_order() {
    let results = vec![
        result("b.png", "first of b"),
        result("a.png", "only a"),
        result("b.png", "second of b"),
        result("b.png", "third of b"),
    ];
    let keys: Vec<Vec<Vec<u8>>> = results.iter().map(|r| path_key(&r.record.path)).collect();
    let sorted = sort_by_path_key(&results, &keys);
    let prompts: Vec<&str> = sorted.iter().map(|r| r.record.prompt.as_str()).collect();
    assert_eq!(prompts, vec!["only a", "first of b", "second of b", "third of b"]);
    assert_eq!(sort_order(&keys), vec![1, 0, 2, 3]);
    assert!(sort_order(&Vec::new()).is_empty());
}
