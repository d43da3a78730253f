use ips_gui::matcher::{match_exact, match_fuzzy, match_record, match_regex};
use ips_gui::types::{Config, Generator, MatchMode, PromptRecord};
use std::path::PathBuf;

fn make_record(prompt: &str) -> PromptRecord {
    PromptRecord {
        path: PathBuf::from("test.png"),
        prompt: prompt.to_string(),
        model: None,
        loras: Vec::new(),
        positive_prompt: None,
        negative_prompt: None,
        generator: Generator::Unknown,
        metadata_key: "parameters",
    }
}

fn config(query: &str, mode: MatchMode) -> Config {
    Config {
        query: query.to_string(),
        path: PathBuf::from("."),
        match_mode: mode,
        min_score: 50,
        depth: None,
        no_recursive: false,
        verbose: false,
    }
}

#[test]
fn exact_match_found() {
    let record = make_record("masterpiece, 1girl, cyberpunk");
    let result = match_exact(&record, &config("cyberpunk", MatchMode::Exact));
    assert!(result.is_some());
}

#[test]
fn exact_match_case_insensitive() {
    let record = make_record("Masterpiece, 1girl");
    let result = match_exact(&record, &config("masterpiece", MatchMode::Exact));
    assert!(result.is_some());
}

#[test]
fn exact_match_not_found() {
    let record = make_record("landscape, mountains");
    let result = match_exact(&record, &config("cyberpunk", MatchMode::Exact));
    assert!(result.is_none());
}

#[test]
fn fuzzy_match_found() {
    let record = make_record("a beautiful cyberpunk cityscape");
    let result = match_fuzzy(&record, &config("cyber", MatchMode::Fuzzy));
    assert!(result.is_some());
}

#[test]
fn regex_match_found() {
    let record = make_record("1girl, masterpiece, detailed background");
    let result = match_regex(&record, &config(r"\d+girl", MatchMode::Regex));
    assert!(result.is_some());
}

#[test]
fn regex_no_match() {
    let record = make_record("landscape, trees");
    let result = match_regex(&record, &config(r"\d+girl", MatchMode::Regex));
    assert!(result.is_none());
}

#[test]
fn invalid_regex_matches_nothing() {
    let record = make_record("(((");
    assert!(match_regex(&record, &config("(", MatchMode::Regex)).is_none());
}

#[test]
fn match_keeps_record_and_score() {
    let record = make_record("a beautiful cyberpunk cityscape");
    let m = match_record(&record, &config("cyber", MatchMode::Fuzzy)).unwrap();
    assert_eq!(m.record.prompt, record.prompt);
    assert_eq!(m.record.path, record.path);
    assert!(m.score.unwrap() >= 50);
    let e = match_record(&record, &config("CYBER", MatchMode::Exact)).unwrap();
    assert_eq!(e.score, None);
}

#[test]
fn refiltering_narrows() {
    let record = make_record("Neon city at night");
    let first = match_record(&record, &config("city", MatchMode::Exact)).unwrap();
    assert!(match_record(&first.record, &config("NIGHT", MatchMode::Exact)).is_some());
    assert!(match_record(&first.record, &config("day", MatchMode::Exact)).is_none());
}

#[test]
fn empty_query_matches_exactly() {
    let record = make_record("anything");
    assert!(match_exact(&record, &config("", MatchMode::Exact)).is_some());
}

fn any_score(query: &str) -> Config {
    let mut c = config(query, MatchMode::Fuzzy);
    c.min_score = i64::MIN;
    c
}

#[test]
fn fuzzy_needs_characters_in_order() {
    let record = make_record("cyberpunk city");
    assert!(match_fuzzy(&record, &any_score("cpc")).is_some());
    assert!(match_fuzzy(&record, &any_score("ccp")).is_none());
    assert!(match_fuzzy(&record, &any_score("xyz")).is_none());
}

#[test]
fn fuzzy_uses_smart_case() {
    let lower = make_record("CYBERPUNK CITY");
    assert!(match_fuzzy(&lower, &any_score("cyber")).is_some());
    let mixed = make_record("cyberpunk city");
    assert!(match_fuzzy(&mixed, &any_score("Cyber")).is_none());
    assert!(match_fuzzy(&make_record("Cyberpunk"), &any_score("Cyber")).is_some());
}

#[test]
fn empty_fuzzy_query_scores_zero() {
    let record = make_record("anything at all");
    let m = match_fuzzy(&record, &any_score("")).unwrap();
    assert_eq!(m.score, Some(0));
    let mut strict = any_score("");
    strict.min_score = 1;
    assert!(match_fuzzy(&record, &strict).is_none());
}
