use ips_gui::session::{
    drop_action, inspect_results, navigate, plan_search, reject_many_message, DropAction, Nav,
    ResultView, SearchPlan, SearchRefusal,
};
use ips_gui::types::{Generator, PromptRecord};
use std::path::PathBuf;
use ips_gui::types::MatchMode;

#[test]
fn search_requests_are_planned() {
    assert_eq!(
        plan_search("", false, MatchMode::Exact, false, false),
        SearchPlan::Refused(SearchRefusal::EmptyQuery)
    );
    assert_eq!(
        plan_search("", true, MatchMode::Regex, true, true),
        SearchPlan::Refused(SearchRefusal::EmptyQuery)
    );
    assert_eq!(
        plan_search("cat", true, MatchMode::Exact, false, false),
        SearchPlan::Refused(SearchRefusal::Busy)
    );
    assert_eq!(
        plan_search("(unclosed", false, MatchMode::Regex, false, false),
        SearchPlan::Refused(SearchRefusal::InvalidRegex)
    );
    assert_eq!(plan_search("(unclosed", false, MatchMode::Exact, false, false), SearchPlan::FullScan);
    assert_eq!(plan_search(r"\d+girl", false, MatchMode::Regex, false, true), SearchPlan::FullScan);
    assert_eq!(plan_search("cat", false, MatchMode::Fuzzy, true, true), SearchPlan::Refilter);
    assert_eq!(plan_search("cat", false, MatchMode::Fuzzy, true, false), SearchPlan::FullScan);
}

#[test]
fn navigation_moves_within_results() {
    let total = 3;
    assert_eq!(navigate(ResultView::Grid, Nav::Open(2), total), ResultView::Detail(2));
    assert_eq!(navigate(ResultView::Grid, Nav::Open(3), total), ResultView::Grid);
    assert_eq!(navigate(ResultView::Detail(0), Nav::Next, total), ResultView::Detail(1));
    assert_eq!(navigate(ResultView::Detail(2), Nav::Next, total), ResultView::Detail(2));
    assert_eq!(navigate(ResultView::Detail(0), Nav::Prev, total), ResultView::Detail(0));
    assert_eq!(navigate(ResultView::Detail(2), Nav::Prev, total), ResultView::Detail(1));
    assert_eq!(navigate(ResultView::Detail(1), Nav::Back, total), ResultView::Grid);
    assert_eq!(navigate(ResultView::Grid, Nav::Next, total), ResultView::Grid);
}

#[test]
fn navigation_never_leaves_the_results() {
    for total in 0..4usize {
        let mut views = vec![ResultView::Grid];
        views.extend((0..total).map(ResultView::Detail));
        for view in views {
            for nav in [Nav::Back, Nav::Prev, Nav::Next, Nav::Open(0), Nav::Open(2), Nav::Open(5)] {
                match navigate(view, nav, total) {
                    ResultView::Detail(i) => assert!(i < total),
                    ResultView::Grid => {}
                }
            }
        }
    }
}

#[test]
fn drops_are_decided() {
    assert_eq!(drop_action(0, false, false), DropAction::Ignore);
    assert_eq!(drop_action(1, true, false), DropAction::SetSearchPath);
    assert_eq!(drop_action(1, false, true), DropAction::InspectImage);
    assert_eq!(drop_action(1, false, false), DropAction::Ignore);
    assert_eq!(drop_action(2, false, true), DropAction::RejectMany);
    assert_eq!(drop_action(3, true, false), DropAction::RejectMany);
    assert_eq!(reject_many_message(), "Please drop one image at a time.");
}

#[test]
fn inspected_image_without_metadata_gets_an_empty_record() {
    let path = PathBuf::from("photo.png");
    let rows = inspect_results(&path, &Vec::new());
    assert_eq!(rows.len(), 1);
    assert_eq!(rows[0].record.path, path);
    assert_eq!(rows[0].record.prompt, "");
    assert_eq!(rows[0].record.generator, Generator::Unknown);
    assert_eq!(rows[0].score, None);
    let record = PromptRecord {
        path: path.clone(),
        prompt: "a lake".to_string(),
        model: None,
        loras: Vec::new(),
        positive_prompt: None,
        negative_prompt: None,
        generator: Generator::A1111,
        metadata_key: "parameters",
    };
    let rows = inspect_results(&path, &vec![record]);
    assert_eq!(rows.len(), 1);
    assert_eq!(rows[0].record.prompt, "a lake");
    assert_eq!(rows[0].record.generator, Generator::A1111);
}
