//! The decisions of an interactive search session: whether a search may
//! start and over what, and how the result view moves between entries.
use vstd::prelude::*;
use crate::matcher::{RegexQuery, regex_compiles};
use std::path::PathBuf;
use crate::matcher::is_result_for;
use crate::types::{
    Generator, MatchMode, MatchResult, PromptDetails, PromptRecord, empty_details, record_spec,
};

verus! {

/// Why a search request is not started.
#[derive(Debug, Clone, Copy, PartialEq, Eq, Structural)]
pub enum SearchRefusal {
    /// The query is empty.
    EmptyQuery,
    /// A search is already running.
    Busy,
    /// Regex mode, and the query is not a valid regular expression.
    InvalidRegex,
}

/// What a search request leads to.
#[derive(Debug, Clone, Copy, PartialEq, Eq, Structural)]
pub enum SearchPlan {
    /// The request is refused.
    Refused(SearchRefusal),
    /// Match the records of the current results again.
    Refilter,
    /// Walk the directory and read every image file.
    FullScan,
}

/// What a search request leads to: refused while a search runs or the
/// query is empty, refused in regex mode for an invalid pattern; else a
/// re-filtering of the current results where that is asked for and there
/// are results, a full scan otherwise.
pub open spec fn search_plan(
    query: Seq<char>,
    searching: bool,
    mode: MatchMode,
    within_results: bool,
    have_results: bool,
) -> SearchPlan {
    if query.len() == 0 {
        SearchPlan::Refused(SearchRefusal::EmptyQuery)
    } else if searching {
        SearchPlan::Refused(SearchRefusal::Busy)
    } else if mode == MatchMode::Regex && !regex_compiles(query) {
        SearchPlan::Refused(SearchRefusal::InvalidRegex)
    } else if within_results && have_results {
        SearchPlan::Refilter
    } else {
        SearchPlan::FullScan
    }
}

/// Decides what a search request leads to.
pub fn plan_search(
    query: &str,
    searching: bool,
    mode: MatchMode,
    within_results: bool,
    have_results: bool,
) -> (p: SearchPlan)
    ensures
        p == search_plan(query@, searching, mode, within_results, have_results),
{
    if crate::text::chars_of(query).len() == 0 {
        return SearchPlan::Refused(SearchRefusal::EmptyQuery);
    }
    if searching {
        return SearchPlan::Refused(SearchRefusal::Busy);
    }
    if mode == MatchMode::Regex && RegexQuery::new(query).is_none() {
        return SearchPlan::Refused(SearchRefusal::InvalidRegex);
    }
    if within_results && have_results {
        SearchPlan::Refilter
    } else {
        SearchPlan::FullScan
    }
}

/// What the result panel shows: the grid of all results, or one result.
#[derive(Debug, Clone, Copy, PartialEq, Eq, Structural)]
pub enum ResultView {
    Grid,
    Detail(usize),
}

/// A navigation request in the result panel.
#[derive(Debug, Clone, Copy, PartialEq, Eq, Structural)]
pub enum Nav {
    /// Back to the grid (Escape, or the Back button).
    Back,
    /// The previous result (left arrow, or the Prev button).
    Prev,
    /// The next result (right arrow, or the Next button).
    Next,
    /// Open the result at this index (a click on its grid cell).
    Open(usize),
}

/// The view after a navigation request, with `total` results: moves stay
/// within the results and are ignored at either end.
pub open spec fn next_view(view: ResultView, nav: Nav, total: usize) -> ResultView {
    match nav {
        Nav::Back => ResultView::Grid,
        Nav::Open(i) => if i < total {
            ResultView::Detail(i)
        } else {
            view
        },
        Nav::Prev => match view {
            ResultView::Detail(i) => if i > 0 {
                ResultView::Detail((i - 1) as usize)
            } else {
                view
            },
            ResultView::Grid => view,
        },
        Nav::Next => match view {
            ResultView::Detail(i) => if i + 1 < total {
                ResultView::Detail((i + 1) as usize)
            } else {
                view
            },
            ResultView::Grid => view,
        },
    }
}

/// Applies a navigation request.
pub fn navigate(view: ResultView, nav: Nav, total: usize) -> (v: ResultView)
    ensures
        v == next_view(view, nav, total),
{
    match nav {
        Nav::Back => ResultView::Grid,
        Nav::Open(i) => if i < total {
            ResultView::Detail(i)
        } else {
            view
        },
        Nav::Prev => match view {
            ResultView::Detail(i) => if i > 0 {
                ResultView::Detail(i - 1)
            } else {
                view
            },
            ResultView::Grid => view,
        },
        Nav::Next => match view {
            ResultView::Detail(i) => if i < total && i + 1 < total {
                ResultView::Detail(i + 1)
            } else {
                view
            },
            ResultView::Grid => view,
        },
    }
}

/// A view that shows an existing result, or the grid.
pub open spec fn view_in_range(view: ResultView, total: usize) -> bool {
    view matches ResultView::Detail(i) ==> i < total
}

/// Navigation never leaves the results: from a view within range, every
/// request leads to a view within range.
pub proof fn law_navigation_stays_in_range(view: ResultView, nav: Nav, total: usize)
    requires
        view_in_range(view, total),
    ensures
        view_in_range(next_view(view, nav, total), total),
{
}

/// What a drop of files on the search panel leads to.
#[derive(Debug, Clone, Copy, PartialEq, Eq, Structural)]
pub enum DropAction {
    /// Nothing to do.
    Ignore,
    /// Use the dropped folder as the directory to search.
    SetSearchPath,
    /// Read the dropped image and show its metadata.
    InspectImage,
    /// More than one item: refused with a message.
    RejectMany,
}

/// What a drop of `count` items leads to, the first being a folder or an
/// image as the flags say: more than one item is refused, one folder
/// becomes the search directory, one image is inspected, anything else is
/// ignored.
pub open spec fn drop_action_of(count: usize, first_is_dir: bool, first_is_image: bool) -> DropAction {
    if count == 0 {
        DropAction::Ignore
    } else if count > 1 {
        DropAction::RejectMany
    } else if first_is_dir {
        DropAction::SetSearchPath
    } else if first_is_image {
        DropAction::InspectImage
    } else {
        DropAction::Ignore
    }
}

/// Decides what a drop of files leads to.
pub fn drop_action(count: usize, first_is_dir: bool, first_is_image: bool) -> (a: DropAction)
    ensures
        a == drop_action_of(count, first_is_dir, first_is_image),
{
    if count == 0 {
        DropAction::Ignore
    } else if count > 1 {
        DropAction::RejectMany
    } else if first_is_dir {
        DropAction::SetSearchPath
    } else if first_is_image {
        DropAction::InspectImage
    } else {
        DropAction::Ignore
    }
}

/// The message shown when more than one item is dropped.
pub fn reject_many_message() -> (s: &'static str)
    ensures
        s@ == "Please drop one image at a time."@,
{
    "Please drop one image at a time."
}

/// The result rows of one inspected image: one per record read, without a
/// score, or, where nothing was read, one empty record of that path so that
/// the image can still be viewed.
pub fn inspect_results(path: &PathBuf, records: &Vec<PromptRecord>) -> (r: Vec<MatchResult>)
    ensures
        records@.len() > 0 ==> r@.len() == records@.len() && forall|k: int|
            0 <= k < r@.len() ==> is_result_for(#[trigger] r@[k], records@[k], None),
        records@.len() == 0 ==> r@.len() == 1 && r@[0].record.path == *path && r@[0].record@
            == record_spec(Seq::empty(), Generator::Unknown, Seq::empty(), empty_details())
            && r@[0].score is None,
{
    let mut r: Vec<MatchResult> = Vec::new();
    if records.len() == 0 {
        let prompt = String::new();
        let key = "";
        proof {
            reveal_strlit("");
        }
        assert(prompt@ =~= Seq::<char>::empty());
        assert(key@ =~= Seq::<char>::empty());
        let record = PromptRecord::with_details(
            path.clone(),
            prompt,
            Generator::Unknown,
            key,
            PromptDetails::default(),
        );
        r.push(MatchResult { record, score: None });
        return r;
    }
    let mut k: usize = 0;
    while k < records.len()
        invariant
            k <= records@.len(),
            r@.len() == k,
            forall|m: int| 0 <= m < k ==> is_result_for(#[trigger] r@[m], records@[m], None),
        decreases records@.len() - k,
    {
        r.push(MatchResult { record: records[k].duplicate(), score: None });
        k = k + 1;
    }
    r
}

} // verus!
