//! What the terminal user interface has the focus on.
use crate::search::SearchResults;
use vstd::prelude::*;

verus! {

/// The part of the screen the keys go to.
#[derive(Debug, Clone)]
pub enum LayoutSections {
    /// The output of the task, whose terminal takes the keys
    Pane,
    /// The list of tasks, with the results of the last search if one was run
    TaskList(Option<SearchResults>),
    /// The search line, with the query typed so far
    Search { query: String },
    /// The help dialog, scrolled down by `scroll` rows of at most `max_scroll`
    Help { scroll: usize, max_scroll: usize },
}

} // verus!
