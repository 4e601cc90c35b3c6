//! The state of the terminal front end and the decisions it takes: what a
//! key does, and how a search moves from the query to the grouped results.

use vstd::prelude::*;
use crate::aggregation::grouping::{group_indicators, is_grouping_of, GroupedIndicator};
use crate::aggregation::stats::{calculate_stats, stats_of, SearchStats};
use crate::models::indicator::Indicator;
use crate::search::{
    build_resolve_params, chunk_count, is_enrichment_plan, merge_chunks, merged, param_texts,
    plan_enrichment, resolve_params, ChunkRequest, CHUNK_SIZE,
};
use crate::text::{decimal_digits, is_blank, is_blank_text, push_decimal_digits};
use crate::theme::AppTheme;

verus! {

/// Whether keys navigate the results or edit the query.
#[derive(Clone, Copy, Debug, PartialEq, Eq, Structural)]
pub enum InputMode {
    Normal,
    Editing,
}

/// A key as the front end tells them apart.
#[derive(Clone, Copy, Debug, PartialEq, Eq, Structural)]
pub enum Key {
    Char(char),
    Enter,
    Backspace,
    Esc,
    Left,
    Right,
    Up,
    Down,
    Other,
}

/// What the caller does after a key was handled.
#[derive(Clone, Copy, Debug, PartialEq, Eq, Structural)]
pub enum KeyOutcome {
    /// Go on with the next key.
    Continue,
    /// Leave the program.
    Quit,
    /// Run a search for the query, then call [`App::finish_search`].
    Search,
}

/// What the caller does next in a search.
#[derive(Debug)]
pub enum SearchStep {
    /// Nothing: the query was blank.
    Idle,
    /// Send the request with these parameters and report what it returned
    /// with [`App::search_resolved`].
    Resolve { params: Vec<(String, String)> },
    /// Send these requests, settle each with
    /// [`resolve_chunk`](crate::search::resolve_chunk), and report the
    /// outcomes in the order of the requests with [`App::search_enriched`].
    Enrich { plan: Vec<ChunkRequest> },
    /// Nothing: the search is over.
    Done,
}

/// What happened in a search since the last step.
#[derive(Debug)]
pub enum SearchEvent {
    /// The query was submitted.
    Submitted,
    /// The resolving request returned its records, or failed for a reason.
    Resolved(Result<Vec<Indicator>, String>),
    /// The enrichment requests are settled; the outcomes stand in the order
    /// of the requests, with nothing for a request whose task did not
    /// finish.
    Enriched(Vec<Option<Vec<Indicator>>>),
}

/// The state of the front end as plain values.
pub struct AppView {
    pub input: Seq<char>,
    pub input_mode: InputMode,
    pub grouped_results: Seq<GroupedIndicator>,
    pub selected_index: usize,
    pub scroll_offset: u16,
    pub stats: SearchStats,
    pub status_message: Seq<char>,
    pub theme: AppTheme,
}

/// The state of the front end: the query being typed, the results of the
/// last search with the position in them, and the status line.
///
/// The selected index is always that of a group, or zero where there is no
/// group.
pub struct App {
    input: String,
    input_mode: InputMode,
    grouped_results: Vec<GroupedIndicator>,
    selected_index: usize,
    scroll_offset: u16,
    stats: SearchStats,
    status_message: String,
    theme: AppTheme,
}

impl View for App {
    type V = AppView;

    closed spec fn view(&self) -> AppView {
        AppView {
            input: self.input@,
            input_mode: self.input_mode,
            grouped_results: self.grouped_results@,
            selected_index: self.selected_index,
            scroll_offset: self.scroll_offset,
            stats: self.stats,
            status_message: self.status_message@,
            theme: self.theme,
        }
    }
}

/// The status line of a fresh front end.
pub open spec fn welcome_status() -> Seq<char> {
    "Press 'q' to quit, 'e' to enter search mode, 't' to toggle theme."@
}

/// The status line while the query is edited.
pub open spec fn editing_status() -> Seq<char> {
    "Editing... Press Enter to search, Esc to cancel."@
}

/// The status line after editing was given up.
pub open spec fn cancelled_status() -> Seq<char> {
    "Search cancelled."@
}

/// The status line while `query` is resolved.
pub open spec fn searching_status(query: Seq<char>) -> Seq<char> {
    "Searching for '"@ + query + "'..."@
}

/// The status line of a search that found nothing.
pub open spec fn no_results_status(query: Seq<char>) -> Seq<char> {
    "No results found for '"@ + query + "'."@
}

/// The status line while `records` records are enriched in `chunks` chunks.
pub open spec fn fetching_status(records: nat, chunks: nat) -> Seq<char> {
    "Fetching details for "@ + decimal_digits(records) + " indicators ("@ + decimal_digits(chunks)
        + " chunks)..."@
}

/// The status line of a finished search.
pub open spec fn found_status(records: nat, groups: nat) -> Seq<char> {
    "Found "@ + decimal_digits(records) + " indicators in "@ + decimal_digits(groups) + " groups."@
}

/// The status line of a search whose first request failed for `reason`.
pub open spec fn failed_status(reason: Seq<char>) -> Seq<char> {
    "Search failed: "@ + reason
}

impl AppView {
    /// The selected index is that of a group, or zero.
    pub open spec fn selection_in_range(self) -> bool {
        self.selected_index == 0 || self.selected_index < self.grouped_results.len()
    }

    /// The state after the next group was selected.
    pub open spec fn after_next(self) -> AppView {
        if self.grouped_results.len() == 0 {
            self
        } else {
            AppView {
                selected_index: if self.selected_index + 1 >= self.grouped_results.len() {
                    0
                } else {
                    (self.selected_index + 1) as usize
                },
                scroll_offset: 0,
                ..self
            }
        }
    }

    /// The state after the previous group was selected.
    pub open spec fn after_previous(self) -> AppView {
        if self.grouped_results.len() == 0 {
            self
        } else {
            AppView {
                selected_index: if self.selected_index == 0 {
                    (self.grouped_results.len() - 1) as usize
                } else {
                    (self.selected_index - 1) as usize
                },
                scroll_offset: 0,
                ..self
            }
        }
    }

    /// The state after one line was scrolled down.
    pub open spec fn after_scroll_down(self) -> AppView {
        if self.grouped_results.len() == 0 || self.scroll_offset == u16::MAX {
            self
        } else {
            AppView { scroll_offset: (self.scroll_offset + 1) as u16, ..self }
        }
    }

    /// The state after one line was scrolled up.
    pub open spec fn after_scroll_up(self) -> AppView {
        if self.grouped_results.len() == 0 || self.scroll_offset == 0 {
            self
        } else {
            AppView { scroll_offset: (self.scroll_offset - 1) as u16, ..self }
        }
    }

    /// The state after the theme was toggled.
    pub open spec fn after_toggle_theme(self) -> AppView {
        AppView { theme: AppTheme::of(AppTheme::other(self.theme.variant)), ..self }
    }

    /// The state after `key` was pressed.
    ///
    /// In normal mode `e` starts editing, `t` toggles the theme, the arrows
    /// and `h`, `j`, `k`, `l` move through the results, and every other key
    /// changes nothing. While editing, a character is appended to the
    /// query, backspace removes the last one, escape gives up, and every
    /// other key changes nothing.
    pub open spec fn after_key(self, key: Key) -> AppView {
        match self.input_mode {
            InputMode::Normal => match key {
                Key::Char('e') => AppView {
                    input_mode: InputMode::Editing,
                    status_message: editing_status(),
                    ..self
                },
                Key::Char('t') => self.after_toggle_theme(),
                Key::Right | Key::Char('l') => self.after_next(),
                Key::Left | Key::Char('h') => self.after_previous(),
                Key::Down | Key::Char('j') => self.after_scroll_down(),
                Key::Up | Key::Char('k') => self.after_scroll_up(),
                _ => self,
            },
            InputMode::Editing => match key {
                Key::Char(c) => AppView { input: self.input.push(c), ..self },
                Key::Backspace => AppView {
                    input: if self.input.len() == 0 {
                        self.input
                    } else {
                        self.input.drop_last()
                    },
                    ..self
                },
                Key::Esc => AppView {
                    input_mode: InputMode::Normal,
                    status_message: cancelled_status(),
                    ..self
                },
                _ => self,
            },
        }
    }

    /// What the caller does after `key`: `q` in normal mode quits, enter
    /// while editing asks for a search, anything else goes on.
    pub open spec fn outcome_of_key(self, key: Key) -> KeyOutcome {
        match (self.input_mode, key) {
            (InputMode::Normal, Key::Char('q')) => KeyOutcome::Quit,
            (InputMode::Editing, Key::Enter) => KeyOutcome::Search,
            _ => KeyOutcome::Continue,
        }
    }

    /// The state while the query is resolved.
    pub open spec fn searching(self) -> AppView {
        AppView { status_message: searching_status(self.input), ..self }
    }

    /// `next` and `step` are what the start of a search leads to from this
    /// state: nothing where no search is wanted, else the new status line
    /// and the request that resolves the query.
    pub open spec fn starts_search(self, wanted: bool, next: AppView, step: SearchStep) -> bool {
        if wanted {
            &&& step matches SearchStep::Resolve { params }
            &&& param_texts(params@) == resolve_params(self.input)
            &&& next == self.searching()
        } else {
            step is Idle && next == self
        }
    }

    /// `next` and `step` are what the outcome of the resolving request
    /// leads to from this state.
    ///
    /// A failure ends the search: the results are cleared and the status
    /// line carries the reason. No records end it too, with cleared results
    /// and a status line that says so. Otherwise the results stay as they
    /// are, the status line tells how much is fetched, and the step holds
    /// one enrichment request per chunk of the records.
    pub open spec fn takes_resolution(
        self,
        outcome: Result<Vec<Indicator>, String>,
        next: AppView,
        step: SearchStep,
    ) -> bool {
        match outcome {
            Err(reason) => step is Done && next == self.cleared(failed_status(reason@)),
            Ok(records) => if records@.len() == 0 {
                step is Done && next == self.cleared(no_results_status(self.input))
            } else {
                &&& step matches SearchStep::Enrich { plan }
                &&& is_enrichment_plan(plan@, records@)
                &&& next == (AppView {
                    status_message: fetching_status(
                        records@.len(),
                        chunk_count(records@.len(), CHUNK_SIZE as nat),
                    ),
                    ..self
                })
            },
        }
    }

    /// `next` and `step` are what the outcomes of the enrichment requests
    /// lead to from this state: the search is over, the results are the
    /// grouping and the statistics of the merged outcomes, the selection is
    /// at the first group and the top, and the status line tells how many
    /// records, the total of the statistics, and how many groups were found.
    pub open spec fn takes_enrichment(
        self,
        outcomes: Seq<Option<Vec<Indicator>>>,
        next: AppView,
        step: SearchStep,
    ) -> bool {
        &&& step is Done
        &&& next.stats == stats_of(merged(outcomes))
        &&& next.stats.total_count == merged(outcomes).len()
        &&& is_grouping_of(next.grouped_results, merged(outcomes))
        &&& next == (AppView {
            stats: next.stats,
            grouped_results: next.grouped_results,
            selected_index: 0,
            scroll_offset: 0,
            status_message: found_status(merged(outcomes).len(), next.grouped_results.len()),
            ..self
        })
    }

    /// The state after the results were cleared with `status` as the new
    /// status line.
    pub open spec fn cleared(self, status: Seq<char>) -> AppView {
        AppView {
            grouped_results: Seq::empty(),
            stats: SearchStats::empty(),
            selected_index: 0,
            scroll_offset: 0,
            status_message: status,
            ..self
        }
    }
}

impl App {
    #[verifier::type_invariant]
    spec fn selection_in_range(self) -> bool {
        self.selected_index == 0 || self.selected_index < self.grouped_results@.len()
    }

    /// A front end with no query and no results, in normal mode, with the
    /// default theme.
    pub fn new() -> (r: App)
        ensures
            r@.input == Seq::<char>::empty(),
            r@.input_mode == InputMode::Normal,
            r@.grouped_results == Seq::<GroupedIndicator>::empty(),
            r@.selected_index == 0,
            r@.scroll_offset == 0,
            r@.stats == SearchStats::empty(),
            r@.status_message == welcome_status(),
            r@.theme == AppTheme::threat_connect(),
            r@.selection_in_range(),
    {
        App {
            input: String::new(),
            input_mode: InputMode::Normal,
            grouped_results: Vec::new(),
            selected_index: 0,
            scroll_offset: 0,
            stats: SearchStats::default(),
            status_message: "Press 'q' to quit, 'e' to enter search mode, 't' to toggle theme.".to_owned(),
            theme: AppTheme::default_theme(),
        }
    }

    /// Selects the next group, wrapping from the last to the first, and
    /// scrolls back to the top. Without groups nothing changes.
    pub fn next(&mut self)
        ensures
            final(self)@ == old(self)@.after_next(),
            final(self)@.selection_in_range(),
    {
        proof {
            use_type_invariant(&*self);
        }
        if self.grouped_results.is_empty() {
            return ;
        }
        if self.selected_index >= self.grouped_results.len() - 1 {
            self.selected_index = 0;
        } else {
            self.selected_index += 1;
        }
        self.scroll_offset = 0;
    }

    /// Selects the previous group, wrapping from the first to the last, and
    /// scrolls back to the top. Without groups nothing changes.
    pub fn previous(&mut self)
        ensures
            final(self)@ == old(self)@.after_previous(),
            final(self)@.selection_in_range(),
    {
        proof {
            use_type_invariant(&*self);
        }
        if self.grouped_results.is_empty() {
            return ;
        }
        if self.selected_index == 0 {
            self.selected_index = self.grouped_results.len() - 1;
        } else {
            self.selected_index -= 1;
        }
        self.scroll_offset = 0;
    }

    /// Scrolls one line down, as far as the offset can count. Without
    /// groups nothing changes.
    pub fn scroll_down(&mut self)
        ensures
            final(self)@ == old(self)@.after_scroll_down(),
            final(self)@.selection_in_range(),
    {
        proof {
            use_type_invariant(&*self);
        }
        if !self.grouped_results.is_empty() {
            self.scroll_offset = self.scroll_offset.saturating_add(1);
        }
    }

    /// Scrolls one line up, not above the top. Without groups nothing
    /// changes.
    pub fn scroll_up(&mut self)
        ensures
            final(self)@ == old(self)@.after_scroll_up(),
            final(self)@.selection_in_range(),
    {
        proof {
            use_type_invariant(&*self);
        }
        if !self.grouped_results.is_empty() {
            self.scroll_offset = self.scroll_offset.saturating_sub(1);
        }
    }

    /// Handles one key, and tells what the caller does after it.
    pub fn handle_key(&mut self, key: Key) -> (outcome: KeyOutcome)
        ensures
            final(self)@ == old(self)@.after_key(key),
            outcome == old(self)@.outcome_of_key(key),
            final(self)@.selection_in_range(),
    {
        proof {
            use_type_invariant(&*self);
        }
        match self.input_mode {
            InputMode::Normal => match key {
                Key::Char('e') => {
                    self.input_mode = InputMode::Editing;
                    self.status_message = "Editing... Press Enter to search, Esc to cancel.".to_owned();
                    KeyOutcome::Continue
                },
                Key::Char('t') => {
                    self.toggle_theme();
                    KeyOutcome::Continue
                },
                Key::Char('q') => KeyOutcome::Quit,
                Key::Right | Key::Char('l') => {
                    self.next();
                    KeyOutcome::Continue
                },
                Key::Left | Key::Char('h') => {
                    self.previous();
                    KeyOutcome::Continue
                },
                Key::Down | Key::Char('j') => {
                    self.scroll_down();
                    KeyOutcome::Continue
                },
                Key::Up | Key::Char('k') => {
                    self.scroll_up();
                    KeyOutcome::Continue
                },
                _ => KeyOutcome::Continue,
            },
            InputMode::Editing => match key {
                Key::Enter => KeyOutcome::Search,
                Key::Char(c) => {
                    let mut input = self.input.clone();
                    input.push(c);
                    self.input = input;
                    KeyOutcome::Continue
                },
                Key::Backspace => {
                    let mut input = self.input.clone();
                    input.pop();
                    self.input = input;
                    KeyOutcome::Continue
                },
                Key::Esc => {
                    self.input_mode = InputMode::Normal;
                    self.status_message = "Search cancelled.".to_owned();
                    KeyOutcome::Continue
                },
                _ => KeyOutcome::Continue,
            },
        }
    }

    /// The query as typed so far.
    pub fn input(&self) -> (r: &str)
        ensures
            r@ == self@.input,
    {
        self.input.as_str()
    }

    /// The mode that decides what a key does.
    pub fn input_mode(&self) -> (r: InputMode)
        ensures
            r == self@.input_mode,
    {
        self.input_mode
    }

    /// The groups of the last search, in ascending order of their keys.
    pub fn grouped_results(&self) -> (r: &Vec<GroupedIndicator>)
        ensures
            r@ == self@.grouped_results,
    {
        &self.grouped_results
    }

    /// The index of the selected group: below the number of groups, or
    /// zero where there is none.
    pub fn selected_index(&self) -> (r: usize)
        ensures
            r == self@.selected_index,
            self@.selection_in_range(),
    {
        proof {
            use_type_invariant(self);
        }
        self.selected_index
    }

    /// The selected group, where there is a group.
    pub fn selected_group(&self) -> (r: Option<&GroupedIndicator>)
        ensures
            self@.grouped_results.len() == 0 ==> r is None,
            self@.grouped_results.len() > 0 ==> r == Some(
                &self@.grouped_results[self@.selected_index as int],
            ),
    {
        proof {
            use_type_invariant(self);
        }
        if self.grouped_results.is_empty() {
            None
        } else {
            Some(&self.grouped_results[self.selected_index])
        }
    }

    /// How many lines the card of the selected group is scrolled down.
    pub fn scroll_offset(&self) -> (r: u16)
        ensures
            r == self@.scroll_offset,
    {
        self.scroll_offset
    }

    /// The statistics of the last search.
    pub fn stats(&self) -> (r: SearchStats)
        ensures
            r == self@.stats,
    {
        self.stats
    }

    /// The status line.
    pub fn status_message(&self) -> (r: &str)
        ensures
            r@ == self@.status_message,
    {
        self.status_message.as_str()
    }

    /// The colours in use.
    pub fn theme(&self) -> (r: AppTheme)
        ensures
            r == self@.theme,
    {
        self.theme
    }

    /// Starts a search for the query: a query of nothing but white space
    /// changes nothing and asks for nothing, any other sets the status line
    /// and asks for the request that resolves the query.
    pub fn begin_search(&mut self) -> (step: SearchStep)
        ensures
            old(self)@.starts_search(!is_blank_text(old(self)@.input), final(self)@, step),
            final(self)@.selection_in_range(),
    {
        proof {
            use_type_invariant(&*self);
        }
        let blank = is_blank(self.input.as_str());
        self.begin_search_if(!blank)
    }

    /// Starts a search for the query where `wanted` says that the query is
    /// worth one; otherwise changes nothing and asks for nothing.
    pub fn begin_search_if(&mut self, wanted: bool) -> (step: SearchStep)
        ensures
            old(self)@.starts_search(wanted, final(self)@, step),
            final(self)@.selection_in_range(),
    {
        proof {
            use_type_invariant(&*self);
        }
        if !wanted {
            return SearchStep::Idle;
        }
        let mut status = "Searching for '".to_owned();
        status.append(self.input.as_str());
        status.append("'...");
        self.status_message = status;
        SearchStep::Resolve { params: build_resolve_params(self.input.as_str()) }
    }

    /// Takes what the resolving request returned: its records, or the
    /// reason for which it failed. A failure and an empty answer end the
    /// search; records lead to the plan of their enrichment.
    pub fn search_resolved(&mut self, outcome: Result<Vec<Indicator>, String>) -> (step: SearchStep)
        ensures
            old(self)@.takes_resolution(outcome, final(self)@, step),
            final(self)@.selection_in_range(),
    {
        proof {
            use_type_invariant(&*self);
        }
        match outcome {
            Err(reason) => {
                let mut status = "Search failed: ".to_owned();
                status.append(reason.as_str());
                self.clear_results(status);
                SearchStep::Done
            },
            Ok(records) => {
                if records.is_empty() {
                    let mut status = "No results found for '".to_owned();
                    status.append(self.input.as_str());
                    status.append("'.");
                    self.clear_results(status);
                    SearchStep::Done
                } else {
                    let count = records.len();
                    let plan = plan_enrichment(records);
                    let mut status = "Fetching details for ".to_owned();
                    push_decimal_digits(&mut status, count as u64);
                    status.append(" indicators (");
                    push_decimal_digits(&mut status, plan.len() as u64);
                    status.append(" chunks)...");
                    self.status_message = status;
                    SearchStep::Enrich { plan }
                }
            },
        }
    }

    /// Takes the outcomes of the enrichment requests, in the order of the
    /// requests, and ends the search: the outcomes are merged, grouped and
    /// summarised, the selection returns to the first group and the top,
    /// and the status line tells how many records and groups were found.
    pub fn search_enriched(&mut self, outcomes: Vec<Option<Vec<Indicator>>>) -> (step: SearchStep)
        ensures
            old(self)@.takes_enrichment(outcomes@, final(self)@, step),
            final(self)@.selection_in_range(),
    {
        proof {
            use_type_invariant(&*self);
        }
        let records = merge_chunks(outcomes);
        let stats = calculate_stats(records.as_slice());
        assert(stats.total_count == records@.len()) by {
            assert(records@.len() == records.len());
        }
        let groups = group_indicators(records);
        let mut status = "Found ".to_owned();
        push_decimal_digits(&mut status, stats.total_count as u64);
        status.append(" indicators in ");
        push_decimal_digits(&mut status, groups.len() as u64);
        status.append(" groups.");
        self.selected_index = 0;
        self.scroll_offset = 0;
        self.stats = stats;
        self.grouped_results = groups;
        self.status_message = status;
        SearchStep::Done
    }

    /// Takes one event of a search and tells what the caller does next.
    pub fn advance(&mut self, event: SearchEvent) -> (step: SearchStep)
        ensures
            match event {
                SearchEvent::Submitted => old(self)@.starts_search(
                    !is_blank_text(old(self)@.input),
                    final(self)@,
                    step,
                ),
                SearchEvent::Resolved(outcome) => old(self)@.takes_resolution(
                    outcome,
                    final(self)@,
                    step,
                ),
                SearchEvent::Enriched(outcomes) => old(self)@.takes_enrichment(
                    outcomes@,
                    final(self)@,
                    step,
                ),
            },
            final(self)@.selection_in_range(),
    {
        match event {
            SearchEvent::Submitted => self.begin_search(),
            SearchEvent::Resolved(outcome) => self.search_resolved(outcome),
            SearchEvent::Enriched(outcomes) => self.search_enriched(outcomes),
        }
    }

    /// Returns to normal mode after a search that [`KeyOutcome::Search`]
    /// asked for.
    pub fn finish_search(&mut self)
        ensures
            final(self)@ == (AppView { input_mode: InputMode::Normal, ..old(self)@ }),
            final(self)@.selection_in_range(),
    {
        proof {
            use_type_invariant(&*self);
        }
        self.input_mode = InputMode::Normal;
    }

    fn clear_results(&mut self, status: String)
        ensures
            final(self)@ == old(self)@.cleared(status@),
    {
        proof {
            use_type_invariant(&*self);
        }
        self.selected_index = 0;
        self.scroll_offset = 0;
        self.grouped_results = Vec::new();
        self.stats = SearchStats::default();
        self.status_message = status;
    }

    /// Switches to the other theme.
    pub fn toggle_theme(&mut self)
        ensures
            final(self)@ == old(self)@.after_toggle_theme(),
            final(self)@.selection_in_range(),
    {
        proof {
            use_type_invariant(&*self);
        }
        self.theme = self.theme.toggled();
    }
}

} // verus!
