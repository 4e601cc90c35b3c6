use tc_tui_rs::aggregation::SearchStats;
use tc_tui_rs::models::common::{ListResponse, Timestamp};
use tc_tui_rs::models::indicator::Indicator;
use tc_tui_rs::search::resolve_chunk;
use tc_tui_rs::theme::{AppTheme, ThemeColor, ThemeVariant};
use tc_tui_rs::tui::{App, InputMode, Key, KeyOutcome, SearchEvent, SearchStep};

const WELCOME: &str = "Press 'q' to quit, 'e' to enter search mode, 't' to toggle theme.";

fn record(id: i64, summary: &str, owner: &str) -> Indicator {
    Indicator {
        id,
        type_: "Host".to_string(),
        summary: summary.to_string(),
        rating: 3000,
        confidence: 50,
        date_added: Timestamp { secs: id, nanos: 0 },
        last_modified: Timestamp { secs: id, nanos: 0 },
        owner_name: owner.to_string(),
        owner_id: 1,
        web_link: String::new(),
        description: None,
        active: true,
        source: None,
        false_positive_flag: false,
        false_positives: 0,
        observations: 0,
        tags: ListResponse::default(),
        attributes: ListResponse::default(),
        associated_groups: ListResponse::default(),
        associated_indicators: ListResponse::default(),
    }
}

fn type_query(app: &mut App, query: &str) {
    assert_eq!(app.handle_key(Key::Char('e')), KeyOutcome::Continue);
    for c in query.chars() {
        assert_eq!(app.handle_key(Key::Char(c)), KeyOutcome::Continue);
    }
}

fn app_with_groups(summaries: &[&str]) -> App {
    let mut app = App::new();
    let records: Vec<Indicator> = summaries
        .iter()
        .enumerate()
        .map(|(i, s)| record(i as i64, s, "Owner"))
        .collect();
    app.search_enriched(vec![Some(records)]);
    app
}

#[test]
fn new_app_is_empty_and_in_normal_mode() {
    let app = App::new();
    assert_eq!(app.input(), "");
    assert_eq!(app.input_mode(), InputMode::Normal);
    assert!(app.grouped_results().is_empty());
    assert_eq!(app.selected_index(), 0);
    assert_eq!(app.scroll_offset(), 0);
    assert_eq!(app.stats(), SearchStats::default());
    assert_eq!(app.status_message(), WELCOME);
    assert_eq!(app.theme(), AppTheme::default_theme());
    assert!(app.selected_group().is_none());
}

#[test]
fn blank_query_is_a_no_op() {
    for query in ["", "   ", " \t "] {
        let mut app = app_with_groups(&["a", "b"]);
        app.handle_key(Key::Right);
        type_query(&mut app, query);
        let status = app.status_message().to_string();
        assert!(matches!(app.begin_search(), SearchStep::Idle));
        assert_eq!(app.status_message(), status);
        assert_eq!(app.grouped_results().len(), 2);
        assert_eq!(app.selected_index(), 1);
        assert_eq!(app.stats().total_count, 2);
        assert_eq!(app.input(), query);
    }
}

#[test]
fn search_starts_with_the_resolving_request() {
    let mut app = App::new();
    type_query(&mut app, "bad.com");
    match app.begin_search() {
        SearchStep::Resolve { params } => {
            assert_eq!(params.len(), 4);
            assert_eq!(params[0], ("tql".to_string(), "summary like \"%bad.com%\"".to_string()));
            assert_eq!(params[1], ("resultStart".to_string(), "0".to_string()));
            assert_eq!(params[2], ("resultLimit".to_string(), "100".to_string()));
            assert_eq!(params[3], ("sorting".to_string(), "dateAdded ASC".to_string()));
        }
        other => panic!("unexpected step {:?}", other),
    }
    assert_eq!(app.status_message(), "Searching for 'bad.com'...");
    assert!(app.grouped_results().is_empty());
}

#[test]
fn no_records_end_the_search_with_empty_results() {
    let mut app = app_with_groups(&["a", "b", "c"]);
    app.handle_key(Key::Right);
    app.handle_key(Key::Down);
    type_query(&mut app, "nothing");
    app.begin_search();
    assert!(matches!(app.search_resolved(Ok(vec![])), SearchStep::Done));
    assert_eq!(app.status_message(), "No results found for 'nothing'.");
    assert!(app.grouped_results().is_empty());
    assert_eq!(app.stats(), SearchStats::default());
    assert_eq!(app.selected_index(), 0);
    assert_eq!(app.scroll_offset(), 0);
}

#[test]
fn failed_resolution_clears_the_results_and_tells_the_reason() {
    let mut app = app_with_groups(&["a", "b"]);
    app.handle_key(Key::Right);
    app.handle_key(Key::Down);
    type_query(&mut app, "x");
    app.begin_search();
    let step = app.search_resolved(Err("401 Unauthorized".to_string()));
    assert!(matches!(step, SearchStep::Done));
    assert_eq!(app.status_message(), "Search failed: 401 Unauthorized");
    assert!(app.grouped_results().is_empty());
    assert_eq!(app.stats(), SearchStats::default());
    assert_eq!(app.selected_index(), 0);
    assert_eq!(app.scroll_offset(), 0);
}

#[test]
fn resolved_records_are_planned_in_chunks() {
    let mut app = app_with_groups(&["old"]);
    type_query(&mut app, "host");
    app.begin_search();
    let records: Vec<Indicator> = (1..=45).map(|i| record(i, "host", "Owner")).collect();
    match app.search_resolved(Ok(records)) {
        SearchStep::Enrich { plan } => {
            let sizes: Vec<usize> = plan.iter().map(|r| r.basic.len()).collect();
            assert_eq!(sizes, vec![20, 20, 5]);
            assert_eq!(plan[2].params[0].1, "id in (41,42,43,44,45)");
        }
        other => panic!("unexpected step {:?}", other),
    }
    assert_eq!(app.status_message(), "Fetching details for 45 indicators (3 chunks)...");
    assert_eq!(app.grouped_results().len(), 1);
    assert_eq!(app.stats().total_count, 1);
}

#[test]
fn enriched_records_are_grouped_and_summarised() {
    let mut app = app_with_groups(&["x", "y", "z"]);
    app.handle_key(Key::Right);
    app.handle_key(Key::Down);
    let outcomes = vec![
        Some(vec![record(1, "bad.com", "Owner A"), record(2, "evil.exe", "Owner B")]),
        None,
        Some(vec![record(3, "BAD.COM", "Owner C"), record(4, "Bad.com", "Owner A")]),
    ];
    assert!(matches!(app.search_enriched(outcomes), SearchStep::Done));
    assert_eq!(app.status_message(), "Found 4 indicators in 2 groups.");
    assert_eq!(app.stats().total_count, 4);
    assert_eq!(app.stats().unique_owners, 3);
    assert_eq!(app.grouped_results().len(), 2);
    assert_eq!(app.grouped_results()[0].summary, "bad.com");
    assert_eq!(app.grouped_results()[0].indicators.len(), 3);
    assert_eq!(app.grouped_results()[1].summary, "evil.exe");
    assert_eq!(app.selected_index(), 0);
    assert_eq!(app.scroll_offset(), 0);
    assert_eq!(app.selected_group().map(|g| g.summary.as_str()), Some("bad.com"));
}

#[test]
fn whole_search_with_a_failing_chunk() {
    let mut app = App::new();
    type_query(&mut app, "host");
    assert_eq!(app.handle_key(Key::Enter), KeyOutcome::Search);
    assert!(matches!(app.begin_search(), SearchStep::Resolve { .. }));
    let records: Vec<Indicator> =
        (1..=45).map(|i| record(i, &format!("host-{}", i % 9), "Owner")).collect();
    let plan = match app.search_resolved(Ok(records)) {
        SearchStep::Enrich { plan } => plan,
        other => panic!("unexpected step {:?}", other),
    };
    let mut outcomes = Vec::new();
    for (k, request) in plan.into_iter().enumerate() {
        let response = if k == 1 { None } else { Some(request.basic.clone()) };
        outcomes.push(Some(resolve_chunk(request.basic, response)));
    }
    app.search_enriched(outcomes);
    app.finish_search();
    assert_eq!(app.input_mode(), InputMode::Normal);
    assert_eq!(app.stats().total_count, 45);
    assert_eq!(app.grouped_results().len(), 9);
    assert_eq!(app.status_message(), "Found 45 indicators in 9 groups.");
    let members: usize = app.grouped_results().iter().map(|g| g.indicators.len()).sum();
    assert_eq!(members, 45);
}

#[test]
fn next_and_previous_wrap_around() {
    let mut app = app_with_groups(&["a", "b", "c"]);
    assert_eq!(app.selected_index(), 0);
    app.next();
    assert_eq!(app.selected_index(), 1);
    app.next();
    assert_eq!(app.selected_index(), 2);
    app.next();
    assert_eq!(app.selected_index(), 0);
    app.previous();
    assert_eq!(app.selected_index(), 2);
    app.previous();
    assert_eq!(app.selected_index(), 1);
    assert_eq!(app.selected_group().map(|g| g.summary.as_str()), Some("b"));
}

#[test]
fn moving_to_another_group_scrolls_to_the_top() {
    let mut app = app_with_groups(&["a", "b"]);
    app.scroll_down();
    app.scroll_down();
    assert_eq!(app.scroll_offset(), 2);
    app.next();
    assert_eq!(app.scroll_offset(), 0);
    app.scroll_down();
    app.previous();
    assert_eq!(app.scroll_offset(), 0);
}

#[test]
fn navigation_without_groups_changes_nothing() {
    let mut app = App::new();
    app.next();
    app.previous();
    app.scroll_down();
    app.scroll_up();
    assert_eq!(app.selected_index(), 0);
    assert_eq!(app.scroll_offset(), 0);
    assert_eq!(app.status_message(), WELCOME);
}

#[test]
fn scrolling_stops_at_both_ends() {
    let mut app = app_with_groups(&["a"]);
    app.scroll_up();
    assert_eq!(app.scroll_offset(), 0);
    for _ in 0..70_000u32 {
        app.scroll_down();
    }
    assert_eq!(app.scroll_offset(), u16::MAX);
    app.scroll_up();
    assert_eq!(app.scroll_offset(), u16::MAX - 1);
}

#[test]
fn theme_toggles_between_the_two() {
    let mut app = App::new();
    assert_eq!(app.theme().variant, ThemeVariant::ThreatConnect);
    app.toggle_theme();
    assert_eq!(app.theme(), AppTheme::color_pop());
    assert_eq!(app.theme().variant, ThemeVariant::ColorPop);
    app.toggle_theme();
    assert_eq!(app.theme(), AppTheme::default_theme());
}

#[test]
fn themes_hold_their_colours() {
    let default = AppTheme::default_theme();
    assert_eq!(default.variant, ThemeVariant::ThreatConnect);
    assert_eq!(default.border, ThemeColor::Rgb(255, 122, 79));
    assert_eq!(default.text, ThemeColor::White);
    assert_eq!(default.title_secondary, ThemeColor::Rgb(250, 198, 148));
    assert_eq!(default.summary_highlight, ThemeColor::Rgb(254, 124, 80));
    assert_eq!(default.owner_label, ThemeColor::Rgb(51, 93, 127));
    assert_eq!(default.date_label, ThemeColor::Rgb(179, 209, 247));
    assert_eq!(default.evilness_label, ThemeColor::Rgb(163, 76, 0));
    assert_eq!(default.confidence_empty, ThemeColor::White);
    assert_eq!(default.separator, ThemeColor::DarkGray);
    let pop = AppTheme::color_pop();
    assert_eq!(pop.variant, ThemeVariant::ColorPop);
    assert_eq!(pop.border, ThemeColor::Rgb(0, 191, 255));
    assert_eq!(pop.text, ThemeColor::Rgb(255, 255, 255));
    assert_eq!(pop.input_edit, ThemeColor::Rgb(255, 20, 147));
    assert_eq!(pop.active_label, ThemeColor::Rgb(0, 255, 0));
    assert_eq!(pop.evilness_label, ThemeColor::Rgb(255, 0, 0));
    assert_eq!(pop.confidence_filled, ThemeColor::Rgb(255, 255, 0));
    assert_eq!(pop.confidence_empty, ThemeColor::Rgb(129, 124, 121));
    assert_eq!(pop.separator, ThemeColor::Rgb(136, 136, 136));
    assert_eq!(default.toggled(), pop);
    assert_eq!(pop.toggled(), default);
}

#[test]
fn keys_in_normal_mode() {
    let mut app = app_with_groups(&["a", "b", "c"]);
    assert_eq!(app.handle_key(Key::Right), KeyOutcome::Continue);
    assert_eq!(app.selected_index(), 1);
    app.handle_key(Key::Char('l'));
    assert_eq!(app.selected_index(), 2);
    app.handle_key(Key::Left);
    assert_eq!(app.selected_index(), 1);
    app.handle_key(Key::Char('h'));
    assert_eq!(app.selected_index(), 0);
    app.handle_key(Key::Down);
    app.handle_key(Key::Char('j'));
    assert_eq!(app.scroll_offset(), 2);
    app.handle_key(Key::Up);
    assert_eq!(app.scroll_offset(), 1);
    app.handle_key(Key::Char('k'));
    assert_eq!(app.scroll_offset(), 0);
    app.handle_key(Key::Char('t'));
    assert_eq!(app.theme().variant, ThemeVariant::ColorPop);
    for key in [Key::Enter, Key::Backspace, Key::Esc, Key::Other, Key::Char('x')] {
        assert_eq!(app.handle_key(key), KeyOutcome::Continue);
    }
    assert_eq!(app.input(), "");
    assert_eq!(app.input_mode(), InputMode::Normal);
    assert_eq!(app.handle_key(Key::Char('q')), KeyOutcome::Quit);
    assert_eq!(app.handle_key(Key::Char('e')), KeyOutcome::Continue);
    assert_eq!(app.input_mode(), InputMode::Editing);
    assert_eq!(app.status_message(), "Editing... Press Enter to search, Esc to cancel.");
}

#[test]
fn keys_while_editing() {
    let mut app = app_with_groups(&["a", "b"]);
    type_query(&mut app, "qet");
    assert_eq!(app.input(), "qet");
    assert_eq!(app.input_mode(), InputMode::Editing);
    assert_eq!(app.theme().variant, ThemeVariant::ThreatConnect);
    app.handle_key(Key::Backspace);
    assert_eq!(app.input(), "qe");
    app.handle_key(Key::Char('é'));
    assert_eq!(app.input(), "qeé");
    app.handle_key(Key::Backspace);
    app.handle_key(Key::Backspace);
    app.handle_key(Key::Backspace);
    app.handle_key(Key::Backspace);
    assert_eq!(app.input(), "");
    for key in [Key::Left, Key::Right, Key::Up, Key::Down, Key::Other] {
        assert_eq!(app.handle_key(key), KeyOutcome::Continue);
    }
    assert_eq!(app.selected_index(), 0);
    assert_eq!(app.scroll_offset(), 0);
    assert_eq!(app.handle_key(Key::Enter), KeyOutcome::Search);
    assert_eq!(app.input_mode(), InputMode::Editing);
    assert_eq!(app.handle_key(Key::Esc), KeyOutcome::Continue);
    assert_eq!(app.input_mode(), InputMode::Normal);
    assert_eq!(app.status_message(), "Search cancelled.");
}

#[test]
fn search_starts_only_where_it_is_wanted() {
    let mut app = App::new();
    type_query(&mut app, "x");
    let status = app.status_message().to_string();
    assert!(matches!(app.begin_search_if(false), SearchStep::Idle));
    assert_eq!(app.status_message(), status);
    match app.begin_search_if(true) {
        SearchStep::Resolve { params } => assert_eq!(params[0].1, "summary like \"%x%\""),
        other => panic!("unexpected step {:?}", other),
    }
    assert_eq!(app.status_message(), "Searching for 'x'...");
}

#[test]
fn events_drive_a_search_to_its_end() {
    let mut app = App::new();
    assert!(matches!(app.advance(SearchEvent::Submitted), SearchStep::Idle));
    type_query(&mut app, "evil");
    assert!(matches!(app.advance(SearchEvent::Submitted), SearchStep::Resolve { .. }));
    assert_eq!(app.status_message(), "Searching for 'evil'...");
    let records = vec![record(1, "evil.exe", "A"), record(2, "EVIL.exe", "B")];
    let plan = match app.advance(SearchEvent::Resolved(Ok(records))) {
        SearchStep::Enrich { plan } => plan,
        other => panic!("unexpected step {:?}", other),
    };
    assert_eq!(app.status_message(), "Fetching details for 2 indicators (1 chunks)...");
    assert_eq!(plan.len(), 1);
    let outcomes = plan.into_iter().map(|request| Some(request.basic)).collect();
    assert!(matches!(app.advance(SearchEvent::Enriched(outcomes)), SearchStep::Done));
    assert_eq!(app.status_message(), "Found 2 indicators in 1 groups.");
    assert!(matches!(
        app.advance(SearchEvent::Resolved(Err("timeout".to_string()))),
        SearchStep::Done
    ));
    assert_eq!(app.status_message(), "Search failed: timeout");
    assert!(app.grouped_results().is_empty());
}
