use tc_tui_rs::models::common::{ListResponse, Tag, Timestamp};
use tc_tui_rs::models::indicator::Indicator;
use tc_tui_rs::search::{
    build_detail_params, build_id_filter, build_resolve_params, merge_chunks, plan_enrichment,
    resolve_chunk, split_chunks, CHUNK_SIZE,
};

fn basic_record(id: i64) -> Indicator {
    Indicator {
        id,
        type_: "Host".to_string(),
        summary: format!("host-{}.example", id),
        rating: 0,
        confidence: 0,
        date_added: Timestamp { secs: id, nanos: 0 },
        last_modified: Timestamp { secs: id, nanos: 0 },
        owner_name: "Owner".to_string(),
        owner_id: 1,
        web_link: String::new(),
        description: None,
        active: true,
        source: None,
        false_positive_flag: false,
        false_positives: 0,
        observations: 0,
        tags: ListResponse::default(),
        attributes: ListResponse::default(),
        associated_groups: ListResponse::default(),
        associated_indicators: ListResponse::default(),
    }
}

fn detailed_record(id: i64) -> Indicator {
    let mut record = basic_record(id);
    record.tags.data.push(Tag { name: "apt".to_string(), description: None });
    record
}

fn basic_records(count: i64) -> Vec<Indicator> {
    (1..=count).map(basic_record).collect()
}

fn pairs(params: &[(String, String)]) -> Vec<(&str, &str)> {
    params.iter().map(|(k, v)| (k.as_str(), v.as_str())).collect()
}

fn ids(records: &[Indicator]) -> Vec<i64> {
    records.iter().map(|r| r.id).collect()
}

#[test]
fn resolve_params_ask_for_a_fuzzy_match() {
    let params = build_resolve_params("bad.com");
    assert_eq!(
        pairs(&params),
        vec![
            ("tql", "summary like \"%bad.com%\""),
            ("resultStart", "0"),
            ("resultLimit", "100"),
            ("sorting", "dateAdded ASC"),
        ]
    );
}

#[test]
fn resolve_params_pass_the_query_through() {
    let params = build_resolve_params("  a \"b\" % ");
    assert_eq!(params[0].1, "summary like \"%  a \"b\" % %\"");
}

#[test]
fn id_filter_joins_ids_with_commas() {
    let records = vec![basic_record(7), basic_record(42), basic_record(1005)];
    assert_eq!(build_id_filter(&records), "id in (7,42,1005)");
}

#[test]
fn id_filter_of_one_and_of_no_record() {
    assert_eq!(build_id_filter(&[basic_record(9)]), "id in (9)");
    assert_eq!(build_id_filter(&[]), "id in ()");
}

#[test]
fn id_filter_writes_zero_and_negative_ids() {
    let records = vec![basic_record(0), basic_record(-15), basic_record(i64::MIN), basic_record(i64::MAX)];
    assert_eq!(
        build_id_filter(&records),
        "id in (0,-15,-9223372036854775808,9223372036854775807)"
    );
}

#[test]
fn detail_params_ask_for_the_nested_fields() {
    let records = vec![basic_record(3), basic_record(4)];
    let params = build_detail_params(&records);
    assert_eq!(
        pairs(&params),
        vec![
            ("tql", "id in (3,4)"),
            ("resultLimit", "100"),
            ("sorting", "dateAdded ASC"),
            ("fields", "tags"),
            ("fields", "associatedGroups"),
            ("fields", "associatedIndicators"),
        ]
    );
}

#[test]
fn forty_five_records_make_three_chunks() {
    let chunks = split_chunks(basic_records(45), 20);
    let sizes: Vec<usize> = chunks.iter().map(|c| c.len()).collect();
    assert_eq!(sizes, vec![20, 20, 5]);
    assert_eq!(ids(&chunks[0]), (1..=20).collect::<Vec<i64>>());
    assert_eq!(ids(&chunks[1]), (21..=40).collect::<Vec<i64>>());
    assert_eq!(ids(&chunks[2]), (41..=45).collect::<Vec<i64>>());
}

#[test]
fn chunks_at_the_edges() {
    assert!(split_chunks(vec![], 20).is_empty());
    let sizes = |n: i64, size: usize| -> Vec<usize> {
        split_chunks(basic_records(n), size).iter().map(|c| c.len()).collect()
    };
    assert_eq!(sizes(1, 20), vec![1]);
    assert_eq!(sizes(19, 20), vec![19]);
    assert_eq!(sizes(20, 20), vec![20]);
    assert_eq!(sizes(21, 20), vec![20, 1]);
    assert_eq!(sizes(40, 20), vec![20, 20]);
    assert_eq!(sizes(100, 20), vec![20, 20, 20, 20, 20]);
    assert_eq!(sizes(3, 1), vec![1, 1, 1]);
    assert_eq!(sizes(5, 2), vec![2, 2, 1]);
}

#[test]
fn plan_has_one_request_per_chunk() {
    assert_eq!(CHUNK_SIZE, 20);
    let plan = plan_enrichment(basic_records(45));
    assert_eq!(plan.len(), 3);
    assert_eq!(plan[0].basic.len(), 20);
    assert_eq!(plan[1].basic.len(), 20);
    assert_eq!(plan[2].basic.len(), 5);
    assert_eq!(plan[2].params[0].0, "tql");
    assert_eq!(plan[2].params[0].1, "id in (41,42,43,44,45)");
    assert_eq!(plan[0].params.len(), 6);
    let expected: Vec<String> = (1..=20).map(|i| i.to_string()).collect();
    assert_eq!(plan[0].params[0].1, format!("id in ({})", expected.join(",")));
}

#[test]
fn failed_chunk_falls_back_to_its_basic_records() {
    let basic = vec![basic_record(1), basic_record(2)];
    let settled = resolve_chunk(basic, None);
    assert_eq!(ids(&settled), vec![1, 2]);
    assert!(settled.iter().all(|r| r.tags.is_empty()));
}

#[test]
fn answered_chunk_takes_the_detailed_records() {
    let basic = vec![basic_record(1), basic_record(2)];
    let detailed = vec![detailed_record(2), detailed_record(1)];
    let settled = resolve_chunk(basic, Some(detailed));
    assert_eq!(ids(&settled), vec![2, 1]);
    assert!(settled.iter().all(|r| r.tags.data.len() == 1));
}

#[test]
fn middle_chunk_failure_keeps_all_forty_five_records() {
    let plan = plan_enrichment(basic_records(45));
    let mut outcomes = Vec::new();
    for (k, request) in plan.into_iter().enumerate() {
        let response = if k == 1 {
            None
        } else {
            Some(request.basic.iter().map(|r| detailed_record(r.id)).collect())
        };
        outcomes.push(Some(resolve_chunk(request.basic, response)));
    }
    let merged = merge_chunks(outcomes);
    assert_eq!(merged.len(), 45);
    assert_eq!(ids(&merged), (1..=45).collect::<Vec<i64>>());
    for (position, record) in merged.iter().enumerate() {
        let undetailed = (20..40).contains(&position);
        assert_eq!(record.tags.is_empty(), undetailed);
    }
}

#[test]
fn merge_keeps_chunk_order_and_skips_missing_outcomes() {
    let outcomes = vec![
        Some(vec![basic_record(5), basic_record(6)]),
        None,
        Some(vec![]),
        Some(vec![basic_record(1)]),
    ];
    assert_eq!(ids(&merge_chunks(outcomes)), vec![5, 6, 1]);
    assert!(merge_chunks(vec![]).is_empty());
    assert!(merge_chunks(vec![None, None]).is_empty());
}
