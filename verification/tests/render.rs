use tc_tui_rs::models::common::{Association, Tag};
use tc_tui_rs::render::{
    association_label, card_title, confidence_bar, divider_len, skull_count, tags_line,
};

fn association(name: Option<&str>, summary: Option<&str>) -> Association {
    Association {
        id: 1,
        type_: "Incident".to_string(),
        object_type: "Group".to_string(),
        summary: summary.map(|s| s.to_string()),
        name: name.map(|s| s.to_string()),
    }
}

fn tag(name: &str) -> Tag {
    Tag { name: name.to_string(), description: None }
}

#[test]
fn skulls_round_the_rating_to_whole_points() {
    assert_eq!(skull_count(0), 0);
    assert_eq!(skull_count(-3000), 0);
    assert_eq!(skull_count(499), 0);
    assert_eq!(skull_count(500), 1);
    assert_eq!(skull_count(2499), 2);
    assert_eq!(skull_count(2500), 3);
    assert_eq!(skull_count(5000), 5);
    assert_eq!(skull_count(i32::MAX), 2147484);
}

#[test]
fn confidence_bar_has_ten_segments() {
    assert_eq!(confidence_bar(0), (0, 10));
    assert_eq!(confidence_bar(4), (0, 10));
    assert_eq!(confidence_bar(5), (1, 9));
    assert_eq!(confidence_bar(44), (4, 6));
    assert_eq!(confidence_bar(45), (5, 5));
    assert_eq!(confidence_bar(94), (9, 1));
    assert_eq!(confidence_bar(95), (10, 0));
    assert_eq!(confidence_bar(100), (10, 0));
    assert_eq!(confidence_bar(1000), (10, 0));
    assert_eq!(confidence_bar(i32::MAX), (10, 0));
    assert_eq!(confidence_bar(-1), (10, 0));
}

#[test]
fn divider_leaves_room_for_border_and_padding() {
    assert_eq!(divider_len(0), 0);
    assert_eq!(divider_len(9), 0);
    assert_eq!(divider_len(10), 0);
    assert_eq!(divider_len(11), 1);
    assert_eq!(divider_len(80), 70);
    assert_eq!(divider_len(u16::MAX), u16::MAX - 10);
}

#[test]
fn group_label_prefers_the_name() {
    assert_eq!(association_label(&association(Some("n"), Some("s")), true), "n");
    assert_eq!(association_label(&association(None, Some("s")), true), "s");
    assert_eq!(association_label(&association(Some("n"), None), true), "n");
    assert_eq!(association_label(&association(None, None), true), "Unknown");
}

#[test]
fn indicator_label_prefers_the_summary() {
    assert_eq!(association_label(&association(Some("n"), Some("s")), false), "s");
    assert_eq!(association_label(&association(None, Some("s")), false), "s");
    assert_eq!(association_label(&association(Some("n"), None), false), "n");
    assert_eq!(association_label(&association(None, None), false), "Unknown");
}

#[test]
fn tags_are_joined_by_bars() {
    assert_eq!(tags_line(&[]), "");
    assert_eq!(tags_line(&[tag("apt")]), "apt");
    assert_eq!(tags_line(&[tag("apt"), tag("False Positive"), tag("")]), "apt | False Positive | ");
}

#[test]
fn card_title_counts_from_one() {
    assert_eq!(card_title(0, 1), " Item 1 of 1 ");
    assert_eq!(card_title(9, 12), " Item 10 of 12 ");
}
