//! What the result card shows of a record, computed from plain values: the
//! length of the severity and confidence bars, the labels of associations,
//! the line of tags and the title of the card.

use vstd::prelude::*;
use crate::models::common::{Association, Tag};
use crate::models::indicator::RATING_SCALE;
use crate::text::{decimal_digits, push_decimal_digits};

verus! {

/// How many segments the confidence bar has.
pub const BAR_WIDTH: usize = 10;

/// How many columns of the card's width the border and padding take.
pub const CARD_MARGIN: u16 = 10;

/// How many skulls show a rating: the rating in points, rounded to the
/// nearest whole with halves rounded up, and none for a rating below zero.
pub open spec fn skulls_of(rating: int) -> int {
    if rating <= 0 {
        0
    } else {
        (rating + RATING_SCALE / 2) / (RATING_SCALE as int)
    }
}

/// The number of skulls that show `rating`.
pub fn skull_count(rating: i32) -> (r: usize)
    ensures
        r == skulls_of(rating as int),
{
    if rating <= 0 {
        0
    } else {
        ((rating as i64 + (RATING_SCALE / 2) as i64) / (RATING_SCALE as i64)) as usize
    }
}

/// How many segments of the confidence bar are filled: a tenth of the
/// confidence, rounded to the nearest whole with halves rounded up, and at
/// most the whole bar. A confidence below zero fills the bar.
pub open spec fn filled_segments(confidence: int) -> int {
    if confidence < 0 || (confidence + 5) / 10 >= BAR_WIDTH {
        BAR_WIDTH as int
    } else {
        (confidence + 5) / 10
    }
}

/// The filled and the empty segments of the bar that shows `confidence`.
pub fn confidence_bar(confidence: i32) -> (r: (usize, usize))
    ensures
        r.0 == filled_segments(confidence as int),
        r.0 + r.1 == BAR_WIDTH,
{
    let filled: usize = if confidence < 0 {
        BAR_WIDTH
    } else {
        let tenths = (confidence as i64 + 5) / 10;
        if tenths >= BAR_WIDTH as i64 {
            BAR_WIDTH
        } else {
            tenths as usize
        }
    };
    (filled, BAR_WIDTH - filled)
}

/// The width of the divider in a card of `width` columns.
pub fn divider_len(width: u16) -> (r: u16)
    ensures
        r == if width >= CARD_MARGIN { width - CARD_MARGIN } else { 0 },
{
    width.saturating_sub(CARD_MARGIN)
}

/// The label of an association without a name and a summary.
pub open spec fn unknown_label() -> Seq<char> {
    "Unknown"@
}

/// The label of an association: the preferred one of its name and its
/// summary, else the other, else "Unknown".
pub open spec fn label_of(a: Association, prefer_name: bool) -> Seq<char> {
    let (first, second) = if prefer_name { (a.name, a.summary) } else { (a.summary, a.name) };
    match first {
        Some(text) => text@,
        None => match second {
            Some(text) => text@,
            None => unknown_label(),
        },
    }
}

/// The label of `a`. A group is shown by its name before its summary
/// (`prefer_name`), an indicator by its summary before its name.
pub fn association_label(a: &Association, prefer_name: bool) -> (r: String)
    ensures
        r@ == label_of(*a, prefer_name),
{
    let (first, second) = if prefer_name { (&a.name, &a.summary) } else { (&a.summary, &a.name) };
    match first {
        Some(text) => text.clone(),
        None => match second {
            Some(text) => text.clone(),
            None => "Unknown".to_owned(),
        },
    }
}

/// The names of the tags, joined by " | ".
pub open spec fn tag_names(tags: Seq<Tag>) -> Seq<char>
    decreases tags.len(),
{
    if tags.len() == 0 {
        Seq::empty()
    } else if tags.len() == 1 {
        tags[0].name@
    } else {
        tag_names(tags.drop_last()) + " | "@ + tags.last().name@
    }
}

/// The line that shows the tags of a record.
pub fn tags_line(tags: &[Tag]) -> (r: String)
    ensures
        r@ == tag_names(tags@),
{
    let mut line = String::new();
    let mut i: usize = 0;
    assert(tags@.take(0) =~= Seq::<Tag>::empty());
    while i < tags.len()
        invariant
            i <= tags.len(),
            line@ == tag_names(tags@.take(i as int)),
        decreases tags.len() - i,
    {
        proof {
            assert(tags@.take(i + 1).drop_last() =~= tags@.take(i as int));
            assert(tags@.take(i + 1).last() == tags@[i as int]);
        }
        if i > 0 {
            line.append(" | ");
        }
        line.append(tags[i].name.as_str());
        proof {
            if i == 0 {
                assert(line@ =~= tags@[0].name@);
                assert(tags@.take(1)[0] == tags@[0]);
            }
        }
        i += 1;
    }
    assert(tags@.take(tags.len() as int) =~= tags@);
    line
}

/// The title of the card of group `index`, counted from zero, of `total`.
pub open spec fn card_title_text(index: nat, total: nat) -> Seq<char> {
    " Item "@ + decimal_digits(index + 1) + " of "@ + decimal_digits(total) + " "@
}

/// The title of the card of the group at `index` among `total` groups.
pub fn card_title(index: usize, total: usize) -> (r: String)
    requires
        index < usize::MAX,
    ensures
        r@ == card_title_text(index as nat, total as nat),
{
    let mut title = " Item ".to_owned();
    push_decimal_digits(&mut title, index as u64 + 1);
    title.append(" of ");
    push_decimal_digits(&mut title, total as u64);
    title.append(" ");
    title
}

} // verus!
