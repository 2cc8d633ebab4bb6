//! Editing a user's links as rows of text.

use vstd::prelude::*;
use crate::text::{chars_of, join_char, join_chars, lemma_join_split, split_char, split_chars, string_of, views};

verus! {

pub open spec fn text_views(v: Seq<String>) -> Seq<Seq<char>> {
    v.map_values(|s: String| s@)
}

/// The rows of an edited link list: its lines (one empty row for an empty
/// text).
pub fn link_rows_from_text(links_text: &str) -> (r: Vec<String>)
    ensures
        text_views(r@) == split_char(links_text@, '\n'),
{
    let chars = chars_of(links_text);
    let pieces = split_chars(&chars, '\n');
    let mut rows: Vec<String> = Vec::new();
    let mut i: usize = 0;
    while i < pieces.len()
        invariant
            i <= pieces.len(),
            text_views(rows@) == views(pieces@).take(i as int),
        decreases pieces.len() - i,
    {
        let ghost before = rows@;
        let row = string_of(&pieces[i]);
        rows.push(row);
        proof {
            assert(text_views(rows@) =~= text_views(before).push(row@));
            assert(views(pieces@).take(i + 1) =~= views(pieces@).take(i as int).push(pieces@[i as int]@));
        }
        i += 1;
    }
    proof {
        assert(views(pieces@).take(pieces.len() as int) =~= views(pieces@));
    }
    rows
}

/// The link text that a list of rows stands for: the rows joined by newlines.
pub fn commit_link_rows(rows: &Vec<String>) -> (r: String)
    ensures
        r@ == join_char(text_views(rows@), '\n'),
{
    let mut pieces: Vec<Vec<char>> = Vec::new();
    let mut i: usize = 0;
    while i < rows.len()
        invariant
            i <= rows.len(),
            views(pieces@) == text_views(rows@).take(i as int),
        decreases rows.len() - i,
    {
        let ghost before = pieces@;
        let piece = chars_of(rows[i].as_str());
        pieces.push(piece);
        proof {
            assert(views(pieces@) =~= views(before).push(piece@));
            assert(text_views(rows@).take(i + 1) =~= text_views(rows@).take(i as int).push(rows@[i as int]@));
        }
        i += 1;
    }
    proof {
        assert(text_views(rows@).take(rows.len() as int) =~= text_views(rows@));
    }
    let joined = join_chars(&pieces, '\n');
    string_of(&joined)
}

/// Splitting a link text into rows and committing the rows unchanged gives
/// back the same text.
pub proof fn lemma_rows_round_trip(links_text: Seq<char>)
    ensures
        join_char(split_char(links_text, '\n'), '\n') == links_text,
{
    lemma_join_split(links_text, '\n');
}

/// The rows after dragging the row at `from` to position `to`; out-of-range
/// or equal positions leave the rows as they are.
pub open spec fn moved_rows<T>(rows: Seq<T>, from: int, to: int) -> Seq<T> {
    if from >= rows.len() || to >= rows.len() || from == to {
        rows
    } else {
        rows.remove(from).insert(to, rows[from])
    }
}

/// Moves the row at `from` to position `to`.
pub fn move_link_row_to_index(rows: &Vec<String>, from: usize, to: usize) -> (r: Vec<String>)
    ensures
        r@ == moved_rows(rows@, from as int, to as int),
{
    if from >= rows.len() || to >= rows.len() || from == to {
        return rows.clone();
    }
    let mut next_rows = rows.clone();
    let moved = next_rows.remove(from);
    let at = if to <= next_rows.len() { to } else { next_rows.len() };
    next_rows.insert(at, moved);
    next_rows
}

/// Moving a row keeps the same rows, each as often as before.
pub proof fn lemma_move_keeps_rows<T>(rows: Seq<T>, from: int, to: int)
    requires
        0 <= from,
        0 <= to,
    ensures
        moved_rows(rows, from, to).to_multiset() == rows.to_multiset(),
        moved_rows(rows, from, to).len() == rows.len(),
{
    if !(from >= rows.len() || to >= rows.len() || from == to) {
        vstd::seq_lib::to_multiset_remove(rows, from);
        vstd::seq_lib::to_multiset_insert(rows.remove(from), to, rows[from]);
        assert(rows.to_multiset().remove(rows[from]).insert(rows[from]) =~= rows.to_multiset()) by {
            broadcast use vstd::multiset::group_multiset_axioms;
            broadcast use vstd::seq_lib::to_multiset_contains;
            assert(rows.contains(rows[from]));
        }
    }
}

pub open spec fn cache_state_text(state: Seq<char>) -> Seq<char> {
    if state == "fresh"@ {
        "最新"@
    } else if state == "expired"@ {
        "已过期"@
    } else if state == "empty"@ {
        "空缓存"@
    } else {
        "未知"@
    }
}

fn is_text(t: &String, lit: &str) -> (r: bool)
    ensures
        r == (t@ == lit@),
{
    *t == lit.to_owned()
}

/// The label shown for a cache state.
pub fn cache_state_label(state: &str) -> (r: &'static str)
    ensures
        r@ == cache_state_text(state@),
{
    let s = state.to_owned();
    if is_text(&s, "fresh") {
        "最新"
    } else if is_text(&s, "expired") {
        "已过期"
    } else if is_text(&s, "empty") {
        "空缓存"
    } else {
        "未知"
    }
}

pub open spec fn diagnostic_status_text(status: Seq<char>) -> Seq<char> {
    if status == "success"@ {
        "成功"@
    } else if status == "error"@ {
        "失败"@
    } else if status == "blocked"@ {
        "已阻断"@
    } else if status == "pending"@ {
        "待抓取"@
    } else {
        "未知"@
    }
}

/// The label shown for a fetch diagnostic's status.
pub fn diagnostic_status_label(status: &str) -> (r: &'static str)
    ensures
        r@ == diagnostic_status_text(status@),
{
    let s = status.to_owned();
    if is_text(&s, "success") {
        "成功"
    } else if is_text(&s, "error") {
        "失败"
    } else if is_text(&s, "blocked") {
        "已阻断"
    } else if is_text(&s, "pending") {
        "待抓取"
    } else {
        "未知"
    }
}

pub open spec fn diagnostic_status_style(status: Seq<char>) -> Seq<char> {
    if status == "success"@ {
        "tag--success"@
    } else if status == "error"@ || status == "blocked"@ {
        "tag--danger"@
    } else if status == "pending"@ {
        "tag--cool"@
    } else {
        ""@
    }
}

/// The style class of a fetch diagnostic's status tag.
pub fn diagnostic_status_class(status: &str) -> (r: &'static str)
    ensures
        r@ == diagnostic_status_style(status@),
{
    let s = status.to_owned();
    if is_text(&s, "success") {
        "tag--success"
    } else if is_text(&s, "error") {
        "tag--danger"
    } else if is_text(&s, "blocked") {
        "tag--danger"
    } else if is_text(&s, "pending") {
        "tag--cool"
    } else {
        ""
    }
}

} // verus!

verus! {

/// The RFC 3339 text that `time` writes for a Unix timestamp taken in UTC.
pub uninterp spec fn unix_rfc3339(timestamp: i64) -> Seq<char>;

/// The timestamps from the start of year 0 to the end of year 9999 (UTC):
/// those that `OffsetDateTime::from_unix_timestamp` accepts and whose year
/// the `Rfc3339` format can write.
pub open spec fn rfc3339_in_range(timestamp: i64) -> bool {
    -62167219200 <= timestamp <= 253402300799
}

/// Formats a Unix timestamp with `time`: `OffsetDateTime::from_unix_timestamp`,
/// then `format(&Rfc3339)`.  The contract claims that a text comes back
/// exactly for timestamps in years 0 to 9999 (the first call rejects
/// timestamps outside its date range, the second years outside 0..10000)
/// and names that text; it does not state the calendar arithmetic.
#[verifier::external_body]
fn rfc3339_of_unix(timestamp: i64) -> (r: Option<String>)
    ensures
        r is Some <==> rfc3339_in_range(timestamp),
        r matches Some(s) ==> s@ == unix_rfc3339(timestamp),
{
    time::OffsetDateTime::from_unix_timestamp(timestamp)
        .ok()
        .and_then(|value| value.format(&time::format_description::well_known::Rfc3339).ok())
}

pub open spec fn unrecorded_text() -> Seq<char> {
    "未记录"@
}

/// The label for a timestamp that was formatted (`None`: absent, or not
/// writable).
pub open spec fn timestamp_label(formatted: Option<Seq<char>>) -> Seq<char> {
    match formatted {
        Some(s) => s,
        None => unrecorded_text(),
    }
}

/// Shows a formatted timestamp, or that none was recorded.
pub fn timestamp_text(formatted: Option<String>) -> (r: String)
    ensures
        r@ == timestamp_label(
            match formatted {
                Some(s) => Some(s@),
                None => None,
            },
        ),
{
    match formatted {
        Some(s) => s,
        None => "未记录".to_owned(),
    }
}

/// The label for an optional Unix timestamp: its RFC 3339 text, or the
/// "not recorded" label when it is absent or outside years 0 to 9999.
pub open spec fn optional_timestamp_text(timestamp: Option<i64>) -> Seq<char> {
    match timestamp {
        Some(t) => if rfc3339_in_range(t) {
            unix_rfc3339(t)
        } else {
            unrecorded_text()
        },
        None => unrecorded_text(),
    }
}

/// Formats an optional Unix timestamp for display.
pub fn format_optional_timestamp(timestamp: Option<i64>) -> (r: String)
    ensures
        r@ == optional_timestamp_text(timestamp),
{
    let formatted = match timestamp {
        Some(t) => rfc3339_of_unix(t),
        None => None,
    };
    timestamp_text(formatted)
}

} // verus!
