//! The decisions of the console's panels: which controls are enabled, the
//! style classes of list rows while one is dragged, what editing a row does
//! to the link rows, and the hints shown beside them.

use vstd::prelude::*;
use crate::rules::{is_valid_source_url, source_url_ok};
use crate::text::{chars_of, decimal, decimal_chars, string_of, trim, trim_chars};

verus! {

/// The rows after the row at `index` is given the text `value`.
pub fn edit_link_row(rows: &Vec<String>, index: usize, value: String) -> (r: Vec<String>)
    requires
        index < rows.len(),
    ensures
        r@ == rows@.update(index as int, value),
{
    let mut next_rows = rows.clone();
    next_rows.set(index, value);
    next_rows
}

/// The rows after "add": one more, empty, row at the end.
pub fn append_link_row(rows: &Vec<String>) -> (r: Vec<String>)
    ensures
        r@.len() == rows@.len() + 1,
        r@.take(rows@.len() as int) == rows@,
        r@.last()@ == Seq::<char>::empty(),
{
    let mut next_rows = rows.clone();
    next_rows.push(String::new());
    proof {
        assert(next_rows@.take(rows@.len() as int) =~= rows@);
    }
    next_rows
}

/// The rows after the row at `index` is deleted: the last remaining row is
/// emptied instead of removed, so that the editor always shows one row.
pub open spec fn rows_without(rows: Seq<Seq<char>>, index: int) -> Seq<Seq<char>> {
    if rows.len() == 1 {
        seq![Seq::<char>::empty()]
    } else {
        rows.remove(index)
    }
}

/// Deletes the row at `index`.
pub fn remove_link_row(rows: &Vec<String>, index: usize) -> (r: Vec<String>)
    requires
        index < rows.len(),
    ensures
        r@.map_values(|s: String| s@) == rows_without(rows@.map_values(|s: String| s@), index as int),
{
    let mut next_rows = rows.clone();
    if next_rows.len() == 1 {
        next_rows.set(0, String::new());
        proof {
            assert(next_rows@.map_values(|s: String| s@) =~= seq![Seq::<char>::empty()]);
        }
    } else {
        next_rows.remove(index);
        proof {
            assert(next_rows@.map_values(|s: String| s@) =~= rows@.map_values(|s: String| s@).remove(
                index as int,
            ));
        }
    }
    next_rows
}

/// What the link editor lets the user do, given what is in progress.
pub struct EditorControls {
    /// Saving or deleting is in progress: the rows and their buttons are
    /// disabled.
    pub editor_busy: bool,
    /// Refreshing or clearing the cache is in progress.
    pub cache_busy: bool,
    pub can_refresh_cache: bool,
    pub can_clear_cache: bool,
    pub can_save: bool,
    pub can_delete: bool,
}

/// Decides the editor's controls.  `loaded_cache_state` is the state of the
/// loaded cache status (`None` while it is loading, failed or absent);
/// `invalid_count` is the number of rows that are not valid links.
pub fn editor_controls(
    save_pending: bool,
    delete_pending: bool,
    refresh_cache_pending: bool,
    clear_cache_pending: bool,
    has_unsaved_changes: bool,
    saved_link_count: usize,
    loaded_cache_state: &Option<String>,
    invalid_count: usize,
) -> (r: EditorControls)
    ensures
        r.editor_busy == (save_pending || delete_pending),
        r.cache_busy == (refresh_cache_pending || clear_cache_pending),
        r.can_refresh_cache == (!r.editor_busy && !r.cache_busy && !has_unsaved_changes && saved_link_count
            > 0),
        r.can_clear_cache == (!r.editor_busy && !r.cache_busy && (loaded_cache_state matches Some(s) && s@
            != "empty"@)),
        r.can_save == (!r.editor_busy && has_unsaved_changes && invalid_count == 0),
        r.can_delete == (!r.editor_busy && !r.cache_busy),
{
    let editor_busy = save_pending || delete_pending;
    let cache_busy = refresh_cache_pending || clear_cache_pending;
    let cache_has_content = match loaded_cache_state {
        Some(s) => {
            let empty = "empty".to_owned();
            !(*s == empty)
        },
        None => false,
    };
    EditorControls {
        editor_busy,
        cache_busy,
        can_refresh_cache: !editor_busy && !cache_busy && !has_unsaved_changes && saved_link_count > 0,
        can_clear_cache: !editor_busy && !cache_busy && cache_has_content,
        can_save: !editor_busy && has_unsaved_changes && invalid_count == 0,
        can_delete: !editor_busy && !cache_busy,
    }
}

pub open spec fn runtime_hint(has_unsaved_changes: bool, saved_link_count: nat) -> Seq<char> {
    if has_unsaved_changes {
        "运行状态基于最近一次已保存的链接配置。若要让缓存和抓取诊断反映当前编辑内容，请先保存。"@
    } else if saved_link_count == 0 {
        "当前没有已保存链接，缓存刷新不会产生内容。"@
    } else {
        "刷新缓存会重新抓取已保存链接，并同步更新 diagnostics。"@
    }
}

/// The hint above the runtime status: unsaved edits are not reflected yet,
/// nothing is saved, or what a refresh does.
pub fn runtime_helper_text(has_unsaved_changes: bool, saved_link_count: usize) -> (r: &'static str)
    ensures
        r@ == runtime_hint(has_unsaved_changes, saved_link_count as nat),
{
    if has_unsaved_changes {
        "运行状态基于最近一次已保存的链接配置。若要让缓存和抓取诊断反映当前编辑内容，请先保存。"
    } else if saved_link_count == 0 {
        "当前没有已保存链接，缓存刷新不会产生内容。"
    } else {
        "刷新缓存会重新抓取已保存链接，并同步更新 diagnostics。"
    }
}

pub open spec fn format_issue_message(invalid_count: nat, first_invalid: Seq<char>) -> Seq<char> {
    "发现 "@ + decimal(invalid_count) + " 条格式不正确的链接，保存前需要修正。首条问题："@ + first_invalid
}

/// The warning shown while some rows are not valid links: how many, and
/// the first of them.
pub fn local_format_issue(invalid_count: usize, first_invalid: Option<String>) -> (r: Option<String>)
    ensures
        match first_invalid {
            Some(f) => r matches Some(m) && m@ == format_issue_message(invalid_count as nat, f@),
            None => r is None,
        },
{
    match first_invalid {
        None => None,
        Some(f) => {
            let mut m = "发现 ".to_owned();
            let digits = decimal_chars(invalid_count as u64);
            let digits_text = string_of(&digits);
            m.append(digits_text.as_str());
            m.append(" 条格式不正确的链接，保存前需要修正。首条问题：");
            m.append(f.as_str());
            Some(m)
        },
    }
}

/// Whether an optional position is the given one.
pub open spec fn is_at(slot: Option<usize>, index: usize) -> bool {
    slot matches Some(i) && i == index
}

/// Style classes of a link row: the row (a drop target first, then the row
/// being dragged), its drag handle (disabled first) and its input (marked as
/// an error when the trimmed text is not empty and not a valid source URL).
pub open spec fn link_row_style(
    index: usize,
    dragging: Option<usize>,
    drop_target: Option<usize>,
    disabled: bool,
    value: Seq<char>,
) -> (Seq<char>, Seq<char>, Seq<char>) {
    (
        if is_at(drop_target, index) {
            "editor-link-row editor-link-row--drop"@
        } else if is_at(dragging, index) {
            "editor-link-row editor-link-row--dragging"@
        } else {
            "editor-link-row"@
        },
        if disabled {
            "editor-link-row__sort editor-link-row__sort--disabled"@
        } else if is_at(dragging, index) {
            "editor-link-row__sort editor-link-row__sort--dragging"@
        } else {
            "editor-link-row__sort"@
        },
        if trim(value).len() != 0 && !source_url_ok(trim(value)) {
            "editor-link-row__input editor-link-row__input--error"@
        } else {
            "editor-link-row__input"@
        },
    )
}

fn at(slot: Option<usize>, index: usize) -> (r: bool)
    ensures
        r == is_at(slot, index),
{
    match slot {
        Some(i) => i == index,
        None => false,
    }
}

/// Decides the style classes of a link row.
pub fn link_row_classes(
    index: usize,
    dragging: Option<usize>,
    drop_target: Option<usize>,
    disabled: bool,
    value: &str,
) -> (r: (&'static str, &'static str, &'static str))
    ensures
        (r.0@, r.1@, r.2@) == link_row_style(index, dragging, drop_target, disabled, value@),
{
    let row_class = if at(drop_target, index) {
        "editor-link-row editor-link-row--drop"
    } else if at(dragging, index) {
        "editor-link-row editor-link-row--dragging"
    } else {
        "editor-link-row"
    };
    let sort_class = if disabled {
        "editor-link-row__sort editor-link-row__sort--disabled"
    } else if at(dragging, index) {
        "editor-link-row__sort editor-link-row__sort--dragging"
    } else {
        "editor-link-row__sort"
    };
    let raw = chars_of(value);
    let trimmed = trim_chars(&raw);
    let trimmed_text = string_of(&trimmed);
    let input_class = if trimmed.len() != 0 && !is_valid_source_url(trimmed_text.as_str()) {
        "editor-link-row__input editor-link-row__input--error"
    } else {
        "editor-link-row__input"
    };
    (row_class, sort_class, input_class)
}

/// Whether an optional name is the given one.
pub open spec fn names(slot: Option<String>, username: Seq<char>) -> bool {
    slot matches Some(s) && s@ == username
}

/// Style classes of a user row: the card (a drop target first, then the row
/// being dragged, then the selected one), its open button (primary when
/// selected) and its drag handle (disabled while a reorder is saved).
pub open spec fn user_row_style(
    username: Seq<char>,
    selected: Option<String>,
    dragging: Option<String>,
    drop_target: Option<String>,
    reorder_pending: bool,
) -> (Seq<char>, Seq<char>, Seq<char>) {
    (
        if names(drop_target, username) {
            "user-card user-card--drop"@
        } else if names(dragging, username) {
            "user-card user-card--dragging"@
        } else if names(selected, username) {
            "user-card user-card--selected"@
        } else {
            "user-card"@
        },
        if names(selected, username) {
            "button button--primary button--compact"@
        } else {
            "button button--ghost button--compact"@
        },
        if reorder_pending {
            "user-card__sort user-card__sort--disabled"@
        } else if names(dragging, username) {
            "user-card__sort user-card__sort--dragging"@
        } else {
            "user-card__sort"@
        },
    )
}

fn named(slot: &Option<String>, username: &String) -> (r: bool)
    ensures
        r == names(*slot, username@),
{
    match slot {
        Some(s) => *s == username.clone(),
        None => false,
    }
}

/// Decides the style classes of a user row.
pub fn user_row_classes(
    username: &String,
    selected: &Option<String>,
    dragging: &Option<String>,
    drop_target: &Option<String>,
    reorder_pending: bool,
) -> (r: (&'static str, &'static str, &'static str))
    ensures
        (r.0@, r.1@, r.2@) == user_row_style(username@, *selected, *dragging, *drop_target, reorder_pending),
{
    let is_selected = named(selected, username);
    let is_dragging = named(dragging, username);
    let is_drop_target = named(drop_target, username);
    let row_class = if is_drop_target {
        "user-card user-card--drop"
    } else if is_dragging {
        "user-card user-card--dragging"
    } else if is_selected {
        "user-card user-card--selected"
    } else {
        "user-card"
    };
    let edit_button_class = if is_selected {
        "button button--primary button--compact"
    } else {
        "button button--ghost button--compact"
    };
    let sort_class = if reorder_pending {
        "user-card__sort user-card__sort--disabled"
    } else if is_dragging {
        "user-card__sort user-card__sort--dragging"
    } else {
        "user-card__sort"
    };
    (row_class, edit_button_class, sort_class)
}

} // verus!
