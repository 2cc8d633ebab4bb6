use submora::console::panel::{
    append_link_row, edit_link_row, editor_controls, link_row_classes, local_format_issue, remove_link_row,
    runtime_helper_text, user_row_classes,
};

fn strings(v: &[&str]) -> Vec<String> {
    v.iter().map(|s| s.to_string()).collect()
}

#[test]
fn editing_rows_changes_only_the_edited_row() {
    let rows = strings(&["a", "b", "c"]);
    assert_eq!(edit_link_row(&rows, 1, "x".to_string()), strings(&["a", "x", "c"]));
    assert_eq!(append_link_row(&rows), strings(&["a", "b", "c", ""]));
}

#[test]
fn removing_rows_keeps_one_empty_row() {
    assert_eq!(remove_link_row(&strings(&["a", "b", "c"]), 0), strings(&["b", "c"]));
    assert_eq!(remove_link_row(&strings(&["a", "b", "c"]), 2), strings(&["a", "b"]));
    assert_eq!(remove_link_row(&strings(&["only"]), 0), strings(&[""]));
}

#[test]
fn editor_controls_follow_pending_work() {
    let idle = editor_controls(false, false, false, false, false, 2, &Some("fresh".to_string()), 0);
    assert!(!idle.editor_busy && !idle.cache_busy);
    assert!(idle.can_refresh_cache && idle.can_clear_cache && idle.can_delete);
    assert!(!idle.can_save);

    let unsaved = editor_controls(false, false, false, false, true, 2, &Some("empty".to_string()), 0);
    assert!(unsaved.can_save && !unsaved.can_refresh_cache && !unsaved.can_clear_cache);

    let invalid = editor_controls(false, false, false, false, true, 2, &None, 1);
    assert!(!invalid.can_save && !invalid.can_clear_cache);

    let saving = editor_controls(true, false, false, false, true, 2, &Some("fresh".to_string()), 0);
    assert!(saving.editor_busy && !saving.can_save && !saving.can_delete && !saving.can_refresh_cache);

    let clearing = editor_controls(false, false, false, true, false, 2, &Some("fresh".to_string()), 0);
    assert!(clearing.cache_busy && !clearing.can_delete && !clearing.can_clear_cache);

    let nothing_saved = editor_controls(false, false, false, false, false, 0, &None, 0);
    assert!(!nothing_saved.can_refresh_cache);
}

#[test]
fn runtime_hint_depends_on_saved_state() {
    assert_eq!(
        runtime_helper_text(true, 3),
        "运行状态基于最近一次已保存的链接配置。若要让缓存和抓取诊断反映当前编辑内容，请先保存。"
    );
    assert_eq!(runtime_helper_text(false, 0), "当前没有已保存链接，缓存刷新不会产生内容。");
    assert_eq!(runtime_helper_text(false, 4), "刷新缓存会重新抓取已保存链接，并同步更新 diagnostics。");
}

#[test]
fn format_issue_names_count_and_first_invalid_row() {
    assert_eq!(
        local_format_issue(2, Some("ftp://x".to_string())),
        Some("发现 2 条格式不正确的链接，保存前需要修正。首条问题：ftp://x".to_string())
    );
    assert_eq!(local_format_issue(0, None), None);
}

#[test]
fn link_row_classes_mark_drag_and_invalid_input() {
    assert_eq!(
        link_row_classes(1, Some(0), Some(1), false, "https://a.example/x"),
        ("editor-link-row editor-link-row--drop", "editor-link-row__sort", "editor-link-row__input")
    );
    assert_eq!(
        link_row_classes(0, Some(0), None, false, "  not a url "),
        (
            "editor-link-row editor-link-row--dragging",
            "editor-link-row__sort editor-link-row__sort--dragging",
            "editor-link-row__input editor-link-row__input--error"
        )
    );
    assert_eq!(
        link_row_classes(2, None, None, true, "   "),
        ("editor-link-row", "editor-link-row__sort editor-link-row__sort--disabled", "editor-link-row__input")
    );
    assert_eq!(link_row_classes(2, None, None, false, "ftp://a.example/x").2, "editor-link-row__input editor-link-row__input--error");
}

#[test]
fn user_row_classes_mark_selection_and_drag() {
    let alpha = "alpha".to_string();
    let some = |s: &str| Some(s.to_string());
    assert_eq!(
        user_row_classes(&alpha, &some("alpha"), &None, &None, false),
        ("user-card user-card--selected", "button button--primary button--compact", "user-card__sort")
    );
    assert_eq!(
        user_row_classes(&alpha, &some("beta"), &some("alpha"), &some("alpha"), false),
        ("user-card user-card--drop", "button button--ghost button--compact", "user-card__sort user-card__sort--dragging")
    );
    assert_eq!(
        user_row_classes(&alpha, &None, &some("alpha"), &None, true),
        ("user-card user-card--dragging", "button button--ghost button--compact", "user-card__sort user-card__sort--disabled")
    );
    assert_eq!(user_row_classes(&alpha, &None, &None, &None, false).0, "user-card");
}
