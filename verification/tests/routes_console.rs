use submora::console::editor::{
    cache_state_label, commit_link_rows, diagnostic_status_class, diagnostic_status_label,
    format_optional_timestamp, link_rows_from_text, move_link_row_to_index, timestamp_text,
};
use submora::console::shell::{not_found_route, shell_classes};
use submora::console::view::UserSummary;
use submora::error::{message_response, ApiError};
use submora::metrics::{record_fetch_request, record_rate_limit_exceeded, FetchTimer, RequestTimer};
use submora::routes::auth::{check_admin_password, password_outcome, validate_login};
use submora::routes::public::{public_feed_links, public_rate_limit_key};
use submora::routes::users::{
    check_order_covers, check_order_payload, check_user_capacity, is_unique_violation, new_username,
    prepare_links, require_valid_username, username_taken,
};
use argon2::password_hash::{PasswordHasher, SaltString};
use submora::shared::auth::LoginRequest;

fn strings(v: &[&str]) -> Vec<String> {
    v.iter().map(|s| s.to_string()).collect()
}

fn message(e: ApiError) -> (u16, &'static str, String) {
    (e.status, e.code, e.message)
}

#[test]
fn api_error_constructors() {
    assert_eq!(message(ApiError::validation("url", "bad")), (400, "validation", "url: bad".to_string()));
    assert_eq!(message(ApiError::unauthorized()), (401, "unauthorized", "Please login".to_string()));
    assert_eq!(message(ApiError::not_found("user not found")), (404, "not_found", "user not found".to_string()));
    assert_eq!(message(ApiError::forbidden("no")), (403, "forbidden", "no".to_string()));
    assert_eq!(message(ApiError::too_many_requests("slow")).0, 429);
    assert_eq!(message(ApiError::internal("oops")).1, "internal");
    assert_eq!(ApiError::too_many_requests("x").with_retry_after(0).retry_after_secs, Some(1));
    assert_eq!(ApiError::too_many_requests("x").with_retry_after(60).retry_after_secs, Some(60));
    let body = ApiError::not_found("gone").body();
    assert_eq!((body.error.as_str(), body.message.as_str()), ("not_found", "gone"));
    assert_eq!(message_response("Logged in").message, "Logged in");
}

#[test]
fn login_validation() {
    let ok = LoginRequest { username: " admin ".to_string(), password: "admin".to_string() };
    assert!(validate_login(&ok).is_ok());
    let bad_user = LoginRequest { username: "ad min".to_string(), password: "x".to_string() };
    assert_eq!(validate_login(&bad_user).err().map(message), Some((400, "validation", "username: invalid username".to_string())));
    let bad_password = LoginRequest { username: "admin".to_string(), password: String::new() };
    assert_eq!(
        validate_login(&bad_password).err().map(|e| e.message),
        Some("password: password must be 1-128 characters".to_string())
    );
}

#[test]
fn public_rate_limit_key_folds_case_and_whitespace() {
    assert_eq!(public_rate_limit_key(Some("203.0.113.9".to_string()), "  Alpha "), "203.0.113.9:alpha");
    assert_eq!(public_rate_limit_key(None, "beta"), "unknown:beta");
}

#[test]
fn user_endpoint_checks() {
    assert!(require_valid_username("alpha").is_ok());
    assert_eq!(require_valid_username("a/b").err().map(|e| e.message), Some("username: invalid username".to_string()));
    assert_eq!(new_username("  alpha  ").ok(), Some("alpha".to_string()));
    assert!(new_username("   ").is_err());
    assert!(check_user_capacity(99, 100).is_ok());
    assert_eq!(
        check_user_capacity(100, 100).err().map(|e| e.message),
        Some("username: maximum 100 users allowed".to_string())
    );
    assert!(is_unique_violation("UNIQUE constraint failed: users.username"));
    assert!(!is_unique_violation("database is locked"));
    assert_eq!(username_taken().message, "username: username already exists");
}

#[test]
fn prepare_links_wraps_normalization_errors() {
    let links = strings(&[" https://a.example/x ", "https://a.example/x"]);
    assert_eq!(prepare_links("alpha", &links, 5).ok(), Some(strings(&["https://a.example/x"])));
    assert_eq!(
        prepare_links("alpha", &strings(&["gopher://x"]), 5).err().map(|e| e.message),
        Some("links: invalid url: gopher://x".to_string())
    );
    assert_eq!(
        prepare_links("bad name", &links, 5).err().map(|e| e.message),
        Some("username: invalid username".to_string())
    );
}

#[test]
fn order_checks() {
    assert_eq!(check_order_payload(&vec![], 10).err().map(|e| e.message), Some("order: must not be empty".to_string()));
    assert_eq!(
        check_order_payload(&strings(&["a", "b", "c"]), 2).err().map(|e| e.message),
        Some("order: maximum 2 users allowed".to_string())
    );
    assert_eq!(
        check_order_payload(&strings(&["a", "b c", "a"]), 5).err().map(|e| e.message),
        Some("order: invalid username: b c".to_string())
    );
    assert_eq!(
        check_order_payload(&strings(&["a", "b", "a"]), 5).err().map(|e| e.message),
        Some("order: duplicate username: a".to_string())
    );
    assert!(check_order_payload(&strings(&["b", "a"]), 5).is_ok());
    assert!(check_order_covers(&strings(&["b", "a"]), &strings(&["a", "b"])).is_ok());
    assert_eq!(
        check_order_covers(&strings(&["a"]), &strings(&["a", "b"])).err().map(|e| e.message),
        Some("order: order must include every existing user exactly once".to_string())
    );
    assert!(check_order_covers(&strings(&["a", "c"]), &strings(&["a", "b"])).is_err());
}

#[test]
fn editor_rows() {
    assert_eq!(link_rows_from_text(""), strings(&[""]));
    assert_eq!(link_rows_from_text("a\nb\n"), strings(&["a", "b", ""]));
    let text = "https://a\n\nhttps://b";
    assert_eq!(commit_link_rows(&link_rows_from_text(text)), text);
    let rows = strings(&["a", "b", "c", "d"]);
    assert_eq!(move_link_row_to_index(&rows, 0, 2), strings(&["b", "c", "a", "d"]));
    assert_eq!(move_link_row_to_index(&rows, 3, 0), strings(&["d", "a", "b", "c"]));
    assert_eq!(move_link_row_to_index(&rows, 1, 1), rows);
    assert_eq!(move_link_row_to_index(&rows, 9, 1), rows);
}

#[test]
fn console_labels() {
    assert_eq!(cache_state_label("fresh"), "最新");
    assert_eq!(cache_state_label("expired"), "已过期");
    assert_eq!(cache_state_label("empty"), "空缓存");
    assert_eq!(cache_state_label("other"), "未知");
    assert_eq!(diagnostic_status_label("blocked"), "已阻断");
    assert_eq!(diagnostic_status_label("pending"), "待抓取");
    assert_eq!(diagnostic_status_class("error"), "tag--danger");
    assert_eq!(diagnostic_status_class("blocked"), "tag--danger");
    assert_eq!(diagnostic_status_class("x"), "");
}

#[test]
fn shell_and_routes() {
    assert_eq!(shell_classes(true), ("shell-page shell-page--compact", "shell shell--compact", "content content--compact"));
    assert_eq!(shell_classes(false).2, "content");
    assert_eq!(not_found_route(&strings(&["a", "b"])), "/a/b");
    assert_eq!(not_found_route(&vec![]), "/");
}

#[test]
fn user_summary_build() {
    assert_eq!(UserSummary::build(None), None);
    assert_eq!(
        UserSummary::build(Some("alpha".to_string())),
        Some(UserSummary { selected_username: "alpha".to_string() })
    );
}

#[test]
fn metrics_calls_work_without_a_recorder() {
    record_fetch_request("success");
    record_rate_limit_exceeded("login");
    RequestTimer::new().finish();
    FetchTimer::new().finish();
}

#[test]
fn optional_timestamps_format_as_rfc3339() {
    assert_eq!(format_optional_timestamp(Some(0)), "1970-01-01T00:00:00Z");
    assert_eq!(format_optional_timestamp(Some(1_700_000_000)), "2023-11-14T22:13:20Z");
    assert_eq!(format_optional_timestamp(Some(253_402_300_799)), "9999-12-31T23:59:59Z");
    assert_eq!(format_optional_timestamp(Some(-62_167_219_200)), "0000-01-01T00:00:00Z");
}

#[test]
fn missing_or_unwritable_timestamps_show_unrecorded() {
    assert_eq!(format_optional_timestamp(None), "未记录");
    assert_eq!(format_optional_timestamp(Some(253_402_300_800)), "未记录");
    assert_eq!(format_optional_timestamp(Some(-62_167_219_201)), "未记录");
    assert_eq!(format_optional_timestamp(Some(i64::MAX)), "未记录");
    assert_eq!(timestamp_text(Some("x".to_string())), "x");
    assert_eq!(timestamp_text(None), "未记录");
}

#[test]
fn public_feed_decides_on_stored_links() {
    let missing = public_feed_links(None).unwrap_err();
    assert_eq!(missing.status, 404);
    assert_eq!(missing.code, "not_found");
    assert_eq!(missing.message, "user not found");
    assert_eq!(public_feed_links(Some(Vec::new())).unwrap(), None);
    let links = strings(&["https://a.example/x"]);
    assert_eq!(public_feed_links(Some(links.clone())).unwrap(), Some(links));
}

fn cheap_hash(password: &str) -> String {
    let salt = SaltString::from_b64("c29tZXNhbHRzb21lc2FsdA").unwrap();
    let hasher = argon2::Argon2::new(
        argon2::Algorithm::Argon2id,
        argon2::Version::V0x13,
        argon2::Params::new(8, 1, 1, None).unwrap(),
    );
    hasher.hash_password(password.as_bytes(), &salt).unwrap().to_string()
}

#[test]
fn admin_password_is_checked_against_stored_hash() {
    let stored = cheap_hash("s3cret!");
    assert!(check_admin_password(Some(stored.clone()), "s3cret!").is_ok());

    let wrong = check_admin_password(Some(stored), "wrong").unwrap_err();
    assert_eq!((wrong.status, wrong.code, wrong.message.as_str()), (401, "unauthorized", "Please login"));

    let unknown = check_admin_password(None, "s3cret!").unwrap_err();
    assert_eq!((unknown.status, unknown.code), (401, "unauthorized"));

    let broken = check_admin_password(Some("not-a-hash".to_string()), "x").unwrap_err();
    assert_eq!(
        (broken.status, broken.code, broken.message.as_str()),
        (500, "internal", "invalid password hash in database")
    );
    assert_eq!(check_admin_password(Some(String::new()), "x").unwrap_err().status, 500);
}

#[test]
fn password_outcomes_map_to_answers() {
    assert!(password_outcome(Some(true)).is_ok());
    assert_eq!(password_outcome(Some(false)).unwrap_err().status, 401);
    let e = password_outcome(None).unwrap_err();
    assert_eq!((e.status, e.code, e.message.as_str()), (500, "internal", "invalid password hash in database"));
}
