use submora::config::{parse_cors_origins, validate_positive, ServerConfig};
use submora::netaddr::{IpAddress, SocketAddress};
use submora::overrides::{finish_fetch_host_overrides, plan_fetch_host_overrides, HostOverrides};

fn config() -> ServerConfig {
    ServerConfig {
        host: IpAddress::V4([0, 0, 0, 0]),
        port: 8080,
        web_dist_dir: "dist".to_string(),
        database_url: "sqlite://data/substore.db?mode=rwc".to_string(),
        cookie_secure: false,
        session_ttl_minutes: 60 * 24 * 7,
        session_cleanup_interval_secs: 300,
        trust_proxy_headers: false,
        login_max_attempts: 5,
        login_window_secs: 300,
        login_lockout_secs: 900,
        public_max_requests: 60,
        public_window_secs: 60,
        db_max_connections: 5,
        fetch_timeout_secs: 10,
        fetch_host_overrides: HostOverrides::new(),
        concurrent_limit: 10,
        max_links_per_user: 100,
        max_users: 100,
        admin_user: "admin".to_string(),
        admin_password: "admin".to_string(),
        cors_allow_origin: parse_cors_origins("http://127.0.0.1:8081,http://localhost:8081"),
    }
}

#[test]
fn default_config_is_valid() {
    assert_eq!(config().validate(), Ok(()));
    let addr = config().socket_addr();
    assert_eq!(addr.port, 8080);
    assert_eq!(addr.ip, IpAddress::V4([0, 0, 0, 0]));
}

#[test]
fn validate_reports_first_zero_setting() {
    let mut c = config();
    c.max_users = 0;
    c.login_window_secs = 0;
    assert_eq!(c.validate(), Err("LOGIN_WINDOW_SECS must be greater than 0".to_string()));
    let mut c = config();
    c.port = 0;
    assert_eq!(c.validate(), Err("PORT must be greater than 0".to_string()));
    let mut c = config();
    c.session_ttl_minutes = -5;
    assert_eq!(c.validate(), Ok(()));
}

#[test]
fn validate_checks_database_admin_and_origins() {
    let mut c = config();
    c.database_url = "  \t".to_string();
    assert_eq!(c.validate(), Err("DATABASE_URL must not be empty".to_string()));
    let mut c = config();
    c.admin_user = "bad name".to_string();
    assert_eq!(c.validate(), Err("ADMIN_USER must be a valid username".to_string()));
    let mut c = config();
    c.admin_password = String::new();
    assert_eq!(c.validate(), Err("ADMIN_PASSWORD must be 1-128 characters".to_string()));
    let mut c = config();
    c.cors_allow_origin = vec!["http://ok".to_string(), "bad\u{1}origin".to_string()];
    assert_eq!(
        c.validate(),
        Err("CORS_ALLOW_ORIGIN contains invalid origin \"bad\\u{1}origin\": failed to parse header value"
            .to_string())
    );
}

#[test]
fn validate_positive_messages() {
    assert_eq!(validate_positive("X", 0), Err("X must be greater than 0".to_string()));
    assert_eq!(validate_positive("X", -1), Ok(()));
    assert_eq!(validate_positive("X", 7), Ok(()));
}

#[test]
fn cors_origins_are_trimmed_and_empty_ones_dropped() {
    assert_eq!(parse_cors_origins(" a , ,b,"), vec!["a".to_string(), "b".to_string()]);
    assert!(parse_cors_origins("").is_empty());
}

fn v4(a: u8, b: u8, c: u8, d: u8, port: u16) -> SocketAddress {
    SocketAddress { ip: IpAddress::V4([a, b, c, d]), port, flowinfo: 0, scope_id: 0 }
}

#[test]
fn overrides_plan_splits_entries() {
    let plan = plan_fetch_host_overrides(" example.test:80 = 127.0.0.1:9000 | 10.0.0.1:9000 ,, other:443=1.2.3.4:443");
    assert!(plan.failure.is_none());
    assert_eq!(plan.entries.len(), 2);
    assert_eq!(plan.entries[0].entry, "example.test:80 = 127.0.0.1:9000 | 10.0.0.1:9000");
    assert_eq!(plan.entries[0].host, "example.test:80");
    assert_eq!(plan.entries[0].raw_addrs, vec!["127.0.0.1:9000", "10.0.0.1:9000"]);
    assert_eq!(plan.entries[1].host, "other:443");
}

#[test]
fn overrides_plan_reports_shape_errors() {
    let plan = plan_fetch_host_overrides("a:1=1.1.1.1:1,broken");
    assert_eq!(plan.entries.len(), 1);
    assert_eq!(
        plan.failure,
        Some("FETCH_HOST_OVERRIDES entry \"broken\" must use host:port=addr|addr syntax".to_string())
    );
    let plan = plan_fetch_host_overrides(" =1.1.1.1:1");
    assert_eq!(plan.failure, Some("FETCH_HOST_OVERRIDES host key must not be empty".to_string()));
    let plan = plan_fetch_host_overrides("h:1= | ");
    assert_eq!(
        plan.failure,
        Some("FETCH_HOST_OVERRIDES entry \"h:1= |\" must include at least one socket address".to_string())
    );
}

#[test]
fn overrides_finish_builds_map_with_last_entry_winning() {
    let plan = plan_fetch_host_overrides("h:1=1.1.1.1:1,h:1=2.2.2.2:2");
    let outcomes = vec![vec![Ok(v4(1, 1, 1, 1, 1))], vec![Ok(v4(2, 2, 2, 2, 2))]];
    let map = finish_fetch_host_overrides(plan, &outcomes).unwrap();
    assert_eq!(map.get(&"h:1".to_string()), Some(vec![v4(2, 2, 2, 2, 2)]));
    assert_eq!(map.get(&"h:2".to_string()), None);
    assert_eq!(map.pairs.len(), 1);
}

#[test]
fn overrides_finish_reports_address_error_before_later_shape_error() {
    let plan = plan_fetch_host_overrides("h:1=bad,broken");
    let outcomes = vec![vec![Err("invalid socket address syntax".to_string())]];
    let result = finish_fetch_host_overrides(plan, &outcomes);
    assert_eq!(
        result.err(),
        Some(
            "FETCH_HOST_OVERRIDES entry \"h:1=bad\" contains invalid socket address \"bad\": invalid socket address syntax"
                .to_string()
        )
    );
    let plan = plan_fetch_host_overrides("h:1=1.1.1.1:1,broken");
    let outcomes = vec![vec![Ok(v4(1, 1, 1, 1, 1))]];
    assert_eq!(
        finish_fetch_host_overrides(plan, &outcomes).err(),
        Some("FETCH_HOST_OVERRIDES entry \"broken\" must use host:port=addr|addr syntax".to_string())
    );
}

#[test]
fn host_overrides_insert_replaces() {
    let mut m = HostOverrides::new();
    m.insert("a".to_string(), vec![v4(1, 1, 1, 1, 1)]);
    m.insert("b".to_string(), vec![]);
    m.insert("a".to_string(), vec![v4(9, 9, 9, 9, 9)]);
    assert_eq!(m.get(&"a".to_string()), Some(vec![v4(9, 9, 9, 9, 9)]));
    assert_eq!(m.get(&"b".to_string()), Some(vec![]));
    assert_eq!(m.pairs.len(), 2);
}
