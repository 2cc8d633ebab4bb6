use submora::netaddr::{is_forbidden_ip, is_forbidden_ipv4, is_forbidden_ipv6, IpAddress, SocketAddress};
use submora::overrides::HostOverrides;
use submora::subscriptions::fetch::{decide_response, FetchFailure, HeaderText, ResponseDecision, ResponseHead};
use submora::subscriptions::html::{ensure_newlines, html_to_text, is_block_element, walk_element_limited, HtmlEvent};
use submora::subscriptions::merge::MergeState;
use submora::subscriptions::target::{
    begin_fetch_target, begin_redirect_target, complete_fetch_target, override_key_text,
    unsafe_address_before_request, TargetStep, ValidatedFetchTarget,
};
use submora::subscriptions::{
    append_limited, append_merged_content, finish_fetch_content, MAX_FETCH_BYTES, MAX_REDIRECTS,
};

fn v4(a: u8, b: u8, c: u8, d: u8, port: u16) -> SocketAddress {
    SocketAddress { ip: IpAddress::V4([a, b, c, d]), port, flowinfo: 0, scope_id: 0 }
}

#[test]
fn forbidden_ipv4_ranges() {
    for o in [
        [127, 0, 0, 1],
        [0, 0, 0, 0],
        [10, 1, 2, 3],
        [172, 16, 0, 1],
        [172, 31, 255, 255],
        [192, 168, 1, 1],
        [169, 254, 0, 1],
        [224, 0, 0, 1],
        [255, 255, 255, 255],
        [0, 1, 2, 3],
        [100, 64, 0, 1],
        [100, 127, 0, 1],
        [192, 0, 0, 8],
        [198, 18, 0, 1],
        [198, 19, 0, 1],
        [240, 0, 0, 1],
    ] {
        assert!(is_forbidden_ipv4(o), "{:?}", o);
    }
    for o in [[8, 8, 8, 8], [172, 32, 0, 1], [100, 128, 0, 1], [198, 20, 0, 1], [1, 2, 3, 4], [192, 1, 0, 1]] {
        assert!(!is_forbidden_ipv4(o), "{:?}", o);
    }
}

#[test]
fn forbidden_ipv6_ranges() {
    assert!(is_forbidden_ipv6([0, 0, 0, 0, 0, 0, 0, 1]));
    assert!(is_forbidden_ipv6([0; 8]));
    assert!(is_forbidden_ipv6([0xff02, 0, 0, 0, 0, 0, 0, 1]));
    assert!(is_forbidden_ipv6([0xfc00, 0, 0, 0, 0, 0, 0, 1]));
    assert!(is_forbidden_ipv6([0xfd12, 0, 0, 0, 0, 0, 0, 1]));
    assert!(is_forbidden_ipv6([0xfe80, 0, 0, 0, 0, 0, 0, 1]));
    assert!(is_forbidden_ipv6([0xfebf, 0, 0, 0, 0, 0, 0, 1]));
    assert!(!is_forbidden_ipv6([0x2001, 0xdb8, 0, 0, 0, 0, 0, 1]));
    assert!(!is_forbidden_ipv6([0xfec0, 0, 0, 0, 0, 0, 0, 1]));
    assert!(!is_forbidden_ipv6([0, 0, 0, 0, 0, 0xffff, 0x7f00, 1]));
    assert!(is_forbidden_ip(IpAddress::V4([127, 0, 0, 1])));
    assert!(!is_forbidden_ip(IpAddress::V6([0x2606, 0x4700, 0, 0, 0, 0, 0, 0x1111])));
}

fn failed(step: TargetStep) -> String {
    match step {
        TargetStep::Failed(m) => m,
        _ => panic!("expected a failure"),
    }
}

fn ready(step: TargetStep) -> ValidatedFetchTarget {
    match step {
        TargetStep::Ready(t) => t,
        _ => panic!("expected a ready target"),
    }
}

#[test]
fn fetch_target_url_checks() {
    let o = HostOverrides::new();
    assert_eq!(failed(begin_fetch_target(&o, "not a url")), "invalid url: not a url");
    assert_eq!(failed(begin_fetch_target(&o, "ftp://example.com/x")), "unsupported scheme: ftp://example.com/x");
    assert_eq!(failed(begin_fetch_target(&o, "file:///etc/passwd")), "unsupported scheme: file:///etc/passwd");
    assert_eq!(failed(begin_fetch_target(&o, "http://127.0.0.1/feed")), "unsafe target: http://127.0.0.1/feed");
    assert_eq!(failed(begin_fetch_target(&o, "http://10.0.0.1:8080/")), "unsafe target: http://10.0.0.1:8080/");
}

#[test]
fn fetch_target_ip_literal_is_ready() {
    let o = HostOverrides::new();
    let t = ready(begin_fetch_target(&o, "https://8.8.8.8/feed"));
    assert_eq!(t.url, "https://8.8.8.8/feed");
    assert_eq!(t.host, "8.8.8.8");
    assert!(t.host_is_ip_literal);
    assert!(!t.from_override);
    assert_eq!(t.resolved_addrs, vec![v4(8, 8, 8, 8, 443)]);
}

#[test]
fn fetch_target_override_and_lookup() {
    let mut o = HostOverrides::new();
    o.insert("example.test:8080".to_string(), vec![v4(127, 0, 0, 1, 9000)]);
    let t = ready(begin_fetch_target(&o, "http://example.test:8080/feed"));
    assert!(t.from_override);
    assert_eq!(t.resolved_addrs, vec![v4(127, 0, 0, 1, 9000)]);
    assert_eq!(unsafe_address_before_request(&t), None);

    match begin_fetch_target(&o, "http://example.test/feed") {
        TargetStep::NeedsLookup(p) => {
            assert_eq!(p.host, "example.test");
            assert_eq!(p.port, 80);
            assert_eq!(p.input, "http://example.test/feed");
            let pending = p.clone();
            assert_eq!(
                failed(complete_fetch_target(p, None)),
                "failed to resolve host: http://example.test/feed"
            );
            assert_eq!(
                failed(complete_fetch_target(pending.clone(), Some(vec![]))),
                "failed to resolve host: http://example.test/feed"
            );
            assert_eq!(
                failed(complete_fetch_target(pending.clone(), Some(vec![v4(1, 1, 1, 1, 80), v4(192, 168, 0, 2, 80)]))),
                "unsafe target: http://example.test/feed"
            );
            let t = ready(complete_fetch_target(pending, Some(vec![v4(1, 1, 1, 1, 80)])));
            assert!(!t.host_is_ip_literal);
            assert_eq!(t.url, "http://example.test/feed");
        }
        _ => panic!("expected a lookup"),
    }
}

#[test]
fn override_key_uses_host_and_port() {
    assert_eq!(override_key_text(&"example.test".to_string(), 443), "example.test:443");
}

#[test]
fn redirect_targets_are_resolved_and_checked() {
    let o = HostOverrides::new();
    let t = ready(begin_redirect_target(&o, "http://8.8.8.8/a/b", "../next"));
    assert_eq!(t.url, "http://8.8.8.8/next");
    assert_eq!(
        failed(begin_redirect_target(&o, "http://8.8.8.8/a", "http://127.0.0.1/x")),
        "unsafe target: http://127.0.0.1/x"
    );
    assert_eq!(
        failed(begin_redirect_target(&o, "http://8.8.8.8/", "http://[::1")),
        "invalid redirect target from http://8.8.8.8/: http://[::1"
    );
}

#[test]
fn recheck_before_request_finds_first_forbidden_address() {
    let t = ValidatedFetchTarget {
        url: "http://x/".to_string(),
        host: "x".to_string(),
        resolved_addrs: vec![v4(1, 1, 1, 1, 80), v4(10, 0, 0, 1, 80), v4(127, 0, 0, 1, 80)],
        host_is_ip_literal: false,
        from_override: false,
    };
    assert_eq!(unsafe_address_before_request(&t), Some(IpAddress::V4([10, 0, 0, 1])));
    let mut trusted = t.clone();
    trusted.from_override = true;
    assert_eq!(unsafe_address_before_request(&trusted), None);
}

fn head(status: u16, location: HeaderText, len: Option<u64>, ctype: HeaderText) -> ResponseHead {
    ResponseHead { status, location, content_length: len, content_type: ctype }
}

#[test]
fn response_decisions() {
    match decide_response(0, head(302, HeaderText::Text("/next".to_string()), None, HeaderText::Missing)) {
        ResponseDecision::FollowRedirect(l) => assert_eq!(l, "/next"),
        _ => panic!(),
    }
    assert!(matches!(
        decide_response(MAX_REDIRECTS, head(301, HeaderText::Text("/x".to_string()), None, HeaderText::Missing)),
        ResponseDecision::Fail(FetchFailure::TooManyRedirects)
    ));
    assert!(matches!(
        decide_response(1, head(307, HeaderText::Missing, None, HeaderText::Missing)),
        ResponseDecision::Fail(FetchFailure::MissingLocation)
    ));
    assert!(matches!(
        decide_response(1, head(307, HeaderText::Unreadable, None, HeaderText::Missing)),
        ResponseDecision::Fail(FetchFailure::UnreadableLocation)
    ));
    assert!(matches!(
        decide_response(0, head(404, HeaderText::Missing, None, HeaderText::Missing)),
        ResponseDecision::Fail(FetchFailure::BadStatus)
    ));
    assert!(matches!(
        decide_response(0, head(200, HeaderText::Missing, Some(MAX_FETCH_BYTES as u64 + 1), HeaderText::Missing)),
        ResponseDecision::Fail(FetchFailure::TooLarge)
    ));
    assert!(matches!(
        decide_response(0, head(200, HeaderText::Missing, Some(MAX_FETCH_BYTES as u64), HeaderText::Text("text/html; charset=utf-8".to_string()))),
        ResponseDecision::ReadBody { is_html: true }
    ));
    assert!(matches!(
        decide_response(0, head(204, HeaderText::Missing, None, HeaderText::Unreadable)),
        ResponseDecision::ReadBody { is_html: false }
    ));
}

#[test]
fn append_limited_refuses_oversized_chunks() {
    let mut buf = vec![1u8, 2];
    assert_eq!(append_limited(&mut buf, &[3, 4], 4), Ok(()));
    assert_eq!(buf, vec![1, 2, 3, 4]);
    assert_eq!(
        append_limited(&mut buf, &[5], 4),
        Err("content too large: exceeds 4 bytes limit while streaming body".to_string())
    );
    assert_eq!(buf, vec![1, 2, 3, 4]);
}

#[test]
fn merged_content_is_separated_by_blank_lines() {
    let mut merged = String::new();
    append_merged_content(&mut merged, "");
    assert_eq!(merged, "");
    append_merged_content(&mut merged, "a");
    append_merged_content(&mut merged, "");
    append_merged_content(&mut merged, "b");
    assert_eq!(merged, "a\n\nb");
}

#[test]
fn fetch_content_is_trimmed_and_empty_dropped() {
    assert_eq!(finish_fetch_content("  x \n"), Some("x".to_string()));
    assert_eq!(finish_fetch_content(" \n\t"), None);
}

#[test]
fn merge_follows_link_order_whatever_finishes_first() {
    let mut m = MergeState::new();
    m.accept(2, Some("c".to_string()));
    m.accept(1, None);
    assert_eq!(m.merged, "");
    assert_eq!(m.next_part_index, 0);
    m.accept(0, Some("a".to_string()));
    assert_eq!(m.merged, "a\n\nc");
    assert_eq!(m.next_part_index, 3);
    assert!(m.pending.is_empty());
    m.accept(4, Some("e".to_string()));
    m.accept(3, Some("d".to_string()));
    assert_eq!(m.merged, "a\n\nc\n\nd\n\ne");
}

#[test]
fn html_text_keeps_blocks_on_their_own_lines() {
    assert_eq!(html_to_text("<p>Hello</p><p>World</p>"), "Hello\n\nWorld");
    assert_eq!(html_to_text("<span>a</span><span>b</span>"), "a b");
    assert_eq!(html_to_text("a<br>b"), "a\nb");
    assert_eq!(html_to_text("<script>var x;</script><style>p{}</style><div>y</div>"), "y");
    assert_eq!(html_to_text("<title>t</title><body>  spaced   text  </body>"), "spaced   text");
    assert_eq!(html_to_text(""), "");
}

#[test]
fn html_walk_truncates_at_limit() {
    let events = vec![
        HtmlEvent::Open("div".to_string()),
        HtmlEvent::Text("abcdef".to_string()),
        HtmlEvent::LeafEnd,
        HtmlEvent::Text("more".to_string()),
        HtmlEvent::LeafEnd,
        HtmlEvent::Close,
    ];
    let mut buf = Vec::new();
    walk_element_limited(&events, &mut buf, 4);
    let text: String = buf.iter().collect();
    assert_eq!(text, "abcdef\n<!-- content truncated -->");
    let mut buf = Vec::new();
    walk_element_limited(&events, &mut buf, 100);
    let text: String = buf.iter().collect();
    assert_eq!(text, "abcdef more\n\n");
}

#[test]
fn newline_padding_and_block_tags() {
    let mut s = String::new();
    ensure_newlines(&mut s, 2);
    assert_eq!(s, "");
    let mut s = "x\n".to_string();
    ensure_newlines(&mut s, 2);
    assert_eq!(s, "x\n\n");
    ensure_newlines(&mut s, 2);
    assert_eq!(s, "x\n\n");
    assert!(is_block_element("tr"));
    assert!(is_block_element("h6"));
    assert!(!is_block_element("span"));
    assert!(!is_block_element("td"));
}

#[test]
fn hidden_elements_add_no_text() {
    assert_eq!(html_to_text("<div>a<noscript><p>b</p></noscript>c</div>"), "a c");
    assert_eq!(html_to_text("<p>x</p><script><p>not shown</p></script><p>z</p>"), "x\n\nz");
}
