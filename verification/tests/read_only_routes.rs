use axum::http::Method;
use common::read_only_routes::{
    decoded_segment_is_email, is_request_allowed, is_self_email, READ_ONLY_DENIED,
};

const ME: &str = "viewer@example.com";

fn allowed(method: &Method, path: &str, user_email: &str) -> bool {
    is_request_allowed(method.as_str(), path, user_email)
}

#[test]
fn safe_methods_are_always_allowed() {
    for method in [Method::GET, Method::HEAD, Method::OPTIONS] {
        assert!(allowed(&method, "default/dashboards", ME));
        assert!(allowed(&method, "default/users", ME));
        assert!(allowed(&method, "anything/at/all", ME));
    }
}

#[test]
fn search_posts_are_allowed() {
    for path in [
        "default/_search",
        "default/_search_partition",
        "default/_search_stream",
        "default/_values_stream",
        "default/_search_multi",
        "default/_search_multi_stream",
        "default/_search_partition_multi",
        "default/_search_history",
        "default/result_schema",
        "default/mystream/_around",
        "default/prometheus/api/v1/query",
        "default/prometheus/api/v1/query_range",
        "default/prometheus/api/v1/query_exemplars",
        "default/prometheus/api/v1/series",
        "default/prometheus/api/v1/labels",
        "default/prometheus/api/v1/format_query",
        "default/alerts/2Abc/export",
        "default/sourcemaps/stacktrace",
    ] {
        assert!(
            allowed(&Method::POST, path, ME),
            "expected POST /{path} to be allowed"
        );
    }
}

#[test]
fn mutations_are_refused() {
    for (method, path) in [
        (Method::POST, "default/dashboards"),
        (Method::PUT, "default/dashboards/abc"),
        (Method::DELETE, "default/dashboards/abc"),
        (Method::PATCH, "default/dashboards/move"),
        (Method::POST, "default/users"),
        (Method::DELETE, "default/users/someone@example.com"),
        (Method::POST, "default/functions"),
        (Method::POST, "default/streams/mystream"),
        (Method::PUT, "default/streams/mystream/settings"),
        (Method::POST, "default/alerts/templates"),
        (Method::POST, "default/alerts/destinations/test"),
        (Method::POST, "default/functions/test"),
        (Method::POST, "default/alerts/templates/preview"),
        (Method::POST, "default/short"),
        (Method::POST, "default/mcp"),
        (Method::POST, "default/settings"),
        (Method::PUT, "default/passcode"),
        (Method::POST, "default/rumtoken"),
        (Method::POST, "default/service_accounts"),
        (Method::POST, "default/_bulk"),
        (Method::POST, "default/mystream/_json"),
        (Method::POST, "default/v1/logs"),
        (Method::POST, "default/prometheus/api/v1/write"),
    ] {
        assert!(
            !allowed(&method, path, ME),
            "expected {method} /{path} to be refused"
        );
    }
}

#[test]
fn self_service_is_allowed_only_for_self() {
    assert!(allowed(&Method::PUT, &format!("default/users/{ME}"), ME));
    assert!(allowed(&Method::PUT, "default/users/Viewer@Example.com", ME));
    assert!(!allowed(
        &Method::PUT,
        "default/users/someone.else@example.com",
        ME
    ));

    assert!(allowed(
        &Method::POST,
        &format!("default/settings/v2/user/{ME}"),
        ME
    ));
    assert!(allowed(
        &Method::DELETE,
        &format!("default/settings/v2/user/{ME}/theme"),
        ME
    ));
    assert!(!allowed(
        &Method::POST,
        "default/settings/v2/user/someone.else@example.com",
        ME
    ));
    // The frontend percent-encodes the email on this route.
    assert!(allowed(
        &Method::POST,
        "default/settings/v2/user/viewer%40example.com",
        ME
    ));
    assert!(allowed(&Method::PUT, "default/users/viewer%40example.com", ME));
    assert!(!allowed(
        &Method::POST,
        "default/settings/v2/user/someone.else%40example.com",
        ME
    ));

    assert!(!allowed(&Method::POST, "default/settings/v2", ME));
    assert!(!allowed(&Method::DELETE, "default/settings/v2/theme", ME));
}

#[test]
fn v2_prefix_is_normalised() {
    assert!(allowed(&Method::POST, "v2/default/alerts/2Abc/export", ME));
    assert!(allowed(&Method::POST, "v2/default/_search", ME));
    assert!(!allowed(&Method::POST, "v2/default/alerts", ME));
}

#[test]
fn leading_slash_and_trailing_slash_are_tolerated() {
    assert!(allowed(&Method::POST, "/default/_search", ME));
    assert!(allowed(&Method::POST, "default/_search/", ME));
    assert!(!allowed(&Method::POST, "/default/dashboards", ME));
}

#[test]
fn a_stream_named_like_an_allowed_route_does_not_widen_access() {
    // Positional: a stream named `_search` lands in a `Param` slot.
    assert!(!allowed(&Method::POST, "default/_search/_json", ME));
    assert!(!allowed(&Method::POST, "default/users/_search", ME));
}

#[test]
fn methods_outside_the_table_are_always_refused() {
    for method in [Method::PATCH, Method::CONNECT, Method::TRACE] {
        assert!(!allowed(&method, "default/_search", ME));
        assert!(!allowed(&method, &format!("default/users/{ME}"), ME));
    }
    // Method names are compared exactly, as `Method::as_str` spells them.
    assert!(!is_request_allowed("post", "default/_search", ME));
    assert!(!is_request_allowed("get", "default/dashboards", ME));
}

#[test]
fn each_row_answers_only_its_own_method() {
    assert!(!allowed(&Method::PUT, "default/_search", ME));
    assert!(!allowed(&Method::DELETE, "default/_search", ME));
    assert!(!allowed(&Method::POST, &format!("default/users/{ME}"), ME));
    assert!(!allowed(
        &Method::DELETE,
        &format!("default/settings/v2/user/{ME}"),
        ME
    ));
    assert!(!allowed(
        &Method::POST,
        &format!("default/settings/v2/user/{ME}/theme"),
        ME
    ));
}

#[test]
fn empty_org_or_key_segments_are_refused() {
    assert!(!allowed(&Method::POST, "/_search", ME));
    assert!(!allowed(&Method::PUT, &format!("/users/{ME}"), ME));
    assert!(!allowed(
        &Method::DELETE,
        &format!("default/settings/v2/user/{ME}/"),
        ME
    ));
    assert!(!allowed(
        &Method::DELETE,
        &format!("default/settings/v2/user/{ME}//"),
        ME
    ));
}

#[test]
fn an_empty_email_fails_closed() {
    assert!(!allowed(&Method::PUT, "default/users/", ""));
    assert!(!allowed(&Method::PUT, "default/users/x", ""));
    assert!(allowed(&Method::POST, "default/_search", ""));
    assert!(allowed(&Method::GET, "default/users", ""));
    assert!(!is_self_email("", ""));
    assert!(!is_self_email("a", ""));
    assert!(!is_self_email("", "a"));
}

#[test]
fn the_caller_email_counts_only_up_to_ascii_case() {
    assert!(allowed(&Method::PUT, "default/users/viewer@example.com", "VIEWER@EXAMPLE.COM"));
    assert!(is_self_email("VIEWER%40Example.com", ME));
    assert!(!is_self_email("viewér@example.com", "viewÉr@example.com"));
    assert!(is_self_email("viewér@example.com", "VIEWéR@example.com"));
}

#[test]
fn percent_decoding_applies_only_to_well_formed_escapes() {
    assert!(is_self_email("viewer%40example%2Ecom", ME));
    assert!(!is_self_email("viewer%4example.com", ME));
    assert!(is_self_email("a%zz", "A%ZZ"));
    // `+` is not a space.
    assert!(!is_self_email("a+b", "a b"));
    // Bytes that do not decode as UTF-8 name nobody.
    assert!(!is_self_email("%ff", "\u{fffd}"));
}

#[test]
fn the_decoded_segment_rule_on_plain_values() {
    assert!(decoded_segment_is_email(Some("Viewer@Example.com"), ME));
    assert!(!decoded_segment_is_email(Some("someone@example.com"), ME));
    assert!(!decoded_segment_is_email(None, ME));
}

#[test]
fn the_v2_org_keeps_its_trailing_slash_meaning() {
    // `v2/` is the prefix, so `v2/_search` names no org, while after one
    // stripped prefix `v2` is an org name like any other.
    assert!(!allowed(&Method::POST, "v2", ME));
    assert!(!allowed(&Method::POST, "v2/", ME));
    assert!(!allowed(&Method::POST, "v2/_search", ME));
    assert!(allowed(&Method::POST, "/v2/v2/_search", ME));
}

#[test]
fn the_refusal_message_is_stable() {
    assert_eq!(
        READ_ONLY_DENIED,
        "Read only account: this operation is not permitted"
    );
}

#[test]
fn upper_casing_the_segment_does_not_change_the_answer() {
    for segment in [
        "viewer@example.com",
        "viewer%40example.com",
        "viewer%40example%2ecom",
        "someone%40example.com",
        "%ff",
        "v%c3%a9",
        "a%zz",
        "",
    ] {
        for email in [ME, "vé", "A%ZZ", ""] {
            assert_eq!(
                is_self_email(segment, email),
                is_self_email(&segment.to_ascii_uppercase(), email),
                "{segment:?} / {email:?}"
            );
        }
    }
    assert!(is_self_email("V%C3%A9", "vé"));
}
