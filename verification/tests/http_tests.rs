use nanogeoip::http::{lookup, lookup_reply, LookupStep, Options, Response};
use nanogeoip::ip::IpAddress;

fn default_opts() -> Options {
    Options::default()
}

fn reply_of(step: LookupStep) -> Response {
    match step {
        LookupStep::Reply(r) => r,
        LookupStep::Query(_) => panic!("expected a finished reply"),
    }
}

fn query_of(step: LookupStep) -> IpAddress {
    match step {
        LookupStep::Query(ip) => ip,
        LookupStep::Reply(_) => panic!("expected a query"),
    }
}

#[test]
fn default_options_allow_every_origin() {
    let opts = Options::default();
    assert_eq!(opts.cors_header, Some("*".to_string()));
}

#[test]
fn root_path_is_missing_ip() {
    let r = reply_of(lookup("/", &default_opts()));
    assert_eq!(r.status, 400);
    assert_eq!(r.content_type, "application/json");
    assert_eq!(
        r.body,
        "{\"error\": \"missing IP query in path, try /192.168.1.1\"}"
    );
    assert_eq!(r.last_modified, None);
}

#[test]
fn empty_path_is_missing_ip() {
    let r = reply_of(lookup("", &default_opts()));
    assert_eq!(r.status, 400);
    assert_eq!(
        r.body,
        "{\"error\": \"missing IP query in path, try /192.168.1.1\"}"
    );
}

#[test]
fn all_slash_path_is_missing_ip() {
    let r = reply_of(lookup("///", &default_opts()));
    assert_eq!(r.status, 400);
    assert_eq!(
        r.body,
        "{\"error\": \"missing IP query in path, try /192.168.1.1\"}"
    );
}

#[test]
fn non_ip_path_is_invalid() {
    let r = reply_of(lookup("/not-an-ip", &default_opts()));
    assert_eq!(r.status, 400);
    assert_eq!(r.content_type, "application/json");
    assert_eq!(r.body, "{\"error\": \"could not parse invalid IP address\"}");
    assert_eq!(r.last_modified, None);
}

#[test]
fn ip_path_becomes_a_query() {
    let ip = query_of(lookup("/203.0.113.5", &default_opts()));
    assert_eq!(ip, IpAddress::V4(203, 0, 113, 5));
}

#[test]
fn every_leading_slash_is_stripped() {
    let ip = query_of(lookup("//1.2.3.4", &default_opts()));
    assert_eq!(ip, IpAddress::V4(1, 2, 3, 4));
    let ip6 = query_of(lookup("////::1", &default_opts()));
    assert_eq!(
        ip6,
        IpAddress::V6(0, 0, 0, 0, 0, 0, 0, 1)
    );
}

#[test]
fn failed_lookup_is_500_not_found() {
    let r = lookup_reply(None, "Mon, 01 Jan 2024 00:00:00 GMT", &default_opts());
    assert_eq!(r.status, 500);
    assert_eq!(r.content_type, "application/json");
    assert_eq!(r.body, "{\"error\": \"IP not found\"}");
    assert_eq!(r.last_modified, None);
}

#[test]
fn successful_lookup_is_200_with_record_and_load_time() {
    let payload = "{\"country\":\"US\"}".to_string();
    let r = lookup_reply(
        Some(payload),
        "Mon, 01 Jan 2024 00:00:00 GMT",
        &default_opts(),
    );
    assert_eq!(r.status, 200);
    assert_eq!(r.content_type, "application/json");
    assert_eq!(r.body, "{\"country\":\"US\"}");
    assert_eq!(
        r.last_modified,
        Some("Mon, 01 Jan 2024 00:00:00 GMT".to_string())
    );
}

#[test]
fn cors_value_is_emitted_verbatim_on_every_status() {
    let opts = Options {
        cors_header: Some("https://example.test".to_string()),
    };
    let bad = reply_of(lookup("/", &opts));
    assert_eq!(bad.status, 400);
    assert_eq!(bad.cors_header, Some("https://example.test".to_string()));

    let invalid = reply_of(lookup("/xyz", &opts));
    assert_eq!(invalid.status, 400);
    assert_eq!(invalid.cors_header, Some("https://example.test".to_string()));

    let failed = lookup_reply(None, "Tue, 02 Jan 2024 00:00:00 GMT", &opts);
    assert_eq!(failed.status, 500);
    assert_eq!(failed.cors_header, Some("https://example.test".to_string()));

    let ok = lookup_reply(
        Some("{}".to_string()),
        "Tue, 02 Jan 2024 00:00:00 GMT",
        &opts,
    );
    assert_eq!(ok.status, 200);
    assert_eq!(ok.cors_header, Some("https://example.test".to_string()));
}

#[test]
fn no_cors_option_leaves_header_off_everywhere() {
    let opts = Options { cors_header: None };
    let bad = reply_of(lookup("/", &opts));
    assert_eq!(bad.cors_header, None);

    let invalid = reply_of(lookup("/xyz", &opts));
    assert_eq!(invalid.cors_header, None);

    let failed = lookup_reply(None, "Tue, 02 Jan 2024 00:00:00 GMT", &opts);
    assert_eq!(failed.cors_header, None);

    let ok = lookup_reply(
        Some("{}".to_string()),
        "Tue, 02 Jan 2024 00:00:00 GMT",
        &opts,
    );
    assert_eq!(ok.cors_header, None);
}

#[test]
fn identical_requests_give_identical_replies() {
    let opts = default_opts();
    let a = reply_of(lookup("/not-an-ip", &opts));
    let b = reply_of(lookup("/not-an-ip", &opts));
    assert_eq!(a.status, b.status);
    assert_eq!(a.content_type, b.content_type);
    assert_eq!(a.cors_header, b.cors_header);
    assert_eq!(a.last_modified, b.last_modified);
    assert_eq!(a.body, b.body);

    let r1 = lookup_reply(
        Some("{\"city\":\"X\"}".to_string()),
        "Wed, 03 Jan 2024 00:00:00 GMT",
        &opts,
    );
    let r2 = lookup_reply(
        Some("{\"city\":\"X\"}".to_string()),
        "Wed, 03 Jan 2024 00:00:00 GMT",
        &opts,
    );
    assert_eq!(r1.status, r2.status);
    assert_eq!(r1.content_type, r2.content_type);
    assert_eq!(r1.cors_header, r2.cors_header);
    assert_eq!(r1.last_modified, r2.last_modified);
    assert_eq!(r1.body, r2.body);
}
