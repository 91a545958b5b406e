use pyroscope::config::{contains_key, merge_tags, remove_matching, PyroscopeConfig};
use pyroscope::error::{ConfigField, ConfigReason, PyroscopeError};
use pyroscope::tags::{
    any_reserved_key, is_reserved_key, merge_tags_with_app_name, sort_tags, tag_le_exec, Tag,
};
use pyroscope::text::{bytes_eq, bytes_le_exec, decimal_string, push_decimal, str_eq};

fn tags(pairs: &[(&str, &str)]) -> Vec<Tag> {
    pairs.iter().map(|(k, v)| Tag::new(k, v)).collect()
}

fn pairs(tags: &[Tag]) -> Vec<(String, String)> {
    tags.iter().map(|t| (t.key.clone(), t.value.clone())).collect()
}

fn owned(pairs: &[(&str, &str)]) -> Vec<(String, String)> {
    pairs.iter().map(|(k, v)| (k.to_string(), v.to_string())).collect()
}

#[test]
fn name_without_tags_is_the_application_name() {
    assert_eq!(merge_tags_with_app_name("svc", &tags(&[])), Ok("svc".to_string()));
}

#[test]
fn name_with_tags_lists_them_by_key() {
    let t = tags(&[("region", "eu"), ("env", "prod")]);
    assert_eq!(merge_tags_with_app_name("svc", &t), Ok("svc{env=prod,region=eu}".to_string()));
}

#[test]
fn name_with_one_tag() {
    let t = tags(&[("env", "prod")]);
    assert_eq!(merge_tags_with_app_name("svc", &t), Ok("svc{env=prod}".to_string()));
}

#[test]
fn name_is_the_same_for_every_order_of_the_tags() {
    let expected = Ok("a{a=1,b=2,c=3}".to_string());
    let orders: [[(&str, &str); 3]; 6] = [
        [("a", "1"), ("b", "2"), ("c", "3")],
        [("a", "1"), ("c", "3"), ("b", "2")],
        [("b", "2"), ("a", "1"), ("c", "3")],
        [("b", "2"), ("c", "3"), ("a", "1")],
        [("c", "3"), ("a", "1"), ("b", "2")],
        [("c", "3"), ("b", "2"), ("a", "1")],
    ];
    for order in orders {
        assert_eq!(merge_tags_with_app_name("a", &tags(&order)), expected);
    }
}

#[test]
fn tags_are_ordered_by_bytes_not_by_letters() {
    let t = tags(&[("b", "1"), ("B", "2"), ("a", "3"), ("ab", "4"), ("é", "5")]);
    assert_eq!(
        merge_tags_with_app_name("x", &t),
        Ok("x{B=2,a=3,ab=4,b=1,é=5}".to_string())
    );
}

#[test]
fn equal_keys_are_ordered_by_value() {
    let t = tags(&[("k", "b"), ("k", "a")]);
    assert_eq!(pairs(&sort_tags(&t)), owned(&[("k", "a"), ("k", "b")]));
}

#[test]
fn reserved_keys_are_rejected() {
    let reserved = Err(PyroscopeError::InvalidConfig {
        field: ConfigField::Tags,
        reason: ConfigReason::ReservedTagKey,
    });
    assert_eq!(merge_tags_with_app_name("svc", &tags(&[("__name__", "x")])), reserved);
    assert_eq!(
        merge_tags_with_app_name("svc", &tags(&[("env", "prod"), ("__session_id__", "1")])),
        reserved
    );
}

#[test]
fn which_keys_are_reserved() {
    assert!(is_reserved_key("__name__"));
    assert!(is_reserved_key("____"));
    assert!(is_reserved_key("__"));
    assert!(!is_reserved_key("_"));
    assert!(!is_reserved_key(""));
    assert!(!is_reserved_key("__name"));
    assert!(!is_reserved_key("name__"));
    assert!(!is_reserved_key("_name_"));
    assert!(!is_reserved_key("env"));
    assert!(any_reserved_key(&tags(&[("a", "b"), ("__x__", "c")])));
    assert!(!any_reserved_key(&tags(&[("a", "b")])));
}

#[test]
fn byte_order() {
    assert!(bytes_le_exec(b"", b""));
    assert!(bytes_le_exec(b"", b"a"));
    assert!(!bytes_le_exec(b"a", b""));
    assert!(bytes_le_exec(b"a", b"ab"));
    assert!(!bytes_le_exec(b"ab", b"a"));
    assert!(bytes_le_exec(b"ab", b"b"));
    assert!(bytes_le_exec(b"Z", b"a"));
    assert!(bytes_le_exec(b"abc", b"abc"));
    assert!(!bytes_le_exec(b"abd", b"abc"));
    assert!(bytes_eq(b"abc", b"abc"));
    assert!(!bytes_eq(b"abc", b"abd"));
    assert!(!bytes_eq(b"abc", b"ab"));
    assert!(str_eq("env", "env"));
    assert!(!str_eq("env", "Env"));
    assert!(tag_le_exec(&Tag::new("a", "2"), &Tag::new("b", "1")));
    assert!(tag_le_exec(&Tag::new("a", "1"), &Tag::new("a", "2")));
    assert!(!tag_le_exec(&Tag::new("a", "2"), &Tag::new("a", "1")));
}

#[test]
fn decimal_numerals() {
    assert_eq!(decimal_string(0), "0");
    assert_eq!(decimal_string(7), "7");
    assert_eq!(decimal_string(10), "10");
    assert_eq!(decimal_string(120), "120");
    assert_eq!(decimal_string(1234567890), "1234567890");
    assert_eq!(decimal_string(u64::MAX), "18446744073709551615");
    let mut out = b"n=".to_vec();
    push_decimal(&mut out, 4096);
    assert_eq!(out, b"n=4096".to_vec());
    let mut out = Vec::new();
    push_decimal(&mut out, 0);
    push_decimal(&mut out, u64::MAX);
    assert_eq!(out, b"018446744073709551615".to_vec());
}

#[test]
fn setting_a_tag_replaces_the_earlier_value() {
    let config = PyroscopeConfig::new("http://h", "app")
        .tag("env", "dev")
        .tag("region", "eu")
        .tag("env", "prod");
    assert_eq!(pairs(&config.tags), owned(&[("region", "eu"), ("env", "prod")]));
}

#[test]
fn removing_a_tag_needs_key_and_value() {
    let mut config = PyroscopeConfig::new("http://h", "app").tag("env", "prod").tag("region", "eu");
    config.remove_global_tag("env", "dev");
    assert_eq!(pairs(&config.tags), owned(&[("env", "prod"), ("region", "eu")]));
    config.remove_global_tag("env", "prod");
    assert_eq!(pairs(&config.tags), owned(&[("region", "eu")]));
    config.add_global_tag("user", "alice");
    assert_eq!(pairs(&config.tags), owned(&[("region", "eu"), ("user", "alice")]));
}

#[test]
fn tag_list_helpers() {
    let t = tags(&[("a", "1"), ("b", "2"), ("a", "3")]);
    assert!(contains_key(&t, "a"));
    assert!(!contains_key(&t, "c"));
    assert_eq!(pairs(&remove_matching(&t, "a", None)), owned(&[("b", "2")]));
    assert_eq!(pairs(&remove_matching(&t, "a", Some("3"))), owned(&[("a", "1"), ("b", "2")]));
    assert_eq!(pairs(&remove_matching(&t, "c", None)), owned(&[("a", "1"), ("b", "2"), ("a", "3")]));
}

#[test]
fn report_tags_override_agent_tags_of_the_same_key() {
    let base = tags(&[("env", "prod"), ("region", "eu")]);
    let extra = tags(&[("thread", "main"), ("env", "test")]);
    assert_eq!(
        pairs(&merge_tags(&base, &extra)),
        owned(&[("region", "eu"), ("thread", "main"), ("env", "test")])
    );
    assert_eq!(pairs(&merge_tags(&base, &tags(&[]))), owned(&[("env", "prod"), ("region", "eu")]));
}

#[test]
fn configuration_setters() {
    let config = PyroscopeConfig::new("http://h:4040", "app");
    assert_eq!(config.sample_rate, 100);
    assert_eq!(config.url, "http://h:4040");
    assert_eq!(config.application_name, "app");
    assert!(config.tags.is_empty());
    assert_eq!(config.auth_token, None);
    assert_eq!(config.compression, None);
    assert_eq!(config.report_encoding, pyroscope::report::ReportEncoding::Folded);
    let config = config
        .url("http://other")
        .application_name("svc")
        .sample_rate(50)
        .spy_name("pyspy")
        .auth_token("secret")
        .compression(pyroscope::config::Compression::Gzip)
        .report_encoding(pyroscope::report::ReportEncoding::Pprof)
        .tenant_id("t")
        .http_headers(tags(&[("X-A", "1")]));
    assert_eq!(config.url, "http://other");
    assert_eq!(config.application_name, "svc");
    assert_eq!(config.sample_rate, 50);
    assert_eq!(config.spy_name, "pyspy");
    assert_eq!(config.auth_token, Some("secret".to_string()));
    assert_eq!(config.compression, Some(pyroscope::config::Compression::Gzip));
    assert_eq!(config.report_encoding, pyroscope::report::ReportEncoding::Pprof);
    assert_eq!(config.tenant_id, Some("t".to_string()));
    assert_eq!(pairs(&config.http_headers), owned(&[("X-A", "1")]));
    let copy = config.duplicate();
    assert_eq!(copy.url, config.url);
    assert_eq!(copy.auth_token, config.auth_token);
    assert_eq!(pairs(&copy.http_headers), pairs(&config.http_headers));
    assert_eq!(config.validate(), Ok(()));
}
