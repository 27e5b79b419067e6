//! Tests for URL normalization behavior.
//!
//! These tests validate that different textual representations of URLs
//! normalize into a single canonical form suitable for deduplication.

use kaka::errors::ParseError;
use kaka::normalizer::DomainRule;
use kaka::normalizer::NormalizerConfig;
use kaka::normalizer::UrlNormalizer;

#[test]
fn scheme_normalization() {
    let normalizer = UrlNormalizer::new();

    assert_eq!(
        normalizer.normalize("HTTP://example.com").unwrap(),
        "http://example.com/"
    );

    assert_eq!(
        normalizer.normalize("HTTPS://example.com").unwrap(),
        "https://example.com/"
    );
}

#[test]
fn host_normalization() {
    let normalizer = UrlNormalizer::new();

    assert_eq!(
        normalizer.normalize("http://WWW.Example.COM").unwrap(),
        "http://example.com/"
    );

    assert_eq!(
        normalizer.normalize("http://EXAMPLE.COM").unwrap(),
        "http://example.com/"
    );
}

#[test]
fn port_normalization() {
    let normalizer = UrlNormalizer::new();

    assert_eq!(
        normalizer.normalize("http://example.com:80").unwrap(),
        "http://example.com/"
    );

    assert_eq!(
        normalizer.normalize("https://example.com:443").unwrap(),
        "https://example.com/"
    );

    assert_eq!(
        normalizer.normalize("http://example.com:8080").unwrap(),
        "http://example.com:8080/"
    );
}

#[test]
fn path_normalization() {
    let normalizer = UrlNormalizer::new();

    assert_eq!(
        normalizer
            .normalize("http://example.com/path/to/../page")
            .unwrap(),
        "http://example.com/path/page"
    );

    assert_eq!(
        normalizer.normalize("http://example.com/path/").unwrap(),
        "http://example.com/path"
    );

    assert_eq!(
        normalizer.normalize("http://example.com/").unwrap(),
        "http://example.com/"
    );
}

#[test]
fn query_parameter_handling() {
    let normalizer = UrlNormalizer::new();

    assert_eq!(
        normalizer
            .normalize("http://example.com/?b=2&a=1")
            .unwrap(),
        "http://example.com/?a=1&b=2"
    );

    assert_eq!(
        normalizer
            .normalize("http://example.com/?utm_source=google&q=test")
            .unwrap(),
        "http://example.com/?q=test"
    );

    assert_eq!(
        normalizer.normalize("http://example.com/?").unwrap(),
        "http://example.com/"
    );
}

#[test]
fn fragment_removal() {
    let normalizer = UrlNormalizer::new();

    assert_eq!(
        normalizer
            .normalize("http://example.com/page#section")
            .unwrap(),
        "http://example.com/page"
    );

    assert_eq!(
        normalizer.normalize("http://example.com/page#").unwrap(),
        "http://example.com/page"
    );
}

#[test]
fn complex_url_normalization() {
    let normalizer = UrlNormalizer::new();

    // Path case is preserved; the default port, the `www.` prefix, the
    // tracking parameter and the fragment are stripped; surviving query
    // pairs are sorted by key.
    let input = "HTTPS://WWW.Example.com:443/Path/../Page?b=2&utm_source=google&a=1#section";
    let expected = "https://example.com/Page?a=1&b=2";

    assert_eq!(normalizer.normalize(input).unwrap(), expected);
}

#[test]
fn unicode_and_idn() {
    let normalizer = UrlNormalizer::new();

    // The URL parser canonicalizes internationalized domain names (IDN)
    // into ASCII-compatible Punycode form.
    assert_eq!(
        normalizer.normalize("https://münchen.de").unwrap(),
        "https://xn--mnchen-3ya.de/"
    );
}

#[test]
fn malformed_urls_return_error() {
    let normalizer = UrlNormalizer::new();

    assert!(normalizer.normalize("not a url").is_err());
    assert!(normalizer.normalize("").is_err());
}

#[test]
fn youtube_domain_specific_rule() {
    let mut normalizer = UrlNormalizer::new();

    // YouTube-specific normalization: keep only the `v` query parameter.
    normalizer.add_domain_rule(
        "youtube.com",
        DomainRule::keep_params(vec!["v".to_string()]),
    );

    let input = "https://www.youtube.com/watch?v=abc123&feature=share&t=30";
    let expected = "https://youtube.com/watch?v=abc123";

    assert_eq!(normalizer.normalize(input).unwrap(), expected);
}

#[test]
fn fixed_domain_rule() {
    let mut normalizer = UrlNormalizer::new();
    normalizer.add_domain_rule("example.org", DomainRule::fixed("https://example.org/"));

    assert_eq!(
        normalizer
            .normalize("https://example.org/any/path?x=1#frag")
            .unwrap(),
        "https://example.org/"
    );
}

#[test]
fn domain_rule_replacement() {
    let mut normalizer = UrlNormalizer::new();
    normalizer.add_domain_rule("example.org", DomainRule::fixed("https://example.org/old"));
    normalizer.add_domain_rule("example.org", DomainRule::fixed("https://example.org/new"));

    assert_eq!(
        normalizer.normalize("https://example.org/x").unwrap(),
        "https://example.org/new"
    );
}

#[test]
fn exact_domain_rule_beats_stripped_prefix() {
    let mut normalizer = UrlNormalizer::new();
    normalizer.add_domain_rule("example.net", DomainRule::fixed("https://example.net/bare"));
    normalizer.add_domain_rule("www.example.net", DomainRule::fixed("https://example.net/www"));

    assert_eq!(
        normalizer.normalize("https://www.example.net/a").unwrap(),
        "https://example.net/www"
    );
    assert_eq!(
        normalizer.normalize("https://example.net/a").unwrap(),
        "https://example.net/bare"
    );
}

#[test]
fn added_tracking_param_is_removed() {
    let mut normalizer = UrlNormalizer::new();
    normalizer.add_tracking_param("session");

    assert_eq!(
        normalizer
            .normalize("http://example.com/?session=99&q=1")
            .unwrap(),
        "http://example.com/?q=1"
    );
}

#[test]
fn error_variants_match_failure_modes() {
    let normalizer = UrlNormalizer::new();

    assert_eq!(
        normalizer.normalize("not a url").unwrap_err(),
        ParseError::Syntax
    );
    assert_eq!(
        normalizer.normalize("mailto:user@example.com").unwrap_err(),
        ParseError::MissingHost
    );
}

#[test]
fn normalization_is_idempotent_on_samples() {
    let normalizer = UrlNormalizer::new();
    let samples = [
        "HTTPS://WWW.Example.com:443/Path/../Page?b=2&utm_source=google&a=1#section",
        "http://example.com:8080/a/b/?z=9&y=8",
        "http://example.com/?utm_source=google&q=test",
        "https://münchen.de/Straße?x=1",
    ];

    for s in samples {
        let once = normalizer.normalize(s).unwrap();
        let twice = normalizer.normalize(&once).unwrap();
        assert_eq!(once, twice, "not idempotent on {}", s);
    }
}

#[test]
fn config_flags_are_honored() {
    let config = NormalizerConfig {
        lowercase_scheme: true,
        remove_www: false,
        remove_default_port: false,
        sort_query_params: false,
        remove_fragment: false,
        lowercase_hostname: true,
    };
    let normalizer = UrlNormalizer::with_config(config);

    // www kept, explicit port kept, query order kept, fragment kept
    assert_eq!(
        normalizer
            .normalize("http://WWW.Example.com:8080/a?b=2&a=1#sec")
            .unwrap(),
        "http://www.example.com:8080/a?b=2&a=1#sec"
    );
}

#[test]
fn sorting_is_stable_for_equal_keys() {
    let normalizer = UrlNormalizer::new();

    assert_eq!(
        normalizer
            .normalize("http://example.com/?b=2&a=first&a=second")
            .unwrap(),
        "http://example.com/?a=first&a=second&b=2"
    );
}
