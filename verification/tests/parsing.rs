use trow::image::{parse, ImageReference, ParseError};

fn ok(raw: &str) -> ImageReference {
    parse(raw).expect(raw)
}

#[test]
fn parse_bare_name_defaults() {
    let r = ok("nginx");
    assert_eq!(r.registry_host, "registry-1.docker.io");
    assert_eq!(r.port, None);
    assert_eq!(r.repository, "library/nginx");
    assert_eq!(r.tag.as_deref(), Some("latest"));
    assert_eq!(r.digest, None);
}

#[test]
fn parse_bare_name_with_tag() {
    let r = ok("nginx:1.19");
    assert_eq!(r.repository, "library/nginx");
    assert_eq!(r.tag.as_deref(), Some("1.19"));
}

#[test]
fn parse_multi_segment_default_registry() {
    let r = ok("amouat/myimage:test");
    assert_eq!(r.registry_host, "registry-1.docker.io");
    assert_eq!(r.repository, "amouat/myimage");
    assert_eq!(r.tag.as_deref(), Some("test"));
}

#[test]
fn parse_explicit_host() {
    let r = ok("trow.test/am/test:tag");
    assert_eq!(r.registry_host, "trow.test");
    assert_eq!(r.port, None);
    assert_eq!(r.repository, "am/test");
    assert_eq!(r.tag.as_deref(), Some("tag"));
}

#[test]
fn parse_host_with_port() {
    let r = ok("localhost:8000/hello/world");
    assert_eq!(r.registry_host, "localhost");
    assert_eq!(r.port, Some(8000));
    assert_eq!(r.repository, "hello/world");
    assert_eq!(r.tag.as_deref(), Some("latest"));
}

#[test]
fn parse_digest_only() {
    let r = ok("quay.io/etcd/etcd@sha256:abc123");
    assert_eq!(r.registry_host, "quay.io");
    assert_eq!(r.repository, "etcd/etcd");
    assert_eq!(r.tag, None);
    assert_eq!(r.digest.as_deref(), Some("sha256:abc123"));
}

#[test]
fn parse_tag_and_digest() {
    let r = ok("quay.io/etcd/etcd:v3.5@sha256:00ff");
    assert_eq!(r.tag.as_deref(), Some("v3.5"));
    assert_eq!(r.digest.as_deref(), Some("sha256:00ff"));
}

#[test]
fn scheme_stripping_is_meaningless_on_hosted_refs() {
    let plain = ok("localhost:8000/hello/world");
    let http = ok("http://localhost:8000/hello/world");
    let https = ok("https://localhost:8000/hello/world");
    assert_eq!(plain, http);
    assert_eq!(plain, https);
}

#[test]
fn scheme_on_unhosted_ref_is_malformed() {
    assert_eq!(parse("http://nope"), Err(ParseError::Malformed));
    assert_eq!(parse("http://nginx"), Err(ParseError::Malformed));
    assert_eq!(parse("https://amouat/myimage"), Err(ParseError::Malformed));
}

#[test]
fn bare_host_without_repository_is_malformed() {
    assert_eq!(parse("docker.io"), Err(ParseError::Malformed));
    assert_eq!(parse("example.com"), Err(ParseError::Malformed));
    assert_eq!(parse("localhost:8000"), Err(ParseError::Malformed));
    assert_eq!(parse("docker.io/"), Err(ParseError::Malformed));
}

#[test]
fn empty_and_invalid_inputs_are_malformed() {
    assert_eq!(parse(""), Err(ParseError::Malformed));
    assert_eq!(parse("http://"), Err(ParseError::Malformed));
    assert_eq!(parse("UPPER.Host/repo"), Err(ParseError::Malformed));
    assert_eq!(parse("trow.test/repo with space"), Err(ParseError::Malformed));
    assert_eq!(parse("trow.test/"), Err(ParseError::Malformed));
    assert_eq!(parse("trow.test/repo:"), Err(ParseError::Malformed));
    assert_eq!(parse("trow.test/repo@sha256"), Err(ParseError::Malformed));
    assert_eq!(parse("trow.test/repo@sha256:"), Err(ParseError::Malformed));
}

#[test]
fn ports_must_be_in_range() {
    assert_eq!(parse("localhost:0/repo"), Err(ParseError::Malformed));
    assert_eq!(parse("localhost:65536/repo"), Err(ParseError::Malformed));
    assert_eq!(parse("localhost:99999999999999999999/repo"), Err(ParseError::Malformed));
    assert_eq!(parse("localhost:8x0/repo"), Err(ParseError::Malformed));
    assert_eq!(ok("localhost:65535/repo").port, Some(65535));
    assert_eq!(ok("localhost:1/repo").port, Some(1));
    // leading zeros are tolerated on input and normalized away
    assert_eq!(ok("localhost:08000/repo").port, Some(8000));
}

#[test]
fn canonical_string_forms() {
    assert_eq!(ok("nginx").canonical_string(), "registry-1.docker.io/library/nginx:latest");
    assert_eq!(
        ok("localhost:8000/hello/world").canonical_string(),
        "localhost:8000/hello/world:latest"
    );
    assert_eq!(
        ok("quay.io/etcd/etcd@sha256:abc123").canonical_string(),
        "quay.io/etcd/etcd@sha256:abc123"
    );
    assert_eq!(
        ok("quay.io/etcd/etcd:v3.5@sha256:00ff").canonical_string(),
        "quay.io/etcd/etcd:v3.5@sha256:00ff"
    );
}

#[test]
fn normalized_string_drops_tag_and_digest() {
    assert_eq!(ok("nginx:1.19").normalized_string(), "registry-1.docker.io/library/nginx");
    assert_eq!(
        ok("localhost:8000/hello/world:v2").normalized_string(),
        "localhost:8000/hello/world"
    );
}

#[test]
fn parsing_is_idempotent_through_canonical_form() {
    let raws = [
        "nginx",
        "nginx:1.19",
        "amouat/myimage:test",
        "trow.test/am/test:tag",
        "localhost:8000/hello/world",
        "http://localhost:8000/hello/world",
        "k8s.gcr.io/metrics-server-amd64:v0.2.1",
        "quay.io/etcd/etcd@sha256:abc123",
        "quay.io/etcd/etcd:v3.5@sha256:00ff",
        "localhost:08000/x",
    ];
    for raw in raws {
        let first = ok(raw);
        let second = ok(&first.canonical_string());
        assert_eq!(first, second, "round trip of {raw}");
    }
}
