use trow::admission::AdmissionEngine;
use trow::containment::{
    classify, Containment, RegistryProxiesConfig, ServerIdentity, SingleRegistryProxyConfig,
};
use trow::image::parse;
use trow::policy::{evaluate, Action, ImageValidationConfig};

fn strings(v: &[&str]) -> Vec<String> {
    v.iter().map(|s| s.to_string()).collect()
}

fn identity(names: &[&str]) -> ServerIdentity {
    ServerIdentity { names: strings(names) }
}

fn proxies(entries: &[(&str, &str)]) -> RegistryProxiesConfig {
    RegistryProxiesConfig {
        registries: entries
            .iter()
            .map(|(h, a)| SingleRegistryProxyConfig {
                host_pattern: h.to_string(),
                alias: a.to_string(),
            })
            .collect(),
    }
}

fn config(default_action: Action, allow: &[&str], deny: &[&str]) -> ImageValidationConfig {
    ImageValidationConfig {
        default_action,
        allow_patterns: strings(allow),
        deny_patterns: strings(deny),
    }
}

fn engine(
    names: &[&str],
    entries: &[(&str, &str)],
    default_action: Action,
    allow: &[&str],
    deny: &[&str],
) -> AdmissionEngine {
    AdmissionEngine::new(identity(names), proxies(entries), config(default_action, allow, deny))
}

#[test]
fn classify_local_by_name() {
    let id = identity(&["trow.test", "localhost:8000"]);
    let px = proxies(&[]);
    let r = parse("trow.test/am/test:tag").unwrap();
    assert_eq!(classify(&id, &px, &r), Containment::Local);
    let r2 = parse("localhost:8000/secret/shine-box").unwrap();
    assert_eq!(classify(&id, &px, &r2), Containment::Local);
}

#[test]
fn classify_proxied_by_upstream_host() {
    let id = identity(&["trow.test"]);
    let px = proxies(&[("registry-1.docker.io", "f/docker"), ("quay.io", "f/quay")]);
    let r = parse("nginx").unwrap();
    assert_eq!(classify(&id, &px, &r), Containment::Proxied("f/docker".to_string()));
    let q = parse("quay.io/etcd/etcd:v3").unwrap();
    assert_eq!(classify(&id, &px, &q), Containment::Proxied("f/quay".to_string()));
}

#[test]
fn classify_proxied_by_local_alias_path() {
    let id = identity(&["trow.test"]);
    let px = proxies(&[("registry-1.docker.io", "f/docker")]);
    let by_alias = parse("trow.test/f/docker/nginx").unwrap();
    let by_host = parse("nginx").unwrap();
    assert_eq!(
        classify(&id, &px, &by_alias),
        Containment::Proxied("f/docker".to_string())
    );
    assert_eq!(classify(&id, &px, &by_alias), classify(&id, &px, &by_host));
}

#[test]
fn classify_external() {
    let id = identity(&["trow.test"]);
    let px = proxies(&[("registry-1.docker.io", "f/docker")]);
    let r = parse("virus.land.cc/not/suspect").unwrap();
    assert_eq!(classify(&id, &px, &r), Containment::External);
}

#[test]
fn local_precedence_over_deny_patterns() {
    let id = identity(&["trow.test"]);
    let px = proxies(&[]);
    let cfg = config(Action::Deny, &[], &["trow.test/*"]);
    let r = parse("trow.test/am/test:tag").unwrap();
    let c = classify(&id, &px, &r);
    assert_eq!(c, Containment::Local);
    let v = evaluate(&r, &c, &cfg);
    assert!(v.allowed);
    assert_eq!(v.reason, "Image is hosted by this registry");
}

#[test]
fn default_deny_when_nothing_matches() {
    let e = engine(&["trow.test"], &[], Action::Deny, &[], &[]);
    let v = e.evaluate_image("nginx");
    assert!(!v.allowed);
    assert_eq!(
        v.reason,
        "Remote image registry-1.docker.io/library/nginx:latest disallowed as not contained \
         in this registry and not in allow list"
    );
}

#[test]
fn default_allow_when_nothing_matches() {
    let e = engine(&["trow.test"], &[], Action::Allow, &[], &[]);
    let v = e.evaluate_image("nginx");
    assert!(v.allowed);
}

#[test]
fn allow_list_match_is_tag_insensitive() {
    let e = engine(&["trow.test"], &[], Action::Deny, &["k8s.gcr.io/*"], &[]);
    let v1 = e.evaluate_image("k8s.gcr.io/metrics-server-amd64:v0.2.1");
    let v2 = e.evaluate_image("k8s.gcr.io/metrics-server-amd64:v9.9.9");
    assert!(v1.allowed, "{}", v1.reason);
    assert!(v2.allowed, "{}", v2.reason);
}

#[test]
fn deny_list_beats_allow_list() {
    let e = engine(
        &["trow.test"],
        &[],
        Action::Allow,
        &["localhost:8000/*"],
        &["localhost:8000/secret/shine-box"],
    );
    let v = e.evaluate_image("localhost:8000/secret/shine-box:v1");
    assert!(!v.allowed);
    assert_eq!(v.reason, "Image localhost:8000/secret/shine-box:v1 explicitly denied");
}

#[test]
fn proxied_containment_grants_no_allowance() {
    let e = engine(
        &["trow.test"],
        &[("registry-1.docker.io", "f/docker")],
        Action::Deny,
        &[],
        &[],
    );
    let v = e.evaluate_image("nginx");
    assert!(!v.allowed, "{}", v.reason);
}

#[test]
fn segment_wildcards_match_hosts_and_paths() {
    let e = engine(&["trow.test"], &[], Action::Deny, &["*.gcr.io/*"], &[]);
    assert!(e.evaluate_image("k8s.gcr.io/metrics-server-amd64:v0.2.1").allowed);
    assert!(!e.evaluate_image("k8s.gcr.io.evil.example/metrics:v1").allowed);
    assert!(!e.evaluate_image("virus.land.cc/not/suspect").allowed);
}

#[test]
fn pattern_prefix_matches_whole_segments_only() {
    let e = engine(&["trow.test"], &[], Action::Deny, &["quay.io"], &[]);
    assert!(e.evaluate_image("quay.io/etcd/etcd:v3").allowed);
    assert!(!e.evaluate_image("quay.iox/etcd/etcd:v3").allowed);
}

#[test]
fn invalid_reference_is_denied_not_an_error() {
    let e = engine(&["trow.test"], &[], Action::Allow, &[], &[]);
    let v = e.evaluate_pod_spec(&strings(&["http://nope"]));
    assert!(!v.allowed);
    assert!(v.reason.contains("Invalid image reference: http://nope"), "{}", v.reason);
}

#[test]
fn aggregation_short_circuits_on_first_denial() {
    let e = engine(
        &["trow.test"],
        &[],
        Action::Deny,
        &["registry-1.docker.io/*"],
        &[],
    );
    let v = e.evaluate_pod_spec(&strings(&["nginx:good-allowed", "virus.land.cc/bad"]));
    assert!(!v.allowed);
    assert!(v.reason.contains("virus.land.cc/bad"), "{}", v.reason);
    assert!(
        v.reason.contains("not contained in this registry and not in allow list"),
        "{}",
        v.reason
    );
}

#[test]
fn all_allowed_yields_generic_success() {
    let e = engine(&["trow.test"], &[], Action::Allow, &[], &[]);
    let v = e.evaluate_pod_spec(&strings(&["nginx", "trow.test/am/test:tag"]));
    assert!(v.allowed);
    assert_eq!(v.reason, "All images are allowed");
}

#[test]
fn empty_pod_spec_is_vacuously_allowed() {
    let e = engine(&["trow.test"], &[], Action::Deny, &[], &[]);
    let v = e.evaluate_pod_spec(&Vec::new());
    assert!(v.allowed);
}

#[test]
fn builder_carries_configuration_through() {
    let cfg = config(Action::Deny, &["trow.test"], &[]);
    let b = trow::build_server("./data", None, Some(cfg));
    assert_eq!(b.data_path, "./data");
    let server = b.get_server_future();
    assert_eq!(server.data_path, "./data");
    let engine = server.admission_engine(identity(&["trow.test"])).unwrap();
    assert!(engine.evaluate_image("trow.test/am/test:tag").allowed);
}
