//! Features: references, options, order of installation, and the image that holds them.
use devc::dockerfile::{env_value, render_dockerfile, sh_quote};
use devc::features::{
    enabled_features, feature_runtime, parse_ref, prepare, resolve_feature, FeatureMetadata,
    ResolvedFeature,
};
use devc::json::{parse_json, Json};
use devc::options::{main_option, merge_options, safe_id, value_to_string};
use devc::order::{install_order, ref_matches};
use serde_json::Value;

fn json(text: &str) -> Json {
    Json::from_value(&serde_json::from_str::<Value>(text).unwrap())
}

fn members(text: &str) -> Vec<(String, Json)> {
    let map: serde_json::Map<String, Value> = serde_json::from_str(text).unwrap();
    map.iter()
        .map(|(k, v)| (k.clone(), Json::from_value(v)))
        .collect()
}

fn metadata(id: Option<&str>, installs_after: &[&str]) -> FeatureMetadata {
    FeatureMetadata {
        id: id.map(|s| s.to_string()),
        version: None,
        options: Vec::new(),
        container_env: Vec::new(),
        installs_after: installs_after.iter().map(|s| s.to_string()).collect(),
        entrypoint: None,
        init: None,
        privileged: None,
        cap_add: Vec::new(),
        security_opt: Vec::new(),
    }
}

fn feature(index: usize, reference: &str, installs_after: &[&str]) -> ResolvedFeature {
    resolve_feature(
        index,
        reference,
        &json("{}"),
        format!("/cache/{index}"),
        metadata(None, installs_after),
    )
}

fn pair(k: &str, v: &str) -> (String, String) {
    (k.to_string(), v.to_string())
}

// --- identifiers and references ---

#[test]
fn safe_id_matches_reference() {
    assert_eq!(safe_id("version"), "VERSION");
    assert_eq!(safe_id("jdkDistro"), "JDKDISTRO");
    assert_eq!(safe_id("installGradle"), "INSTALLGRADLE");
    assert_eq!(safe_id("install-gradle"), "INSTALL_GRADLE");
    assert_eq!(safe_id("2foo"), "_FOO");
    assert_eq!(safe_id("_foo"), "_FOO");
}

#[test]
fn safe_id_edge_cases() {
    assert_eq!(safe_id(""), "");
    assert_eq!(safe_id("12_3"), "_");
    assert_eq!(safe_id("__2ab"), "_AB");
    assert_eq!(safe_id("-x"), "_X");
    assert_eq!(safe_id("größe"), "GR__E");
    for name in ["version", "2foo", "a b", "", "ß1"] {
        let once = safe_id(name);
        assert_eq!(safe_id(&once), once);
    }
}

#[test]
fn parse_ref_splits_registry_and_tag() {
    let (r, repo, tag) = parse_ref("ghcr.io/devcontainers/features/java:1");
    assert_eq!(r, "ghcr.io");
    assert_eq!(repo, "devcontainers/features/java");
    assert_eq!(tag, "1");

    let (_, _, tag) = parse_ref("ghcr.io/devcontainers/features/github-cli");
    assert_eq!(tag, "latest");
}

#[test]
fn parse_ref_hosts() {
    let parts = parse_ref("localhost:5000/a/b");
    assert_eq!(
        parts,
        ("localhost:5000".to_string(), "a/b".to_string(), "latest".to_string())
    );
    let parts = parse_ref("localhost/a:2");
    assert_eq!(
        parts,
        ("localhost".to_string(), "a".to_string(), "2".to_string())
    );
    let parts = parse_ref("library/tool:3");
    assert_eq!(
        parts,
        ("registry-1.docker.io".to_string(), "library/tool".to_string(), "3".to_string())
    );
    let parts = parse_ref("tool");
    assert_eq!(
        parts,
        ("registry-1.docker.io".to_string(), "tool".to_string(), "latest".to_string())
    );
}

// --- options ---

#[test]
fn merge_options_applies_defaults_and_overrides() {
    let defs = members(
        r#"{
                "version": {"default": "latest"},
                "jdkDistro": {"default": "ms"},
                "installGradle": {"default": false}
            }"#,
    );
    let user = json(r#"{"version": "25.0.3-tem", "jdkDistro": "tem", "installGradle": false}"#);
    let env = merge_options(&defs, &user);
    assert!(env.contains(&("VERSION".to_string(), "25.0.3-tem".to_string())));
    assert!(env.contains(&("JDKDISTRO".to_string(), "tem".to_string())));
    assert!(env.contains(&("INSTALLGRADLE".to_string(), "false".to_string())));
}

#[test]
fn scalar_value_sets_main_option() {
    let defs = members(r#"{"version": {"default": "latest"}}"#);
    let env = merge_options(&defs, &Json::from_value(&Value::String("1".to_string())));
    assert_eq!(env, vec![("VERSION".to_string(), "1".to_string())]);
}

#[test]
fn options_keep_definition_order() {
    let defs = members(r#"{"z": {"default": 1}, "a": {"default": 2}, "m": {}}"#);
    let env = merge_options(&defs, &json(r#"{"new": "x", "a": true}"#));
    assert_eq!(env, vec![pair("Z", "1"), pair("A", "true"), pair("NEW", "x")]);
}

#[test]
fn true_and_empty_object_mean_defaults() {
    let defs = members(r#"{"a": {"default": "x"}, "b": {"default": null}}"#);
    let expected = vec![pair("A", "x"), pair("B", "")];
    assert_eq!(merge_options(&defs, &json("true")), expected);
    assert_eq!(merge_options(&defs, &json("{}")), expected);
    assert_eq!(merge_options(&defs, &json("null")), expected);
    // Two options and none called `version`: a scalar names none of them.
    assert_eq!(merge_options(&defs, &json("3")), expected);
}

#[test]
fn main_option_is_version_or_the_only_one() {
    assert_eq!(
        main_option(&members(r#"{"a": {}, "version": {}}"#)),
        Some("version".to_string())
    );
    assert_eq!(main_option(&members(r#"{"a": {}}"#)), Some("a".to_string()));
    assert_eq!(main_option(&members(r#"{"a": {}, "b": {}}"#)), None);
    assert_eq!(main_option(&members("{}")), None);
}

#[test]
fn values_as_text() {
    assert_eq!(value_to_string(&json("\"a\\\"b\"")), "a\"b");
    assert_eq!(value_to_string(&json("true")), "true");
    assert_eq!(value_to_string(&json("1.50")), "1.5");
    assert_eq!(value_to_string(&json("-3")), "-3");
    assert_eq!(value_to_string(&json("null")), "");
    assert_eq!(value_to_string(&json("[1, \"a\"]")), "[1,\"a\"]");
    assert_eq!(value_to_string(&json("{\"b\": 1, \"a\": 2}")), "{\"b\":1,\"a\":2}");
}

#[test]
fn json_texts_are_read() {
    let parsed = parse_json(b" {\"b\": [null, 2], \"a\": \"x\"} ").ok().unwrap();
    match &parsed {
        Json::Object(m, text) => {
            assert_eq!(text, "{\"b\":[null,2],\"a\":\"x\"}");
            assert_eq!(m[0].0, "b");
            assert_eq!(m[1].0, "a");
        }
        _ => panic!("an object was expected"),
    }
    assert_eq!(parsed.member("a").unwrap().text().unwrap(), "x");
    assert!(parsed.member("c").is_none());
    assert!(parsed.text().is_none());
    assert!(parse_json(b"{").is_err());
    assert!(parse_json(b"1 2").is_err());
    assert!(parse_json(b"\xff").is_err());
    assert!(parse_json(b"").err().unwrap().contains("EOF"));
}

// --- order ---

#[test]
fn disabled_features_are_left_out() {
    let features = members(r#"{"b": {}, "a": false, "c": true, "d": "1"}"#);
    assert_eq!(enabled_features(&features), vec![0, 2, 3]);
    assert_eq!(enabled_features(&members(r#"{"a": false}"#)), Vec::<usize>::new());
}

#[test]
fn order_is_that_of_the_config_without_prerequisites() {
    let features = vec![feature(0, "x.io/c", &[]), feature(1, "x.io/a", &[]), feature(2, "x.io/b", &["y"])];
    assert_eq!(install_order(&features), vec![0, 1, 2]);
}

#[test]
fn prerequisites_are_installed_first() {
    let features = vec![
        feature(0, "x.io/f/app:1", &["x.io/f/lib"]),
        feature(1, "x.io/f/tool", &[]),
        feature(2, "x.io/f/lib:2", &["base:7"]),
        feature(3, "x.io/f/base", &[]),
    ];
    assert_eq!(install_order(&features), vec![1, 3, 2, 0]);
}

#[test]
fn a_cycle_falls_back_to_config_order() {
    let features = vec![
        feature(0, "x.io/a", &["x.io/b"]),
        feature(1, "x.io/b", &["x.io/a"]),
        feature(2, "x.io/c", &["x.io/b"]),
    ];
    assert_eq!(install_order(&features), vec![0, 1, 2]);
    // A feature does not wait for itself.
    assert_eq!(install_order(&vec![feature(0, "x.io/a", &["x.io/a"])]), vec![0]);
}

#[test]
fn entries_refer_by_reference_suffix_or_id() {
    let m = metadata(Some("java"), &[]);
    assert!(ref_matches("ghcr.io/f/jdk", &m, "ghcr.io/f/jdk:3"));
    assert!(ref_matches("ghcr.io/f/jdk", &m, "f/jdk"));
    assert!(ref_matches("ghcr.io/f/jdk", &m, "jdk"));
    assert!(ref_matches("ghcr.io/f/jdk", &m, "java:latest"));
    assert!(!ref_matches("ghcr.io/f/jdk", &m, "dk"));
    assert!(!ref_matches("ghcr.io/f/jdk", &metadata(None, &[]), "java"));
}

// --- the image ---

#[test]
fn quoting() {
    assert_eq!(sh_quote("it's"), "'it'\\''s'");
    assert_eq!(sh_quote(""), "''");
    assert_eq!(sh_quote("$a \"b\""), "'$a \"b\"'");
    assert_eq!(env_value("${PATH}:/x"), "\"${PATH}:/x\"");
    assert_eq!(env_value("a\"b"), "\"a\\\"b\"");
}

#[test]
fn dockerfile_installs_features_in_order() {
    let mut java = feature(0, "ghcr.io/f/java:1", &["base"]);
    java.metadata.container_env = members(r#"{"JAVA_HOME": "/opt/java", "PATH": "${JAVA_HOME}/bin:${PATH}"}"#);
    java.option_vars = vec![pair("VERSION", "25"), pair("NOTE", "it's")];
    let base = feature(1, "ghcr.io/f/base", &[]);
    let features = vec![java, base];
    let order = install_order(&features);
    assert_eq!(order, vec![1, 0]);
    let text = render_dockerfile("debian:12", &features, &order, "dev", "root");
    let expected = "FROM debian:12\n\nUSER root\n\n\
        COPY dc-features/feature1 /tmp/dc-features/feature1\n\
        RUN cd /tmp/dc-features/feature1 \\\n    && chmod +x ./install.sh \\\n    \
        && export _REMOTE_USER='dev' _CONTAINER_USER='root' \\\n    \
        && export _REMOTE_USER_HOME=\"$(getent passwd 'dev' | cut -d: -f6)\" \\\n    \
        && export _CONTAINER_USER_HOME=\"$(getent passwd 'root' | cut -d: -f6)\" \\\n    \
        && ./install.sh \\\n    && rm -rf /tmp/dc-features/feature1\n\n\
        ENV JAVA_HOME=\"/opt/java\"\nENV PATH=\"${JAVA_HOME}/bin:${PATH}\"\n\
        COPY dc-features/feature0 /tmp/dc-features/feature0\n\
        RUN cd /tmp/dc-features/feature0 \\\n    && chmod +x ./install.sh \\\n    \
        && export _REMOTE_USER='dev' _CONTAINER_USER='root' \\\n    \
        && export _REMOTE_USER_HOME=\"$(getent passwd 'dev' | cut -d: -f6)\" \\\n    \
        && export _CONTAINER_USER_HOME=\"$(getent passwd 'root' | cut -d: -f6)\" \\\n    \
        && export VERSION='25' \\\n    && export NOTE='it'\\''s' \\\n    \
        && ./install.sh \\\n    && rm -rf /tmp/dc-features/feature0\n\n";
    assert_eq!(text, expected);
}

#[test]
fn resolved_feature_has_its_names() {
    let f = resolve_feature(
        12,
        "ghcr.io/f/java:1",
        &json("\"21\""),
        "/cache/x".to_string(),
        FeatureMetadata {
            options: members(r#"{"version": {"default": "latest"}}"#),
            ..metadata(Some("java"), &[])
        },
    );
    assert_eq!(f.ref_no_tag, "ghcr.io/f/java");
    assert_eq!(f.folder, "feature12");
    assert_eq!(f.src_dir, "/cache/x");
    assert_eq!(f.option_vars, vec![pair("VERSION", "21")]);
}

#[test]
fn runtime_flags_are_collected() {
    let mut a = feature(0, "x.io/a", &["b"]);
    a.metadata.init = Some(false);
    a.metadata.privileged = Some(true);
    a.metadata.cap_add = vec!["SYS_PTRACE".to_string()];
    a.metadata.entrypoint = Some("/a.sh".to_string());
    let mut b = feature(1, "x.io/b", &[]);
    b.metadata.init = Some(true);
    b.metadata.cap_add = vec!["NET_ADMIN".to_string()];
    b.metadata.security_opt = vec!["seccomp=unconfined".to_string()];
    b.metadata.entrypoint = Some("/b.sh".to_string());
    let features = vec![a, b];
    let runtime = feature_runtime(&features, &vec![1, 0]);
    assert!(runtime.init && runtime.privileged);
    assert_eq!(runtime.cap_add, vec!["NET_ADMIN", "SYS_PTRACE"]);
    assert_eq!(runtime.security_opt, vec!["seccomp=unconfined"]);
    assert_eq!(runtime.entrypoints, vec!["/b.sh", "/a.sh"]);
}

#[test]
fn preparation_lays_out_the_build() {
    assert!(prepare("img", &Vec::new(), "root", "root", "/tmp/ctx").is_none());
    let features = vec![feature(0, "x.io/a", &["b"]), feature(1, "x.io/b", &[])];
    let p = prepare("img", &features, "u", "c", "/tmp/ctx").unwrap();
    assert_eq!(p.prepared.context.context_dir, "/tmp/ctx");
    assert_eq!(p.prepared.context.dockerfile, "/tmp/ctx/Dockerfile.devc-features");
    assert_eq!(
        p.copies,
        vec![
            pair("/cache/1", "/tmp/ctx/dc-features/feature1"),
            pair("/cache/0", "/tmp/ctx/dc-features/feature0"),
        ]
    );
    assert_eq!(
        p.dockerfile_text,
        render_dockerfile("img", &features, &vec![1, 0], "u", "c")
    );
    assert!(!p.prepared.runtime.init);
}

#[test]
fn a_shell_reads_quoted_values_back() {
    for s in ["", "'", "a'b''c", "\\'", "$x `y`\n", "'''"] {
        let mut read = String::new();
        let mut quoted = false;
        let word = sh_quote(s);
        let mut chars = word.chars();
        while let Some(c) = chars.next() {
            match (c, quoted) {
                ('\'', _) => quoted = !quoted,
                ('\\', false) => read.push(chars.next().unwrap()),
                (c, true) => read.push(c),
                (c, false) => panic!("{c} stands outside of the quotes"),
            }
        }
        assert!(!quoted);
        assert_eq!(read, s);
    }
}
