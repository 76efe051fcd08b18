//! Registries: challenges, tokens, manifests, and the fetch of a feature.
use devc::json::parse_json;
use devc::registry::{
    blob_url, build_context_dir, feature_cache_dir, find_layer_digest, http_get_authed,
    manifest_digest, manifest_url, parse_www_authenticate, token_from_response, token_in,
    token_url, urlencode, AuthStage, AuthStep, CacheDirs, FeatureSource, FetchStage, FetchStep,
    HttpRequest, HttpResponse, RegistryError,
};

fn pair(k: &str, v: &str) -> (String, String) {
    (k.to_string(), v.to_string())
}

fn answer(status: u16, challenge: Option<&str>, body: &str) -> HttpResponse {
    HttpResponse {
        status,
        www_authenticate: challenge.map(|s| s.to_string()),
        body: body.as_bytes().to_vec(),
    }
}

fn dirs() -> CacheDirs {
    CacheDirs {
        xdg_cache_home: Some("/xdg".to_string()),
        home: Some("/home/u".to_string()),
        user_profile: None,
        temp_dir: "/tmp".to_string(),
    }
}

fn source() -> FeatureSource {
    FeatureSource::from_reference("ghcr.io/f/java:1", dirs())
}

#[test]
fn challenges_are_read() {
    assert_eq!(
        parse_www_authenticate("Bearer realm=\"https://g/token\",service=\"g\", scope=\"repository:f:pull\""),
        vec![
            pair("realm", "https://g/token"),
            pair("service", "g"),
            pair("scope", "repository:f:pull"),
        ]
    );
    assert_eq!(
        parse_www_authenticate("realm = x ,nothing,a=b=c"),
        vec![pair("realm", "x"), pair("a", "b=c")]
    );
    assert_eq!(parse_www_authenticate(""), Vec::new());
}

#[test]
fn query_values_are_encoded() {
    assert_eq!(urlencode("repository:f/j-a_v.a~:pull"), "repository%3Af%2Fj-a_v.a~%3Apull");
    assert_eq!(urlencode("é x%"), "%C3%A9%20x%25");
    assert_eq!(urlencode("AZaz09"), "AZaz09");
}

#[test]
fn token_addresses() {
    assert_eq!(
        token_url("Bearer realm=\"https://g/token\",service=\"g h\"", "f/java").ok().unwrap(),
        "https://g/token?scope=repository%3Af%2Fjava%3Apull&service=g%20h"
    );
    assert_eq!(
        token_url("Bearer realm=\"https://g/token\",scope=\"s\"", "f/java").ok().unwrap(),
        "https://g/token?scope=s"
    );
    let e = token_url("Bearer service=\"g\"", "f/java").err().unwrap();
    assert_eq!(
        e.message(),
        "auth challenge missing realm: \"Bearer service=\\\"g\\\"\""
    );
}

#[test]
fn tokens_are_read() {
    assert_eq!(
        token_from_response(200, b"{\"token\": \"t\", \"access_token\": \"a\"}").ok().unwrap(),
        "t"
    );
    assert_eq!(
        token_from_response(299, b"{\"access_token\": \"a\"}").ok().unwrap(),
        "a"
    );
    assert_eq!(
        token_from_response(403, b"{\"token\": \"t\"}").err().unwrap().message(),
        "token request failed with HTTP 403"
    );
    assert_eq!(
        token_from_response(200, b"{\"token\": 1, \"access_token\": \"a\"}").err().unwrap().message(),
        "token response contained no token"
    );
    assert!(token_from_response(200, b"no json")
        .err()
        .unwrap()
        .message()
        .starts_with("parsing token response: expected"));
    let json = parse_json(b"{\"access_token\": \"x\"}").ok().unwrap();
    assert_eq!(token_in(&json), Some("x".to_string()));
    assert_eq!(token_in(&parse_json(b"[]").ok().unwrap()), None);
}

#[test]
fn an_open_registry_is_asked_once() {
    for status in [200, 404, 500] {
        let step = http_get_authed(AuthStage::Plain, "u", &None, "f", &answer(status, None, ""));
        assert!(matches!(step, AuthStep::Finished));
    }
}

#[test]
fn a_refusal_leads_to_a_token() {
    let accept = Some("m".to_string());
    let refusal = answer(401, Some("Bearer realm=\"https://g/t\""), "");
    match http_get_authed(AuthStage::Plain, "https://g/v2", &accept, "f", &refusal) {
        AuthStep::Request(AuthStage::Token, r) => {
            assert_eq!(r.url, "https://g/t?scope=repository%3Af%3Apull");
            assert_eq!(r.accept, Some("application/json".to_string()));
            assert_eq!(r.bearer, None);
        }
        _ => panic!("a token request was expected"),
    }
    let token = answer(200, None, "{\"token\": \"secret\"}");
    match http_get_authed(AuthStage::Token, "https://g/v2", &accept, "f", &token) {
        AuthStep::Request(AuthStage::Authorized, r) => {
            assert_eq!(r.url, "https://g/v2");
            assert_eq!(r.accept, accept);
            assert_eq!(r.bearer, Some("secret".to_string()));
            assert_eq!(
                r.headers(),
                vec![pair("Accept", "m"), pair("Authorization", "Bearer secret")]
            );
        }
        _ => panic!("the request with the token was expected"),
    }
    // The second answer is final, even another refusal.
    let step = http_get_authed(AuthStage::Authorized, "u", &accept, "f", &refusal);
    assert!(matches!(step, AuthStep::Finished));
    match http_get_authed(AuthStage::Plain, "u", &accept, "f", &answer(401, None, "")) {
        AuthStep::Failed(e) => assert_eq!(
            e.message(),
            "registry returned 401 without a WWW-Authenticate header"
        ),
        _ => panic!("an error was expected"),
    }
}

#[test]
fn addresses() {
    assert_eq!(
        manifest_url("ghcr.io", "f/java", "1"),
        "https://ghcr.io/v2/f/java/manifests/1"
    );
    assert_eq!(
        blob_url("ghcr.io", "f/java", "sha256:ab"),
        "https://ghcr.io/v2/f/java/blobs/sha256:ab"
    );
}

#[test]
fn the_layer_of_the_feature_is_chosen() {
    let two = b"{\"layers\": [{\"mediaType\": \"x\", \"digest\": \"d1\"}, \
        {\"mediaType\": \"application/vnd.devcontainers.layer.v1+tar\", \"digest\": \"d2\"}]}";
    assert_eq!(
        find_layer_digest(&parse_json(two).ok().unwrap()),
        Some("d2".to_string())
    );
    let other = b"{\"layers\": [{\"digest\": \"d1\"}, {\"digest\": \"d2\"}]}";
    assert_eq!(
        find_layer_digest(&parse_json(other).ok().unwrap()),
        Some("d1".to_string())
    );
    for none in ["{}", "{\"layers\": []}", "{\"layers\": [{}]}", "{\"layers\": 1}", "[]"] {
        assert_eq!(find_layer_digest(&parse_json(none.as_bytes()).ok().unwrap()), None);
    }
}

#[test]
fn manifests_are_read() {
    let body = b"{\"layers\": [{\"digest\": \"d1\"}]}";
    assert_eq!(manifest_digest("u", "f", "1", 200, body).ok().unwrap(), "d1");
    assert_eq!(
        manifest_digest("u", "f", "1", 404, body).err().unwrap().message(),
        "fetching manifest u failed with HTTP 404"
    );
    assert_eq!(
        manifest_digest("u", "f", "1", 200, b"{}").err().unwrap().message(),
        "no tar layer found in manifest for f:1"
    );
    assert!(manifest_digest("u", "f", "1", 200, b"{")
        .err()
        .unwrap()
        .message()
        .starts_with("parsing OCI manifest: EOF"));
}

#[test]
fn cache_directories() {
    assert_eq!(
        feature_cache_dir(&dirs(), "sha256:ab"),
        "/xdg/devc/features/sha256_ab"
    );
    let home = CacheDirs { xdg_cache_home: None, ..dirs() };
    assert_eq!(
        feature_cache_dir(&home, "sha256:ab"),
        "/home/u/.cache/devc/features/sha256_ab"
    );
    let profile = CacheDirs {
        xdg_cache_home: None,
        home: None,
        user_profile: Some("/p".to_string()),
        ..dirs()
    };
    assert_eq!(
        feature_cache_dir(&profile, "sha256:ab"),
        "/p/.cache/devc/features/sha256_ab"
    );
    let temp = CacheDirs { xdg_cache_home: None, home: None, ..dirs() };
    assert_eq!(
        feature_cache_dir(&temp, "sha256:ab"),
        "/tmp/devc/features/sha256_ab"
    );
    assert_eq!(build_context_dir("/tmp", "k-1"), "/tmp/devc-features-k-1");
}

fn request(step: FetchStep) -> (FetchStage, HttpRequest) {
    match step {
        FetchStep::Request(stage, r) => (stage, r),
        _ => panic!("a request was expected"),
    }
}

#[test]
fn a_feature_is_fetched() {
    let s = source();
    let (stage, r) = request(s.fetch_feature());
    assert_eq!(r.url, "https://ghcr.io/v2/f/java/manifests/1");
    assert_eq!(
        r.accept,
        Some("application/vnd.oci.image.manifest.v1+json".to_string())
    );
    let refusal = answer(401, Some("Bearer realm=\"https://g/t\""), "");
    let (stage, r) = request(s.after_response(stage, &refusal));
    assert_eq!(r.url, "https://g/t?scope=repository%3Af%2Fjava%3Apull");
    let (stage, r) = request(s.after_response(stage, &answer(200, None, "{\"token\": \"t\"}")));
    assert_eq!(r.url, "https://ghcr.io/v2/f/java/manifests/1");
    assert_eq!(r.bearer, Some("t".to_string()));
    let manifest = answer(200, None, "{\"layers\": [{\"digest\": \"sha256:ab\"}]}");
    let digest = match s.after_response(stage, &manifest) {
        FetchStep::LookUp(digest, file) => {
            assert_eq!(digest, "sha256:ab");
            assert_eq!(file, "/xdg/devc/features/sha256_ab/devcontainer-feature.json");
            digest
        }
        _ => panic!("a look at the cache was expected"),
    };
    assert!(matches!(s.after_lookup(digest.clone(), true),
        FetchStep::Done(dir) if dir == "/xdg/devc/features/sha256_ab"));
    let (stage, r) = request(s.after_lookup(digest, false));
    assert_eq!(r.url, "https://ghcr.io/v2/f/java/blobs/sha256:ab");
    assert_eq!(r.accept, None);
    assert!(r.headers().is_empty());
    let (stage, _) = request(s.after_response(stage, &refusal));
    let (stage, r) = request(s.after_response(stage, &answer(200, None, "{\"token\": \"t\"}")));
    assert_eq!(r.url, "https://ghcr.io/v2/f/java/blobs/sha256:ab");
    assert!(matches!(s.after_response(stage, &answer(200, None, "tar")),
        FetchStep::Extract(dir) if dir == "/xdg/devc/features/sha256_ab"));
}

#[test]
fn a_blob_that_is_missing_fails_the_fetch() {
    let stage = FetchStage::Blob("sha256:ab".to_string(), AuthStage::Plain);
    match source().after_response(stage, &answer(404, None, "")) {
        FetchStep::Failed(e) => {
            assert!(matches!(&e, RegistryError::BlobStatus(_, 404)));
            assert_eq!(e.message(), "downloading blob sha256:ab failed with HTTP 404");
        }
        _ => panic!("an error was expected"),
    }
}

#[test]
fn encoded_values_can_be_decoded() {
    for s in ["", "a b", "ü/€?=&%", "~._-"] {
        let encoded = urlencode(s);
        let bytes = encoded.as_bytes();
        let mut decoded = Vec::new();
        let mut i = 0;
        while i < bytes.len() {
            if bytes[i] == b'%' {
                decoded.push(u8::from_str_radix(&encoded[i + 1..i + 3], 16).unwrap());
                i += 3;
            } else {
                decoded.push(bytes[i]);
                i += 1;
            }
        }
        assert_eq!(decoded, s.as_bytes());
    }
}

#[test]
fn different_digests_have_different_caches() {
    assert_ne!(
        feature_cache_dir(&dirs(), "sha256:ab"),
        feature_cache_dir(&dirs(), "sha256:ac")
    );
}

#[test]
fn the_complaint_about_a_text_is_shown() {
    for body in ["{", "no json", "1 2", "{\"a\": 1e999}"] {
        let complaint = serde_json::from_slice::<serde_json::Value>(body.as_bytes())
            .err()
            .unwrap()
            .to_string();
        assert_eq!(parse_json(body.as_bytes()).err().unwrap(), complaint);
        assert_eq!(
            token_from_response(200, body.as_bytes()).err().unwrap().message(),
            format!("parsing token response: {complaint}")
        );
        assert_eq!(
            manifest_digest("u", "f", "1", 200, body.as_bytes()).err().unwrap().message(),
            format!("parsing OCI manifest: {complaint}")
        );
    }
}
