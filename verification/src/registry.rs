//! Fetching features from OCI registries: the requests that are made, the authorization with an
//! anonymous bearer token, and the reading of the answers.
use crate::features::{
    law_reference_with_tag, name_and_tag, parse_ref, registry_and_repository,
};
use crate::json::{item_models, json_parse, parse_json, Json, JsonView};
use crate::lists::{copy_opt, find_value, first_value, opt_text, text_pairs, texts};
use crate::paths::{is_absolute, joined_path, resolve_relative};
use crate::text::{
    concat, concat3, decimal, decimal_text, has_prefix, has_suffix, hex_char, hex_digit,
    is_alphanumeric, is_whitespace, joined, law_first_piece, law_one_piece, law_pieces_add,
    law_pieces_of_joined, law_prefix_and_suffix, law_split_once, law_trimmed, pieces, replace,
    replaced, same, spec_split_once, split, split_once, strip_prefix, trim, trimmed, CharClass,
};
use crate::utf8::lemma_encode_injective;
use vstd::prelude::*;
use vstd::utf8::encode_utf8;

verus! {

/// Why a feature cannot be fetched.
pub enum RegistryError {
    /// The registry asks for authorization without saying how.
    NoChallenge,
    /// The challenge names no realm.
    NoRealm(String),
    /// The token request was answered with this status.
    TokenStatus(u16),
    /// The answer to the token request is no JSON text.
    TokenText(String),
    /// The answer to the token request holds no token.
    NoToken,
    /// The request for the manifest at this address was answered with this status.
    ManifestStatus(String, u16),
    /// The manifest is no JSON text.
    ManifestText(String),
    /// The manifest of this repository and tag names no layer.
    NoLayer(String, String),
    /// The request for the blob of this digest was answered with this status.
    BlobStatus(String, u16),
}

/// What `{:?}` makes of a string: its text in double quotes, with escapes.
pub uninterp spec fn debug_text(s: Seq<char>) -> Seq<char>;

/// Formats a string with `{:?}`, that is with `Debug` for `str`; the result is the text that
/// `debug_text` names for it.
#[verifier::external_body]
fn quoted(s: &str) -> (r: String)
    ensures
        r@ == debug_text(s@),
{
    format!("{s:?}")
}

impl RegistryError {
    /// The text of the error.
    pub open spec fn text(self) -> Seq<char> {
        match self {
            RegistryError::NoChallenge =>
                "registry returned 401 without a WWW-Authenticate header"@,
            RegistryError::NoRealm(challenge) => "auth challenge missing realm: "@ + debug_text(
                challenge@,
            ),
            RegistryError::TokenStatus(status) => "token request failed with HTTP "@ + decimal(
                status as nat,
            ),
            RegistryError::TokenText(e) => "parsing token response: "@ + e@,
            RegistryError::NoToken => "token response contained no token"@,
            RegistryError::ManifestStatus(url, status) => "fetching manifest "@ + url@
                + " failed with HTTP "@ + decimal(status as nat),
            RegistryError::ManifestText(e) => "parsing OCI manifest: "@ + e@,
            RegistryError::NoLayer(repository, tag) => "no tar layer found in manifest for "@
                + repository@ + ":"@ + tag@,
            RegistryError::BlobStatus(digest, status) => "downloading blob "@ + digest@
                + " failed with HTTP "@ + decimal(status as nat),
        }
    }

    /// The text of the error.
    pub fn message(&self) -> (r: String)
        ensures
            r@ == self.text(),
    {
        match self {
            RegistryError::NoChallenge =>
                "registry returned 401 without a WWW-Authenticate header".to_owned(),
            RegistryError::NoRealm(challenge) => {
                let shown = quoted(challenge.as_str());
                concat("auth challenge missing realm: ", shown.as_str())
            },
            RegistryError::TokenStatus(status) => {
                let number = decimal_text(*status as u64);
                concat("token request failed with HTTP ", number.as_str())
            },
            RegistryError::TokenText(e) => concat("parsing token response: ", e.as_str()),
            RegistryError::NoToken => "token response contained no token".to_owned(),
            RegistryError::ManifestStatus(url, status) => {
                let number = decimal_text(*status as u64);
                let mut r = concat3("fetching manifest ", url.as_str(), " failed with HTTP ");
                r.append(number.as_str());
                r
            },
            RegistryError::ManifestText(e) => concat("parsing OCI manifest: ", e.as_str()),
            RegistryError::NoLayer(repository, tag) => {
                let mut r = concat3(
                    "no tar layer found in manifest for ",
                    repository.as_str(),
                    ":",
                );
                r.append(tag.as_str());
                r
            },
            RegistryError::BlobStatus(digest, status) => {
                let number = decimal_text(*status as u64);
                let mut r = concat3("downloading blob ", digest.as_str(), " failed with HTTP ");
                r.append(number.as_str());
                r
            },
        }
    }
}

/// Whether an HTTP status tells of success.
pub open spec fn is_success(status: u16) -> bool {
    200 <= status < 300
}

fn success(status: u16) -> (r: bool)
    ensures
        r == is_success(status),
{
    status / 100 == 2
}

// --- challenges ---

/// The `key="value"` pairs among the parts of a challenge, without white space around the keys
/// and the values and without the quotes.
pub open spec fn challenge_pairs(parts: Seq<Seq<char>>) -> Seq<(Seq<char>, Seq<char>)>
    decreases parts.len(),
{
    if parts.len() == 0 {
        seq![]
    } else {
        let before = challenge_pairs(parts.drop_last());
        match spec_split_once(parts.last(), '=') {
            Some((key, value)) => before.push(
                (
                    trimmed(key, CharClass::Whitespace),
                    trimmed(trimmed(value, CharClass::Whitespace), CharClass::Quote),
                ),
            ),
            None => before,
        }
    }
}

/// The parameters of a `WWW-Authenticate` header.
pub open spec fn challenge_params(header: Seq<char>) -> Seq<(Seq<char>, Seq<char>)> {
    let rest = if has_prefix(header, "Bearer "@) {
        header.skip("Bearer "@.len() as int)
    } else {
        header
    };
    challenge_pairs(pieces(rest, ','))
}

/// Strips a leading scheme (`Bearer `) and reads the comma-separated `key="value"` pairs.
pub fn parse_www_authenticate(header: &str) -> (r: Vec<(String, String)>)
    ensures
        text_pairs(r@) == challenge_params(header@),
{
    let rest = match strip_prefix(header, "Bearer ") {
        Some(rest) => rest,
        None => header.to_owned(),
    };
    let parts = split(rest.as_str(), ',');
    let ghost all = texts(parts@);
    let mut r: Vec<(String, String)> = Vec::new();
    let mut i: usize = 0;
    assert(text_pairs(r@) =~= challenge_pairs(all.take(0)));
    while i < parts.len()
        invariant
            i <= parts@.len(),
            all == texts(parts@),
            text_pairs(r@) == challenge_pairs(all.take(i as int)),
        decreases parts@.len() - i,
    {
        let ghost before = r@;
        assert(all.take(i + 1).drop_last() =~= all.take(i as int));
        assert(all[i as int] == parts@[i as int]@);
        if let Some((key, value)) = split_once(parts[i].as_str(), '=') {
            let value = trim(value.as_str(), CharClass::Whitespace);
            let pair = (
                trim(key.as_str(), CharClass::Whitespace),
                trim(value.as_str(), CharClass::Quote),
            );
            r.push(pair);
            assert(text_pairs(r@) =~= text_pairs(before).push((pair.0@, pair.1@)));
        }
        i += 1;
    }
    assert(all.take(i as int) =~= all);
    r
}

/// Whether a byte stands for itself in a query: ASCII letters, digits and `-`, `.`, `_`, `~`.
pub open spec fn is_unreserved(b: u8) -> bool {
    ||| 0x41 <= b <= 0x5a
    ||| 0x61 <= b <= 0x7a
    ||| 0x30 <= b <= 0x39
    ||| b == 0x2d
    ||| b == 0x2e
    ||| b == 0x5f
    ||| b == 0x7e
}

/// A byte in a query: itself, or `%` and its two hexadecimal digits.
pub open spec fn encoded_byte(b: u8) -> Seq<char> {
    if is_unreserved(b) {
        seq![b as char]
    } else {
        seq!['%', hex_char((b / 16) as int, true), hex_char((b % 16) as int, true)]
    }
}

/// Bytes in a query.
pub open spec fn percent_encoded(bytes: Seq<u8>) -> Seq<char>
    decreases bytes.len(),
{
    if bytes.len() == 0 {
        seq![]
    } else {
        percent_encoded(bytes.drop_last()) + encoded_byte(bytes.last())
    }
}

/// Percent-encoding of the UTF-8 bytes of a text for query values.
pub fn urlencode(s: &str) -> (r: String)
    ensures
        r@ == percent_encoded(encode_utf8(s@)),
{
    let bytes = s.as_bytes();
    let mut r = String::new();
    let mut i: usize = 0;
    while i < bytes.len()
        invariant
            i <= bytes@.len(),
            r@ == percent_encoded(bytes@.take(i as int)),
        decreases bytes@.len() - i,
    {
        let b = bytes[i];
        let ghost before = r@;
        assert(bytes@.take(i + 1).drop_last() =~= bytes@.take(i as int));
        if (0x41 <= b && b <= 0x5a) || (0x61 <= b && b <= 0x7a) || (0x30 <= b && b <= 0x39) || b
            == 0x2d || b == 0x2e || b == 0x5f || b == 0x7e {
            r.push(b as char);
        } else {
            r.push('%');
            r.push(hex_digit(b / 16, true));
            r.push(hex_digit(b % 16, true));
        }
        assert(r@ =~= before + encoded_byte(b));
        i += 1;
    }
    assert(bytes@.take(i as int) =~= bytes@);
    r
}

/// The scope that is asked for where the challenge names none.
pub open spec fn pull_scope(repository: Seq<char>) -> Seq<char> {
    "repository:"@ + repository + ":pull"@
}

/// The address of a token request for a challenge: its realm, with its scope, or that of reading
/// the repository, and its service, if any. There is none without a realm.
pub open spec fn token_address(
    params: Seq<(Seq<char>, Seq<char>)>,
    repository: Seq<char>,
) -> Option<Seq<char>> {
    match first_value(params, "realm"@) {
        Some(realm) => {
            let scope = match first_value(params, "scope"@) {
                Some(scope) => scope,
                None => pull_scope(repository),
            };
            let base = realm + "?scope="@ + percent_encoded(encode_utf8(scope));
            Some(
                match first_value(params, "service"@) {
                    Some(service) => base + "&service="@ + percent_encoded(encode_utf8(service)),
                    None => base,
                },
            )
        },
        None => None,
    }
}

/// The address to request a token from, for a `Bearer realm="...",service="...",scope="..."`
/// challenge.
pub fn token_url(challenge: &str, repository: &str) -> (r: Result<String, RegistryError>)
    ensures
        match r {
            Ok(url) => token_address(challenge_params(challenge@), repository@) == Some(url@),
            Err(e) => token_address(challenge_params(challenge@), repository@) is None && (
            e matches RegistryError::NoRealm(c) && c@ == challenge@),
        },
{
    let params = parse_www_authenticate(challenge);
    match find_value(&params, "realm") {
        Some(realm) => {
            let scope = match find_value(&params, "scope") {
                Some(scope) => scope,
                None => concat3("repository:", repository, ":pull"),
            };
            let encoded = urlencode(scope.as_str());
            let mut url = concat3(realm.as_str(), "?scope=", encoded.as_str());
            if let Some(service) = find_value(&params, "service") {
                let encoded = urlencode(service.as_str());
                url.append("&service=");
                url.append(encoded.as_str());
            }
            Ok(url)
        },
        None => Err(RegistryError::NoRealm(challenge.to_owned())),
    }
}

// --- tokens ---

/// The token in the answer to a token request: the member `token`, else `access_token`, if it is
/// a string.
pub open spec fn token_of(answer: JsonView) -> Option<Seq<char>> {
    match answer.member("token"@) {
        Some(v) => v.text(),
        None => match answer.member("access_token"@) {
            Some(v) => v.text(),
            None => None,
        },
    }
}

/// The token in the answer to a token request.
pub fn token_in(answer: &Json) -> (r: Option<String>)
    ensures
        opt_text(r) == token_of(answer.model()),
{
    let value = match answer.member("token") {
        Some(v) => v,
        None => match answer.member("access_token") {
            Some(v) => v,
            None => {
                return None;
            },
        },
    };
    match value.text() {
        Some(s) => Some(s.clone()),
        None => None,
    }
}

/// Whether this is what a token request that was answered with this status and body comes to.
pub open spec fn is_token_result(
    r: Result<String, RegistryError>,
    status: u16,
    body: Seq<u8>,
) -> bool {
    if !is_success(status) {
        r == Err::<String, RegistryError>(RegistryError::TokenStatus(status))
    } else {
        match json_parse(body) {
            Err(complaint) => r matches Err(RegistryError::TokenText(e)) && e@ == complaint,
            Ok(answer) => match token_of(answer) {
                Some(token) => r matches Ok(t) && t@ == token,
                None => r matches Err(RegistryError::NoToken),
            },
        }
    }
}

/// The token from the answer to a token request.
pub fn token_from_response(status: u16, body: &[u8]) -> (r: Result<String, RegistryError>)
    ensures
        is_token_result(r, status, body@),
{
    if !success(status) {
        return Err(RegistryError::TokenStatus(status));
    }
    match parse_json(body) {
        Ok(answer) => match token_in(&answer) {
            Some(token) => Ok(token),
            None => Err(RegistryError::NoToken),
        },
        Err(e) => Err(RegistryError::TokenText(e)),
    }
}

// --- authorized requests ---

/// A GET request.
pub struct HttpRequest {
    pub url: String,
    pub accept: Option<String>,
    /// The bearer token to send.
    pub bearer: Option<String>,
}

impl HttpRequest {
    /// Whether this is the request for `url` with the given header and token.
    pub open spec fn asks(
        self,
        url: Seq<char>,
        accept: Option<Seq<char>>,
        bearer: Option<Seq<char>>,
    ) -> bool {
        self.url@ == url && opt_text(self.accept) == accept && opt_text(self.bearer) == bearer
    }

    /// The headers of the request.
    pub open spec fn header_lines(self) -> Seq<(Seq<char>, Seq<char>)> {
        let accept = match self.accept {
            Some(a) => seq![("Accept"@, a@)],
            None => seq![],
        };
        accept + match self.bearer {
            Some(token) => seq![("Authorization"@, "Bearer "@ + token@)],
            None => seq![],
        }
    }

    /// The headers of the request: what is accepted, and the token.
    pub fn headers(&self) -> (r: Vec<(String, String)>)
        ensures
            text_pairs(r@) == self.header_lines(),
    {
        let mut r: Vec<(String, String)> = Vec::new();
        if let Some(accept) = &self.accept {
            r.push(("Accept".to_owned(), accept.clone()));
        }
        if let Some(token) = &self.bearer {
            r.push(("Authorization".to_owned(), concat("Bearer ", token.as_str())));
        }
        assert(text_pairs(r@) =~= self.header_lines());
        r
    }
}

/// An answer to a request.
pub struct HttpResponse {
    pub status: u16,
    pub www_authenticate: Option<String>,
    pub body: Vec<u8>,
}

/// Which of the requests of an authorized GET is being answered.
#[derive(Clone, Copy, PartialEq, Eq, Structural)]
pub enum AuthStage {
    /// The request itself, without a token.
    Plain,
    /// The request for a token.
    Token,
    /// The request itself, with the token.
    Authorized,
}

/// How an authorized GET goes on.
pub enum AuthStep {
    /// The response is the answer.
    Finished,
    /// The next request has to be made.
    Request(AuthStage, HttpRequest),
    /// It fails.
    Failed(RegistryError),
}

/// Whether `step` is how a GET of `url` goes on once the request of the stage was answered: a plain
/// request that is refused with status 401 is followed by one for a token, and that by the request
/// with the token. Any other answer is the answer.
pub open spec fn is_auth_step(
    step: AuthStep,
    stage: AuthStage,
    url: Seq<char>,
    accept: Option<Seq<char>>,
    repository: Seq<char>,
    response: HttpResponse,
) -> bool {
    match stage {
        AuthStage::Plain => if response.status != 401 {
            step is Finished
        } else {
            match response.www_authenticate {
                None => step matches AuthStep::Failed(RegistryError::NoChallenge),
                Some(challenge) => match token_address(challenge_params(challenge@), repository) {
                    Some(address) => step matches AuthStep::Request(AuthStage::Token, request)
                        && request.asks(address, Some("application/json"@), None),
                    None => step matches AuthStep::Failed(RegistryError::NoRealm(c)) && c@
                        == challenge@,
                },
            }
        },
        AuthStage::Token => match step {
            AuthStep::Finished => false,
            AuthStep::Request(next, request) => {
                &&& next == AuthStage::Authorized
                &&& request.url@ == url
                &&& opt_text(request.accept) == accept
                &&& request.bearer matches Some(token) && is_token_result(
                    Ok(token),
                    response.status,
                    response.body@,
                )
            },
            AuthStep::Failed(e) => is_token_result(Err(e), response.status, response.body@),
        },
        AuthStage::Authorized => step is Finished,
    }
}

/// Goes on with a GET of `url` once one of its requests was answered. A plain request that is
/// refused with status 401 is made again with a token, which the address in the challenge gives
/// anonymously.
pub fn http_get_authed(
    stage: AuthStage,
    url: &str,
    accept: &Option<String>,
    repository: &str,
    response: &HttpResponse,
) -> (r: AuthStep)
    ensures
        is_auth_step(r, stage, url@, opt_text(*accept), repository@, *response),
{
    match stage {
        AuthStage::Plain => {
            if response.status != 401 {
                return AuthStep::Finished;
            }
            match &response.www_authenticate {
                None => AuthStep::Failed(RegistryError::NoChallenge),
                Some(challenge) => match token_url(challenge.as_str(), repository) {
                    Ok(address) => AuthStep::Request(
                        AuthStage::Token,
                        HttpRequest {
                            url: address,
                            accept: Some("application/json".to_owned()),
                            bearer: None,
                        },
                    ),
                    Err(e) => AuthStep::Failed(e),
                },
            }
        },
        AuthStage::Token => match token_from_response(response.status, response.body.as_slice()) {
            Ok(token) => AuthStep::Request(
                AuthStage::Authorized,
                HttpRequest {
                    url: url.to_owned(),
                    accept: copy_opt(accept),
                    bearer: Some(token),
                },
            ),
            Err(e) => AuthStep::Failed(e),
        },
        AuthStage::Authorized => AuthStep::Finished,
    }
}

// --- manifests and layers ---

/// The media type of a manifest.
pub const MANIFEST_MEDIA_TYPE: &'static str = "application/vnd.oci.image.manifest.v1+json";

/// The media type of the layer that holds a feature.
pub const LAYER_MEDIA_TYPE: &'static str = "application/vnd.devcontainers.layer.v1+tar";

/// The address of the manifest of a tag.
pub open spec fn manifest_address(
    registry: Seq<char>,
    repository: Seq<char>,
    tag: Seq<char>,
) -> Seq<char> {
    "https://"@ + registry + "/v2/"@ + repository + "/manifests/"@ + tag
}

/// The address of a blob.
pub open spec fn blob_address(
    registry: Seq<char>,
    repository: Seq<char>,
    digest: Seq<char>,
) -> Seq<char> {
    "https://"@ + registry + "/v2/"@ + repository + "/blobs/"@ + digest
}

/// The address of the manifest of a tag.
pub fn manifest_url(registry: &str, repository: &str, tag: &str) -> (r: String)
    ensures
        r@ == manifest_address(registry@, repository@, tag@),
{
    let mut r = concat3("https://", registry, "/v2/");
    r.append(repository);
    r.append("/manifests/");
    r.append(tag);
    r
}

/// The address of a blob.
pub fn blob_url(registry: &str, repository: &str, digest: &str) -> (r: String)
    ensures
        r@ == blob_address(registry@, repository@, digest@),
{
    let mut r = concat3("https://", registry, "/v2/");
    r.append(repository);
    r.append("/blobs/");
    r.append(digest);
    r
}

/// Whether a layer is the one that holds a feature.
pub open spec fn is_feature_layer(layer: JsonView) -> bool {
    match layer.member("mediaType"@) {
        Some(v) => v.text() == Some(LAYER_MEDIA_TYPE@),
        None => false,
    }
}

/// The place of the first layer that holds a feature, or the number of layers.
pub open spec fn feature_layer(layers: Seq<JsonView>) -> nat
    decreases layers.len(),
{
    if layers.len() == 0 || is_feature_layer(layers[0]) {
        0
    } else {
        1 + feature_layer(layers.drop_first())
    }
}

/// The digest of a layer.
pub open spec fn digest_of(layer: JsonView) -> Option<Seq<char>> {
    match layer.member("digest"@) {
        Some(v) => v.text(),
        None => None,
    }
}

/// The digest of the layer to fetch: of the first one with the media type of features, else of
/// the first one.
pub open spec fn layer_digest(manifest: JsonView) -> Option<Seq<char>> {
    match manifest.member("layers"@) {
        Some(JsonView::Array(layers, _)) => {
            let i = feature_layer(layers);
            if i < layers.len() {
                digest_of(layers[i as int])
            } else if layers.len() > 0 {
                digest_of(layers[0])
            } else {
                None
            }
        },
        _ => None,
    }
}

fn layer_is_feature(layer: &Json) -> (r: bool)
    ensures
        r == is_feature_layer(layer.model()),
{
    match layer.member("mediaType") {
        Some(v) => match v.text() {
            Some(s) => same(s.as_str(), LAYER_MEDIA_TYPE),
            None => false,
        },
        None => false,
    }
}

fn digest_text(layer: &Json) -> (r: Option<String>)
    ensures
        opt_text(r) == digest_of(layer.model()),
{
    match layer.member("digest") {
        Some(v) => match v.text() {
            Some(s) => Some(s.clone()),
            None => None,
        },
        None => None,
    }
}

/// The digest of the layer to fetch.
pub fn find_layer_digest(manifest: &Json) -> (r: Option<String>)
    ensures
        opt_text(r) == layer_digest(manifest.model()),
{
    match manifest.member("layers") {
        Some(Json::Array(layers, _)) => {
            let ghost all = item_models(layers@);
            let mut i: usize = 0;
            assert(all.skip(0) =~= all);
            while i < layers.len()
                invariant
                    i <= layers@.len(),
                    all == item_models(layers@),
                    feature_layer(all) == i + feature_layer(all.skip(i as int)),
                    manifest.model().member("layers"@) matches Some(JsonView::Array(l, _)) && l
                        == all,
                decreases layers@.len() - i,
            {
                assert(all[i as int] == layers@[i as int].model());
                if layer_is_feature(&layers[i]) {
                    return digest_text(&layers[i]);
                }
                assert(all.skip(i as int).drop_first() =~= all.skip(i + 1));
                i += 1;
            }
            if layers.len() > 0 {
                assert(all[0] == layers@[0].model());
                digest_text(&layers[0])
            } else {
                None
            }
        },
        _ => None,
    }
}

/// Whether this is what the answer to the request for the manifest at `url` comes to.
pub open spec fn is_manifest_result(
    r: Result<String, RegistryError>,
    url: Seq<char>,
    repository: Seq<char>,
    tag: Seq<char>,
    status: u16,
    body: Seq<u8>,
) -> bool {
    if !is_success(status) {
        r matches Err(RegistryError::ManifestStatus(u, s)) && u@ == url && s == status
    } else {
        match json_parse(body) {
            Err(complaint) => r matches Err(RegistryError::ManifestText(e)) && e@ == complaint,
            Ok(manifest) => match layer_digest(manifest) {
                Some(digest) => r matches Ok(d) && d@ == digest,
                None => r matches Err(RegistryError::NoLayer(rep, t)) && rep@ == repository && t@
                    == tag,
            },
        }
    }
}

/// The digest of the layer to fetch, from the answer to the request for the manifest at `url`.
pub fn manifest_digest(
    url: &str,
    repository: &str,
    tag: &str,
    status: u16,
    body: &[u8],
) -> (r: Result<String, RegistryError>)
    ensures
        is_manifest_result(r, url@, repository@, tag@, status, body@),
{
    if !success(status) {
        return Err(RegistryError::ManifestStatus(url.to_owned(), status));
    }
    match parse_json(body) {
        Ok(manifest) => match find_layer_digest(&manifest) {
            Some(digest) => Ok(digest),
            None => Err(RegistryError::NoLayer(repository.to_owned(), tag.to_owned())),
        },
        Err(e) => Err(RegistryError::ManifestText(e)),
    }
}

/// Whether this is what the answer to the request for a blob comes to.
pub open spec fn is_blob_result(
    r: Result<(), RegistryError>,
    digest: Seq<char>,
    status: u16,
) -> bool {
    match r {
        Ok(_) => is_success(status),
        Err(e) => !is_success(status) && (e matches RegistryError::BlobStatus(d, s) && d@ == digest
            && s == status),
    }
}

/// Whether the answer to the request for a blob holds it.
pub fn check_blob(digest: &str, status: u16) -> (r: Result<(), RegistryError>)
    ensures
        is_blob_result(r, digest@, status),
{
    if success(status) {
        Ok(())
    } else {
        Err(RegistryError::BlobStatus(digest.to_owned(), status))
    }
}

// --- directories ---

/// What the directory for caches depends on.
pub struct CacheDirs {
    pub xdg_cache_home: Option<String>,
    pub home: Option<String>,
    pub user_profile: Option<String>,
    pub temp_dir: String,
}

impl CacheDirs {
    /// The directory for caches: `$XDG_CACHE_HOME`, else `.cache` in the home directory, else the
    /// directory for temporary files.
    pub open spec fn base(self) -> Seq<char> {
        match (self.xdg_cache_home, self.home, self.user_profile) {
            (Some(dir), _, _) => dir@,
            (None, Some(dir), _) => joined_path(dir@, ".cache"@),
            (None, None, Some(dir)) => joined_path(dir@, ".cache"@),
            (None, None, None) => self.temp_dir@,
        }
    }
}

/// The cache directory for the feature with the given digest.
pub open spec fn cache_dir(dirs: CacheDirs, digest: Seq<char>) -> Seq<char> {
    joined_path(
        joined_path(joined_path(dirs.base(), "devc"@), "features"@),
        replaced(digest, ':', "_"@),
    )
}

/// The cache directory for the feature with the given digest.
pub fn feature_cache_dir(dirs: &CacheDirs, digest: &str) -> (r: String)
    ensures
        r@ == cache_dir(*dirs, digest@),
{
    let base = match (&dirs.xdg_cache_home, &dirs.home, &dirs.user_profile) {
        (Some(dir), _, _) => dir.clone(),
        (None, Some(dir), _) => resolve_relative(dir.as_str(), ".cache"),
        (None, None, Some(dir)) => resolve_relative(dir.as_str(), ".cache"),
        (None, None, None) => dirs.temp_dir.clone(),
    };
    let devc = resolve_relative(base.as_str(), "devc");
    let features = resolve_relative(devc.as_str(), "features");
    let name = replace(digest, ':', "_");
    resolve_relative(features.as_str(), name.as_str())
}

/// The file that tells that the feature with the given digest is cached: its metadata.
pub open spec fn metadata_file(dirs: CacheDirs, digest: Seq<char>) -> Seq<char> {
    joined_path(cache_dir(dirs, digest), "devcontainer-feature.json"@)
}

/// The build-context directory for a workspace's features image.
pub fn build_context_dir(temp_dir: &str, cache_key: &str) -> (r: String)
    ensures
        r@ == joined_path(temp_dir@, "devc-features-"@ + cache_key@),
{
    let name = concat("devc-features-", cache_key);
    resolve_relative(temp_dir, name.as_str())
}

// --- fetching a feature ---

/// A feature in a registry, and where it is cached.
pub struct FeatureSource {
    pub registry: String,
    pub repository: String,
    pub tag: String,
    pub dirs: CacheDirs,
}

impl FeatureSource {
    /// The address of the manifest.
    pub open spec fn manifest(self) -> Seq<char> {
        manifest_address(self.registry@, self.repository@, self.tag@)
    }

    /// The address of the blob of a digest.
    pub open spec fn blob(self, digest: Seq<char>) -> Seq<char> {
        blob_address(self.registry@, self.repository@, digest)
    }

    /// Whether this is the feature of this reference.
    pub open spec fn is_named(self, reference: Seq<char>) -> bool {
        let (name, tag) = name_and_tag(reference);
        let (registry, repository) = registry_and_repository(name);
        &&& self.registry@ == registry
        &&& self.repository@ == repository
        &&& self.tag@ == tag
    }

    /// Whether the fetch begins with this step: with the request for the manifest.
    pub open spec fn begins(self, step: FetchStep) -> bool {
        step matches FetchStep::Request(FetchStage::Manifest(AuthStage::Plain), request)
            && request.asks(self.manifest(), Some(MANIFEST_MEDIA_TYPE@), None)
    }

    /// Whether `step` is how the fetch goes on once it was looked whether the feature of this
    /// digest is cached.
    pub open spec fn is_lookup_step(self, step: FetchStep, digest: Seq<char>, cached: bool) -> bool {
        if cached {
            step matches FetchStep::Done(dir) && dir@ == cache_dir(self.dirs, digest)
        } else {
            step matches FetchStep::Request(FetchStage::Blob(d, AuthStage::Plain), request) && d@
                == digest && request.asks(self.blob(digest), None, None)
        }
    }
}

/// Which request of a fetch is being answered.
pub enum FetchStage {
    /// One of those for the manifest.
    Manifest(AuthStage),
    /// One of those for the blob of this digest.
    Blob(String, AuthStage),
}

/// How a fetch goes on.
pub enum FetchStep {
    /// The request has to be made.
    Request(FetchStage, HttpRequest),
    /// It has to be looked whether the feature of this digest is cached: whether this file exists.
    LookUp(String, String),
    /// The body of the response is an archive, which has to be unpacked into this directory.
    Extract(String),
    /// The feature lies in this directory.
    Done(String),
    /// It fails.
    Failed(RegistryError),
}

/// Whether `step` is how the fetch goes on once the request of the stage was answered.
pub open spec fn is_fetch_step(
    step: FetchStep,
    source: FeatureSource,
    stage: FetchStage,
    response: HttpResponse,
) -> bool {
    match stage {
        FetchStage::Manifest(auth) => {
            let authed = |s: AuthStep|
                is_auth_step(
                    s,
                    auth,
                    source.manifest(),
                    Some(MANIFEST_MEDIA_TYPE@),
                    source.repository@,
                    response,
                );
            let result = |r: Result<String, RegistryError>|
                is_manifest_result(
                    r,
                    source.manifest(),
                    source.repository@,
                    source.tag@,
                    response.status,
                    response.body@,
                );
            match step {
                FetchStep::Request(FetchStage::Manifest(next), request) => authed(
                    AuthStep::Request(next, request),
                ),
                FetchStep::LookUp(digest, file) => authed(AuthStep::Finished) && result(Ok(digest))
                    && file@ == metadata_file(source.dirs, digest@),
                FetchStep::Failed(e) => authed(AuthStep::Failed(e)) || (authed(AuthStep::Finished)
                    && result(Err(e))),
                _ => false,
            }
        },
        FetchStage::Blob(digest, auth) => {
            let authed = |s: AuthStep|
                is_auth_step(s, auth, source.blob(digest@), None, source.repository@, response);
            let result = |r: Result<(), RegistryError>|
                is_blob_result(r, digest@, response.status);
            match step {
                FetchStep::Request(FetchStage::Blob(d, next), request) => d@ == digest@ && authed(
                    AuthStep::Request(next, request),
                ),
                FetchStep::Extract(dir) => authed(AuthStep::Finished) && result(Ok(())) && dir@
                    == cache_dir(source.dirs, digest@),
                FetchStep::Failed(e) => authed(AuthStep::Failed(e)) || (authed(AuthStep::Finished)
                    && result(Err(e))),
                _ => false,
            }
        },
    }
}

impl FeatureSource {
    /// Where the feature of this reference is fetched from.
    pub fn from_reference(reference: &str, dirs: CacheDirs) -> (r: FeatureSource)
        ensures
            r.is_named(reference@),
            r.dirs == dirs,
    {
        let (registry, repository, tag) = parse_ref(reference);
        FeatureSource { registry, repository, tag, dirs }
    }

    /// Begins to fetch the feature: with the request for its manifest.
    pub fn fetch_feature(&self) -> (r: FetchStep)
        ensures
            self.begins(r),
    {
        let url = manifest_url(
            self.registry.as_str(),
            self.repository.as_str(),
            self.tag.as_str(),
        );
        FetchStep::Request(
            FetchStage::Manifest(AuthStage::Plain),
            HttpRequest {
                url,
                accept: Some(MANIFEST_MEDIA_TYPE.to_owned()),
                bearer: None,
            },
        )
    }

    /// Goes on once a request was answered.
    pub fn after_response(&self, stage: FetchStage, response: &HttpResponse) -> (r: FetchStep)
        ensures
            is_fetch_step(r, *self, stage, *response),
    {
        let repository = self.repository.as_str();
        match stage {
            FetchStage::Manifest(auth) => {
                let url = manifest_url(self.registry.as_str(), repository, self.tag.as_str());
                let accept = Some(MANIFEST_MEDIA_TYPE.to_owned());
                match http_get_authed(auth, url.as_str(), &accept, repository, response) {
                    AuthStep::Request(next, request) => FetchStep::Request(
                        FetchStage::Manifest(next),
                        request,
                    ),
                    AuthStep::Failed(e) => FetchStep::Failed(e),
                    AuthStep::Finished => match manifest_digest(
                        url.as_str(),
                        repository,
                        self.tag.as_str(),
                        response.status,
                        response.body.as_slice(),
                    ) {
                        Ok(digest) => {
                            let dir = feature_cache_dir(&self.dirs, digest.as_str());
                            let file = resolve_relative(
                                dir.as_str(),
                                "devcontainer-feature.json",
                            );
                            FetchStep::LookUp(digest, file)
                        },
                        Err(e) => FetchStep::Failed(e),
                    },
                }
            },
            FetchStage::Blob(digest, auth) => {
                let url = blob_url(self.registry.as_str(), repository, digest.as_str());
                match http_get_authed(auth, url.as_str(), &None, repository, response) {
                    AuthStep::Request(next, request) => FetchStep::Request(
                        FetchStage::Blob(digest, next),
                        request,
                    ),
                    AuthStep::Failed(e) => FetchStep::Failed(e),
                    AuthStep::Finished => match check_blob(digest.as_str(), response.status) {
                        Ok(_) => FetchStep::Extract(
                            feature_cache_dir(&self.dirs, digest.as_str()),
                        ),
                        Err(e) => FetchStep::Failed(e),
                    },
                }
            },
        }
    }

    /// Goes on once it was looked whether the feature of this digest is cached: where it is not,
    /// with the request for its blob.
    pub fn after_lookup(&self, digest: String, cached: bool) -> (r: FetchStep)
        ensures
            self.is_lookup_step(r, digest@, cached),
    {
        if cached {
            return FetchStep::Done(feature_cache_dir(&self.dirs, digest.as_str()));
        }
        let url = blob_url(self.registry.as_str(), self.repository.as_str(), digest.as_str());
        FetchStep::Request(
            FetchStage::Blob(digest, AuthStage::Plain),
            HttpRequest { url, accept: None, bearer: None },
        )
    }
}

// --- laws ---

/// The value of a hexadecimal digit in capitals.
pub open spec fn hex_value(c: char) -> int {
    if c <= '9' {
        c as int - 48
    } else {
        c as int - 55
    }
}

/// The bytes that a query value stands for.
pub open spec fn percent_decoded(s: Seq<char>) -> Seq<u8>
    decreases s.len(),
{
    if s.len() == 0 {
        seq![]
    } else if s[0] == '%' && s.len() >= 3 {
        seq![(16 * hex_value(s[1]) + hex_value(s[2])) as u8] + percent_decoded(s.skip(3))
    } else {
        seq![s[0] as u8] + percent_decoded(s.skip(1))
    }
}

proof fn lemma_encoded_add(a: Seq<u8>, b: Seq<u8>)
    ensures
        percent_encoded(a + b) == percent_encoded(a) + percent_encoded(b),
    decreases b.len(),
{
    if b.len() == 0 {
        assert(a + b =~= a);
        assert(percent_encoded(a) + percent_encoded(b) =~= percent_encoded(a));
    } else {
        assert((a + b).drop_last() =~= a + b.drop_last());
        lemma_encoded_add(a, b.drop_last());
        assert(percent_encoded(a + b) =~= percent_encoded(a) + percent_encoded(b));
    }
}

/// An encoded value is decoded to the bytes that it was made from.
pub proof fn law_decodes_back(bytes: Seq<u8>)
    ensures
        percent_decoded(percent_encoded(bytes)) == bytes,
    decreases bytes.len(),
{
    if bytes.len() > 0 {
        let b = bytes[0];
        let rest = bytes.skip(1);
        assert(bytes =~= seq![b] + rest);
        lemma_encoded_add(seq![b], rest);
        law_decodes_back(rest);
        assert(seq![b].drop_last() =~= seq![]);
        assert(percent_encoded(seq![b].drop_last()) =~= seq![]);
        assert(percent_encoded(seq![b]) =~= encoded_byte(b));
        let all = percent_encoded(bytes);
        assert(all =~= encoded_byte(b) + percent_encoded(rest));
        if is_unreserved(b) {
            assert(all.skip(1) =~= percent_encoded(rest));
            assert(all[0] as u8 == b);
        } else {
            assert(all.skip(3) =~= percent_encoded(rest));
            assert(16 * hex_value(all[1]) + hex_value(all[2]) == b);
        }
        assert(percent_decoded(all) =~= bytes);
    }
}

/// Texts that differ stay different where they are encoded.
pub proof fn law_urlencode_injective(a: Seq<char>, b: Seq<char>)
    requires
        percent_encoded(encode_utf8(a)) == percent_encoded(encode_utf8(b)),
    ensures
        a == b,
{
    law_decodes_back(encode_utf8(a));
    law_decodes_back(encode_utf8(b));
    lemma_encode_injective(a, b);
}

/// Whether a character may stand in an encoded value.
pub open spec fn is_query_char(c: char) -> bool {
    is_alphanumeric(c) || c == '-' || c == '.' || c == '_' || c == '~' || c == '%'
}

/// An encoded value holds nothing that has a meaning in a query, but for `%`.
pub proof fn law_encoded_is_plain(bytes: Seq<u8>)
    ensures
        forall|i: int|
            0 <= i < percent_encoded(bytes).len() ==> is_query_char(
                #[trigger] percent_encoded(bytes)[i],
            ),
    decreases bytes.len(),
{
    if bytes.len() > 0 {
        let before = percent_encoded(bytes.drop_last());
        let last = encoded_byte(bytes.last());
        law_encoded_is_plain(bytes.drop_last());
        assert(forall|k: int| 0 <= k < last.len() ==> is_query_char(#[trigger] last[k]));
        assert forall|i: int| 0 <= i < percent_encoded(bytes).len() implies is_query_char(
            #[trigger] percent_encoded(bytes)[i],
        ) by {
            if i < before.len() {
                assert(percent_encoded(bytes)[i] == before[i]);
            } else {
                assert(percent_encoded(bytes)[i] == last[i - before.len()]);
            }
        }
    }
}

/// How many requests were made before the one of a stage.
pub open spec fn requests_before(stage: AuthStage) -> nat {
    match stage {
        AuthStage::Plain => 0,
        AuthStage::Token => 1,
        AuthStage::Authorized => 2,
    }
}

/// An authorized GET makes at most three requests: itself, one for a token, itself again. It asks
/// for a token only where it was refused with status 401, and its second answer is final.
pub proof fn law_auth(
    step: AuthStep,
    stage: AuthStage,
    url: Seq<char>,
    accept: Option<Seq<char>>,
    repository: Seq<char>,
    response: HttpResponse,
)
    requires
        is_auth_step(step, stage, url, accept, repository, response),
    ensures
        step matches AuthStep::Request(next, _) ==> requests_before(next) == requests_before(stage)
            + 1 <= 2,
        stage == AuthStage::Plain && response.status != 401 ==> step is Finished,
        stage == AuthStage::Authorized ==> step is Finished,
{
}

/// How many requests were made before the one of a stage, at most.
pub open spec fn fetch_requests_before(stage: FetchStage) -> nat {
    match stage {
        FetchStage::Manifest(auth) => requests_before(auth),
        FetchStage::Blob(_, auth) => 3 + requests_before(auth),
    }
}

/// A fetch makes at most six requests, and every answer brings it nearer to its end.
pub proof fn law_fetch_ends(
    step: FetchStep,
    source: FeatureSource,
    stage: FetchStage,
    response: HttpResponse,
)
    requires
        is_fetch_step(step, source, stage, response),
    ensures
        step matches FetchStep::Request(next, _) ==> fetch_requests_before(next)
            == fetch_requests_before(stage) + 1 && fetch_requests_before(next) < 6,
        step is LookUp ==> stage is Manifest,
        step is Extract ==> stage is Blob,
        step !is Done,
{
}

proof fn lemma_replaced_char(s: Seq<char>, i: int)
    ensures
        replaced(s, ':', "_"@).len() == s.len(),
        0 <= i < s.len() ==> replaced(s, ':', "_"@)[i] == if s[i] == ':' {
            '_'
        } else {
            s[i]
        },
    decreases s.len(),
{
    reveal_strlit("_");
    if s.len() > 0 {
        lemma_replaced_char(s.drop_last(), i);
    }
}

/// Features with different digests are cached in different directories. Digests hold no `_`, which
/// stands for their colon in the name of the directory.
pub proof fn law_caches_are_apart(dirs: CacheDirs, a: Seq<char>, b: Seq<char>)
    requires
        !a.contains('_'),
        !b.contains('_'),
        !is_absolute(a),
        !is_absolute(b),
        cache_dir(dirs, a) == cache_dir(dirs, b),
    ensures
        a == b,
{
    reveal_strlit("features");
    reveal_strlit("/");
    let base = joined_path(joined_path(dirs.base(), "devc"@), "features"@);
    assert(base.last() == 's');
    let x = replaced(a, ':', "_"@);
    let y = replaced(b, ':', "_"@);
    lemma_replaced_char(a, 0);
    lemma_replaced_char(b, 0);
    assert(x =~= cache_dir(dirs, a).skip(base.len() as int + 1));
    assert(y =~= cache_dir(dirs, b).skip(base.len() as int + 1));
    assert forall|i: int| 0 <= i < a.len() implies a[i] == b[i] by {
        lemma_replaced_char(a, i);
        lemma_replaced_char(b, i);
        assert(a.contains(a[i]));
        assert(b.contains(b[i]));
    }
    assert(a =~= b);
}

/// Whether a part of a query gives this value, percent-encoded, to this name.
pub open spec fn is_query_pair(part: Seq<char>, name: Seq<char>, value: Seq<char>) -> bool {
    match spec_split_once(part, '=') {
        Some((n, v)) => n == name && percent_decoded(v) == encode_utf8(value),
        None => false,
    }
}

/// A token is requested at the realm of the challenge, for its scope, or that of reading the
/// repository where it names none, and from its service, if it names one: whoever decodes the query
/// finds these and nothing else. Without a realm there is nowhere to ask.
pub proof fn law_token_query(params: Seq<(Seq<char>, Seq<char>)>, repository: Seq<char>)
    ensures
        match (first_value(params, "realm"@), token_address(params, repository)) {
            (Some(realm), Some(address)) => {
                let scope = match first_value(params, "scope"@) {
                    Some(scope) => scope,
                    None => "repository:"@ + repository + ":pull"@,
                };
                let query = pieces(address.skip(realm.len() as int + 1), '&');
                &&& has_prefix(address, realm + seq!['?'])
                &&& is_query_pair(query[0], "scope"@, scope)
                &&& match first_value(params, "service"@) {
                    Some(service) => {
                        &&& query.len() == 2
                        &&& is_query_pair(query[1], "service"@, service)
                        &&& has_suffix(
                            address,
                            "&service="@ + percent_encoded(encode_utf8(service)),
                        )
                    },
                    None => query.len() == 1,
                }
            },
            (None, None) => true,
            _ => false,
        },
{
    if let Some(realm) = first_value(params, "realm"@) {
        reveal_strlit("scope");
        reveal_strlit("service");
        reveal_strlit("?scope=");
        reveal_strlit("&service=");
        let scope = match first_value(params, "scope"@) {
            Some(scope) => scope,
            None => "repository:"@ + repository + ":pull"@,
        };
        let address = token_address(params, repository)->0;
        let coded = percent_encoded(encode_utf8(scope));
        let first = "scope"@ + seq!['='] + coded;
        lemma_query_part("scope"@, encode_utf8(scope));
        let front = realm + seq!['?'];
        match first_value(params, "service"@) {
            Some(service) => {
                let coded_service = percent_encoded(encode_utf8(service));
                let second = "service"@ + seq!['='] + coded_service;
                lemma_query_part("service"@, encode_utf8(service));
                let query = first + seq!['&'] + second;
                assert(address =~= front + query);
                assert(address.skip(realm.len() as int + 1) =~= query);
                law_first_piece(first, '&', second);
                law_one_piece(second, '&');
                assert(pieces(query, '&') =~= seq![first, second]);
                law_prefix_and_suffix(query, front);
                law_prefix_and_suffix(realm + "?scope="@ + coded, "&service="@ + coded_service);
                assert(address =~= (realm + "?scope="@ + coded) + ("&service="@ + coded_service));
            },
            None => {
                assert(address =~= front + first);
                assert(address.skip(realm.len() as int + 1) =~= first);
                law_one_piece(first, '&');
                law_prefix_and_suffix(first, front);
            },
        }
    }
}

proof fn lemma_query_part(name: Seq<char>, bytes: Seq<u8>)
    requires
        !name.contains('='),
        !name.contains('&'),
    ensures
        !(name + seq!['='] + percent_encoded(bytes)).contains('&'),
        spec_split_once(name + seq!['='] + percent_encoded(bytes), '=') == Some(
            (name, percent_encoded(bytes)),
        ),
        percent_decoded(percent_encoded(bytes)) == bytes,
{
    let coded = percent_encoded(bytes);
    law_encoded_is_plain(bytes);
    law_decodes_back(bytes);
    law_split_once(name, '=', coded);
    let part = name + seq!['='] + coded;
    assert forall|i: int| 0 <= i < part.len() implies #[trigger] part[i] != '&' by {
        if i < name.len() {
            assert(part[i] == name[i]);
        } else if i > name.len() {
            assert(part[i] == coded[i - name.len() - 1]);
            assert(is_query_char(coded[i - name.len() - 1]));
        }
    }
}

/// Letters, digits and the marks `-`, `.`, `_`, `~` stand for themselves where they are encoded;
/// any other byte takes three characters.
pub proof fn law_encoded_length(b: u8)
    ensures
        percent_encoded(seq![b]).len() == 1 || percent_encoded(seq![b]).len() == 3,
        percent_encoded(seq![b]).len() == 1 <==> (b < 128 && (is_alphanumeric(b as char) || b as char
            == '-' || b as char == '.' || b as char == '_' || b as char == '~')),
        percent_encoded(seq![b]).len() == 1 ==> percent_encoded(seq![b])[0] == b as char,
        percent_encoded(seq![b]).len() == 3 ==> percent_encoded(seq![b])[0] == '%',
{
    assert(seq![b].drop_last() =~= seq![]);
    assert(percent_encoded(seq![b].drop_last()) =~= seq![]);
    assert(percent_encoded(seq![b]) =~= encoded_byte(b));
}

/// A parameter as a challenge writes it: the key, and the value in quotes.
pub open spec fn written_param(gap: Seq<char>, param: (Seq<char>, Seq<char>)) -> Seq<char> {
    gap + param.0 + seq!['='] + (seq!['"'] + param.1 + seq!['"'])
}

/// Whether a parameter can be written in a challenge.
pub open spec fn is_writable(param: (Seq<char>, Seq<char>)) -> bool {
    let (key, value) = param;
    &&& !key.contains('=') && !key.contains(',') && !value.contains(',')
    &&& key.len() > 0 ==> !is_whitespace(key[0]) && !is_whitespace(key.last())
    &&& value.len() > 0 ==> value[0] != '"' && value.last() != '"'
}

/// The parameters that a challenge was written with are read back, with white space before each of
/// them or without.
pub proof fn law_challenge_reads_back(params: Seq<(Seq<char>, Seq<char>)>, gap: Seq<char>)
    requires
        params.len() > 0,
        forall|i: int| 0 <= i < params.len() ==> is_writable(#[trigger] params[i]),
        forall|i: int| 0 <= i < gap.len() ==> is_whitespace(#[trigger] gap[i]),
    ensures
        challenge_params(
            "Bearer "@ + joined(
                params.map_values(|p: (Seq<char>, Seq<char>)| written_param(gap, p)),
                seq![','],
            ),
        ) == params,
{
    let parts = params.map_values(|p: (Seq<char>, Seq<char>)| written_param(gap, p));
    let list = joined(parts, seq![',']);
    law_prefix_and_suffix(list, "Bearer "@);
    assert(("Bearer "@ + list).skip("Bearer "@.len() as int) =~= list);
    assert forall|i: int| 0 <= i < parts.len() implies !(#[trigger] parts[i]).contains(',') by {
        let (key, value) = params[i];
        let part = parts[i];
        assert(is_writable(params[i]));
        assert forall|k: int| 0 <= k < part.len() implies #[trigger] part[k] != ',' by {
            if k < gap.len() {
                assert(part[k] == gap[k]);
            } else if k < gap.len() + key.len() {
                assert(part[k] == key[k - gap.len()]);
            } else if k > gap.len() + key.len() + 1 && k < part.len() - 1 {
                assert(part[k] == value[k - gap.len() - key.len() - 2]);
            }
        }
    }
    law_pieces_of_joined(parts, ',');
    lemma_written_params(params, gap);
}

proof fn lemma_written_params(params: Seq<(Seq<char>, Seq<char>)>, gap: Seq<char>)
    requires
        forall|i: int| 0 <= i < params.len() ==> is_writable(#[trigger] params[i]),
        forall|i: int| 0 <= i < gap.len() ==> is_whitespace(#[trigger] gap[i]),
    ensures
        challenge_pairs(params.map_values(|p: (Seq<char>, Seq<char>)| written_param(gap, p)))
            == params,
    decreases params.len(),
{
    let parts = params.map_values(|p: (Seq<char>, Seq<char>)| written_param(gap, p));
    if params.len() > 0 {
        let before = params.drop_last();
        assert forall|i: int| 0 <= i < before.len() implies is_writable(#[trigger] before[i]) by {
            assert(is_writable(params[i]));
        }
        lemma_written_params(before, gap);
        assert(parts.drop_last() =~= before.map_values(
            |p: (Seq<char>, Seq<char>)| written_param(gap, p),
        ));
        let (key, value) = params.last();
        assert(is_writable(params[params.len() - 1]));
        let word = seq!['"'] + value + seq!['"'];
        assert forall|k: int| 0 <= k < (gap + key).len() implies #[trigger] (gap + key)[k] != '=' by {
            if k < gap.len() {
                assert((gap + key)[k] == gap[k]);
            } else {
                assert((gap + key)[k] == key[k - gap.len()]);
            }
        }
        law_split_once(gap + key, '=', word);
        law_trimmed(gap, key, seq![], CharClass::Whitespace);
        assert(gap + key + seq![] =~= gap + key);
        law_trimmed(seq![], word, seq![], CharClass::Whitespace);
        assert(seq![] + word + seq![] =~= word);
        law_trimmed(seq!['"'], value, seq!['"'], CharClass::Quote);
        assert(before.push((key, value)) =~= params);
    } else {
        assert(challenge_pairs(parts) =~= params);
    }
}

/// The token is the string `token`; only where there is no such member it is `access_token`.
pub proof fn law_token_of(answer: JsonView)
    ensures
        match (answer.member("token"@), answer.member("access_token"@)) {
            (Some(JsonView::Text(token)), _) => token_of(answer) == Some(token),
            (Some(_), _) => token_of(answer) is None,
            (None, Some(JsonView::Text(token))) => token_of(answer) == Some(token),
            (None, _) => token_of(answer) is None,
        },
{
}

/// An answer tells of success where the first of the three digits of its status is a 2.
pub proof fn law_success(status: u16)
    ensures
        is_success(status) <==> status / 100 == 2,
{
}

/// A token request comes to the token in its answer; one that is refused, that is answered with
/// something else than JSON, or whose answer holds no token, fails for that reason.
pub proof fn law_token_response(r: Result<String, RegistryError>, status: u16, body: Seq<u8>)
    requires
        is_token_result(r, status, body),
    ensures
        status / 100 != 2 ==> (r matches Err(RegistryError::TokenStatus(s)) && s == status),
        status / 100 == 2 ==> match (json_parse(body), r) {
            (Ok(answer), Ok(token)) => token_of(answer) == Some(token@),
            (Ok(answer), Err(e)) => token_of(answer) is None && e is NoToken,
            (Err(complaint), Err(RegistryError::TokenText(e))) => e@ == complaint,
            _ => false,
        },
{
}

/// The request for a manifest comes to the digest of a layer of it; one that is refused, that is
/// answered with something else than JSON, or whose answer names no layer, fails for that reason.
pub proof fn law_manifest_response(
    r: Result<String, RegistryError>,
    url: Seq<char>,
    repository: Seq<char>,
    tag: Seq<char>,
    status: u16,
    body: Seq<u8>,
)
    requires
        is_manifest_result(r, url, repository, tag, status, body),
    ensures
        status / 100 != 2 ==> (r matches Err(RegistryError::ManifestStatus(u, s)) && u@ == url && s
            == status),
        status / 100 == 2 ==> match (json_parse(body), r) {
            (Ok(manifest), Ok(digest)) => layer_digest(manifest) == Some(digest@),
            (Ok(manifest), Err(RegistryError::NoLayer(name, t))) => layer_digest(manifest) is None
                && name@ == repository && t@ == tag,
            (Err(complaint), Err(RegistryError::ManifestText(e))) => e@ == complaint,
            _ => false,
        },
{
}

/// A blob is there unless its request is refused.
pub proof fn law_blob_response(r: Result<(), RegistryError>, digest: Seq<char>, status: u16)
    requires
        is_blob_result(r, digest, status),
    ensures
        r is Ok <==> status / 100 == 2,
        r matches Err(e) ==> (e matches RegistryError::BlobStatus(d, s) && d@ == digest && s
            == status),
{
}

/// The layer to fetch is the first one of the media type of features, whatever stands before it.
pub proof fn law_feature_layer(
    before: Seq<JsonView>,
    layer: JsonView,
    after: Seq<JsonView>,
    manifest: JsonView,
    text: Seq<char>,
)
    requires
        manifest.member("layers"@) == Some(JsonView::Array(before + seq![layer] + after, text)),
        forall|i: int|
            0 <= i < before.len() ==> (#[trigger] before[i]).member("mediaType"@) != Some(
                JsonView::Text("application/vnd.devcontainers.layer.v1+tar"@),
            ),
        layer.member("mediaType"@) == Some(
            JsonView::Text("application/vnd.devcontainers.layer.v1+tar"@),
        ),
    ensures
        layer_digest(manifest) == match layer.member("digest"@) {
            Some(JsonView::Text(digest)) => Some(digest),
            _ => None,
        },
{
    let layers = before + seq![layer] + after;
    lemma_feature_layer(before, seq![layer] + after);
    assert(layers =~= before + (seq![layer] + after));
    assert((seq![layer] + after)[0] == layer);
    assert(is_feature_layer(layer));
    assert(layers[before.len() as int] == layer);
}

proof fn lemma_feature_layer(before: Seq<JsonView>, after: Seq<JsonView>)
    requires
        forall|i: int|
            0 <= i < before.len() ==> (#[trigger] before[i]).member("mediaType"@) != Some(
                JsonView::Text("application/vnd.devcontainers.layer.v1+tar"@),
            ),
    ensures
        feature_layer(before + after) == before.len() + feature_layer(after),
    decreases before.len(),
{
    if before.len() > 0 {
        let rest = before.drop_first();
        assert(before[0].member("mediaType"@) != Some(
            JsonView::Text("application/vnd.devcontainers.layer.v1+tar"@),
        ));
        assert((before + after)[0] == before[0]);
        assert(!is_feature_layer(before[0]));
        assert forall|i: int| 0 <= i < rest.len() implies (#[trigger] rest[i]).member("mediaType"@)
            != Some(JsonView::Text("application/vnd.devcontainers.layer.v1+tar"@)) by {
            assert(rest[i] == before[i + 1]);
        }
        lemma_feature_layer(rest, after);
        assert((before + after).drop_first() =~= rest + after);
    } else {
        assert(before + after =~= after);
    }
}

/// Where no layer is of the media type of features, the first one is fetched; a manifest without
/// layers gives none.
pub proof fn law_first_layer(layers: Seq<JsonView>, manifest: JsonView, text: Seq<char>)
    requires
        forall|i: int|
            0 <= i < layers.len() ==> (#[trigger] layers[i]).member("mediaType"@) != Some(
                JsonView::Text("application/vnd.devcontainers.layer.v1+tar"@),
            ),
    ensures
        manifest.member("layers"@) == Some(JsonView::Array(layers, text)) && layers.len() > 0
            ==> layer_digest(manifest) == match layers[0].member("digest"@) {
            Some(JsonView::Text(digest)) => Some(digest),
            _ => None,
        },
        manifest.member("layers"@) == Some(JsonView::Array(layers, text)) && layers.len() == 0
            ==> layer_digest(manifest) is None,
        !(manifest.member("layers"@) matches Some(JsonView::Array(..))) ==> layer_digest(
            manifest,
        ) is None,
{
    lemma_feature_layer(layers, seq![]);
    assert(layers + seq![] =~= layers);
}

/// The requests of an authorized GET: the token is asked for as JSON and without a token, at the
/// realm of the challenge; the request is then made again as it was, with the token.
pub proof fn law_auth_requests(
    step: AuthStep,
    stage: AuthStage,
    url: Seq<char>,
    accept: Option<Seq<char>>,
    repository: Seq<char>,
    response: HttpResponse,
)
    requires
        is_auth_step(step, stage, url, accept, repository, response),
    ensures
        stage == AuthStage::Plain && response.status == 401 ==> match response.www_authenticate {
            None => (step matches AuthStep::Failed(e) && e is NoChallenge),
            Some(challenge) => match first_value(challenge_params(challenge@), "realm"@) {
                Some(realm) => match step {
                    AuthStep::Request(next, request) => {
                        &&& next == AuthStage::Token
                        &&& has_prefix(request.url@, realm + seq!['?'])
                        &&& token_address(challenge_params(challenge@), repository) == Some(
                            request.url@,
                        )
                        &&& opt_text(request.accept) == Some("application/json"@)
                        &&& request.bearer is None
                    },
                    _ => false,
                },
                None => match step {
                    AuthStep::Failed(RegistryError::NoRealm(c)) => c@ == challenge@,
                    _ => false,
                },
            },
        },
        stage == AuthStage::Token && response.status / 100 == 2 ==> match json_parse(response.body@) {
            Ok(answer) => match (token_of(answer), step) {
                (Some(token), AuthStep::Request(next, request)) => {
                    &&& next == AuthStage::Authorized
                    &&& request.url@ == url
                    &&& opt_text(request.accept) == accept
                    &&& opt_text(request.bearer) == Some(token)
                },
                (None, AuthStep::Failed(e)) => e is NoToken,
                _ => false,
            },
            Err(complaint) => match step {
                AuthStep::Failed(RegistryError::TokenText(e)) => e@ == complaint,
                _ => false,
            },
        },
        stage == AuthStage::Token && response.status / 100 != 2 ==> match step {
            AuthStep::Failed(RegistryError::TokenStatus(s)) => s == response.status,
            _ => false,
        },
{
    if let Some(challenge) = response.www_authenticate {
        law_token_query(challenge_params(challenge@), repository);
    }
}

/// A fetch stays with its feature: every request but those for tokens is for its manifest, with the
/// media type of manifests, or for the blob of the digest, and where a request is answered as hoped
/// the fetch goes on.
pub proof fn law_fetch_requests(
    step: FetchStep,
    source: FeatureSource,
    stage: FetchStage,
    response: HttpResponse,
)
    requires
        is_fetch_step(step, source, stage, response),
    ensures
        match (stage, step) {
            (
                FetchStage::Manifest(_),
                FetchStep::Request(FetchStage::Manifest(AuthStage::Authorized), request),
            ) => request.url@ == manifest_address(
                source.registry@,
                source.repository@,
                source.tag@,
            ) && opt_text(request.accept) == Some("application/vnd.oci.image.manifest.v1+json"@)
                && request.bearer is Some,
            (
                FetchStage::Blob(digest, _),
                FetchStep::Request(FetchStage::Blob(same_digest, AuthStage::Authorized), request),
            ) => request.url@ == blob_address(source.registry@, source.repository@, digest@)
                && same_digest@ == digest@ && request.accept is None && request.bearer is Some,
            (FetchStage::Manifest(_), FetchStep::Request(FetchStage::Blob(..), _)) => false,
            (FetchStage::Blob(..), FetchStep::Request(FetchStage::Manifest(_), _)) => false,
            (FetchStage::Manifest(_), FetchStep::LookUp(digest, file)) => response.status / 100 == 2
                && match json_parse(response.body@) {
                Ok(manifest) => layer_digest(manifest) == Some(digest@) && file@ == metadata_file(
                    source.dirs,
                    digest@,
                ),
                Err(_) => false,
            },
            (FetchStage::Blob(digest, _), FetchStep::Extract(dir)) => response.status / 100 == 2
                && dir@ == cache_dir(source.dirs, digest@),
            _ => true,
        },
        response.status / 100 == 2 ==> match stage {
            FetchStage::Manifest(AuthStage::Token) => true,
            FetchStage::Manifest(_) => (json_parse(response.body@) is Ok && layer_digest(
                json_parse(response.body@)->Ok_0,
            ) is Some) == (step is LookUp),
            FetchStage::Blob(_, AuthStage::Token) => true,
            FetchStage::Blob(..) => step is Extract,
        },
{
}

/// The file that is looked for lies in the directory that the feature is unpacked into.
pub proof fn law_cached_where_unpacked(dirs: CacheDirs, digest: Seq<char>)
    requires
        digest.len() > 0,
        digest.last() != '/',
    ensures
        metadata_file(dirs, digest) == cache_dir(dirs, digest) + "/devcontainer-feature.json"@,
{
    reveal_strlit("/devcontainer-feature.json");
    reveal_strlit("devcontainer-feature.json");
    reveal_strlit("/");
    let name = replaced(digest, ':', "_"@);
    lemma_replaced_char(digest, digest.len() - 1);
    assert(name.last() != '/');
    assert(cache_dir(dirs, digest).last() == name.last());
    assert(metadata_file(dirs, digest) =~= cache_dir(dirs, digest)
        + "/devcontainer-feature.json"@);
}

/// Features are cached below `$XDG_CACHE_HOME`, else below `.cache` in the home directory, which
/// `$HOME` names or else `$USERPROFILE`, else in the directory for temporary files.
pub proof fn law_cache_base(dirs: CacheDirs)
    ensures
        dirs.xdg_cache_home matches Some(dir) ==> dirs.base() == dir@,
        dirs.xdg_cache_home is None ==> (dirs.home matches Some(dir) ==> dirs.base() == joined_path(
            dir@,
            ".cache"@,
        )),
        dirs.xdg_cache_home is None && dirs.home is None ==> (
        dirs.user_profile matches Some(dir) ==> dirs.base() == joined_path(dir@, ".cache"@)),
        dirs.xdg_cache_home is None && dirs.home is None && dirs.user_profile is None ==> dirs.base()
            == dirs.temp_dir@,
{
}

/// The cache directory of a feature is named by its digest, with `_` for the colon, in
/// `devc/features` below the directory for caches.
pub proof fn law_cache_dir(dirs: CacheDirs, digest: Seq<char>) -> (name: Seq<char>)
    requires
        dirs.base().len() > 0,
        dirs.base().last() != '/',
        !is_absolute(digest),
    ensures
        cache_dir(dirs, digest) == dirs.base() + "/devc/features/"@ + name,
        name.len() == digest.len(),
        forall|i: int|
            0 <= i < digest.len() ==> #[trigger] name[i] == if digest[i] == ':' {
                '_'
            } else {
                digest[i]
            },
{
    reveal_strlit("devc");
    reveal_strlit("features");
    reveal_strlit("/");
    reveal_strlit("/devc/features/");
    let name = replaced(digest, ':', "_"@);
    lemma_replaced_char(digest, 0);
    assert forall|i: int| 0 <= i < digest.len() implies #[trigger] name[i] == if digest[i] == ':' {
        '_'
    } else {
        digest[i]
    } by {
        lemma_replaced_char(digest, i);
    }
    let devc = joined_path(dirs.base(), "devc"@);
    assert(devc =~= dirs.base() + "/"@ + "devc"@);
    assert(devc.last() == 'c');
    let features = joined_path(devc, "features"@);
    assert(features =~= devc + "/"@ + "features"@);
    assert(features.last() == 's');
    assert(cache_dir(dirs, digest) =~= dirs.base() + "/devc/features/"@ + name);
    name
}

/// The path of an address names the repository, then the kind of what is asked for, then the tag or
/// the digest.
pub proof fn law_addresses(
    registry: Seq<char>,
    repository: Seq<char>,
    tag: Seq<char>,
    digest: Seq<char>,
)
    requires
        !registry.contains('/'),
        !tag.contains('/'),
        !digest.contains('/'),
    ensures
        pieces(manifest_address(registry, repository, tag), '/') == seq![
            "https:"@,
            seq![],
            registry,
            "v2"@,
        ] + pieces(repository, '/') + seq!["manifests"@, tag],
        pieces(blob_address(registry, repository, digest), '/') == seq![
            "https:"@,
            seq![],
            registry,
            "v2"@,
        ] + pieces(repository, '/') + seq!["blobs"@, digest],
{
    reveal_strlit("/manifests/");
    reveal_strlit("manifests");
    reveal_strlit("/blobs/");
    reveal_strlit("blobs");
    let manifest = "https://"@ + registry + "/v2/"@ + repository + "/manifests/"@ + tag;
    let blob = "https://"@ + registry + "/v2/"@ + repository + "/blobs/"@ + digest;
    lemma_address(registry, repository, "manifests"@, tag);
    lemma_address(registry, repository, "blobs"@, digest);
    let front = "https://"@ + registry + "/v2/"@ + repository;
    assert(manifest =~= front + (seq!['/'] + "manifests"@ + seq!['/'] + tag));
    assert(blob =~= front + (seq!['/'] + "blobs"@ + seq!['/'] + digest));
}

proof fn lemma_address(
    registry: Seq<char>,
    repository: Seq<char>,
    kind: Seq<char>,
    name: Seq<char>,
)
    requires
        !registry.contains('/'),
        !kind.contains('/'),
        !name.contains('/'),
    ensures
        pieces(
            "https://"@ + registry + "/v2/"@ + repository + (seq!['/'] + kind + seq!['/'] + name),
            '/',
        ) == seq!["https:"@, seq![], registry, "v2"@] + pieces(repository, '/') + seq![kind, name],
{
    reveal_strlit("https://");
    reveal_strlit("https:");
    reveal_strlit("/v2/");
    reveal_strlit("v2");
    let none: Seq<char> = seq![];
    let end = kind + seq!['/'] + name;
    law_first_piece(kind, '/', name);
    law_one_piece(name, '/');
    let path = repository + seq!['/'] + end;
    law_pieces_add(repository, '/', end);
    let api = "v2"@ + seq!['/'] + path;
    law_first_piece("v2"@, '/', path);
    let host = registry + seq!['/'] + api;
    law_first_piece(registry, '/', api);
    let rest = none + seq!['/'] + host;
    law_first_piece(none, '/', host);
    law_first_piece("https:"@, '/', rest);
    let all = "https:"@ + seq!['/'] + rest;
    let address = "https://"@ + registry + "/v2/"@ + repository + (seq!['/'] + kind + seq!['/']
        + name);
    assert("https://"@ + registry =~= "https:"@ + seq!['/'] + (none + seq!['/'] + registry));
    assert("/v2/"@ + repository =~= seq!['/'] + ("v2"@ + seq!['/'] + repository));
    assert(address =~= all);
    assert(pieces(all, '/') =~= seq!["https:"@, none, registry, "v2"@] + pieces(repository, '/')
        + seq![kind, name]);
}

/// A request says what it accepts, and carries its token as a bearer token; it has no other
/// headers.
pub proof fn law_headers(request: HttpRequest)
    ensures
        match (opt_text(request.accept), opt_text(request.bearer)) {
            (Some(accept), Some(token)) => request.header_lines() == seq![
                ("Accept"@, accept),
                ("Authorization"@, "Bearer "@ + token),
            ],
            (Some(accept), None) => request.header_lines() == seq![("Accept"@, accept)],
            (None, Some(token)) => request.header_lines() == seq![
                ("Authorization"@, "Bearer "@ + token),
            ],
            (None, None) => request.header_lines().len() == 0,
        },
{
}

/// An error names what it is about: the status of the answer at its end, and before that the
/// address, the digest or the repository.
pub proof fn law_error_text(error: RegistryError)
    ensures
        match error {
            RegistryError::NoRealm(challenge) => has_suffix(error.text(), debug_text(challenge@)),
            RegistryError::TokenStatus(status) => has_suffix(
                error.text(),
                " HTTP "@ + decimal(status as nat),
            ),
            RegistryError::TokenText(e) => has_suffix(error.text(), e@),
            RegistryError::ManifestStatus(url, status) => has_suffix(
                error.text(),
                url@ + " failed with HTTP "@ + decimal(status as nat),
            ),
            RegistryError::ManifestText(e) => has_suffix(error.text(), e@),
            RegistryError::NoLayer(repository, tag) => has_suffix(
                error.text(),
                repository@ + ":"@ + tag@,
            ),
            RegistryError::BlobStatus(digest, status) => has_suffix(
                error.text(),
                digest@ + " failed with HTTP "@ + decimal(status as nat),
            ),
            RegistryError::NoChallenge => error.text().len() > 0,
            RegistryError::NoToken => error.text().len() > 0,
        },
{
    match error {
        RegistryError::NoRealm(challenge) => {
            law_prefix_and_suffix("auth challenge missing realm: "@, debug_text(challenge@));
        },
        RegistryError::TokenStatus(status) => {
            reveal_strlit("token request failed with HTTP ");
            reveal_strlit(" HTTP ");
            let end = " HTTP "@ + decimal(status as nat);
            assert(error.text().skip(error.text().len() - end.len()) =~= end);
        },
        RegistryError::TokenText(e) => {
            law_prefix_and_suffix("parsing token response: "@, e@);
        },
        RegistryError::ManifestStatus(url, status) => {
            let end = url@ + " failed with HTTP "@ + decimal(status as nat);
            law_prefix_and_suffix("fetching manifest "@, end);
            assert(error.text() =~= "fetching manifest "@ + end);
        },
        RegistryError::ManifestText(e) => {
            law_prefix_and_suffix("parsing OCI manifest: "@, e@);
        },
        RegistryError::NoLayer(repository, tag) => {
            let end = repository@ + ":"@ + tag@;
            law_prefix_and_suffix("no tar layer found in manifest for "@, end);
            assert(error.text() =~= "no tar layer found in manifest for "@ + end);
        },
        RegistryError::BlobStatus(digest, status) => {
            let end = digest@ + " failed with HTTP "@ + decimal(status as nat);
            law_prefix_and_suffix("downloading blob "@, end);
            assert(error.text() =~= "downloading blob "@ + end);
        },
        RegistryError::NoChallenge => {
            reveal_strlit("registry returned 401 without a WWW-Authenticate header");
        },
        RegistryError::NoToken => {
            reveal_strlit("token response contained no token");
        },
    }
}

/// Where a request of a fetch is refused with a challenge, a token for the repository of the feature
/// is asked for; where it is refused otherwise, the fetch fails with the status, for the manifest
/// with its address, for a blob with its digest.
pub proof fn law_fetch_refused(
    step: FetchStep,
    source: FeatureSource,
    stage: FetchStage,
    response: HttpResponse,
)
    requires
        is_fetch_step(step, source, stage, response),
    ensures
        response.status == 401 && response.www_authenticate is Some ==> {
            let address = token_address(
                challenge_params(response.www_authenticate->0@),
                source.repository@,
            );
            match (stage, step) {
                (
                    FetchStage::Manifest(AuthStage::Plain),
                    FetchStep::Request(FetchStage::Manifest(next), request),
                ) => next == AuthStage::Token && Some(request.url@) == address,
                (FetchStage::Manifest(AuthStage::Plain), FetchStep::Failed(_)) => address is None,
                (FetchStage::Manifest(AuthStage::Plain), _) => false,
                (
                    FetchStage::Blob(digest, AuthStage::Plain),
                    FetchStep::Request(FetchStage::Blob(d, next), request),
                ) => next == AuthStage::Token && Some(request.url@) == address && d@ == digest@,
                (FetchStage::Blob(_, AuthStage::Plain), FetchStep::Failed(_)) => address is None,
                (FetchStage::Blob(_, AuthStage::Plain), _) => false,
                _ => true,
            }
        },
        response.status / 100 != 2 ==> match stage {
            FetchStage::Manifest(auth) => auth == AuthStage::Authorized || (auth
                == AuthStage::Plain && response.status != 401) ==> match step {
                FetchStep::Failed(RegistryError::ManifestStatus(url, status)) => url@
                    == manifest_address(source.registry@, source.repository@, source.tag@)
                    && status == response.status,
                _ => false,
            },
            FetchStage::Blob(digest, auth) => auth == AuthStage::Authorized || (auth
                == AuthStage::Plain && response.status != 401) ==> match step {
                FetchStep::Failed(RegistryError::BlobStatus(d, status)) => d@ == digest@ && status
                    == response.status,
                _ => false,
            },
        },
{
    if let Some(challenge) = response.www_authenticate {
        law_token_query(challenge_params(challenge@), source.repository@);
    }
}

/// A fetch begins with the manifest, which is asked for without a token; a feature that is cached is
/// taken from where it would be unpacked, and the blob of any other is asked for.
pub proof fn law_fetch_begins(
    source: FeatureSource,
    first: FetchStep,
    looked_up: FetchStep,
    digest: Seq<char>,
    cached: bool,
)
    requires
        source.begins(first),
        source.is_lookup_step(looked_up, digest, cached),
    ensures
        match first {
            FetchStep::Request(stage, request) => {
                &&& fetch_requests_before(stage) == 0
                &&& request.url@ == manifest_address(
                    source.registry@,
                    source.repository@,
                    source.tag@,
                )
                &&& opt_text(request.accept) == Some("application/vnd.oci.image.manifest.v1+json"@)
                &&& request.bearer is None
            },
            _ => false,
        },
        match looked_up {
            FetchStep::Done(dir) => cached && dir@ == cache_dir(source.dirs, digest),
            FetchStep::Request(FetchStage::Blob(d, auth), request) => {
                &&& !cached
                &&& auth == AuthStage::Plain
                &&& d@ == digest
                &&& request.url@ == blob_address(source.registry@, source.repository@, digest)
                &&& request.accept is None
                &&& request.bearer is None
            },
            _ => false,
        },
{
}

/// A reference of the form `registry/repository:tag` names its registry, its repository and its
/// tag, and so the address of its manifest.
pub proof fn law_reference_to_manifest(
    source: FeatureSource,
    registry: Seq<char>,
    repository: Seq<char>,
    tag: Seq<char>,
)
    requires
        source.is_named(registry + "/"@ + repository + ":"@ + tag),
        registry.contains('.'),
        !registry.contains('/'),
        !tag.contains(':'),
        !tag.contains('/'),
    ensures
        source.registry@ == registry,
        source.repository@ == repository,
        source.tag@ == tag,
        pieces(source.manifest(), '/') == seq!["https:"@, seq![], registry, "v2"@] + pieces(
            repository,
            '/',
        ) + seq!["manifests"@, tag],
{
    law_reference_with_tag(registry, repository, tag);
    law_addresses(registry, repository, tag, tag);
}

} // verus!
