//! Dev Container Features.
//!
//! Features are distributed as OCI artifacts (e.g. `ghcr.io/devcontainers/features/java:1`). The
//! options that the user gives for a feature are merged with its defaults, the features are put
//! into the order of their installation, and an extended Dockerfile copies each feature into the
//! image and runs its `install.sh` with the option values exported as environment variables.
use crate::dockerfile::{
    dockerfile_text, env_lines, feature_section, feature_sections, in_order, render_dockerfile,
};
use crate::json::{member_models, Json, JsonView};
use crate::lists::{copy_texts, text_pairs, texts};
use crate::options::{merge_options, merged, option_pairs, safe_identifier, value_text};
use crate::order::{comes_next, install_order, is_install_order};
use crate::paths::{joined_path, resolve_relative};
use crate::text::{
    concat, concat3, contains, decimal, decimal_text, has_prefix, has_suffix, law_decimal,
    law_prefix_and_suffix, law_rsplit_once, law_split_once, rsplit_once, same, spec_rsplit_once,
    spec_split_once, split_once,
};
use vstd::prelude::*;

verus! {

broadcast use {crate::lists::lemma_texts_push, crate::lists::lemma_texts_add};

// --- references ---

/// Whether the first component of a name is a registry host.
pub open spec fn is_host(first: Seq<char>) -> bool {
    first.contains('.') || first.contains(':') || first == "localhost"@
}

/// The name and the tag of a feature reference. A tag follows the last colon, if no separator
/// stands behind that; without one the tag is `latest`.
pub open spec fn name_and_tag(reference: Seq<char>) -> (Seq<char>, Seq<char>) {
    match spec_rsplit_once(reference, ':') {
        Some((name, tag)) => if tag.contains('/') {
            (reference, "latest"@)
        } else {
            (name, tag)
        },
        None => (reference, "latest"@),
    }
}

/// The registry and the repository of a feature name.
pub open spec fn registry_and_repository(name: Seq<char>) -> (Seq<char>, Seq<char>) {
    match spec_split_once(name, '/') {
        Some((first, rest)) => if is_host(first) {
            (first, rest)
        } else {
            ("registry-1.docker.io"@, name)
        },
        None => ("registry-1.docker.io"@, name),
    }
}

/// Parses a feature reference into `(registry, repository, tag)`.
pub fn parse_ref(reference: &str) -> (r: (String, String, String))
    ensures
        ({
            let (name, tag) = name_and_tag(reference@);
            let (registry, repository) = registry_and_repository(name);
            r.0@ == registry && r.1@ == repository && r.2@ == tag
        }),
{
    let (name, tag) = match rsplit_once(reference, ':') {
        Some((name, tag)) => if contains(tag.as_str(), '/') {
            (reference.to_owned(), "latest".to_owned())
        } else {
            (name, tag)
        },
        None => (reference.to_owned(), "latest".to_owned()),
    };
    match split_once(name.as_str(), '/') {
        Some((first, rest)) => {
            if contains(first.as_str(), '.') || contains(first.as_str(), ':') || same(
                first.as_str(),
                "localhost",
            ) {
                return (first, rest, tag);
            }
        },
        None => {},
    }
    ("registry-1.docker.io".to_owned(), name, tag)
}

// --- features ---

/// The subset of `devcontainer-feature.json` that is used.
pub struct FeatureMetadata {
    pub id: Option<String>,
    pub version: Option<String>,
    pub options: Vec<(String, Json)>,
    pub container_env: Vec<(String, Json)>,
    pub installs_after: Vec<String>,
    pub entrypoint: Option<String>,
    pub init: Option<bool>,
    pub privileged: Option<bool>,
    pub cap_add: Vec<String>,
    pub security_opt: Vec<String>,
}

/// A feature from the registry, with its metadata and merged option values.
pub struct ResolvedFeature {
    /// The full reference without tag, e.g. `ghcr.io/devcontainers/features/java`.
    pub ref_no_tag: String,
    /// Directory in the build context that the feature is copied into.
    pub folder: String,
    /// Path of the extracted feature source.
    pub src_dir: String,
    pub metadata: FeatureMetadata,
    /// Option values as environment variables, ready to export before `install.sh`.
    pub option_vars: Vec<(String, String)>,
}

/// The places of the features that are enabled: a value of `false` disables one.
pub open spec fn enabled_places(features: Seq<(Seq<char>, JsonView)>) -> Seq<usize>
    decreases features.len(),
{
    if features.len() == 0 {
        seq![]
    } else {
        let before = enabled_places(features.drop_last());
        if features.last().1 == JsonView::Bool(false) {
            before
        } else {
            before.push((features.len() - 1) as usize)
        }
    }
}

/// The places of the enabled features, in the order in which they are configured.
pub fn enabled_features(features: &Vec<(String, Json)>) -> (r: Vec<usize>)
    ensures
        r@ == enabled_places(member_models(features@)),
{
    let ghost all = member_models(features@);
    let mut r: Vec<usize> = Vec::new();
    let mut i: usize = 0;
    while i < features.len()
        invariant
            i <= features@.len(),
            all == member_models(features@),
            r@ == enabled_places(all.take(i as int)),
        decreases features@.len() - i,
    {
        assert(all.take(i + 1).drop_last() =~= all.take(i as int));
        assert(all[i as int] == (features@[i as int].0@, features@[i as int].1.model()));
        match &features[i].1 {
            Json::Bool(false) => {},
            _ => {
                r.push(i);
            },
        }
        i += 1;
    }
    assert(all.take(i as int) =~= all);
    r
}

/// The full reference of a feature without its tag.
pub open spec fn untagged(reference: Seq<char>) -> Seq<char> {
    let (registry, repository) = registry_and_repository(name_and_tag(reference).0);
    registry + "/"@ + repository
}

/// Whether this is the feature `reference`, the `index`-th of the enabled ones, with these options.
pub open spec fn is_resolved(
    feature: ResolvedFeature,
    index: nat,
    reference: Seq<char>,
    options: JsonView,
) -> bool {
    &&& feature.ref_no_tag@ == untagged(reference)
    &&& feature.folder@ == "feature"@ + decimal(index)
    &&& text_pairs(feature.option_vars@) == option_pairs(
        merged(member_models(feature.metadata.options@), options),
    )
}

/// Puts together what is known of the feature `reference`, the `index`-th of the enabled ones,
/// once its source and its metadata are there.
pub fn resolve_feature(
    index: usize,
    reference: &str,
    options: &Json,
    src_dir: String,
    metadata: FeatureMetadata,
) -> (r: ResolvedFeature)
    ensures
        is_resolved(r, index as nat, reference@, options.model()),
        r.src_dir == src_dir,
        r.metadata == metadata,
{
    let (registry, repository, _) = parse_ref(reference);
    let number = decimal_text(index as u64);
    let option_vars = merge_options(&metadata.options, options);
    ResolvedFeature {
        ref_no_tag: concat3(registry.as_str(), "/", repository.as_str()),
        folder: concat("feature", number.as_str()),
        src_dir,
        metadata,
        option_vars,
    }
}

// --- preparing a build ---

/// Runtime flags a feature can request on the container.
pub struct FeatureRuntime {
    pub init: bool,
    pub privileged: bool,
    pub cap_add: Vec<String>,
    pub security_opt: Vec<String>,
    pub entrypoints: Vec<String>,
}

/// What a `FeatureRuntime` holds.
pub struct RuntimeView {
    pub init: bool,
    pub privileged: bool,
    pub cap_add: Seq<Seq<char>>,
    pub security_opt: Seq<Seq<char>>,
    pub entrypoints: Seq<Seq<char>>,
}

impl View for FeatureRuntime {
    type V = RuntimeView;

    open spec fn view(&self) -> RuntimeView {
        RuntimeView {
            init: self.init,
            privileged: self.privileged,
            cap_add: texts(self.cap_add@),
            security_opt: texts(self.security_opt@),
            entrypoints: texts(self.entrypoints@),
        }
    }
}

/// The flags of a container without features.
pub open spec fn no_flags() -> RuntimeView {
    RuntimeView {
        init: false,
        privileged: false,
        cap_add: seq![],
        security_opt: seq![],
        entrypoints: seq![],
    }
}

impl Default for FeatureRuntime {
    fn default() -> (r: FeatureRuntime)
        ensures
            r@ == no_flags(),
    {
        let r = FeatureRuntime {
            init: false,
            privileged: false,
            cap_add: Vec::new(),
            security_opt: Vec::new(),
            entrypoints: Vec::new(),
        };
        assert(texts(r.cap_add@) =~= seq![]);
        assert(texts(r.security_opt@) =~= seq![]);
        assert(texts(r.entrypoints@) =~= seq![]);
        r
    }
}

/// The capabilities that the features ask for, in order.
pub open spec fn all_cap_add(features: Seq<ResolvedFeature>) -> Seq<Seq<char>>
    decreases features.len(),
{
    if features.len() == 0 {
        seq![]
    } else {
        all_cap_add(features.drop_last()) + texts(features.last().metadata.cap_add@)
    }
}

/// The security options that the features ask for, in order.
pub open spec fn all_security_opt(features: Seq<ResolvedFeature>) -> Seq<Seq<char>>
    decreases features.len(),
{
    if features.len() == 0 {
        seq![]
    } else {
        all_security_opt(features.drop_last()) + texts(features.last().metadata.security_opt@)
    }
}

/// The entrypoints of the features that have one, in order.
pub open spec fn all_entrypoints(features: Seq<ResolvedFeature>) -> Seq<Seq<char>>
    decreases features.len(),
{
    if features.len() == 0 {
        seq![]
    } else {
        let before = all_entrypoints(features.drop_last());
        match features.last().metadata.entrypoint {
            Some(e) => before.push(e@),
            None => before,
        }
    }
}

/// The flags that the features ask for: a switch where one of them asks for it, and of the lists
/// all that they hold.
pub open spec fn all_flags(features: Seq<ResolvedFeature>) -> RuntimeView {
    RuntimeView {
        init: exists|i: int|
            0 <= i < features.len() && (#[trigger] features[i]).metadata.init == Some(true),
        privileged: exists|i: int|
            0 <= i < features.len() && (#[trigger] features[i]).metadata.privileged == Some(true),
        cap_add: all_cap_add(features),
        security_opt: all_security_opt(features),
        entrypoints: all_entrypoints(features),
    }
}

/// Adds copies of `from` to the end of `list`.
fn extend(list: &mut Vec<String>, from: &Vec<String>)
    ensures
        texts(final(list)@) == texts(old(list)@) + texts(from@),
{
    let mut copies = copy_texts(from);
    list.append(&mut copies);
}

/// The runtime flags that the features ask for, in the given order.
pub fn feature_runtime(features: &Vec<ResolvedFeature>, order: &Vec<usize>) -> (r: FeatureRuntime)
    requires
        forall|k: int| 0 <= k < order@.len() ==> #[trigger] order@[k] < features@.len(),
    ensures
        r@ == all_flags(in_order(features@, order@)),
{
    let ghost ordered = in_order(features@, order@);
    let mut r = FeatureRuntime::default();
    let mut k: usize = 0;
    assert(ordered.take(0) =~= seq![]);
    while k < order.len()
        invariant
            k <= order@.len(),
            ordered == in_order(features@, order@),
            forall|k: int| 0 <= k < order@.len() ==> #[trigger] order@[k] < features@.len(),
            r@ == all_flags(ordered.take(k as int)),
        decreases order@.len() - k,
    {
        let ghost before = r;
        let ghost done = ordered.take(k as int);
        let ghost next = ordered.take(k + 1);
        let m = &features[order[k]].metadata;
        assert(next.drop_last() =~= done);
        assert(next.last().metadata == *m);
        r.init = r.init || m.init.unwrap_or(false);
        r.privileged = r.privileged || m.privileged.unwrap_or(false);
        extend(&mut r.cap_add, &m.cap_add);
        extend(&mut r.security_opt, &m.security_opt);
        if let Some(e) = &m.entrypoint {
            r.entrypoints.push(e.clone());
        }
        proof {
            assert(next[k as int].metadata == *m);
            assert forall|i: int| 0 <= i < k implies next[i] == done[i] by {}
            if before.init {
                let i = choose|i: int|
                    0 <= i < done.len() && (#[trigger] done[i]).metadata.init == Some(true);
                assert(next[i].metadata.init == Some(true));
            }
            if exists|i: int|
                0 <= i < next.len() && (#[trigger] next[i]).metadata.init == Some(true) {
                let i = choose|i: int|
                    0 <= i < next.len() && (#[trigger] next[i]).metadata.init == Some(true);
                if i < k {
                    assert(done[i].metadata.init == Some(true));
                }
            }
            if before.privileged {
                let i = choose|i: int|
                    0 <= i < done.len() && (#[trigger] done[i]).metadata.privileged == Some(true);
                assert(next[i].metadata.privileged == Some(true));
            }
            if exists|i: int|
                0 <= i < next.len() && (#[trigger] next[i]).metadata.privileged == Some(true) {
                let i = choose|i: int|
                    0 <= i < next.len() && (#[trigger] next[i]).metadata.privileged == Some(true);
                if i < k {
                    assert(done[i].metadata.privileged == Some(true));
                }
            }
        }
        k += 1;
    }
    assert(ordered.take(k as int) =~= ordered);
    r
}

/// A generated build context for the features-extended image.
pub struct BuiltContext {
    /// Directory to pass to `docker build` as context.
    pub context_dir: String,
    /// Path of the generated Dockerfile.
    pub dockerfile: String,
}

/// Result of preparing features: the build context plus any container runtime requirements.
pub struct Prepared {
    pub context: BuiltContext,
    pub runtime: FeatureRuntime,
}

/// What has to be written before the features image can be built.
pub struct Preparation {
    pub prepared: Prepared,
    /// The directories to copy, each with its place in the build context.
    pub copies: Vec<(String, String)>,
    /// The contents of the Dockerfile.
    pub dockerfile_text: String,
}

/// The directories of the features, each with its place in the build context.
pub open spec fn feature_copies(context_dir: Seq<char>, features: Seq<ResolvedFeature>) -> Seq<
    (Seq<char>, Seq<char>),
> {
    features.map_values(
        |f: ResolvedFeature|
            (f.src_dir@, joined_path(joined_path(context_dir, "dc-features"@), f.folder@)),
    )
}

/// Whether this is what has to be written, in the build context `context_dir`, for an image that
/// extends `base_image` by the features in the given order.
pub open spec fn prepares(
    p: Preparation,
    base_image: Seq<char>,
    ordered: Seq<ResolvedFeature>,
    remote_user: Seq<char>,
    container_user: Seq<char>,
    context_dir: Seq<char>,
) -> bool {
    &&& p.prepared.context.context_dir@ == context_dir
    &&& p.prepared.context.dockerfile@ == joined_path(context_dir, "Dockerfile.devc-features"@)
    &&& p.prepared.runtime@ == all_flags(ordered)
    &&& text_pairs(p.copies@) == feature_copies(context_dir, ordered)
    &&& p.dockerfile_text@ == dockerfile_text(base_image, ordered, remote_user, container_user)
}

/// Prepares an extended image build for the given base image and enabled features. There is none
/// where no feature is enabled. `remote_user` and `container_user` feed the features' scripts.
pub fn prepare(
    base_image: &str,
    features: &Vec<ResolvedFeature>,
    remote_user: &str,
    container_user: &str,
    context_dir: &str,
) -> (r: Option<Preparation>)
    ensures
        match r {
            Some(p) => features@.len() > 0 && exists|order: Seq<usize>| #[trigger]
                is_install_order(features@, order) && prepares(
                    p,
                    base_image@,
                    in_order(features@, order),
                    remote_user@,
                    container_user@,
                    context_dir@,
                ),
            None => features@.len() == 0,
        },
{
    if features.len() == 0 {
        return None;
    }
    let order = install_order(features);
    assert forall|k: int| 0 <= k < order@.len() implies #[trigger] order@[k] < features@.len() by {
        assert(comes_next(features@, order@, k, order@[k] as int));
    }
    let ghost ordered = in_order(features@, order@);
    let root = resolve_relative(context_dir, "dc-features");
    let mut copies: Vec<(String, String)> = Vec::new();
    let mut k: usize = 0;
    while k < order.len()
        invariant
            k <= order@.len(),
            ordered == in_order(features@, order@),
            root@ == joined_path(context_dir@, "dc-features"@),
            forall|k: int| 0 <= k < order@.len() ==> #[trigger] order@[k] < features@.len(),
            text_pairs(copies@) =~= feature_copies(context_dir@, ordered).take(k as int),
        decreases order@.len() - k,
    {
        let ghost before = copies@;
        let f = &features[order[k]];
        let dest = resolve_relative(root.as_str(), f.folder.as_str());
        copies.push((f.src_dir.clone(), dest));
        assert(text_pairs(copies@) =~= text_pairs(before).push(
            feature_copies(context_dir@, ordered)[k as int],
        ));
        k += 1;
    }
    assert(feature_copies(context_dir@, ordered).take(k as int) =~= feature_copies(
        context_dir@,
        ordered,
    ));
    let dockerfile_text = render_dockerfile(
        base_image,
        features,
        &order,
        remote_user,
        container_user,
    );
    let runtime = feature_runtime(features, &order);
    let context = BuiltContext {
        context_dir: context_dir.to_owned(),
        dockerfile: resolve_relative(context_dir, "Dockerfile.devc-features"),
    };
    let p = Preparation { prepared: Prepared { context, runtime }, copies, dockerfile_text };
    assert(is_install_order(features@, order@) && prepares(
        p,
        base_image@,
        in_order(features@, order@),
        remote_user@,
        container_user@,
        context_dir@,
    ));
    Some(p)
}

// --- laws ---

/// A reference that names a registry, a repository and a tag is read back into these.
pub proof fn law_reference_with_tag(registry: Seq<char>, repository: Seq<char>, tag: Seq<char>)
    requires
        is_host(registry),
        !registry.contains('/'),
        !tag.contains(':'),
        !tag.contains('/'),
    ensures
        ({
            let reference = registry + "/"@ + repository + ":"@ + tag;
            let (name, found) = name_and_tag(reference);
            &&& found == tag
            &&& registry_and_repository(name) == (registry, repository)
            &&& untagged(reference) == registry + "/"@ + repository
        }),
{
    reveal_strlit("/");
    reveal_strlit(":");
    let name = registry + "/"@ + repository;
    let reference = name + ":"@ + tag;
    let i = name.len() as int;
    assert(reference[i] == ':');
    reference.index_of_last_ensures(':');
    let last = reference.index_of_last(':')->0;
    assert(reference.contains(':'));
    assert(last == i) by {
        if last > i {
            assert(reference[last] == tag[last - i - 1]);
            assert(tag.contains(':'));
        }
    }
    assert(reference.take(i) =~= name);
    assert(reference.skip(i + 1) =~= tag);
    lemma_registry_first(registry, repository);
}

/// The registry of a name is what stands before its first separator, if that is a host.
proof fn lemma_registry_first(registry: Seq<char>, repository: Seq<char>)
    requires
        is_host(registry),
        !registry.contains('/'),
    ensures
        registry_and_repository(registry + "/"@ + repository) == (registry, repository),
{
    reveal_strlit("/");
    let name = registry + "/"@ + repository;
    let i = registry.len() as int;
    assert(name[i] == '/');
    assert(name.contains('/'));
    name.index_of_first_ensures('/');
    let first = name.index_of_first('/')->0;
    assert(first == i) by {
        if first < i {
            assert(name[first] == registry[first]);
            assert(registry.contains('/'));
        }
    }
    assert(name.take(i) =~= registry);
    assert(name.skip(i + 1) =~= repository);
}

/// A reference without a tag stands for the tag `latest`, also where the registry has a port.
pub proof fn law_reference_without_tag(registry: Seq<char>, repository: Seq<char>)
    requires
        is_host(registry),
        !registry.contains('/'),
        !repository.contains(':'),
    ensures
        ({
            let reference = registry + "/"@ + repository;
            let (name, tag) = name_and_tag(reference);
            &&& tag == "latest"@
            &&& registry_and_repository(name) == (registry, repository)
            &&& untagged(reference) == reference
        }),
{
    reveal_strlit("/");
    let reference = registry + "/"@ + repository;
    reference.index_of_last_ensures(':');
    lemma_registry_first(registry, repository);
    if reference.contains(':') {
        let last = reference.index_of_last(':')->0;
        let i = registry.len() as int;
        assert(last < i) by {
            if last > i {
                assert(reference[last] == repository[last - i - 1]);
                assert(repository.contains(':'));
            }
        }
        assert(reference.skip(last + 1)[i - last - 1] == '/');
        assert(reference.skip(last + 1).contains('/'));
    }
}

/// The enabled features are those whose value is not `false`, each once, in the order in which
/// they are configured.
pub proof fn law_enabled_features(features: Seq<(Seq<char>, JsonView)>)
    requires
        features.len() <= usize::MAX,
    ensures
        ({
            let places = enabled_places(features);
            &&& forall|k: int|
                0 <= k < places.len() ==> (#[trigger] places[k]) < features.len()
                    && features[places[k] as int].1 != JsonView::Bool(false)
            &&& forall|k: int, m: int|
                #![trigger places[k], places[m]]
                0 <= k < m < places.len() ==> places[k] < places[m]
            &&& forall|i: int|
                0 <= i < features.len() && (#[trigger] features[i]).1 != JsonView::Bool(false)
                    ==> places.contains(i as usize)
        }),
    decreases features.len(),
{
    let places = enabled_places(features);
    if features.len() > 0 {
        let rest = features.drop_last();
        let before = enabled_places(rest);
        law_enabled_features(rest);
        assert forall|k: int| 0 <= k < places.len() implies (#[trigger] places[k])
            < features.len() && features[places[k] as int].1 != JsonView::Bool(false) by {
            if k < before.len() {
                assert(places[k] == before[k]);
                assert(rest[before[k] as int] == features[before[k] as int]);
            }
        }
        assert forall|k: int, m: int|
            #![trigger places[k], places[m]]
            0 <= k < m < places.len() implies places[k] < places[m] by {
            assert(places[k] == before[k]);
            if m < before.len() {
                assert(places[m] == before[m]);
            }
        }
        assert forall|i: int|
            0 <= i < features.len() && (#[trigger] features[i]).1 != JsonView::Bool(
                false,
            ) implies places.contains(i as usize) by {
            if i < rest.len() {
                assert(rest[i] == features[i]);
                assert(before.contains(i as usize));
                let k = before.index_of(i as usize);
                assert(places[k] == i);
            } else {
                assert(places[places.len() - 1] == i);
            }
        }
    }
}

/// The first component of a name is a registry where it holds a dot or a colon or is `localhost`,
/// and in no other case.
pub proof fn law_hosts(first: Seq<char>)
    ensures
        first.contains('.') ==> is_host(first),
        first.contains(':') ==> is_host(first),
        first == "localhost"@ ==> is_host(first),
        !first.contains('.') && !first.contains(':') && first != "localhost"@ ==> !is_host(first),
{
}

/// A name without a registry is looked for at Docker Hub.
pub proof fn law_reference_without_registry(first: Seq<char>, rest: Seq<char>, tag: Seq<char>)
    requires
        !first.contains('/'),
        !first.contains('.'),
        !first.contains(':'),
        first != "localhost"@,
        !rest.contains(':'),
        !tag.contains(':'),
        !tag.contains('/'),
    ensures
        registry_and_repository(first) == ("registry-1.docker.io"@, first),
        registry_and_repository(first + seq!['/'] + rest) == (
            "registry-1.docker.io"@,
            first + seq!['/'] + rest,
        ),
        name_and_tag(first + seq!['/'] + rest) == (first + seq!['/'] + rest, "latest"@),
        name_and_tag(first + seq!['/'] + rest + seq![':'] + tag) == (
            first + seq!['/'] + rest,
            tag,
        ),
        name_and_tag(first) == (first, "latest"@),
        name_and_tag(first + seq![':'] + tag) == (first, tag),
{
    let name = first + seq!['/'] + rest;
    law_split_once(first, '/', rest);
    assert(!name.contains(':')) by {
        assert(forall|i: int| 0 <= i < first.len() ==> #[trigger] first[i] != ':');
        assert(forall|i: int| 0 <= i < rest.len() ==> #[trigger] rest[i] != ':');
    }
    law_rsplit_once(name, ':', tag);
    law_rsplit_once(seq![], ':', name);
    law_rsplit_once(first, ':', tag);
    law_rsplit_once(seq![], ':', first);
}

/// What one more feature adds to the flags of a container: its switches, and what its lists hold.
pub proof fn law_one_more_feature(features: Seq<ResolvedFeature>, f: ResolvedFeature)
    ensures
        ({
            let before = all_flags(features);
            let after = all_flags(features.push(f));
            &&& after.init == (before.init || f.metadata.init == Some(true))
            &&& after.privileged == (before.privileged || f.metadata.privileged == Some(true))
            &&& after.cap_add == before.cap_add + texts(f.metadata.cap_add@)
            &&& after.security_opt == before.security_opt + texts(f.metadata.security_opt@)
            &&& after.entrypoints == match f.metadata.entrypoint {
                Some(e) => before.entrypoints.push(e@),
                None => before.entrypoints,
            }
        }),
        all_flags(seq![]) == no_flags(),
{
    let more = features.push(f);
    assert(more.drop_last() =~= features);
    assert(more[features.len() as int] == f);
    assert forall|i: int| 0 <= i < features.len() implies #[trigger] features[i] == more[i] by {}
    let before = all_flags(features);
    let after = all_flags(more);
    if after.init {
        let i = choose|i: int|
            0 <= i < more.len() && (#[trigger] more[i]).metadata.init == Some(true);
        if i < features.len() {
            assert(features[i].metadata.init == Some(true));
        }
    }
    if before.init {
        let i = choose|i: int|
            0 <= i < features.len() && (#[trigger] features[i]).metadata.init == Some(true);
        assert(more[i].metadata.init == Some(true));
    }
    if after.privileged {
        let i = choose|i: int|
            0 <= i < more.len() && (#[trigger] more[i]).metadata.privileged == Some(true);
        if i < features.len() {
            assert(features[i].metadata.privileged == Some(true));
        }
    }
    if before.privileged {
        let i = choose|i: int|
            0 <= i < features.len() && (#[trigger] features[i]).metadata.privileged == Some(true);
        assert(more[i].metadata.privileged == Some(true));
    }
    if f.metadata.init == Some(true) {
        assert(more[features.len() as int].metadata.init == Some(true));
    }
    if f.metadata.privileged == Some(true) {
        assert(more[features.len() as int].metadata.privileged == Some(true));
    }
}

/// Every feature is copied to the place in the build context that its part of the Dockerfile copies
/// it from.
pub proof fn law_features_are_copied(
    context_dir: Seq<char>,
    features: Seq<ResolvedFeature>,
    i: int,
    remote_user: Seq<char>,
    container_user: Seq<char>,
)
    requires
        0 <= i < features.len(),
        features[i].metadata.container_env@.len() == 0,
        context_dir.len() > 0,
        context_dir.last() != '/',
        features[i].folder@.len() > 0,
        features[i].folder@[0] != '/',
    ensures
        feature_copies(context_dir, features).len() == features.len(),
        feature_copies(context_dir, features)[i].0 == features[i].src_dir@,
        feature_copies(context_dir, features)[i].1 == context_dir + "/dc-features/"@
            + features[i].folder@,
        has_prefix(
            feature_section(features[i], remote_user, container_user),
            "COPY dc-features/"@ + features[i].folder@ + " "@,
        ),
{
    reveal_strlit("dc-features");
    reveal_strlit("/dc-features/");
    reveal_strlit("/");
    reveal_strlit(" ");
    reveal_strlit(" /tmp/dc-features/");
    let f = features[i];
    let root = joined_path(context_dir, "dc-features"@);
    assert(root =~= context_dir + "/dc-features"@) by {
        reveal_strlit("/dc-features");
    }
    reveal_strlit("/dc-features");
    assert(joined_path(root, f.folder@) =~= context_dir + "/dc-features/"@ + f.folder@);
    let section = feature_section(f, remote_user, container_user);
    let head = "COPY dc-features/"@ + f.folder@ + " "@;
    assert(env_lines(member_models(f.metadata.container_env@)) =~= seq![]);
    assert(section.take(head.len() as int) =~= head);
}

/// Features have folders of their own.
pub proof fn law_folders_differ(i: nat, j: nat)
    requires
        "feature"@ + decimal(i) == "feature"@ + decimal(j),
    ensures
        i == j,
{
    let n = "feature"@.len() as int;
    assert(decimal(i) =~= ("feature"@ + decimal(i)).skip(n));
    assert(decimal(j) =~= ("feature"@ + decimal(j)).skip(n));
    law_decimal(i);
    law_decimal(j);
}

/// Without features no flags are asked for.
pub proof fn law_no_flags()
    ensures
        !no_flags().init,
        !no_flags().privileged,
        no_flags().cap_add.len() == 0,
        no_flags().security_opt.len() == 0,
        no_flags().entrypoints.len() == 0,
{
}

/// What is prepared lies in the build context, starts from the base image, and holds and asks for
/// what each of the features does.
pub proof fn law_preparation(
    p: Preparation,
    base_image: Seq<char>,
    ordered: Seq<ResolvedFeature>,
    remote_user: Seq<char>,
    container_user: Seq<char>,
    context_dir: Seq<char>,
)
    requires
        prepares(p, base_image, ordered, remote_user, container_user, context_dir),
        context_dir.len() > 0,
        context_dir.last() != '/',
    ensures
        p.prepared.context.context_dir@ == context_dir,
        p.prepared.context.dockerfile@ == context_dir + "/Dockerfile.devc-features"@,
        has_prefix(p.dockerfile_text@, "FROM "@ + base_image + "\n"@),
        has_suffix(
            p.dockerfile_text@,
            feature_sections(ordered, remote_user, container_user),
        ),
        p.prepared.runtime@ == all_flags(ordered),
        p.copies@.len() == ordered.len(),
        forall|i: int|
            0 <= i < ordered.len() ==> (#[trigger] p.copies@[i]).0@ == ordered[i].src_dir@
                && p.copies@[i].1@ == feature_copies(context_dir, ordered)[i].1,
{
    reveal_strlit("Dockerfile.devc-features");
    reveal_strlit("/Dockerfile.devc-features");
    reveal_strlit("/");
    reveal_strlit("\n");
    reveal_strlit("\n\nUSER root\n\n");
    assert(p.prepared.context.dockerfile@ =~= context_dir + "/Dockerfile.devc-features"@);
    let head = "FROM "@ + base_image + "\n"@;
    assert(p.dockerfile_text@.take(head.len() as int) =~= head);
    let start = "FROM "@ + base_image + "\n\nUSER root\n\n"@;
    law_prefix_and_suffix(start, feature_sections(ordered, remote_user, container_user));
    assert(text_pairs(p.copies@).len() == p.copies@.len());
    assert forall|i: int| 0 <= i < ordered.len() implies (#[trigger] p.copies@[i]).0@
        == ordered[i].src_dir@ && p.copies@[i].1@ == feature_copies(context_dir, ordered)[i].1 by {
        assert(text_pairs(p.copies@)[i] == (p.copies@[i].0@, p.copies@[i].1@));
    }
}

/// A resolved feature is known by its reference without the tag, lies in a folder of its own, and
/// exports every one of its merged options.
pub proof fn law_resolved_feature(
    feature: ResolvedFeature,
    other: ResolvedFeature,
    index: nat,
    other_index: nat,
    registry: Seq<char>,
    repository: Seq<char>,
    tag: Seq<char>,
    reference: Seq<char>,
    options: JsonView,
    more: JsonView,
)
    requires
        is_resolved(feature, index, registry + "/"@ + repository + ":"@ + tag, options),
        is_resolved(other, other_index, reference, more),
        registry.contains('.'),
        !registry.contains('/'),
        !tag.contains(':'),
        !tag.contains('/'),
    ensures
        feature.ref_no_tag@ == registry + "/"@ + repository,
        feature.folder@ == other.folder@ ==> index == other_index,
        ({
            let values = merged(member_models(feature.metadata.options@), options);
            &&& feature.option_vars@.len() == values.len()
            &&& forall|i: int|
                0 <= i < values.len() ==> (#[trigger] feature.option_vars@[i]).0@
                    == safe_identifier(values[i].0) && feature.option_vars@[i].1@ == value_text(
                    values[i].1,
                )
        }),
{
    law_reference_with_tag(registry, repository, tag);
    if feature.folder@ == other.folder@ {
        law_folders_differ(index, other_index);
    }
    let values = merged(member_models(feature.metadata.options@), options);
    let pairs = text_pairs(feature.option_vars@);
    assert(pairs.len() == feature.option_vars@.len());
    assert forall|i: int| 0 <= i < values.len() implies (#[trigger] feature.option_vars@[i]).0@
        == safe_identifier(values[i].0) && feature.option_vars@[i].1@ == value_text(values[i].1) by {
        assert(pairs[i] == (feature.option_vars@[i].0@, feature.option_vars@[i].1@));
        assert(option_pairs(values)[i] == (safe_identifier(values[i].0), value_text(values[i].1)));
    }
}

} // verus!
