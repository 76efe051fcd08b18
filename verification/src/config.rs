//! The `devcontainer.json` of a workspace: where it is looked for, what it says, and the
//! substitution of its variables.
//!
//! Only configurations of a single container are supported (an `image` or a Dockerfile build);
//! docker-compose configurations are rejected.
use crate::json::Json;
use crate::lists::{find_value, first_value, opt_text, text_pairs, texts};
use crate::paths::{
    ancestors, is_normal, joined_path, law_ancestors, lemma_parent_shorter, lies_in, parent,
    parent_dir, resolve_relative,
};
use crate::sorted_map::SortedMap;
use crate::text::{
    concat, concat3, has_prefix, joined, law_pieces_of_joined, law_prefix_and_suffix, law_rsplit_once,
    pieces, same, spec_split_once, split_once, strip_prefix,
};
use crate::utf8::{
    find_byte, lemma_ascii_byte, lemma_encode_scalar, lemma_first_ascii, split_text, utf8_char_len,
};
use vstd::prelude::*;

verus! {

/// A lifecycle command: a shell string, an argument vector, or a map of named commands, which are
/// run one after the other in the order of their names.
pub enum Command {
    Shell(String),
    Argv(Vec<String>),
    Named(SortedMap<StringOrArgv>),
}

/// One of several named commands.
pub enum StringOrArgv {
    Shell(String),
    Argv(Vec<String>),
}

/// A port to forward, either a bare number or a `host:container` / `ip:host:container` string.
pub enum Port {
    Number(u32),
    Text(String),
}

impl Clone for Port {
    fn clone(&self) -> (r: Self)
        ensures
            r == *self,
    {
        match self {
            Port::Number(n) => Port::Number(*n),
            Port::Text(s) => Port::Text(s.clone()),
        }
    }
}

/// A mount entry: either a raw `--mount` string or a structured object.
pub enum Mount {
    Text(String),
    Object(MountObject),
}

pub struct MountObject {
    pub kind: Option<String>,
    pub source: Option<String>,
    pub target: String,
}

/// The value passed after `--mount`: a raw string as it is; of an object the type (`bind` where
/// none is given), the source if any, and the target.
pub open spec fn mount_text(mount: Mount) -> Seq<char> {
    match mount {
        Mount::Text(s) => s@,
        Mount::Object(o) => {
            let kind = "type="@ + match o.kind {
                Some(k) => k@,
                None => "bind"@,
            };
            let source = match o.source {
                Some(s) => kind + ",source="@ + s@,
                None => kind,
            };
            source + ",target="@ + o.target@
        },
    }
}

impl Mount {
    /// Renders the value passed after `--mount` on the docker command line.
    pub fn to_mount_string(&self) -> (r: String)
        ensures
            r@ == mount_text(*self),
    {
        match self {
            Mount::Text(s) => s.clone(),
            Mount::Object(o) => {
                let mut r = match &o.kind {
                    Some(kind) => concat("type=", kind.as_str()),
                    None => concat("type=", "bind"),
                };
                if let Some(source) = &o.source {
                    r.append(",source=");
                    r.append(source.as_str());
                }
                r.append(",target=");
                r.append(o.target.as_str());
                r
            },
        }
    }
}

/// How an image is built from a Dockerfile.
pub struct BuildConfig {
    pub dockerfile: Option<String>,
    pub context: Option<String>,
    pub args: SortedMap<String>,
    pub target: Option<String>,
    pub cache_from: CacheFrom,
    pub options: Vec<String>,
}

impl Default for BuildConfig {
    fn default() -> (r: Self)
        ensures
            r.dockerfile is None,
            r.context is None,
            r.args.entries().len() == 0,
            r.target is None,
            texts(r.cache_from.list()).len() == 0,
            r.options@.len() == 0,
    {
        BuildConfig {
            dockerfile: None,
            context: None,
            args: SortedMap::new(),
            target: None,
            cache_from: CacheFrom::default(),
            options: Vec::new(),
        }
    }
}

/// `cacheFrom` may be a single string or a list.
pub enum CacheFrom {
    One(String),
    Many(Vec<String>),
}

impl Default for CacheFrom {
    fn default() -> (r: Self)
        ensures
            r matches CacheFrom::Many(v) && v@.len() == 0,
    {
        CacheFrom::Many(Vec::new())
    }
}

impl CacheFrom {
    /// The images, as a list.
    pub open spec fn list(self) -> Seq<String> {
        match self {
            CacheFrom::One(s) => seq![s],
            CacheFrom::Many(v) => v@,
        }
    }

    /// The images, as a list.
    pub fn as_vec(&self) -> (r: Vec<String>)
        ensures
            r@ == self.list(),
    {
        match self {
            CacheFrom::One(s) => {
                let mut r: Vec<String> = Vec::new();
                r.push(s.clone());
                assert(r@ =~= seq![*s]);
                r
            },
            CacheFrom::Many(v) => {
                let r = v.clone();
                assert(r@ =~= v@);
                r
            },
        }
    }
}

/// `appPort` may be a number, a string, or a list of either.
pub enum AppPort {
    One(Port),
    Many(Vec<Port>),
}

impl AppPort {
    /// The ports, as a list.
    pub open spec fn list(self) -> Seq<Port> {
        match self {
            AppPort::One(p) => seq![p],
            AppPort::Many(v) => v@,
        }
    }

    /// The ports, as a list.
    pub fn as_ports(&self) -> (r: Vec<Port>)
        ensures
            r@ == self.list(),
    {
        match self {
            AppPort::One(p) => {
                let mut r: Vec<Port> = Vec::new();
                r.push(p.clone());
                assert(r@ =~= seq![*p]);
                r
            },
            AppPort::Many(v) => {
                let r = v.clone();
                assert(r@ =~= v@);
                r
            },
        }
    }
}

/// The parsed `devcontainer.json`.
pub struct DevContainerConfig {
    pub name: Option<String>,
    // Image vs. build.
    pub image: Option<String>,
    pub build: Option<BuildConfig>,
    /// Legacy top-level Dockerfile path.
    pub docker_file: Option<String>,
    /// Legacy top-level build context.
    pub context: Option<String>,
    // Workspace.
    pub workspace_folder: Option<String>,
    pub workspace_mount: Option<String>,
    // Users.
    pub remote_user: Option<String>,
    pub container_user: Option<String>,
    // Environment.
    pub container_env: SortedMap<String>,
    pub remote_env: SortedMap<Option<String>>,
    // Runtime knobs.
    pub mounts: Vec<Mount>,
    pub run_args: Vec<String>,
    pub forward_ports: Vec<Port>,
    pub app_port: Option<AppPort>,
    pub override_command: Option<bool>,
    pub init: Option<bool>,
    pub privileged: Option<bool>,
    pub cap_add: Vec<String>,
    pub security_opt: Vec<String>,
    // Lifecycle commands.
    pub initialize_command: Option<Command>,
    pub on_create_command: Option<Command>,
    pub update_content_command: Option<Command>,
    pub post_create_command: Option<Command>,
    pub post_start_command: Option<Command>,
    pub post_attach_command: Option<Command>,
    /// Dev Container Features by their reference, in the order in which they are written. The
    /// value holds a feature's options: `true` or `{}` for the defaults, a scalar for the main
    /// option, or an object of options. `false` disables the feature.
    pub features: Vec<(String, Json)>,
    /// Not supported; kept to reject such a configuration.
    pub docker_compose_file: Option<Json>,
}

impl Default for DevContainerConfig {
    fn default() -> (r: Self)
        ensures
            r.name is None,
            r.image is None,
            r.build is None,
            r.docker_file is None,
            r.context is None,
            r.workspace_folder is None,
            r.workspace_mount is None,
            r.remote_user is None,
            r.container_user is None,
            r.container_env.entries().len() == 0,
            r.remote_env.entries().len() == 0,
            r.mounts@.len() == 0,
            r.run_args@.len() == 0,
            r.forward_ports@.len() == 0,
            r.app_port is None,
            r.override_command is None,
            r.init is None,
            r.privileged is None,
            r.cap_add@.len() == 0,
            r.security_opt@.len() == 0,
            r.initialize_command is None,
            r.on_create_command is None,
            r.update_content_command is None,
            r.post_create_command is None,
            r.post_start_command is None,
            r.post_attach_command is None,
            r.features@.len() == 0,
            r.docker_compose_file is None,
    {
        DevContainerConfig {
            name: None,
            image: None,
            build: None,
            docker_file: None,
            context: None,
            workspace_folder: None,
            workspace_mount: None,
            remote_user: None,
            container_user: None,
            container_env: SortedMap::new(),
            remote_env: SortedMap::new(),
            mounts: Vec::new(),
            run_args: Vec::new(),
            forward_ports: Vec::new(),
            app_port: None,
            override_command: None,
            init: None,
            privileged: None,
            cap_add: Vec::new(),
            security_opt: Vec::new(),
            initialize_command: None,
            on_create_command: None,
            update_content_command: None,
            post_create_command: None,
            post_start_command: None,
            post_attach_command: None,
            features: Vec::new(),
            docker_compose_file: None,
        }
    }
}

/// The Dockerfile of a configuration: the legacy top-level one, else that of its build.
pub open spec fn dockerfile_of(config: DevContainerConfig) -> Option<Seq<char>> {
    match config.docker_file {
        Some(file) => Some(file@),
        None => match config.build {
            Some(build) => opt_text(build.dockerfile),
            None => None,
        },
    }
}

/// The build context of a configuration: that of its build, else the legacy top-level one, else
/// the directory of the configuration.
pub open spec fn build_context_of(config: DevContainerConfig) -> Seq<char> {
    match config.build {
        Some(BuildConfig { context: Some(context), .. }) => context@,
        _ => match config.context {
            Some(context) => context@,
            None => "."@,
        },
    }
}

impl DevContainerConfig {
    /// Whether the container image is produced from a Dockerfile build.
    pub fn is_dockerfile_build(&self) -> (r: bool)
        ensures
            r == dockerfile_of(*self) is Some,
    {
        self.docker_file.is_some() || match &self.build {
            Some(build) => build.dockerfile.is_some(),
            None => false,
        }
    }

    /// The Dockerfile path relative to the config folder, if this is a build config.
    pub fn dockerfile(&self) -> (r: Option<String>)
        ensures
            opt_text(r) == dockerfile_of(*self),
    {
        match &self.docker_file {
            Some(file) => Some(file.clone()),
            None => match &self.build {
                Some(build) => build.dockerfile.clone(),
                None => None,
            },
        }
    }

    /// The build context directory relative to the config folder, defaulting to ".".
    pub fn build_context(&self) -> (r: String)
        ensures
            r@ == build_context_of(*self),
    {
        if let Some(build) = &self.build {
            if let Some(context) = &build.context {
                return context.clone();
            }
        }
        match &self.context {
            Some(context) => context.clone(),
            None => ".".to_owned(),
        }
    }
}

// --- discovery ---

/// A place where a configuration may be.
pub struct Candidate {
    /// The directory that is the workspace if the configuration is here.
    pub workspace: String,
    /// The path of the configuration file.
    pub path: String,
}

/// What was found at a candidate's path.
#[derive(Clone, Copy)]
pub enum Probe {
    /// A file.
    File,
    /// Nothing, or no file.
    Absent,
    /// The path could not be looked at.
    Unreadable,
}

/// Where a search for a configuration stands.
pub enum Search {
    /// The candidate has to be looked at next.
    Check(Candidate),
    /// The candidate is the configuration.
    Found(Candidate),
    /// No candidate is left: there is no configuration, for which this is the error.
    NotFound(ConfigError),
}

/// The `i`-th place that is looked at from `start`: of each directory, from `start` upwards,
/// first `.devcontainer/devcontainer.json` and then `.devcontainer.json`.
pub open spec fn candidate_path(start: Seq<char>, i: int) -> Seq<char> {
    let dir = ancestors(start)[i / 2];
    if i % 2 == 0 {
        joined_path(joined_path(dir, ".devcontainer"@), "devcontainer.json"@)
    } else {
        joined_path(dir, ".devcontainer.json"@)
    }
}

impl Candidate {
    /// Whether this is the `i`-th place that is looked at from `start`.
    pub open spec fn is_nth(self, start: Seq<char>, i: int) -> bool {
        &&& self.workspace@ == ancestors(start)[i / 2]
        &&& self.path@ == candidate_path(start, i)
    }
}

/// The `i`-th place that is looked at from `start`.
fn candidate(start: &str, i: usize) -> (r: Option<Candidate>)
    ensures
        match r {
            Some(c) => i < 2 * ancestors(start@).len() && c.is_nth(start@, i as int),
            None => i >= 2 * ancestors(start@).len(),
        },
{
    let mut dir = start.to_owned();
    let mut level: usize = 0;
    while level < i / 2
        invariant
            level <= i / 2,
            level < ancestors(start@).len(),
            dir@ == ancestors(start@)[level as int],
            ancestors(dir@) == ancestors(start@).skip(level as int),
        decreases i / 2 - level,
    {
        proof {
            lemma_parent_shorter(dir@);
        }
        match parent(dir.as_str()) {
            Some(up) => {
                assert(ancestors(dir@) == seq![dir@] + ancestors(up@));
                assert(ancestors(up@).len() >= 1);
                assert(ancestors(start@).skip(level as int)[1] == ancestors(start@)[level + 1]);
                assert(ancestors(up@) =~= ancestors(dir@).skip(1));
                assert(ancestors(start@).skip(level as int).skip(1) =~= ancestors(start@).skip(
                    level as int + 1,
                ));
                dir = up;
            },
            None => {
                assert(ancestors(dir@).len() == 1);
                return None;
            },
        }
        level += 1;
    }
    let path = if i % 2 == 0 {
        let folder = resolve_relative(dir.as_str(), ".devcontainer");
        resolve_relative(folder.as_str(), "devcontainer.json")
    } else {
        resolve_relative(dir.as_str(), ".devcontainer.json")
    };
    Some(Candidate { workspace: dir, path })
}

/// The place of the first file among the probes, or their number where none is a file.
pub open spec fn first_file(probes: Seq<Probe>) -> nat
    decreases probes.len(),
{
    if probes.len() == 0 || probes[0] is File {
        0
    } else {
        1 + first_file(probes.drop_first())
    }
}

/// Whether this is how the search from `start` goes on once these probes were made.
pub open spec fn is_search_result(r: Search, start: Seq<char>, probes: Seq<Probe>) -> bool {
    let places = 2 * ancestors(start).len();
    let i = first_file(probes);
    match r {
        Search::Found(c) => i < probes.len() && i < places && c.is_nth(start, i as int),
        Search::Check(c) => i == probes.len() && i < places && c.is_nth(start, i as int),
        Search::NotFound(e) => i >= places && (e matches ConfigError::NotFound(dir) && dir@
            == start),
    }
}

/// Looks for the `devcontainer.json` that holds for the directory `start`, there and in every
/// directory above it. `probes` tells what was found at the places that were looked at so far, in
/// order. The search ends at the first file; a place that cannot be looked at does not end it. Where
/// no place is left, it ends in the error that there is no configuration.
pub fn find_config_path(start: &str, probes: &Vec<Probe>) -> (r: Search)
    ensures
        is_search_result(r, start@, probes@),
{
    let mut i: usize = 0;
    assert(probes@.skip(0) =~= probes@);
    while i < probes.len()
        invariant
            i <= probes@.len(),
            first_file(probes@) == i + first_file(probes@.skip(i as int)),
        decreases probes@.len() - i,
    {
        match candidate(start, i) {
            Some(c) => {
                if let Probe::File = probes[i] {
                    return Search::Found(c);
                }
            },
            None => {
                return Search::NotFound(ConfigError::NotFound(start.to_owned()));
            },
        }
        assert(probes@.skip(i as int).drop_first() =~= probes@.skip(i + 1));
        i += 1;
    }
    match candidate(start, i) {
        Some(c) => Search::Check(c),
        None => Search::NotFound(ConfigError::NotFound(start.to_owned())),
    }
}

/// What is said of a place that cannot be looked at.
pub fn probe_warning(path: &str, reason: &str) -> (r: String)
    ensures
        r@ == "devc: warning: cannot check "@ + path@ + ": "@ + reason@,
{
    let mut r = concat3("devc: warning: cannot check ", path, ": ");
    r.append(reason);
    r
}

// --- loading ---

/// A parsed config together with the paths it was resolved from.
pub struct LoadedConfig {
    pub config: DevContainerConfig,
    /// Path of the `devcontainer.json` file.
    pub config_path: String,
    /// Directory that holds the config file (the base of its relative paths).
    pub config_dir: String,
}

/// Why a configuration cannot be used.
pub enum ConfigError {
    /// There is none for this directory.
    NotFound(String),
    /// The file at this path describes a docker-compose setup.
    Compose(String),
}

impl ConfigError {
    /// The text of the error.
    pub open spec fn text(self) -> Seq<char> {
        match self {
            ConfigError::NotFound(start) => "No dev container configuration found in "@ + start@
                + " or any parent directory (looked for .devcontainer/devcontainer.json and .devcontainer.json)."@,
            ConfigError::Compose(path) => path@
                + ": docker-compose dev containers are not supported by devc."@,
        }
    }

    /// The text of the error.
    pub fn message(&self) -> (r: String)
        ensures
            r@ == self.text(),
    {
        match self {
            ConfigError::NotFound(start) => concat3(
                "No dev container configuration found in ",
                start.as_str(),
                " or any parent directory (looked for .devcontainer/devcontainer.json and .devcontainer.json).",
            ),
            ConfigError::Compose(path) => concat(
                path.as_str(),
                ": docker-compose dev containers are not supported by devc.",
            ),
        }
    }
}

/// Whether this is what the configuration that was parsed from `config_path` for the directory
/// `workspace` comes to.
pub open spec fn is_loaded(
    r: Result<LoadedConfig, ConfigError>,
    config: DevContainerConfig,
    config_path: Seq<char>,
    workspace: Seq<char>,
) -> bool {
    match r {
        Ok(loaded) => {
            &&& config.docker_compose_file is None
            &&& loaded.config == config
            &&& loaded.config_path@ == config_path
            &&& loaded.config_dir@ == match parent_dir(config_path) {
                Some(dir) => dir,
                None => workspace,
            }
        },
        Err(e) => config.docker_compose_file is Some && (e matches ConfigError::Compose(path)
            && path@ == config_path),
    }
}

/// Takes the configuration that was parsed from `config_path` for the directory `workspace`, and
/// rejects it where it is not supported.
pub fn load(config: DevContainerConfig, config_path: &str, workspace: &str) -> (r: Result<
    LoadedConfig,
    ConfigError,
>)
    ensures
        is_loaded(r, config, config_path@, workspace@),
{
    if config.docker_compose_file.is_some() {
        return Err(ConfigError::Compose(config_path.to_owned()));
    }
    let config_dir = match parent(config_path) {
        Some(dir) => dir,
        None => workspace.to_owned(),
    };
    Ok(LoadedConfig { config, config_path: config_path.to_owned(), config_dir })
}

// --- substitution ---

/// Values available to `${...}` substitution.
pub struct SubstitutionContext {
    pub local_workspace_folder: String,
    pub local_workspace_folder_basename: String,
    pub container_workspace_folder: String,
    pub container_workspace_folder_basename: String,
    /// The variables of the host environment.
    pub local_env: Vec<(String, String)>,
}

/// The place of the brace that closes the variable at the beginning of `s`, if one stands there.
pub open spec fn variable_end(s: Seq<char>) -> Option<int> {
    if s.len() >= 2 && s[0] == '$' && s[1] == '{' {
        match s.skip(2).index_of_first('}') {
            Some(i) => Some(i + 2),
            None => None,
        }
    } else {
        None
    }
}

/// `VAR` or `VAR:default` in the environment: the variable's value, else the default, else the
/// empty text.
pub open spec fn env_expansion(rest: Seq<char>, vars: SubstitutionContext) -> Seq<char> {
    let (name, default) = match spec_split_once(rest, ':') {
        Some(parts) => parts,
        None => (rest, seq![]),
    };
    match first_value(text_pairs(vars.local_env@), name) {
        Some(value) => value,
        None => default,
    }
}

/// The value of a variable, if it is one that is known.
pub open spec fn resolution(expr: Seq<char>, vars: SubstitutionContext) -> Option<Seq<char>> {
    if expr == "localWorkspaceFolder"@ {
        Some(vars.local_workspace_folder@)
    } else if expr == "localWorkspaceFolderBasename"@ {
        Some(vars.local_workspace_folder_basename@)
    } else if expr == "containerWorkspaceFolder"@ {
        Some(vars.container_workspace_folder@)
    } else if expr == "containerWorkspaceFolderBasename"@ {
        Some(vars.container_workspace_folder_basename@)
    } else if has_prefix(expr, "localEnv:"@) {
        Some(env_expansion(expr.skip("localEnv:"@.len() as int), vars))
    } else if has_prefix(expr, "containerEnv:"@) {
        Some(env_expansion(expr.skip("containerEnv:"@.len() as int), vars))
    } else {
        None
    }
}

/// What stands for the variable `${expr}`: its value, or itself where it is not known.
pub open spec fn expansion(expr: Seq<char>, vars: SubstitutionContext) -> Seq<char> {
    match resolution(expr, vars) {
        Some(value) => value,
        None => "${"@ + expr + "}"@,
    }
}

/// `s` with its variables replaced, from left to right; what was put in is not read again.
pub open spec fn substituted(s: Seq<char>, vars: SubstitutionContext) -> Seq<char>
    decreases s.len(),
{
    proof {
        s.skip(2).index_of_first_ensures('}');
    }
    if s.len() == 0 {
        seq![]
    } else {
        match variable_end(s) {
            Some(end) => expansion(s.subrange(2, end), vars) + substituted(s.skip(end + 1), vars),
            None => seq![s[0]] + substituted(s.drop_first(), vars),
        }
    }
}

/// The byte of `$`.
const DOLLAR: u8 = 0x24;

/// The byte of `{`.
const OPENING_BRACE: u8 = 0x7b;

/// The byte of `}`.
const CLOSING_BRACE: u8 = 0x7d;

/// The first two bytes of a text are those of `${` exactly where its first two characters are.
proof fn lemma_dollar_brace(s: Seq<char>)
    requires
        s.len() > 0,
    ensures
        ({
            let bytes = vstd::utf8::encode_utf8(s);
            bytes.len() >= 2 && bytes[0] == DOLLAR && bytes[1] == OPENING_BRACE <==> s.len() >= 2 && s[0]
                == '$' && s[1] == '{'
        }),
        s.len() >= 2 && s[0] == '$' && s[1] == '{' ==> vstd::utf8::encode_utf8(s.take(2)).len()
            == 2,
{
    let bytes = vstd::utf8::encode_utf8(s);
    let rest = s.drop_first();
    let rest_bytes = vstd::utf8::encode_utf8(rest);
    lemma_encode_scalar(s[0]);
    assert(bytes == vstd::utf8::encode_scalar(s[0] as u32) + rest_bytes);
    assert(bytes[0] == vstd::utf8::encode_scalar(s[0] as u32)[0]);
    if s[0] == '$' {
        assert(bytes[0] == DOLLAR);
        if rest.len() > 0 {
            lemma_encode_scalar(rest[0]);
            assert(rest_bytes == vstd::utf8::encode_scalar(rest[0] as u32)
                + vstd::utf8::encode_utf8(rest.drop_first()));
            assert(rest_bytes[0] == vstd::utf8::encode_scalar(rest[0] as u32)[0]);
            assert(bytes[1] == rest_bytes[0]);
            lemma_ascii_byte(rest[0], '{');
            if rest[0] == '{' {
                let both = s.take(2);
                assert(both.drop_first() =~= seq!['{']);
                assert(both.drop_first().drop_first() =~= Seq::<char>::empty());
                reveal_with_fuel(vstd::utf8::encode_utf8, 3);
            }
        }
    } else {
        lemma_ascii_byte(s[0], '$');
    }
}

/// Substitutes `${...}` variables in a string. Variables that are not known are left untouched.
pub fn substitute(input: &str, vars: &SubstitutionContext) -> (r: String)
    ensures
        r@ == substituted(input@, *vars),
{
    let mut out = String::new();
    let mut rest: &str = input;
    assert(substituted(input@, *vars) =~= out@ + substituted(rest@, *vars));
    while !rest.is_empty()
        invariant
            substituted(input@, *vars) == out@ + substituted(rest@, *vars),
        decreases rest@.len(),
    {
        let ghost before = out@;
        let bytes = rest.as_bytes();
        proof {
            lemma_dollar_brace(rest@);
            lemma_encode_scalar(rest@[0]);
        }
        if bytes.len() >= 2 && bytes[0] == DOLLAR && bytes[1] == OPENING_BRACE {
            let (opening, body) = split_text(rest, 2, Ghost(2));
            let body_bytes = body.as_bytes();
            proof {
                body@.index_of_first_ensures('}');
            }
            match find_byte(body_bytes, 0, CLOSING_BRACE) {
                Some(end) => {
                    let ghost k = lemma_first_ascii(body@, '}', end as int);
                    let (expr, closing) = split_text(body, end, Ghost(k));
                    proof {
                        assert(vstd::utf8::encode_utf8(closing@.take(1)).len() == 1) by {
                            reveal_with_fuel(vstd::utf8::encode_utf8, 2);
                            lemma_encode_scalar(closing@[0]);
                            assert(closing@.take(1).drop_first() =~= Seq::<char>::empty());
                        }
                    }
                    let (_, tail) = split_text(closing, 1, Ghost(1));
                    proof {
                        assert(variable_end(rest@) == Some(k + 2));
                        assert(expr@ =~= rest@.subrange(2, k + 2));
                        assert(tail@ =~= rest@.skip(k + 3));
                    }
                    match vars.resolve(expr) {
                        Some(value) => {
                            out.append(value.as_str());
                        },
                        None => {
                            let same_text = concat3("${", expr, "}");
                            out.append(same_text.as_str());
                        },
                    }
                    assert(out@ + substituted(tail@, *vars) =~= before + substituted(
                        rest@,
                        *vars,
                    ));
                    rest = tail;
                    continue ;
                },
                None => {
                    let ghost k = lemma_first_ascii(
                        body@,
                        '}',
                        vstd::utf8::encode_utf8(body@).len() as int,
                    );
                    assert(variable_end(rest@) is None);
                },
            }
        }
        // Copy one UTF-8 character.
        let n = utf8_char_len(bytes[0]);
        proof {
            vstd::utf8::encode_utf8_first_scalar(rest@);
            assert(vstd::utf8::encode_utf8(rest@.take(1)).len() == n) by {
                reveal_with_fuel(vstd::utf8::encode_utf8, 2);
                assert(rest@.take(1).drop_first() =~= Seq::<char>::empty());
            }
        }
        let (c, tail) = split_text(rest, n, Ghost(1));
        out.append(c);
        proof {
            assert(tail@ =~= rest@.drop_first());
            assert(c@ =~= seq![rest@[0]]);
            assert(out@ + substituted(tail@, *vars) =~= before + substituted(rest@, *vars));
        }
        rest = tail;
    }
    assert(out@ + substituted(rest@, *vars) =~= out@);
    out
}

impl SubstitutionContext {
    /// The value of the variable `expr`, if it is one that is known.
    pub fn resolve(&self, expr: &str) -> (r: Option<String>)
        ensures
            opt_text(r) == resolution(expr@, *self),
    {
        if same(expr, "localWorkspaceFolder") {
            Some(self.local_workspace_folder.clone())
        } else if same(expr, "localWorkspaceFolderBasename") {
            Some(self.local_workspace_folder_basename.clone())
        } else if same(expr, "containerWorkspaceFolder") {
            Some(self.container_workspace_folder.clone())
        } else if same(expr, "containerWorkspaceFolderBasename") {
            Some(self.container_workspace_folder_basename.clone())
        } else {
            match strip_prefix(expr, "localEnv:") {
                Some(rest) => Some(self.resolve_env(rest.as_str())),
                None => match strip_prefix(expr, "containerEnv:") {
                    Some(rest) => Some(self.resolve_env(rest.as_str())),
                    None => None,
                },
            }
        }
    }

    /// Resolves `VAR` or `VAR:default` against the host environment.
    pub fn resolve_env(&self, rest: &str) -> (r: String)
        ensures
            r@ == env_expansion(rest@, *self),
    {
        let (name, default) = match split_once(rest, ':') {
            Some(parts) => parts,
            None => (rest.to_owned(), String::new()),
        };
        match find_value(&self.local_env, name.as_str()) {
            Some(value) => value,
            None => default,
        }
    }
}

// --- laws ---

/// The text before the first `$` stays as it is.
pub proof fn law_plain_text_stays(before: Seq<char>, after: Seq<char>, vars: SubstitutionContext)
    requires
        !before.contains('$'),
    ensures
        substituted(before + after, vars) == before + substituted(after, vars),
    decreases before.len(),
{
    let s = before + after;
    if before.len() == 0 {
        assert(s =~= after);
        assert(before + substituted(after, vars) =~= substituted(after, vars));
    } else {
        let rest = before.drop_first();
        assert(before.contains(before[0]));
        assert forall|i: int| 0 <= i < rest.len() implies rest[i] != '$' by {
            assert(before.contains(before[i + 1]));
        }
        law_plain_text_stays(rest, after, vars);
        assert(s[0] == before[0]);
        assert(s.drop_first() =~= rest + after);
        assert(variable_end(s) is None);
        assert(substituted(s, vars) =~= before + substituted(after, vars));
    }
}

/// A text without a `$` is not changed.
pub proof fn law_no_variables(s: Seq<char>, vars: SubstitutionContext)
    requires
        !s.contains('$'),
    ensures
        substituted(s, vars) == s,
{
    law_plain_text_stays(s, seq![], vars);
    assert(s + Seq::<char>::empty() =~= s);
}

/// A variable is replaced by its value, and the text around it by what stands for that.
pub proof fn law_variable_is_replaced(
    before: Seq<char>,
    expr: Seq<char>,
    after: Seq<char>,
    vars: SubstitutionContext,
)
    requires
        !before.contains('$'),
        !expr.contains('}'),
    ensures
        substituted(before + ("${"@ + expr + "}"@ + after), vars) == before + expansion(expr, vars)
            + substituted(after, vars),
{
    reveal_strlit("${");
    reveal_strlit("}");
    let s = "${"@ + expr + "}"@ + after;
    law_plain_text_stays(before, s, vars);
    s.skip(2).index_of_first_ensures('}');
    let n = expr.len() as int;
    assert(s.skip(2)[n] == '}');
    assert(s.skip(2).contains('}'));
    let first = s.skip(2).index_of_first('}')->0;
    assert(first == n) by {
        if first < n {
            assert(s.skip(2)[first] == expr[first]);
            assert(expr.contains('}'));
        }
    }
    assert(s.subrange(2, n + 2) =~= expr);
    assert(s.skip(n + 3) =~= after);
    assert(substituted(s, vars) == expansion(expr, vars) + substituted(after, vars));
    assert(before + (expansion(expr, vars) + substituted(after, vars)) =~= before + expansion(
        expr,
        vars,
    ) + substituted(after, vars));
}

/// A variable that is not known is left untouched.
pub proof fn law_unknown_variable_stays(
    before: Seq<char>,
    expr: Seq<char>,
    after: Seq<char>,
    vars: SubstitutionContext,
)
    requires
        !before.contains('$'),
        !expr.contains('}'),
        resolution(expr, vars) is None,
    ensures
        substituted(before + ("${"@ + expr + "}"@ + after), vars) == before + ("${"@ + expr + "}"@)
            + substituted(after, vars),
{
    law_variable_is_replaced(before, expr, after, vars);
}

/// A text without a closing brace is not changed.
pub proof fn law_unclosed_variable_stays(s: Seq<char>, vars: SubstitutionContext)
    requires
        !s.contains('}'),
    ensures
        substituted(s, vars) == s,
    decreases s.len(),
{
    if s.len() > 0 {
        s.skip(2).index_of_first_ensures('}');
        assert(variable_end(s) is None) by {
            if s.len() >= 2 && s.skip(2).contains('}') {
                let i = s.skip(2).index_of('}');
                assert(s[i + 2] == '}');
            }
        }
        assert forall|i: int| 0 <= i < s.drop_first().len() implies s.drop_first()[i] != '}' by {
            assert(s.contains(s[i + 1]));
        }
        law_unclosed_variable_stays(s.drop_first(), vars);
        assert(substituted(s, vars) =~= s);
    }
}

/// The default of a variable of the environment is used where, and only where, it is not set.
pub proof fn law_environment_default(
    name: Seq<char>,
    default: Seq<char>,
    vars: SubstitutionContext,
)
    requires
        !name.contains(':'),
    ensures
        ({
            let value = first_value(text_pairs(vars.local_env@), name);
            &&& env_expansion(name + ":"@ + default, vars) == match value {
                Some(v) => v,
                None => default,
            }
            &&& env_expansion(name, vars) == match value {
                Some(v) => v,
                None => seq![],
            }
        }),
{
    reveal_strlit(":");
    let rest = name + ":"@ + default;
    let n = name.len() as int;
    assert(rest[n] == ':');
    assert(rest.contains(':'));
    rest.index_of_first_ensures(':');
    name.index_of_first_ensures(':');
    let first = rest.index_of_first(':')->0;
    if first < n {
        assert(rest[first] == name[first]);
        assert(name.contains(':'));
    }
    assert(rest.take(n) =~= name);
    assert(rest.skip(n + 1) =~= default);
}

/// The search ends at a file, and at the first one: nearer directories come before farther ones,
/// and in each the one in `.devcontainer` before the other.
pub proof fn law_first_file(probes: Seq<Probe>)
    ensures
        first_file(probes) <= probes.len(),
        first_file(probes) < probes.len() ==> probes[first_file(probes) as int] is File,
        forall|i: int| 0 <= i < first_file(probes) ==> !(#[trigger] probes[i] is File),
    decreases probes.len(),
{
    if probes.len() > 0 && !(probes[0] is File) {
        let rest = probes.drop_first();
        law_first_file(rest);
        let n = first_file(rest) as int;
        if n < rest.len() {
            assert(probes[n + 1] == rest[n]);
        }
        assert forall|i: int| 0 <= i < n + 1 implies !(#[trigger] probes[i] is File) by {
            if i > 0 {
                assert(probes[i] == rest[i - 1]);
            }
        }
    }
}

/// A place that cannot be looked at counts as one where nothing is: the search goes on.
pub proof fn law_unreadable_is_skipped(a: Seq<Probe>, b: Seq<Probe>)
    requires
        a.len() == b.len(),
        forall|i: int| 0 <= i < a.len() ==> (#[trigger] a[i] is File) == (b[i] is File),
    ensures
        first_file(a) == first_file(b),
    decreases a.len(),
{
    if a.len() > 0 {
        assert((a[0] is File) == (b[0] is File));
        let x = a.drop_first();
        let y = b.drop_first();
        assert forall|i: int| 0 <= i < x.len() implies (#[trigger] x[i] is File) == (y[i] is File) by {
            assert(x[i] == a[i + 1]);
        }
        law_unreadable_is_skipped(x, y);
    }
}

/// The search looks at every directory from the first one up to the root, and the workspace that
/// it finds is the directory where it began or one that this lies in.
pub proof fn law_search_climbs(start: Seq<char>, i: int)
    requires
        is_normal(start),
        0 <= i < 2 * ancestors(start).len(),
    ensures
        ancestors(start)[0] == start,
        ancestors(start).last() == seq!['/'],
        ({
            let workspace = ancestors(start)[i / 2];
            is_normal(workspace) && (workspace == start || lies_in(workspace, start))
        }),
{
    law_ancestors(start);
    let k = i / 2;
    assert(0 <= k < ancestors(start).len());
    assert(is_normal(ancestors(start)[k]));
}

/// The error for a missing configuration says that none was found, names the directory where the
/// search began, and says that its parents were searched too.
pub proof fn law_missing_config_is_explained(start: String)
    ensures
        ({
            let text = ConfigError::NotFound(start).text();
            let found = "No dev container configuration found"@;
            let rest = text.skip((found.len() + " in "@.len() + start@.len()) as int);
            &&& has_prefix(text, found)
            &&& text == found + " in "@ + start@ + rest
            &&& has_prefix(rest, " or any parent directory"@)
        }),
{
    reveal_strlit("No dev container configuration found");
    reveal_strlit("No dev container configuration found in ");
    reveal_strlit(" in ");
    reveal_strlit(" or any parent directory");
    reveal_strlit(
        " or any parent directory (looked for .devcontainer/devcontainer.json and .devcontainer.json).",
    );
    let text = ConfigError::NotFound(start).text();
    let found = "No dev container configuration found"@;
    let end =
        " or any parent directory (looked for .devcontainer/devcontainer.json and .devcontainer.json)."@;
    assert("No dev container configuration found in "@ =~= found + " in "@);
    assert(text.skip((found.len() + " in "@.len() + start@.len()) as int) =~= end);
    assert(end.take(" or any parent directory"@.len() as int) =~= " or any parent directory"@);
    assert(text.take(found.len() as int) =~= found);
    assert(text =~= found + " in "@ + start@ + end);
}

/// The parts that the value passed after `--mount` is made of.
pub open spec fn mount_parts(o: MountObject) -> Seq<Seq<char>> {
    let kind = match o.kind {
        Some(k) => "type="@ + k@,
        None => "type="@ + "bind"@,
    };
    match o.source {
        Some(s) => seq![kind, "source="@ + s@, "target="@ + o.target@],
        None => seq![kind, "target="@ + o.target@],
    }
}

/// The value passed after `--mount` for an object names its type, `bind` where none is given, its
/// source if there is one, and its target, between commas; a raw string is passed on as it is.
pub proof fn law_mount(mount: Mount)
    ensures
        match mount {
            Mount::Text(s) => mount_text(mount) == s@,
            Mount::Object(o) => mount_text(mount) == joined(mount_parts(o), seq![',']),
        },
        mount matches Mount::Object(o) ==> (forall|i: int|
            0 <= i < mount_parts(o).len() ==> !(#[trigger] mount_parts(o)[i]).contains(',')) ==> pieces(
            mount_text(mount),
            ',',
        ) == mount_parts(o),
{
    if let Mount::Object(o) = mount {
        reveal_strlit("source=");
        reveal_strlit("target=");
        reveal_strlit(",source=");
        reveal_strlit(",target=");
        reveal_with_fuel(joined, 3);
        let parts = mount_parts(o);
        let kind = parts[0];
        if o.source is Some {
            assert(parts.drop_last() =~= seq![kind, parts[1]]);
            assert(parts.drop_last().drop_last() =~= seq![kind]);
        } else {
            assert(parts.drop_last() =~= seq![kind]);
        }
        assert(joined(parts, seq![',']) =~= mount_text(mount));
        if forall|i: int| 0 <= i < parts.len() ==> !(#[trigger] parts[i]).contains(',') {
            law_pieces_of_joined(parts, ',');
        }
    }
}

/// The Dockerfile is the legacy one where it is given, else that of the build.
pub proof fn law_dockerfile(config: DevContainerConfig)
    ensures
        config.docker_file matches Some(file) ==> dockerfile_of(config) == Some(file@),
        config.docker_file is None && config.build is Some ==> dockerfile_of(config) == opt_text(
            config.build->0.dockerfile,
        ),
        config.docker_file is None && config.build is None ==> dockerfile_of(config) is None,
{
}

/// The build context is that of the build where it is given, else the legacy one, else the
/// directory of the configuration.
pub proof fn law_build_context(config: DevContainerConfig)
    ensures
        config.build is Some && config.build->0.context is Some ==> build_context_of(config)
            == config.build->0.context->0@,
        (config.build is None || config.build->0.context is None) && config.context is Some
            ==> build_context_of(config) == config.context->0@,
        (config.build is None || config.build->0.context is None) && config.context is None
            ==> build_context_of(config) == "."@,
{
}

/// A single value is a list of one.
pub proof fn law_one_or_many(image: String, images: Vec<String>, port: Port, ports: Vec<Port>)
    ensures
        CacheFrom::One(image).list() == seq![image],
        CacheFrom::Many(images).list() == images@,
        AppPort::One(port).list() == seq![port],
        AppPort::Many(ports).list() == ports@,
{
}

/// In every directory on the way up both places are looked at, the one in `.devcontainer` first,
/// and the directory is the workspace of what is found there.
pub proof fn law_candidates(start: Seq<char>, c: Candidate, level: int)
    requires
        0 <= level < ancestors(start).len(),
    ensures
        ({
            let dir = ancestors(start)[level];
            &&& c.is_nth(start, 2 * level) ==> c.workspace@ == dir && c.path@ == joined_path(
                joined_path(dir, ".devcontainer"@),
                "devcontainer.json"@,
            )
            &&& c.is_nth(start, 2 * level + 1) ==> c.workspace@ == dir && c.path@ == joined_path(
                dir,
                ".devcontainer.json"@,
            )
        }),
{
    assert((2 * level) / 2 == level && (2 * level) % 2 == 0);
    assert((2 * level + 1) / 2 == level && (2 * level + 1) % 2 == 1);
}

/// A character that does not begin a closed variable stays, and what follows it is replaced on its
/// own.
pub proof fn law_character_stays(c: char, rest: Seq<char>, vars: SubstitutionContext)
    requires
        c != '$' || rest.len() == 0 || rest[0] != '{' || !rest.contains('}'),
    ensures
        substituted(seq![c] + rest, vars) == seq![c] + substituted(rest, vars),
{
    let s = seq![c] + rest;
    assert(s.drop_first() =~= rest);
    s.skip(2).index_of_first_ensures('}');
    if s.len() >= 2 && s[0] == '$' && s[1] == '{' && s.skip(2).contains('}') {
        let i = s.skip(2).index_of('}');
        assert(rest[i + 1] == '}');
    }
    assert(variable_end(s) is None);
}

/// Each of the four folders stands for its variable.
pub proof fn law_folder_variables(before: Seq<char>, after: Seq<char>, vars: SubstitutionContext)
    requires
        !before.contains('$'),
    ensures
        substituted(before + ("${"@ + "localWorkspaceFolder"@ + "}"@ + after), vars) == before
            + vars.local_workspace_folder@ + substituted(after, vars),
        substituted(before + ("${"@ + "localWorkspaceFolderBasename"@ + "}"@ + after), vars)
            == before + vars.local_workspace_folder_basename@ + substituted(after, vars),
        substituted(before + ("${"@ + "containerWorkspaceFolder"@ + "}"@ + after), vars) == before
            + vars.container_workspace_folder@ + substituted(after, vars),
        substituted(before + ("${"@ + "containerWorkspaceFolderBasename"@ + "}"@ + after), vars)
            == before + vars.container_workspace_folder_basename@ + substituted(after, vars),
{
    reveal_strlit("localWorkspaceFolder");
    reveal_strlit("localWorkspaceFolderBasename");
    reveal_strlit("containerWorkspaceFolder");
    reveal_strlit("containerWorkspaceFolderBasename");
    assert("localWorkspaceFolder"@.len() == 20);
    assert("localWorkspaceFolderBasename"@.len() == 28);
    assert("containerWorkspaceFolder"@.len() == 24);
    assert("containerWorkspaceFolderBasename"@.len() == 32);
    assert(!"localWorkspaceFolder"@.contains('}'));
    assert(!"localWorkspaceFolderBasename"@.contains('}'));
    assert(!"containerWorkspaceFolder"@.contains('}'));
    assert(!"containerWorkspaceFolderBasename"@.contains('}'));
    law_variable_is_replaced(before, "localWorkspaceFolder"@, after, vars);
    law_variable_is_replaced(before, "localWorkspaceFolderBasename"@, after, vars);
    law_variable_is_replaced(before, "containerWorkspaceFolder"@, after, vars);
    law_variable_is_replaced(before, "containerWorkspaceFolderBasename"@, after, vars);
}

/// What follows `localEnv:` or `containerEnv:` is looked up in the environment.
pub proof fn law_environment_variables(
    before: Seq<char>,
    name: Seq<char>,
    after: Seq<char>,
    vars: SubstitutionContext,
)
    requires
        !before.contains('$'),
        !name.contains('}'),
    ensures
        substituted(before + ("${"@ + ("localEnv:"@ + name) + "}"@ + after), vars) == before
            + env_expansion(name, vars) + substituted(after, vars),
        substituted(before + ("${"@ + ("containerEnv:"@ + name) + "}"@ + after), vars) == before
            + env_expansion(name, vars) + substituted(after, vars),
{
    reveal_strlit("localEnv:");
    reveal_strlit("containerEnv:");
    reveal_strlit("localWorkspaceFolder");
    reveal_strlit("localWorkspaceFolderBasename");
    reveal_strlit("containerWorkspaceFolder");
    reveal_strlit("containerWorkspaceFolderBasename");
    let local = "localEnv:"@ + name;
    let container = "containerEnv:"@ + name;
    assert(local[5] == 'E');
    assert(container[9] == 'E');
    assert("localWorkspaceFolder"@[5] == 'W');
    assert("localWorkspaceFolderBasename"@[5] == 'W');
    assert("containerWorkspaceFolder"@[0] == 'c');
    assert("containerWorkspaceFolderBasename"@[0] == 'c');
    assert("containerWorkspaceFolder"@[9] == 'W');
    assert("containerWorkspaceFolderBasename"@[9] == 'W');
    assert(local[0] == 'l');
    assert(container[0] == 'c');
    assert("localWorkspaceFolder"@[0] == 'l');
    assert("localWorkspaceFolderBasename"@[0] == 'l');
    law_prefix_and_suffix(name, "localEnv:"@);
    law_prefix_and_suffix(name, "containerEnv:"@);
    assert(local.skip("localEnv:"@.len() as int) =~= name);
    assert(container.skip("containerEnv:"@.len() as int) =~= name);
    assert(!has_prefix(container, "localEnv:"@)) by {
        assert(container.take("localEnv:"@.len() as int)[0] == 'c');
        assert("localEnv:"@[0] == 'l');
    }
    assert(forall|i: int| 0 <= i < name.len() ==> #[trigger] name[i] != '}');
    assert(!local.contains('}'));
    assert(!container.contains('}'));
    law_variable_is_replaced(before, local, after, vars);
    law_variable_is_replaced(before, container, after, vars);
}

/// No other variables are known.
pub proof fn law_known_variables(expr: Seq<char>, vars: SubstitutionContext)
    requires
        expr != "localWorkspaceFolder"@,
        expr != "localWorkspaceFolderBasename"@,
        expr != "containerWorkspaceFolder"@,
        expr != "containerWorkspaceFolderBasename"@,
        !has_prefix(expr, "localEnv:"@),
        !has_prefix(expr, "containerEnv:"@),
    ensures
        resolution(expr, vars) is None,
        expansion(expr, vars) == "${"@ + expr + "}"@,
{
}

/// The search looks at the next place until there is a file or no place is left; it finds the first
/// file, and where there is none it says where it began.
pub proof fn law_search(
    r: Search,
    start: Seq<char>,
    before: Seq<Probe>,
    after: Seq<Probe>,
    c: Candidate,
)
    requires
        forall|i: int| 0 <= i < before.len() ==> !(#[trigger] before[i] is File),
        before.len() <= 2 * ancestors(start).len(),
    ensures
        is_search_result(r, start, before) && before.len() < 2 * ancestors(start).len() ==> (
        r matches Search::Check(c) && c.is_nth(start, before.len() as int)),
        is_search_result(r, start, before) && before.len() == 2 * ancestors(start).len() ==> (
        r matches Search::NotFound(ConfigError::NotFound(dir)) && dir@ == start),
        is_search_result(r, start, before + seq![Probe::File] + after) && before.len() < 2
            * ancestors(start).len() ==> (r matches Search::Found(c) && c.is_nth(
            start,
            before.len() as int,
        )),
{
    lemma_no_file_before(before, seq![]);
    assert(before + seq![] =~= before);
    lemma_no_file_before(before, seq![Probe::File] + after);
    assert(before + seq![Probe::File] + after =~= before + (seq![Probe::File] + after));
    assert((seq![Probe::File] + after)[0] is File);
}

proof fn lemma_no_file_before(before: Seq<Probe>, after: Seq<Probe>)
    requires
        forall|i: int| 0 <= i < before.len() ==> !(#[trigger] before[i] is File),
    ensures
        first_file(before + after) == before.len() + first_file(after),
    decreases before.len(),
{
    if before.len() > 0 {
        let rest = before.drop_first();
        assert(!(before[0] is File));
        assert((before + after)[0] == before[0]);
        assert forall|i: int| 0 <= i < rest.len() implies !(#[trigger] rest[i] is File) by {
            assert(!(before[i + 1] is File));
        }
        lemma_no_file_before(rest, after);
        assert((before + after).drop_first() =~= rest + after);
    } else {
        assert(before + after =~= after);
    }
}

/// A configuration is loaded as it was parsed, unless it is for docker-compose; its paths are
/// relative to the directory of its file.
pub proof fn law_loaded(
    r: Result<LoadedConfig, ConfigError>,
    config: DevContainerConfig,
    dir: Seq<char>,
    name: Seq<char>,
    workspace: Seq<char>,
)
    requires
        is_loaded(r, config, dir + seq!['/'] + name, workspace),
        dir.len() > 0,
        !name.contains('/'),
    ensures
        match r {
            Ok(loaded) => config.docker_compose_file is None && loaded.config == config
                && loaded.config_path@ == dir + seq!['/'] + name && loaded.config_dir@ == dir,
            Err(ConfigError::Compose(path)) => config.docker_compose_file is Some && path@ == dir
                + seq!['/'] + name,
            Err(ConfigError::NotFound(_)) => false,
        },
{
    let path = dir + seq!['/'] + name;
    law_rsplit_once(dir, '/', name);
    assert(path[dir.len() as int] == '/');
    path.index_of_last_ensures('/');
    let i = path.index_of_last('/')->0;
    assert(path.take(i) == dir);
    assert(path.take(i).len() == i);
}

/// The refusal of a docker-compose setup begins with the path of its configuration.
pub proof fn law_compose_is_explained(path: String)
    ensures
        has_prefix(ConfigError::Compose(path).text(), path@),
        has_prefix(ConfigError::Compose(path).text().skip(path@.len() as int), ": docker-compose"@),
{
    reveal_strlit(": docker-compose dev containers are not supported by devc.");
    reveal_strlit(": docker-compose");
    let rest = ": docker-compose dev containers are not supported by devc."@;
    law_prefix_and_suffix(rest, path@);
    assert((path@ + rest).skip(path@.len() as int) =~= rest);
    let start = ": docker-compose"@;
    assert(rest.take(start.len() as int) =~= start);
}

} // verus!
