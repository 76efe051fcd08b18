//! Bringing up the dev container of a workspace and running a command in it.
use crate::config::{
    mount_text, substitute, substituted, AppPort, Command, DevContainerConfig, Mount, MountObject,
    Port, StringOrArgv, SubstitutionContext,
};
use crate::docker::{assignment_list, assignments, optional_flag, pair_list, switch};
use crate::features::{FeatureRuntime, RuntimeView};
use crate::lists::{
    copy_texts, flag_at, flagged, law_flagged, opt_text, text_lists, texts, Args,
};
use crate::sorted_map::{ascending, text_less, SortedMap};
use crate::text::{
    alphanumeric, assignment, concat3, decimal, decimal_text, has_prefix, has_suffix, hex,
    hex_number, hex_text, is_alphanumeric, is_digit, joined, law_decimal, law_hex, law_letter_case,
    law_pieces_of_joined, law_trimmed, law_trimmed_end, law_trimmed_start, lower, pieces,
    sixteen_to_the, slice_text, to_chars, to_lower, trim, trimmed, trimmed_end, trimmed_start,
    CharClass,
};
use std::collections::hash_map::DefaultHasher;
use std::hash::Hasher;
use vstd::prelude::*;
use vstd::std_specs::hash::DefaultHasherAdditionalSpecFns;

verus! {

// --- substitution in a configuration ---

/// The substituted contents of an optional string.
pub open spec fn opt_substituted(o: Option<String>, vars: SubstitutionContext) -> Option<
    Seq<char>,
> {
    match o {
        Some(s) => Some(substituted(s@, vars)),
        None => None,
    }
}

/// Whether `after` is `before` with its variables replaced: a raw string as a whole, of an object
/// the source and the target.
pub open spec fn mount_substituted(
    before: Mount,
    after: Mount,
    vars: SubstitutionContext,
) -> bool {
    match (before, after) {
        (Mount::Text(s), Mount::Text(t)) => t@ == substituted(s@, vars),
        (Mount::Object(o), Mount::Object(p)) => {
            &&& p.kind == o.kind
            &&& opt_text(p.source) == opt_substituted(o.source, vars)
            &&& p.target@ == substituted(o.target@, vars)
        },
        _ => false,
    }
}

fn sub_opt(o: &Option<String>, vars: &SubstitutionContext) -> (r: Option<String>)
    ensures
        opt_text(r) == opt_substituted(*o, *vars),
{
    match o {
        Some(s) => Some(substitute(s.as_str(), vars)),
        None => None,
    }
}

fn sub_map(map: &SortedMap<String>, vars: &SubstitutionContext) -> (r: SortedMap<String>)
    ensures
        r.keys() == map.keys(),
        forall|i: int|
            0 <= i < map.entries().len() ==> (#[trigger] r.entries()[i]).1@ == substituted(
                map.entries()[i].1@,
                *vars,
            ),
{
    let mut values: Vec<String> = Vec::new();
    let n = map.len();
    let mut i: usize = 0;
    while i < n
        invariant
            i <= n == map.entries().len(),
            values@.len() == i,
            forall|j: int|
                0 <= j < i ==> (#[trigger] values@[j])@ == substituted(map.entries()[j].1@, *vars),
        decreases n - i,
    {
        values.push(substitute(map.value(i).as_str(), vars));
        i += 1;
    }
    map.with_values(values)
}

fn sub_opt_map(map: &SortedMap<Option<String>>, vars: &SubstitutionContext) -> (r: SortedMap<
    Option<String>,
>)
    ensures
        r.keys() == map.keys(),
        forall|i: int|
            0 <= i < map.entries().len() ==> opt_text((#[trigger] r.entries()[i]).1)
                == opt_substituted(map.entries()[i].1, *vars),
{
    let mut values: Vec<Option<String>> = Vec::new();
    let n = map.len();
    let mut i: usize = 0;
    while i < n
        invariant
            i <= n == map.entries().len(),
            values@.len() == i,
            forall|j: int|
                0 <= j < i ==> opt_text(#[trigger] values@[j]) == opt_substituted(
                    map.entries()[j].1,
                    *vars,
                ),
        decreases n - i,
    {
        values.push(sub_opt(map.value(i), vars));
        i += 1;
    }
    map.with_values(values)
}

fn sub_list(list: &Vec<String>, vars: &SubstitutionContext) -> (r: Vec<String>)
    ensures
        texts(r@) == list@.map_values(|s: String| substituted(s@, *vars)),
{
    let mut r: Vec<String> = Vec::new();
    let mut i: usize = 0;
    while i < list.len()
        invariant
            i <= list@.len(),
            r@.len() == i,
            forall|j: int| 0 <= j < i ==> (#[trigger] r@[j])@ == substituted(list@[j]@, *vars),
        decreases list@.len() - i,
    {
        r.push(substitute(list[i].as_str(), vars));
        i += 1;
    }
    assert(texts(r@) =~= list@.map_values(|s: String| substituted(s@, *vars)));
    r
}

fn sub_mounts(mounts: &Vec<Mount>, vars: &SubstitutionContext) -> (r: Vec<Mount>)
    ensures
        r@.len() == mounts@.len(),
        forall|i: int|
            0 <= i < mounts@.len() ==> mount_substituted(mounts@[i], #[trigger] r@[i], *vars),
{
    let mut r: Vec<Mount> = Vec::new();
    let mut i: usize = 0;
    while i < mounts.len()
        invariant
            i <= mounts@.len(),
            r@.len() == i,
            forall|j: int| 0 <= j < i ==> mount_substituted(mounts@[j], #[trigger] r@[j], *vars),
        decreases mounts@.len() - i,
    {
        let mount = match &mounts[i] {
            Mount::Text(s) => Mount::Text(substitute(s.as_str(), vars)),
            Mount::Object(o) => Mount::Object(
                MountObject {
                    kind: o.kind.clone(),
                    source: sub_opt(&o.source, vars),
                    target: substitute(o.target.as_str(), vars),
                },
            ),
        };
        r.push(mount);
        i += 1;
    }
    r
}

/// Whether `after` is `before` with the variables replaced in the string-bearing fields that are
/// acted on. Every other field stays as it is.
pub open spec fn config_substituted(
    before: DevContainerConfig,
    after: DevContainerConfig,
    vars: SubstitutionContext,
) -> bool {
    &&& opt_text(after.workspace_folder) == opt_substituted(before.workspace_folder, vars)
    &&& opt_text(after.workspace_mount) == opt_substituted(before.workspace_mount, vars)
    &&& opt_text(after.remote_user) == opt_substituted(before.remote_user, vars)
    &&& opt_text(after.container_user) == opt_substituted(before.container_user, vars)
    &&& after.container_env.keys() == before.container_env.keys()
    &&& forall|i: int|
        0 <= i < before.container_env.entries().len() ==> (
        #[trigger] after.container_env.entries()[i]).1@ == substituted(
            before.container_env.entries()[i].1@,
            vars,
        )
    &&& after.remote_env.keys() == before.remote_env.keys()
    &&& forall|i: int|
        0 <= i < before.remote_env.entries().len() ==> opt_text(
            (#[trigger] after.remote_env.entries()[i]).1,
        ) == opt_substituted(before.remote_env.entries()[i].1, vars)
    &&& texts(after.run_args@) == before.run_args@.map_values(|s: String| substituted(s@, vars))
    &&& after.mounts@.len() == before.mounts@.len()
    &&& forall|i: int|
        0 <= i < before.mounts@.len() ==> mount_substituted(
            before.mounts@[i],
            #[trigger] after.mounts@[i],
            vars,
        )
    &&& after == (DevContainerConfig {
        workspace_folder: after.workspace_folder,
        workspace_mount: after.workspace_mount,
        remote_user: after.remote_user,
        container_user: after.container_user,
        container_env: after.container_env,
        remote_env: after.remote_env,
        run_args: after.run_args,
        mounts: after.mounts,
        ..before
    })
}

/// Applies `${...}` substitution to the string-bearing fields of the config that are acted on.
pub fn substitute_config(config: DevContainerConfig, vars: &SubstitutionContext) -> (r:
    DevContainerConfig)
    ensures
        config_substituted(config, r, *vars),
{
    let mut r = config;
    r.workspace_folder = sub_opt(&r.workspace_folder, vars);
    r.workspace_mount = sub_opt(&r.workspace_mount, vars);
    r.remote_user = sub_opt(&r.remote_user, vars);
    r.container_user = sub_opt(&r.container_user, vars);
    r.container_env = sub_map(&r.container_env, vars);
    r.remote_env = sub_opt_map(&r.remote_env, vars);
    r.run_args = sub_list(&r.run_args, vars);
    r.mounts = sub_mounts(&r.mounts, vars);
    r
}

// --- the arguments of docker run ---

/// The label whose value is the workspace folder.
pub const LABEL_LOCAL_FOLDER: &'static str = "devcontainer.local_folder";

/// The label whose value is the path of the configuration.
pub const LABEL_CONFIG_FILE: &'static str = "devcontainer.config_file";

/// The label of every container that is created.
pub const MANAGED: &'static str = "devc.managed=true";

/// The value passed after `-p`: a bare number is bound to the loopback interface of the host.
pub open spec fn port_text(port: Port) -> Seq<char> {
    match port {
        Port::Number(n) => "127.0.0.1:"@ + decimal(n as nat) + ":"@ + decimal(n as nat),
        Port::Text(s) => s@,
    }
}

/// The values passed after `-p` for a list of ports.
pub open spec fn port_texts(ports: Seq<Port>) -> Seq<Seq<char>> {
    ports.map_values(|p: Port| port_text(p))
}

/// The ports of `appPort`.
pub open spec fn app_ports(config: DevContainerConfig) -> Seq<Port> {
    match config.app_port {
        Some(app) => app.list(),
        None => seq![],
    }
}

/// The bind mount of the workspace: the one that is configured, else one of the workspace at its
/// folder in the container, cached where the host is no Linux.
pub open spec fn workspace_mount(
    workspace: Seq<char>,
    config: DevContainerConfig,
    folder: Seq<char>,
    linux: bool,
) -> Seq<char> {
    match config.workspace_mount {
        Some(mount) => mount@,
        None => {
            let plain = "type=bind,source="@ + workspace + ",target="@ + folder;
            if linux {
                plain
            } else {
                plain + ",consistency=cached"@
            }
        },
    }
}

/// The text that each feature's entrypoint and a line break make.
pub open spec fn entrypoint_lines(entrypoints: Seq<Seq<char>>) -> Seq<char>
    decreases entrypoints.len(),
{
    if entrypoints.len() == 0 {
        seq![]
    } else {
        entrypoint_lines(entrypoints.drop_last()) + entrypoints.last() + "\n"@
    }
}

/// The script that the container's main process runs: the entrypoints of the features, in order,
/// and then a loop that ends promptly on SIGTERM.
pub open spec fn keep_alive_script(entrypoints: Seq<Seq<char>>) -> Seq<char> {
    "echo Container started\ntrap \"exit 0\" 15\n"@ + entrypoint_lines(entrypoints)
        + "exec \"$@\"\nwhile sleep 1 & wait $!; do :; done"@
}

/// The image and the command of the container: unless `overrideCommand` is false, a shell that
/// keeps the container alive.
pub open spec fn entry_args(
    config: DevContainerConfig,
    image: Seq<char>,
    runtime: RuntimeView,
) -> Seq<Seq<char>> {
    if config.override_command == Some(false) {
        seq![image]
    } else {
        seq![
            "--entrypoint"@,
            "/bin/sh"@,
            image,
            "-c"@,
            keep_alive_script(runtime.entrypoints),
        ]
    }
}

/// The arguments of `docker run`, after the verb.
pub open spec fn run_line(
    workspace: Seq<char>,
    config: DevContainerConfig,
    folder: Seq<char>,
    labels: Seq<(String, String)>,
    image: Seq<char>,
    runtime: RuntimeView,
    linux: bool,
) -> Seq<Seq<char>> {
    // Detached.
    seq!["-d"@]
    // Forwarded ports.
     + flagged("-p"@, port_texts(config.forward_ports@)) + flagged(
        "-p"@,
        port_texts(app_ports(config)),
    )
    // The workspace and the other mounts.
     + seq!["--mount"@, workspace_mount(workspace, config, folder, linux)] + flagged(
        "--mount"@,
        config.mounts@.map_values(|m: Mount| mount_text(m)),
    )
    // Labels.
     + flagged("-l"@, assignments(labels)) + seq!["-l"@, MANAGED@]
    // Environment and user.
     + flagged("-e"@, assignments(config.container_env.entries())) + optional_flag(
        "-u"@,
        opt_text(config.container_user),
    )
    // Arguments that are passed through.
     + texts(config.run_args@)
    // Flags that the configuration or a feature asks for.
     + switch("--init"@, config.init == Some(true) || runtime.init) + switch(
        "--privileged"@,
        config.privileged == Some(true) || runtime.privileged,
    ) + flagged("--cap-add"@, texts(config.cap_add@)) + flagged(
        "--cap-add"@,
        runtime.cap_add,
    ) + flagged("--security-opt"@, texts(config.security_opt@)) + flagged(
        "--security-opt"@,
        runtime.security_opt,
    ) + entry_args(config, image, runtime)
}

fn port_string(port: &Port) -> (r: String)
    ensures
        r@ == port_text(*port),
{
    match port {
        Port::Number(n) => {
            let number = decimal_text(*n as u64);
            let mut r = concat3("127.0.0.1:", number.as_str(), ":");
            r.append(number.as_str());
            r
        },
        Port::Text(s) => s.clone(),
    }
}

fn port_strings(ports: &Vec<Port>) -> (r: Vec<String>)
    ensures
        texts(r@) == port_texts(ports@),
{
    let mut r: Vec<String> = Vec::new();
    let mut i: usize = 0;
    while i < ports.len()
        invariant
            i <= ports@.len(),
            texts(r@) =~= port_texts(ports@).take(i as int),
        decreases ports@.len() - i,
    {
        let ghost before = r@;
        r.push(port_string(&ports[i]));
        assert(texts(r@) =~= texts(before).push(port_texts(ports@)[i as int]));
        i += 1;
    }
    assert(port_texts(ports@).take(i as int) =~= port_texts(ports@));
    r
}

fn mount_strings(mounts: &Vec<Mount>) -> (r: Vec<String>)
    ensures
        texts(r@) == mounts@.map_values(|m: Mount| mount_text(m)),
{
    let mut r: Vec<String> = Vec::new();
    let mut i: usize = 0;
    while i < mounts.len()
        invariant
            i <= mounts@.len(),
            r@.len() == i,
            forall|j: int| 0 <= j < i ==> (#[trigger] r@[j])@ == mount_text(mounts@[j]),
        decreases mounts@.len() - i,
    {
        r.push(mounts[i].to_mount_string());
        i += 1;
    }
    assert(texts(r@) =~= mounts@.map_values(|m: Mount| mount_text(m)));
    r
}

/// Assembles the argument list for `docker run` (everything after the `run` verb).
pub fn build_run_args(
    workspace: &str,
    config: &DevContainerConfig,
    container_workspace_folder: &str,
    labels: &Vec<(String, String)>,
    image: &str,
    feature_runtime: &FeatureRuntime,
    linux: bool,
) -> (r: Vec<String>)
    ensures
        texts(r@) == run_line(
            workspace@,
            *config,
            container_workspace_folder@,
            labels@,
            image@,
            feature_runtime@,
            linux,
        ),
        ascending(config.container_env.entries()),
{
    let mut args = Args::new();
    args.add_text("-d");
    assert(args@ =~= seq!["-d"@]);
    args.add_flags("-p", &port_strings(&config.forward_ports));
    let ghost before = args@;
    if let Some(app) = &config.app_port {
        args.add_flags("-p", &port_strings(&app.as_ports()));
    }
    assert(args@ =~= before + flagged("-p"@, port_texts(app_ports(*config))));

    let mount = match &config.workspace_mount {
        Some(mount) => mount.clone(),
        None => {
            let mut mount = concat3("type=bind,source=", workspace, ",target=");
            mount.append(container_workspace_folder);
            if !linux {
                mount.append(",consistency=cached");
            }
            mount
        },
    };
    args.add_flag("--mount", mount.as_str());
    args.add_flags("--mount", &mount_strings(&config.mounts));

    args.add_flags("-l", &pair_list(labels));
    args.add_flag("-l", MANAGED);
    args.add_flags("-e", &assignment_list(&config.container_env));
    let ghost before = args@;
    if let Some(user) = &config.container_user {
        args.add_flag("-u", user.as_str());
    }
    assert(args@ =~= before + optional_flag("-u"@, opt_text(config.container_user)));
    args.add_list(&config.run_args);

    let init = config.init.unwrap_or(false) || feature_runtime.init;
    let ghost before = args@;
    if init {
        args.add_text("--init");
    }
    assert(args@ =~= before + switch("--init"@, init));
    let privileged = config.privileged.unwrap_or(false) || feature_runtime.privileged;
    let ghost before = args@;
    if privileged {
        args.add_text("--privileged");
    }
    assert(args@ =~= before + switch("--privileged"@, privileged));
    args.add_flags("--cap-add", &config.cap_add);
    args.add_flags("--cap-add", &feature_runtime.cap_add);
    args.add_flags("--security-opt", &config.security_opt);
    args.add_flags("--security-opt", &feature_runtime.security_opt);

    let ghost before = args@;
    if config.override_command.unwrap_or(true) {
        let script = keep_alive(&feature_runtime.entrypoints);
        args.add_flag("--entrypoint", "/bin/sh");
        args.add_text(image);
        args.add_flag("-c", script.as_str());
    } else {
        args.add_text(image);
    }
    assert(args@ =~= before + entry_args(*config, image@, feature_runtime@));
    args.into_list()
}

/// The keep-alive command used as the container's main process.
pub fn keep_alive(entrypoints: &Vec<String>) -> (r: String)
    ensures
        r@ == keep_alive_script(texts(entrypoints@)),
{
    let mut lines = String::new();
    let ghost all = texts(entrypoints@);
    let mut i: usize = 0;
    assert(all.take(0) =~= seq![]);
    while i < entrypoints.len()
        invariant
            i <= entrypoints@.len(),
            all == texts(entrypoints@),
            lines@ == entrypoint_lines(all.take(i as int)),
        decreases entrypoints@.len() - i,
    {
        lines.append(entrypoints[i].as_str());
        lines.append("\n");
        assert(all.take(i + 1).drop_last() =~= all.take(i as int));
        i += 1;
    }
    assert(all.take(i as int) =~= all);
    concat3(
        "echo Container started\ntrap \"exit 0\" 15\n",
        lines.as_str(),
        "exec \"$@\"\nwhile sleep 1 & wait $!; do :; done",
    )
}

// --- commands ---

/// The argument vector that runs a shell string.
pub open spec fn shell_line(s: Seq<char>) -> Seq<Seq<char>> {
    seq!["/bin/sh"@, "-c"@, s]
}

/// The argument vector of one of several named commands.
pub open spec fn invocation(command: StringOrArgv) -> Seq<Seq<char>> {
    match command {
        StringOrArgv::Shell(s) => shell_line(s@),
        StringOrArgv::Argv(a) => texts(a@),
    }
}

/// The argument vectors that a lifecycle command stands for, in the order in which they are run.
pub open spec fn invocations(command: Command) -> Seq<Seq<Seq<char>>> {
    match command {
        Command::Shell(s) => seq![shell_line(s@)],
        Command::Argv(a) => seq![texts(a@)],
        Command::Named(map) => map.entries().map_values(
            |e: (String, StringOrArgv)| invocation(e.1),
        ),
    }
}

/// Whether the entries of a named map stand in ascending order of their names, in which they are
/// run.
pub open spec fn in_key_order(command: Command) -> bool {
    command matches Command::Named(map) ==> ascending(map.entries())
}

/// The argument vector that runs a shell string.
pub fn shell_argv(s: &str) -> (r: Vec<String>)
    ensures
        texts(r@) == shell_line(s@),
{
    let mut args = Args::new();
    args.add_flag("/bin/sh", "-c");
    args.add_text(s);
    assert(args@ =~= shell_line(s@));
    args.into_list()
}

/// Expands a lifecycle command into one or more invocations. A shell string becomes
/// `/bin/sh -c <string>`; an argument vector is used directly; a named map yields one invocation
/// per entry.
pub fn command_invocations(cmd: &Command) -> (r: Vec<Vec<String>>)
    ensures
        text_lists(r@) == invocations(*cmd),
        in_key_order(*cmd),
{
    let mut r: Vec<Vec<String>> = Vec::new();
    match cmd {
        Command::Shell(s) => {
            r.push(shell_argv(s.as_str()));
            assert(text_lists(r@) =~= invocations(*cmd));
        },
        Command::Argv(a) => {
            r.push(copy_texts(a));
            assert(text_lists(r@) =~= invocations(*cmd));
        },
        Command::Named(map) => {
            let n = map.len();
            let mut i: usize = 0;
            while i < n
                invariant
                    i <= n == map.entries().len(),
                    r@.len() == i,
                    forall|j: int|
                        0 <= j < i ==> texts((#[trigger] r@[j])@) == invocation(map.entries()[j].1),
                decreases n - i,
            {
                let argv = match map.value(i) {
                    StringOrArgv::Shell(s) => shell_argv(s.as_str()),
                    StringOrArgv::Argv(a) => copy_texts(a),
                };
                r.push(argv);
                i += 1;
            }
            assert(text_lists(r@) =~= invocations(*cmd));
        },
    }
    r
}

/// The user that commands in the container run as: remoteUser, else containerUser.
pub open spec fn remote_user_of(config: DevContainerConfig) -> Option<Seq<char>> {
    match config.remote_user {
        Some(user) => Some(user@),
        None => opt_text(config.container_user),
    }
}

/// The user to exec commands and the shell as: remoteUser, else containerUser.
pub fn effective_remote_user(config: &DevContainerConfig) -> (r: Option<String>)
    ensures
        opt_text(r) == remote_user_of(*config),
{
    match &config.remote_user {
        Some(user) => Some(user.clone()),
        None => config.container_user.clone(),
    }
}

/// The entries that have a value, in order.
pub open spec fn set_entries(entries: Seq<(String, Option<String>)>) -> Seq<(String, String)>
    decreases entries.len(),
{
    if entries.len() == 0 {
        seq![]
    } else {
        let before = set_entries(entries.drop_last());
        match entries.last().1 {
            Some(value) => before.push((entries.last().0, value)),
            None => before,
        }
    }
}

/// remoteEnv as key/value pairs, dropping entries explicitly set to null.
pub fn remote_env_pairs(config: &DevContainerConfig) -> (r: Vec<(String, String)>)
    ensures
        r@ == set_entries(config.remote_env.entries()),
        ascending(r@),
{
    let ghost all = config.remote_env.entries();
    let mut r: Vec<(String, String)> = Vec::new();
    let n = config.remote_env.len();
    let mut i: usize = 0;
    while i < n
        invariant
            i <= n == all.len(),
            all == config.remote_env.entries(),
            r@ == set_entries(all.take(i as int)),
        decreases n - i,
    {
        assert(all.take(i + 1).drop_last() =~= all.take(i as int));
        if let Some(value) = config.remote_env.value(i) {
            r.push((config.remote_env.key(i).clone(), value.clone()));
        }
        i += 1;
    }
    assert(all.take(i as int) =~= all);
    proof {
        law_set_entries_ascend(all);
    }
    r
}

/// The command that opens a shell: bash, or sh where there is none.
pub open spec fn shell_command() -> Seq<Seq<char>> {
    shell_line("exec \"$(command -v bash || command -v sh)\""@)
}

/// The command that opens an interactive shell.
pub fn open_shell() -> (r: Vec<String>)
    ensures
        texts(r@) == shell_command(),
{
    shell_argv("exec \"$(command -v bash || command -v sh)\"")
}

/// The exit code of a finished process: its own, else 128 and the signal that ended it, else 1.
pub fn exit_code(code: Option<i32>, signal: Option<u8>) -> (r: i32)
    ensures
        r == match (code, signal) {
            (Some(c), _) => c as int,
            (None, Some(s)) => 128 + s,
            (None, None) => 1,
        },
{
    match (code, signal) {
        (Some(c), _) => c,
        (None, Some(s)) => 128 + s as i32,
        (None, None) => 1,
    }
}

// --- names ---

/// What `Path::hash` writes to a hasher for a path. `platform` stands for all else that decides it:
/// the word size and byte order of the machine, its separators, the version of the standard
/// library.
pub uninterp spec fn path_writes(path: Seq<char>, platform: nat) -> Seq<Seq<u8>>;

/// Feeds a path to the hasher with `Path::hash`. It writes what `path_writes` names for the path on
/// some platform; on which one is not said, so nothing is claimed from one machine to another.
#[verifier::external_body]
fn feed_path(path: &str, hasher: &mut DefaultHasher)
    ensures
        exists|platform: nat|
            final(hasher)@ == old(hasher)@ + #[trigger] path_writes(path@, platform),
{
    std::hash::Hash::hash(std::path::Path::new(path), hasher)
}

/// The text of a hash: the last eight digits of its hexadecimal form.
pub open spec fn text_of_hash(hash: u64) -> Seq<char> {
    hex(hash as nat, 8)
}

/// The text of a hash.
pub fn hash_text(hash: u64) -> (r: String)
    ensures
        r@ == text_of_hash(hash),
{
    hex_text(hash, 8)
}

/// A short hash of the workspace path, for image tags that differ between workspaces: what the
/// default hasher makes of what the path writes to it on this machine.
pub fn short_hash(path: &str) -> (r: String)
    ensures
        exists|platform: nat|
            r@ == text_of_hash(
                DefaultHasher::spec_finish(#[trigger] path_writes(path@, platform)),
            ),
{
    let mut hasher = DefaultHasher::new();
    let ghost before = hasher@;
    feed_path(path, &mut hasher);
    proof {
        let platform = choose|platform: nat|
            hasher@ == before + #[trigger] path_writes(path@, platform);
        assert(hasher@ =~= path_writes(path@, platform));
    }
    let hash = hasher.finish();
    hash_text(hash)
}

/// The beginning of a container id, as it is shown to the user.
pub open spec fn short_id(id: Seq<char>) -> Seq<char> {
    if id.len() <= 12 {
        id
    } else {
        id.take(12)
    }
}

/// The first twelve characters of a container id.
pub fn short(id: &str) -> (r: String)
    ensures
        r@ == short_id(id@),
{
    let chars = to_chars(id);
    if chars.len() <= 12 {
        id.to_owned()
    } else {
        let r = slice_text(&chars, 0, 12);
        assert(r@ =~= id@.take(12));
        r
    }
}

/// A character as it may stand in an image tag.
pub open spec fn tag_char(c: char) -> char {
    if is_alphanumeric(c) || c == '.' || c == '_' || c == '-' {
        lower(c)
    } else {
        '-'
    }
}

/// A text as it may stand in an image tag.
pub open spec fn sanitized(s: Seq<char>) -> Seq<char> {
    let kept = trimmed(s.map_values(|c: char| tag_char(c)), CharClass::Punctuation);
    if kept.len() == 0 {
        "workspace"@
    } else {
        kept
    }
}

/// Sanitizes a string for use in a docker image tag (lowercase alnum/._-).
pub fn sanitize(s: &str) -> (r: String)
    ensures
        r@ == sanitized(s@),
{
    let chars = to_chars(s);
    let mut cleaned = String::new();
    let mut i: usize = 0;
    while i < chars.len()
        invariant
            i <= chars@.len(),
            chars@ == s@,
            cleaned@ =~= s@.take(i as int).map_values(|c: char| tag_char(c)),
        decreases chars@.len() - i,
    {
        let c = chars[i];
        if alphanumeric(c) || c == '.' || c == '_' || c == '-' {
            cleaned.push(to_lower(c));
        } else {
            cleaned.push('-');
        }
        i += 1;
    }
    assert(s@.take(i as int) =~= s@);
    let kept = trim(cleaned.as_str(), CharClass::Punctuation);
    if kept.as_str().is_empty() {
        "workspace".to_owned()
    } else {
        kept
    }
}

// --- laws ---

/// The characters of an image tag.
pub open spec fn is_tag_char(c: char) -> bool {
    is_digit(c) || 'a' <= c <= 'z' || c == '.' || c == '_' || c == '-'
}

/// A sanitized text is not empty, holds lower-case ASCII letters, digits, `.`, `_` and `-` only,
/// and neither begins nor ends with a punctuation character.
pub proof fn law_sanitized_is_tag(s: Seq<char>)
    ensures
        ({
            let tag = sanitized(s);
            &&& tag.len() > 0
            &&& forall|i: int| 0 <= i < tag.len() ==> is_tag_char(#[trigger] tag[i])
            &&& !CharClass::Punctuation.has_char(tag[0])
            &&& !CharClass::Punctuation.has_char(tag.last())
        }),
{
    reveal_strlit("workspace");
    let cleaned = s.map_values(|c: char| tag_char(c));
    let front = trimmed_start(cleaned, CharClass::Punctuation);
    let kept = trimmed_end(front, CharClass::Punctuation);
    law_trimmed_start(cleaned, CharClass::Punctuation);
    law_trimmed_end(front, CharClass::Punctuation);
    assert forall|i: int| 0 <= i < kept.len() implies is_tag_char(#[trigger] kept[i]) by {
        assert(kept[i] == front[i]);
        assert(front[i] == cleaned[cleaned.len() - front.len() + i]);
    }
}

/// A sanitized text stands for itself.
pub proof fn law_sanitize_idempotent(s: Seq<char>)
    ensures
        sanitized(sanitized(s)) == sanitized(s),
{
    let tag = sanitized(s);
    law_sanitized_is_tag(s);
    assert(tag.map_values(|c: char| tag_char(c)) =~= tag);
}

/// A short id is the beginning of the id: twelve characters, or all where there are fewer.
pub proof fn law_short_id(id: Seq<char>)
    ensures
        short_id(id).len() <= 12,
        short_id(id).len() == 12 || short_id(id) == id,
        short_id(id) == id.take(short_id(id).len() as int),
{
    assert(id.take(id.len() as int) =~= id);
}

/// The text of a hash is made of eight characters of an image tag, which stand for its low 32 bits
/// in hexadecimal.
pub proof fn law_hash_text(hash: u64)
    ensures
        text_of_hash(hash).len() == 8,
        forall|i: int| 0 <= i < 8 ==> is_tag_char(#[trigger] text_of_hash(hash)[i]),
        hex_number(text_of_hash(hash)) == hash as int % 0x1_0000_0000,
{
    lemma_hex(hash as nat, 8);
    law_hex(hash as nat, 8);
    reveal_with_fuel(sixteen_to_the, 9);
    assert(sixteen_to_the(8) == 0x1_0000_0000);
}

proof fn lemma_hex(n: nat, width: nat)
    ensures
        hex(n, width).len() == width,
        forall|i: int| 0 <= i < width ==> is_tag_char(#[trigger] hex(n, width)[i]),
    decreases width,
{
    if width > 0 {
        lemma_hex(n / 16, (width - 1) as nat);
    }
}

/// Every entry of `remoteEnv` with a value is passed on.
pub proof fn law_set_entries(entries: Seq<(String, Option<String>)>, i: int)
    requires
        0 <= i < entries.len(),
        entries[i].1 is Some,
    ensures
        set_entries(entries).contains((entries[i].0, entries[i].1->0)),
    decreases entries.len(),
{
    let rest = entries.drop_last();
    let pair = (entries[i].0, entries[i].1->0);
    if i < rest.len() {
        assert(rest[i] == entries[i]);
        law_set_entries(rest, i);
        let k = set_entries(rest).index_of(pair);
        assert(set_entries(entries)[k] == pair);
    } else {
        assert(set_entries(entries).last() == pair);
    }
}

/// Nothing but entries with a value is passed on.
pub proof fn law_set_entries_only(entries: Seq<(String, Option<String>)>, k: int)
    requires
        0 <= k < set_entries(entries).len(),
    ensures
        entries.contains((set_entries(entries)[k].0, Some(set_entries(entries)[k].1))),
    decreases entries.len(),
{
    let rest = entries.drop_last();
    let before = set_entries(rest);
    let pair = set_entries(entries)[k];
    if k < before.len() {
        law_set_entries_only(rest, k);
        let i = rest.index_of((pair.0, Some(pair.1)));
        assert(entries[i] == (pair.0, Some(pair.1)));
    } else {
        assert(entries.last() == (pair.0, Some(pair.1)));
    }
}

/// What is passed on of entries in ascending order of their keys is in that order.
pub proof fn law_set_entries_ascend(entries: Seq<(String, Option<String>)>)
    requires
        ascending(entries),
    ensures
        ascending(set_entries(entries)),
    decreases entries.len(),
{
    if entries.len() > 0 {
        let rest = entries.drop_last();
        let before = set_entries(rest);
        assert forall|i: int, j: int| #![auto] 0 <= i < j < rest.len() implies text_less(
            rest[i].0@,
            rest[j].0@,
        ) by {
            assert(text_less(entries[i].0@, entries[j].0@));
        }
        law_set_entries_ascend(rest);
        if entries.last().1 is Some {
            assert forall|k: int| 0 <= k < before.len() implies text_less(
                (#[trigger] before[k]).0@,
                entries.last().0@,
            ) by {
                law_set_entries_only(rest, k);
                let i = rest.index_of((before[k].0, Some(before[k].1)));
                assert(rest[i] == entries[i]);
                assert(text_less(entries[i].0@, entries[entries.len() - 1].0@));
            }
        }
    }
}

/// A container that is created carries each of the labels.
pub proof fn law_labels_are_set(
    workspace: Seq<char>,
    config: DevContainerConfig,
    folder: Seq<char>,
    labels: Seq<(String, String)>,
    image: Seq<char>,
    runtime: RuntimeView,
    linux: bool,
    i: int,
) -> (k: int)
    requires
        0 <= i < labels.len(),
    ensures
        ({
            let line = run_line(workspace, config, folder, labels, image, runtime, linux);
            &&& 0 <= k < line.len() - 1
            &&& line[k] == "-l"@
            &&& line[k + 1] == assignment(labels[i].0@, labels[i].1@)
        }),
{
    let front = seq!["-d"@] + flagged("-p"@, port_texts(config.forward_ports@)) + flagged(
        "-p"@,
        port_texts(app_ports(config)),
    ) + seq!["--mount"@, workspace_mount(workspace, config, folder, linux)] + flagged(
        "--mount"@,
        config.mounts@.map_values(|m: Mount| mount_text(m)),
    );
    let values = assignments(labels);
    law_flagged("-l"@, values);
    assert(values[i] == assignment(labels[i].0@, labels[i].1@));
    front.len() + 2 * i
}

/// A text that can stand in an image tag as it is, and has no punctuation at its ends, is kept.
pub proof fn law_valid_tag_is_kept(s: Seq<char>)
    requires
        s.len() > 0,
        forall|i: int| 0 <= i < s.len() ==> is_tag_char(#[trigger] s[i]),
        s[0] != '-' && s[0] != '.' && s[0] != '_',
        s.last() != '-' && s.last() != '.' && s.last() != '_',
    ensures
        sanitized(s) == s,
{
    assert(s.map_values(|c: char| tag_char(c)) =~= s);
    law_trimmed(seq![], s, seq![], CharClass::Punctuation);
    assert(Seq::<char>::empty() + s + Seq::<char>::empty() =~= s);
}

/// The case of a letter does not matter, and a character that cannot stand in an image tag counts
/// as `-`.
pub proof fn law_sanitize_by_character(s: Seq<char>, i: int)
    requires
        0 <= i < s.len(),
    ensures
        sanitized(s.update(i, lower(s[i]))) == sanitized(s),
        !is_alphanumeric(s[i]) && s[i] != '.' && s[i] != '_' ==> sanitized(s.update(i, '-'))
            == sanitized(s),
{
    let all = s.map_values(|c: char| tag_char(c));
    law_letter_case(s[i]);
    assert(s.update(i, lower(s[i])).map_values(|c: char| tag_char(c)) =~= all);
    if !is_alphanumeric(s[i]) && s[i] != '.' && s[i] != '_' {
        assert(s.update(i, '-').map_values(|c: char| tag_char(c)) =~= all);
    }
}

/// Punctuation at the ends does not matter, and a text of nothing else becomes `workspace`.
pub proof fn law_sanitize_ends(s: Seq<char>, c: char)
    requires
        c == '-' || c == '.' || c == '_',
    ensures
        sanitized(seq![c] + s) == sanitized(s),
        sanitized(s + seq![c]) == sanitized(s),
        sanitized(seq![]) == "workspace"@,
{
    let all = s.map_values(|c: char| tag_char(c));
    let front = seq![c] + s;
    let back = s + seq![c];
    assert(front.map_values(|c: char| tag_char(c)) =~= seq![c] + all);
    assert(back.map_values(|c: char| tag_char(c)) =~= all + seq![c]);
    lemma_trim_ends(all, c, CharClass::Punctuation);
    assert(Seq::<char>::empty().map_values(|c: char| tag_char(c)) =~= seq![]);
}

proof fn lemma_trim_ends(s: Seq<char>, c: char, class: CharClass)
    requires
        class.has_char(c),
    ensures
        trimmed(seq![c] + s, class) == trimmed(s, class),
        trimmed(s + seq![c], class) == trimmed(s, class),
{
    let start = trimmed_start(s, class);
    law_trimmed_start(s, class);
    let kept = trimmed_end(start, class);
    law_trimmed_end(start, class);
    let front = s.take(s.len() - start.len());
    let back = start.skip(kept.len() as int);
    assert forall|i: int| 0 <= i < front.len() implies class.has_char(#[trigger] front[i]) by {
        assert(front[i] == s[i]);
    }
    assert forall|i: int| 0 <= i < back.len() implies class.has_char(#[trigger] back[i]) by {
        assert(back[i] == start[kept.len() + i]);
    }
    if kept.len() > 0 {
        assert(kept[0] == start[0]);
    }
    law_trimmed(seq![c] + front, kept, back, class);
    law_trimmed(front, kept, back + seq![c], class);
    assert(seq![c] + front + kept + back =~= seq![c] + s);
    assert(front + kept + (back + seq![c]) =~= s + seq![c]);
}

/// A port number is bound to itself on the loopback interface; a text is passed on as it is.
pub proof fn law_port(port: Port)
    ensures
        match port {
            Port::Number(n) => pieces(port_text(port), ':') == seq![
                "127.0.0.1"@,
                decimal(n as nat),
                decimal(n as nat),
            ],
            Port::Text(s) => port_text(port) == s@,
        },
{
    if let Port::Number(n) = port {
        reveal_strlit("127.0.0.1");
        reveal_strlit("127.0.0.1:");
        reveal_strlit(":");
        let number = decimal(n as nat);
        law_decimal(n as nat);
        assert(!number.contains(':'));
        let parts = seq!["127.0.0.1"@, number, number];
        assert forall|i: int| 0 <= i < parts.len() implies !(#[trigger] parts[i]).contains(':') by {
            assert(!"127.0.0.1"@.contains(':'));
        }
        law_pieces_of_joined(parts, ':');
        assert(parts.drop_last() =~= seq!["127.0.0.1"@, number]);
        assert(parts.drop_last().drop_last() =~= seq!["127.0.0.1"@]);
        reveal_with_fuel(joined, 3);
        assert(joined(parts, seq![':']) =~= port_text(port));
    }
}

/// The ports of `appPort` are all that it lists, and none where it is not there.
pub proof fn law_app_ports(config: DevContainerConfig)
    ensures
        match config.app_port {
            Some(AppPort::One(port)) => app_ports(config) == seq![port],
            Some(AppPort::Many(ports)) => app_ports(config) == ports@,
            None => app_ports(config).len() == 0,
        },
{
}

/// The mount of the workspace is the configured one, whatever the workspace, the folder and the
/// host are. Only without one is the workspace bound to its folder, cached where the host is no
/// Linux.
#[verifier::rlimit(40)]
pub proof fn law_workspace_mount(
    workspace: Seq<char>,
    config: DevContainerConfig,
    folder: Seq<char>,
    labels: Seq<(String, String)>,
    image: Seq<char>,
    runtime: RuntimeView,
    linux: bool,
)
    ensures
        ({
            let line = run_line(workspace, config, folder, labels, image, runtime, linux);
            let place = 1 + 2 * (config.forward_ports@.len() + app_ports(config).len());
            let bound = "type=bind,source="@ + workspace + ",target="@ + folder;
            match config.workspace_mount {
                Some(m) => flag_at(line, place as int, "--mount"@, m@),
                None => if linux {
                    flag_at(line, place as int, "--mount"@, bound)
                } else {
                    flag_at(line, place as int, "--mount"@, bound + ",consistency=cached"@)
                },
            }
        }),
        config.workspace_mount is Some ==> forall|w: Seq<char>, f: Seq<char>, l: bool| #[trigger]
            run_line(w, config, f, labels, image, runtime, l) == run_line(
                workspace,
                config,
                folder,
                labels,
                image,
                runtime,
                linux,
            ),
{
    law_flagged("-p"@, port_texts(config.forward_ports@));
    law_flagged("-p"@, port_texts(app_ports(config)));
}

/// The command line that creates a container detaches it, and forwards each port and mounts each
/// mount, in their order.
#[verifier::rlimit(40)]
pub proof fn law_run_line_ports_and_mounts(
    workspace: Seq<char>,
    config: DevContainerConfig,
    folder: Seq<char>,
    labels: Seq<(String, String)>,
    image: Seq<char>,
    runtime: RuntimeView,
    linux: bool,
)
    ensures
        ({
            let line = run_line(workspace, config, folder, labels, image, runtime, linux);
            let ports = config.forward_ports@;
            let more_ports = app_ports(config);
            let at_mounts = 3int + 2 * ports.len() + 2 * more_ports.len();
            &&& line[0] == "-d"@
            &&& forall|i: int|
                0 <= i < ports.len() ==> flag_at(
                    line,
                    1 + 2 * i,
                    "-p"@,
                    port_text(#[trigger] ports[i]),
                )
            &&& forall|i: int|
                0 <= i < more_ports.len() ==> flag_at(
                    line,
                    1 + 2 * ports.len() + 2 * i,
                    "-p"@,
                    port_text(#[trigger] more_ports[i]),
                )
            &&& forall|i: int|
                0 <= i < config.mounts@.len() ==> flag_at(
                    line,
                    at_mounts + 2 * i,
                    "--mount"@,
                    mount_text(#[trigger] config.mounts@[i]),
                )
        }),
{
    let line = run_line(workspace, config, folder, labels, image, runtime, linux);
    let ports = port_texts(config.forward_ports@);
    let more_ports = port_texts(app_ports(config));
    let mount = seq!["--mount"@, workspace_mount(workspace, config, folder, linux)];
    let mounts = config.mounts@.map_values(|m: Mount| mount_text(m));
    let managed = seq!["-l"@, MANAGED@];
    let env = config.container_env.entries();
    let user = optional_flag("-u"@, opt_text(config.container_user));
    let p0 = seq!["-d"@];
    let p1 = p0 + flagged("-p"@, ports);
    let p2 = p1 + flagged("-p"@, more_ports);
    let p3 = p2 + mount;
    let p4 = p3 + flagged("--mount"@, mounts);
    let p5 = p4 + flagged("-l"@, assignments(labels));
    let p6 = p5 + managed;
    let p7 = p6 + flagged("-e"@, assignments(env));
    let p8 = p7 + user;
    let p9 = p8 + texts(config.run_args@);
    lemma_run_line_begins(workspace, config, folder, labels, image, runtime, linux);
    lemma_begins(p8, texts(config.run_args@), line);
    lemma_begins(p7, user, line);
    lemma_begins(p6, flagged("-e"@, assignments(env)), line);
    lemma_begins(p5, managed, line);
    lemma_begins(p4, flagged("-l"@, assignments(labels)), line);
    lemma_begins(p3, flagged("--mount"@, mounts), line);
    lemma_begins(p2, mount, line);
    lemma_begins(p1, flagged("-p"@, more_ports), line);
    lemma_begins(p0, flagged("-p"@, ports), line);
    lemma_flags_behind(p0, "-p"@, ports, line);
    lemma_flags_behind(p1, "-p"@, more_ports, line);
    lemma_flags_behind(p3, "--mount"@, mounts, line);
    let at_mounts = p3.len() as int;
    assert forall|i: int| 0 <= i < config.forward_ports@.len() implies flag_at(
        line,
        1 + 2 * i,
        "-p"@,
        port_text(#[trigger] config.forward_ports@[i]),
    ) by {
        assert(ports[i] == port_text(config.forward_ports@[i]));
    }
    assert forall|i: int| 0 <= i < app_ports(config).len() implies flag_at(
        line,
        1 + 2 * ports.len() + 2 * i,
        "-p"@,
        port_text(#[trigger] app_ports(config)[i]),
    ) by {
        assert(more_ports[i] == port_text(app_ports(config)[i]));
    }
    assert forall|i: int| 0 <= i < config.mounts@.len() implies flag_at(
        line,
        at_mounts + 2 * i,
        "--mount"@,
        mount_text(#[trigger] config.mounts@[i]),
    ) by {
        assert(mounts[i] == mount_text(config.mounts@[i]));
    }
    assert(line[0] == p0[0]);
}

/// How many places stand before the labels: one for the first switch, and two for every port and
/// mount.
pub open spec fn places_before_labels(config: DevContainerConfig) -> int {
    1int + 2 * (config.forward_ports@.len() + app_ports(config).len() + 1 + config.mounts@.len())
}

/// The command line that creates a container sets each label, one of its own, and each variable of
/// the environment, in their order.
#[verifier::rlimit(40)]
pub proof fn law_run_line_labels_and_env(
    workspace: Seq<char>,
    config: DevContainerConfig,
    folder: Seq<char>,
    labels: Seq<(String, String)>,
    image: Seq<char>,
    runtime: RuntimeView,
    linux: bool,
)
    ensures
        ({
            let line = run_line(workspace, config, folder, labels, image, runtime, linux);
            let env = config.container_env.entries();
            let at_labels = places_before_labels(config);
            let at_env = at_labels + 2 * labels.len() + 2;
            &&& forall|i: int|
                0 <= i < labels.len() ==> flag_at(
                    line,
                    at_labels + 2 * i,
                    "-l"@,
                    (#[trigger] labels[i]).0@ + "="@ + labels[i].1@,
                )
            &&& flag_at(line, at_env - 2, "-l"@, "devc.managed=true"@)
            &&& forall|i: int|
                0 <= i < env.len() ==> flag_at(
                    line,
                    at_env + 2 * i,
                    "-e"@,
                    (#[trigger] env[i]).0@ + "="@ + env[i].1@,
                )
        }),
{
    let line = run_line(workspace, config, folder, labels, image, runtime, linux);
    let ports = port_texts(config.forward_ports@);
    let more_ports = port_texts(app_ports(config));
    let mount = seq!["--mount"@, workspace_mount(workspace, config, folder, linux)];
    let mounts = config.mounts@.map_values(|m: Mount| mount_text(m));
    let managed = seq!["-l"@, MANAGED@];
    let env = config.container_env.entries();
    let user = optional_flag("-u"@, opt_text(config.container_user));
    let p0 = seq!["-d"@];
    let p1 = p0 + flagged("-p"@, ports);
    let p2 = p1 + flagged("-p"@, more_ports);
    let p3 = p2 + mount;
    let p4 = p3 + flagged("--mount"@, mounts);
    let p5 = p4 + flagged("-l"@, assignments(labels));
    let p6 = p5 + managed;
    let p7 = p6 + flagged("-e"@, assignments(env));
    let p8 = p7 + user;
    let p9 = p8 + texts(config.run_args@);
    lemma_run_line_begins(workspace, config, folder, labels, image, runtime, linux);
    lemma_begins(p8, texts(config.run_args@), line);
    lemma_begins(p7, user, line);
    lemma_begins(p6, flagged("-e"@, assignments(env)), line);
    lemma_begins(p5, managed, line);
    lemma_begins(p4, flagged("-l"@, assignments(labels)), line);
    lemma_begins(p3, flagged("--mount"@, mounts), line);
    lemma_begins(p2, mount, line);
    lemma_begins(p1, flagged("-p"@, more_ports), line);
    lemma_begins(p0, flagged("-p"@, ports), line);
    law_flagged("-p"@, ports);
    law_flagged("-p"@, more_ports);
    law_flagged("--mount"@, mounts);
    lemma_flags_behind(p4, "-l"@, assignments(labels), line);
    lemma_flags_behind(p6, "-e"@, assignments(env), line);
    let at_labels = p4.len() as int;
    let at_env = p6.len() as int;
    assert forall|i: int| 0 <= i < labels.len() implies flag_at(
        line,
        at_labels + 2 * i,
        "-l"@,
        (#[trigger] labels[i]).0@ + "="@ + labels[i].1@,
    ) by {
        assert(assignments(labels)[i] == labels[i].0@ + "="@ + labels[i].1@);
    }
    assert forall|i: int| 0 <= i < env.len() implies flag_at(
        line,
        at_env + 2 * i,
        "-e"@,
        (#[trigger] env[i]).0@ + "="@ + env[i].1@,
    ) by {
        assert(assignments(env)[i] == env[i].0@ + "="@ + env[i].1@);
    }
    assert(flag_at(line, at_env - 2, "-l"@, MANAGED@)) by {
        assert(line[at_env - 2] == p6[at_env - 2]);
        assert(line[at_env - 1] == p6[at_env - 1]);
    }
}

/// The command line that creates a container names its user, if there is one, and passes the
/// configured arguments through.
#[verifier::rlimit(40)]
pub proof fn law_run_line_user_and_args(
    workspace: Seq<char>,
    config: DevContainerConfig,
    folder: Seq<char>,
    labels: Seq<(String, String)>,
    image: Seq<char>,
    runtime: RuntimeView,
    linux: bool,
)
    ensures
        ({
            let line = run_line(workspace, config, folder, labels, image, runtime, linux);
            let at_args = places_before_run_args(config, labels);
            &&& config.container_user matches Some(u) ==> flag_at(line, at_args - 2, "-u"@, u@)
            &&& forall|i: int|
                0 <= i < config.run_args@.len() ==> line[at_args + i] == (
                #[trigger] config.run_args@[i])@
        }),
{
    let line = run_line(workspace, config, folder, labels, image, runtime, linux);
    let ports = port_texts(config.forward_ports@);
    let more_ports = port_texts(app_ports(config));
    let mount = seq!["--mount"@, workspace_mount(workspace, config, folder, linux)];
    let mounts = config.mounts@.map_values(|m: Mount| mount_text(m));
    let managed = seq!["-l"@, MANAGED@];
    let env = config.container_env.entries();
    let user = optional_flag("-u"@, opt_text(config.container_user));
    let p0 = seq!["-d"@];
    let p1 = p0 + flagged("-p"@, ports);
    let p2 = p1 + flagged("-p"@, more_ports);
    let p3 = p2 + mount;
    let p4 = p3 + flagged("--mount"@, mounts);
    let p5 = p4 + flagged("-l"@, assignments(labels));
    let p6 = p5 + managed;
    let p7 = p6 + flagged("-e"@, assignments(env));
    let p8 = p7 + user;
    let p9 = p8 + texts(config.run_args@);
    lemma_run_line_begins(workspace, config, folder, labels, image, runtime, linux);
    lemma_begins(p8, texts(config.run_args@), line);
    lemma_begins(p7, user, line);
    lemma_begins(p6, flagged("-e"@, assignments(env)), line);
    lemma_begins(p5, managed, line);
    lemma_begins(p4, flagged("-l"@, assignments(labels)), line);
    lemma_begins(p3, flagged("--mount"@, mounts), line);
    lemma_begins(p2, mount, line);
    lemma_begins(p1, flagged("-p"@, more_ports), line);
    lemma_begins(p0, flagged("-p"@, ports), line);
    law_flagged("-p"@, ports);
    law_flagged("-p"@, more_ports);
    law_flagged("--mount"@, mounts);
    law_flagged("-l"@, assignments(labels));
    law_flagged("-e"@, assignments(env));
    if let Some(u) = config.container_user {
        assert(flag_at(line, p7.len() as int, "-u"@, u@)) by {
            assert(line[p7.len() as int] == p8[p7.len() as int]);
            assert(line[p7.len() as int + 1] == p8[p7.len() as int + 1]);
        }
    }
    let at_args = p8.len() as int;
    assert forall|i: int| 0 <= i < config.run_args@.len() implies line[at_args + i] == (
    #[trigger] config.run_args@[i])@ by {
        assert(line[at_args + i] == p9[at_args + i]);
    }
}

/// Whether a command line begins with the given one.
spec fn begins(part: Seq<Seq<char>>, line: Seq<Seq<char>>) -> bool {
    part.len() <= line.len() && forall|i: int|
        0 <= i < part.len() ==> #[trigger] line[i] == part[i]
}

proof fn lemma_begins(a: Seq<Seq<char>>, b: Seq<Seq<char>>, line: Seq<Seq<char>>)
    requires
        begins(a + b, line),
    ensures
        begins(a, line),
        (a + b).len() == a.len() + b.len(),
{
    assert forall|i: int| 0 <= i < a.len() implies #[trigger] line[i] == a[i] by {
        assert((a + b)[i] == a[i]);
    }
}

proof fn lemma_flags_behind(
    before: Seq<Seq<char>>,
    flag: Seq<char>,
    values: Seq<Seq<char>>,
    line: Seq<Seq<char>>,
)
    requires
        begins(before + flagged(flag, values), line),
    ensures
        flagged(flag, values).len() == 2 * values.len(),
        forall|i: int|
            0 <= i < values.len() ==> flag_at(
                line,
                before.len() + 2 * i,
                flag,
                #[trigger] values[i],
            ),
{
    law_flagged(flag, values);
    let all = before + flagged(flag, values);
    assert forall|i: int| 0 <= i < values.len() implies flag_at(
        line,
        before.len() + 2 * i,
        flag,
        #[trigger] values[i],
    ) by {
        assert(flag_at(flagged(flag, values), 2 * i, flag, values[i]));
        let k = before.len() + 2 * i;
        assert(line[k] == all[k]);
        assert(line[k + 1] == all[k + 1]);
    }
}

/// How many places stand before the arguments that are passed through: those before the labels,
/// and two for every label, variable and user.
pub open spec fn places_before_run_args(
    config: DevContainerConfig,
    labels: Seq<(String, String)>,
) -> int {
    places_before_labels(config) + 2 * (labels.len() + 1 + config.container_env.entries().len() + (
    if config.container_user is Some {
        1int
    } else {
        0
    }))
}

/// How many places stand before the capabilities: those before the arguments that are passed
/// through, these, and one for each switch that is set.
pub open spec fn places_before_capabilities(
    config: DevContainerConfig,
    labels: Seq<(String, String)>,
    runtime: RuntimeView,
) -> int {
    places_before_run_args(config, labels) + config.run_args@.len() + (if config.init == Some(true)
        || runtime.init {
        1int
    } else {
        0
    }) + (if config.privileged == Some(true) || runtime.privileged {
        1int
    } else {
        0
    })
}

/// How many places stand before the entry of the container: those before the capabilities, and two
/// for every capability and security option.
pub open spec fn places_before_entry(
    config: DevContainerConfig,
    labels: Seq<(String, String)>,
    runtime: RuntimeView,
) -> int {
    places_before_capabilities(config, labels, runtime) + 2 * (config.cap_add@.len()
        + runtime.cap_add.len() + config.security_opt@.len() + runtime.security_opt.len())
}

/// The command line that creates a container sets each switch that the configuration or a feature
/// asks for.
#[verifier::rlimit(40)]
pub proof fn law_run_line_switches(
    workspace: Seq<char>,
    config: DevContainerConfig,
    folder: Seq<char>,
    labels: Seq<(String, String)>,
    image: Seq<char>,
    runtime: RuntimeView,
    linux: bool,
)
    ensures
        ({
            let line = run_line(workspace, config, folder, labels, image, runtime, linux);
            let after = places_before_capabilities(config, labels, runtime);
            let init = config.init == Some(true) || runtime.init;
            let privileged = config.privileged == Some(true) || runtime.privileged;
            &&& privileged ==> line[after - 1] == "--privileged"@
            &&& init && privileged ==> line[after - 2] == "--init"@
            &&& init && !privileged ==> line[after - 1] == "--init"@
        }),
{
    let line = run_line(workspace, config, folder, labels, image, runtime, linux);
    let front = run_line_front(workspace, config, folder, labels, linux);
    let init = switch("--init"@, config.init == Some(true) || runtime.init);
    let privileged = switch(
        "--privileged"@,
        config.privileged == Some(true) || runtime.privileged,
    );
    lemma_run_line_middle(workspace, config, folder, labels, image, runtime, linux);
    lemma_front_len(workspace, config, folder, labels, linux);
    let part = front + init + privileged;
    let n = front.len() as int;
    assert(part.len() == n + init.len() + privileged.len());
    if init.len() > 0 {
        assert(line[n] == part[n]);
    }
    if privileged.len() > 0 {
        assert(line[n + init.len()] == part[n + init.len()]);
    }
}

/// The command line that creates a container adds each capability and each security option, those
/// of the configuration before those of the features.
#[verifier::rlimit(40)]
pub proof fn law_run_line_capabilities(
    workspace: Seq<char>,
    config: DevContainerConfig,
    folder: Seq<char>,
    labels: Seq<(String, String)>,
    image: Seq<char>,
    runtime: RuntimeView,
    linux: bool,
)
    ensures
        ({
            let line = run_line(workspace, config, folder, labels, image, runtime, linux);
            let at_caps = places_before_capabilities(config, labels, runtime);
            let at_more_caps = at_caps + 2 * config.cap_add@.len();
            let at_opts = at_more_caps + 2 * runtime.cap_add.len();
            let at_more_opts = at_opts + 2 * config.security_opt@.len();
            &&& forall|i: int|
                0 <= i < config.cap_add@.len() ==> flag_at(
                    line,
                    at_caps + 2 * i,
                    "--cap-add"@,
                    (#[trigger] config.cap_add@[i])@,
                )
            &&& forall|i: int|
                0 <= i < runtime.cap_add.len() ==> flag_at(
                    line,
                    at_more_caps + 2 * i,
                    "--cap-add"@,
                    #[trigger] runtime.cap_add[i],
                )
            &&& forall|i: int|
                0 <= i < config.security_opt@.len() ==> flag_at(
                    line,
                    at_opts + 2 * i,
                    "--security-opt"@,
                    (#[trigger] config.security_opt@[i])@,
                )
            &&& forall|i: int|
                0 <= i < runtime.security_opt.len() ==> flag_at(
                    line,
                    at_more_opts + 2 * i,
                    "--security-opt"@,
                    #[trigger] runtime.security_opt[i],
                )
        }),
{
    let line = run_line(workspace, config, folder, labels, image, runtime, linux);
    let caps = texts(config.cap_add@);
    let opts = texts(config.security_opt@);
    let q1 = run_line_switched(workspace, config, folder, labels, runtime, linux);
    let q2 = q1 + flagged("--cap-add"@, caps);
    let q3 = q2 + flagged("--cap-add"@, runtime.cap_add);
    let q4 = q3 + flagged("--security-opt"@, opts);
    lemma_run_line_middle(workspace, config, folder, labels, image, runtime, linux);
    lemma_begins(q4, flagged("--security-opt"@, runtime.security_opt), line);
    lemma_begins(q3, flagged("--security-opt"@, opts), line);
    lemma_begins(q2, flagged("--cap-add"@, runtime.cap_add), line);
    lemma_begins(q1, flagged("--cap-add"@, caps), line);
    lemma_flags_behind(q1, "--cap-add"@, caps, line);
    lemma_flags_behind(q2, "--cap-add"@, runtime.cap_add, line);
    lemma_flags_behind(q3, "--security-opt"@, opts, line);
    lemma_flags_behind(q4, "--security-opt"@, runtime.security_opt, line);
    lemma_switched_len(workspace, config, folder, labels, runtime, linux);
    let at_caps = q1.len() as int;
    let at_opts = q3.len() as int;
    assert forall|i: int| 0 <= i < config.cap_add@.len() implies flag_at(
        line,
        at_caps + 2 * i,
        "--cap-add"@,
        (#[trigger] config.cap_add@[i])@,
    ) by {
        assert(caps[i] == config.cap_add@[i]@);
    }
    assert forall|i: int| 0 <= i < config.security_opt@.len() implies flag_at(
        line,
        at_opts + 2 * i,
        "--security-opt"@,
        (#[trigger] config.security_opt@[i])@,
    ) by {
        assert(opts[i] == config.security_opt@[i]@);
    }
}

/// The command line that creates a container ends with its image. Unless `overrideCommand` is
/// false, a shell that keeps the container alive is its entrypoint.
#[verifier::rlimit(40)]
pub proof fn law_run_line_entry(
    workspace: Seq<char>,
    config: DevContainerConfig,
    folder: Seq<char>,
    labels: Seq<(String, String)>,
    image: Seq<char>,
    runtime: RuntimeView,
    linux: bool,
)
    ensures
        ({
            let line = run_line(workspace, config, folder, labels, image, runtime, linux);
            let entry = places_before_entry(config, labels, runtime);
            if config.override_command == Some(false) {
                line.len() == entry + 1 && line[entry] == image
            } else {
                &&& line.len() == entry + 5
                &&& flag_at(line, entry, "--entrypoint"@, "/bin/sh"@)
                &&& line[entry + 2] == image
                &&& flag_at(line, entry + 3, "-c"@, keep_alive_script(runtime.entrypoints))
            }
        }),
{
    let line = run_line(workspace, config, folder, labels, image, runtime, linux);
    let entry = entry_args(config, image, runtime);
    let q1 = run_line_switched(workspace, config, folder, labels, runtime, linux);
    let a = flagged("--cap-add"@, texts(config.cap_add@));
    let b = flagged("--cap-add"@, runtime.cap_add);
    let c = flagged("--security-opt"@, texts(config.security_opt@));
    let d = flagged("--security-opt"@, runtime.security_opt);
    law_flagged("--cap-add"@, texts(config.cap_add@));
    law_flagged("--cap-add"@, runtime.cap_add);
    law_flagged("--security-opt"@, texts(config.security_opt@));
    law_flagged("--security-opt"@, runtime.security_opt);
    lemma_switched_len(workspace, config, folder, labels, runtime, linux);
    let before = q1 + a + b + c + d;
    assert(line == before + entry);
    let n = before.len() as int;
    assert(n == q1.len() + a.len() + b.len() + c.len() + d.len());
    lemma_at_end(before, entry);
}

proof fn lemma_at_end(before: Seq<Seq<char>>, end: Seq<Seq<char>>)
    ensures
        (before + end).len() == before.len() + end.len(),
        forall|i: int| 0 <= i < end.len() ==> (before + end)[before.len() + i] == #[trigger] end[i],
        end.len() == 5 ==> (before + end)[before.len() as int] == end[0] && (before + end)[
        before.len() as int + 1] == end[1] && (before + end)[before.len() as int + 2] == end[2] && (
        before + end)[before.len() as int + 3] == end[3] && (before + end)[before.len() as int + 4]
            == end[4],
        end.len() == 1 ==> (before + end)[before.len() as int] == end[0],
{
}

/// The parts of the command line up to the arguments that are passed through.
spec fn run_line_front(
    workspace: Seq<char>,
    config: DevContainerConfig,
    folder: Seq<char>,
    labels: Seq<(String, String)>,
    linux: bool,
) -> Seq<Seq<char>> {
    seq!["-d"@] + flagged("-p"@, port_texts(config.forward_ports@)) + flagged(
        "-p"@,
        port_texts(app_ports(config)),
    ) + seq!["--mount"@, workspace_mount(workspace, config, folder, linux)] + flagged(
        "--mount"@,
        config.mounts@.map_values(|m: Mount| mount_text(m)),
    ) + flagged("-l"@, assignments(labels)) + seq!["-l"@, MANAGED@] + flagged(
        "-e"@,
        assignments(config.container_env.entries()),
    ) + optional_flag("-u"@, opt_text(config.container_user)) + texts(config.run_args@)
}

/// The parts of the command line up to the switches.
spec fn run_line_switched(
    workspace: Seq<char>,
    config: DevContainerConfig,
    folder: Seq<char>,
    labels: Seq<(String, String)>,
    runtime: RuntimeView,
    linux: bool,
) -> Seq<Seq<char>> {
    run_line_front(workspace, config, folder, labels, linux) + switch(
        "--init"@,
        config.init == Some(true) || runtime.init,
    ) + switch("--privileged"@, config.privileged == Some(true) || runtime.privileged)
}

proof fn lemma_switched_len(
    workspace: Seq<char>,
    config: DevContainerConfig,
    folder: Seq<char>,
    labels: Seq<(String, String)>,
    runtime: RuntimeView,
    linux: bool,
)
    ensures
        run_line_switched(workspace, config, folder, labels, runtime, linux).len()
            == places_before_capabilities(config, labels, runtime),
{
    lemma_front_len(workspace, config, folder, labels, linux);
}

/// The command line that creates a container begins with its parts up to its entry.
proof fn lemma_run_line_middle(
    workspace: Seq<char>,
    config: DevContainerConfig,
    folder: Seq<char>,
    labels: Seq<(String, String)>,
    image: Seq<char>,
    runtime: RuntimeView,
    linux: bool,
)
    ensures
        ({
            let line = run_line(workspace, config, folder, labels, image, runtime, linux);
            let switched = run_line_switched(workspace, config, folder, labels, runtime, linux);
            begins(switched, line) && begins(
                switched + flagged("--cap-add"@, texts(config.cap_add@)) + flagged(
                    "--cap-add"@,
                    runtime.cap_add,
                ) + flagged("--security-opt"@, texts(config.security_opt@)) + flagged(
                    "--security-opt"@,
                    runtime.security_opt,
                ),
                line,
            )
        }),
{
    let line = run_line(workspace, config, folder, labels, image, runtime, linux);
    let q1 = run_line_switched(workspace, config, folder, labels, runtime, linux);
    let a = flagged("--cap-add"@, texts(config.cap_add@));
    let b = flagged("--cap-add"@, runtime.cap_add);
    let c = flagged("--security-opt"@, texts(config.security_opt@));
    let d = flagged("--security-opt"@, runtime.security_opt);
    let e = entry_args(config, image, runtime);
    assert(line == q1 + a + b + c + d + e);
    assert(begins(line, line));
    lemma_begins(q1 + a + b + c + d, e, line);
    lemma_begins(q1 + a + b + c, d, line);
    lemma_begins(q1 + a + b, c, line);
    lemma_begins(q1 + a, b, line);
    lemma_begins(q1, a, line);
}

/// The command line that creates a container begins with its parts up to the arguments that are
/// passed through.
proof fn lemma_run_line_begins(
    workspace: Seq<char>,
    config: DevContainerConfig,
    folder: Seq<char>,
    labels: Seq<(String, String)>,
    image: Seq<char>,
    runtime: RuntimeView,
    linux: bool,
)
    ensures
        begins(
            run_line_front(workspace, config, folder, labels, linux),
            run_line(workspace, config, folder, labels, image, runtime, linux),
        ),
{
    let line = run_line(workspace, config, folder, labels, image, runtime, linux);
    let front = run_line_front(workspace, config, folder, labels, linux);
    let init = switch("--init"@, config.init == Some(true) || runtime.init);
    let privileged = switch(
        "--privileged"@,
        config.privileged == Some(true) || runtime.privileged,
    );
    lemma_run_line_middle(workspace, config, folder, labels, image, runtime, linux);
    lemma_begins(front + init, privileged, line);
    lemma_begins(front, init, line);
}

proof fn lemma_front_len(
    workspace: Seq<char>,
    config: DevContainerConfig,
    folder: Seq<char>,
    labels: Seq<(String, String)>,
    linux: bool,
)
    ensures
        run_line_front(workspace, config, folder, labels, linux).len() == places_before_run_args(
            config,
            labels,
        ) + config.run_args@.len(),
{
    law_flagged("-p"@, port_texts(config.forward_ports@));
    law_flagged("-p"@, port_texts(app_ports(config)));
    law_flagged("--mount"@, config.mounts@.map_values(|m: Mount| mount_text(m)));
    law_flagged("-l"@, assignments(labels));
    law_flagged("-e"@, assignments(config.container_env.entries()));
}

/// The script that keeps a container alive runs the entrypoints of the features, one by line and
/// in order, before it waits.
pub proof fn law_keep_alive(entrypoints: Seq<Seq<char>>)
    requires
        forall|i: int| 0 <= i < entrypoints.len() ==> !(#[trigger] entrypoints[i]).contains('\n'),
    ensures
        ({
            let head = "echo Container started\ntrap \"exit 0\" 15\n"@;
            let tail = "exec \"$@\"\nwhile sleep 1 & wait $!; do :; done"@;
            let script = keep_alive_script(entrypoints);
            let lines = script.subrange(head.len() as int, script.len() - tail.len());
            &&& head.len() + tail.len() <= script.len()
            &&& has_prefix(script, head)
            &&& has_suffix(script, tail)
            &&& pieces(lines, '\n') == entrypoints.push(seq![])
        }),
{
    let head = "echo Container started\ntrap \"exit 0\" 15\n"@;
    let tail = "exec \"$@\"\nwhile sleep 1 & wait $!; do :; done"@;
    let script = keep_alive_script(entrypoints);
    let lines = entrypoint_lines(entrypoints);
    assert(script.take(head.len() as int) =~= head);
    assert(script.skip(script.len() - tail.len()) =~= tail);
    assert(script.subrange(head.len() as int, script.len() - tail.len()) =~= lines);
    let parts = entrypoints.push(seq![]);
    lemma_entrypoint_lines(entrypoints);
    assert forall|i: int| 0 <= i < parts.len() implies !(#[trigger] parts[i]).contains('\n') by {
        if i < entrypoints.len() {
            assert(parts[i] == entrypoints[i]);
        }
    }
    law_pieces_of_joined(parts, '\n');
}

proof fn lemma_entrypoint_lines(entrypoints: Seq<Seq<char>>)
    ensures
        entrypoint_lines(entrypoints) == joined(entrypoints.push(seq![]), seq!['\n']),
    decreases entrypoints.len(),
{
    reveal_strlit("\n");
    let parts = entrypoints.push(seq![]);
    assert(parts.drop_last() =~= entrypoints);
    assert("\n"@ =~= seq!['\n']);
    if entrypoints.len() > 0 {
        let rest = entrypoints.drop_last();
        lemma_entrypoint_lines(rest);
        let fewer = rest.push(seq![]);
        assert(fewer.drop_last() =~= rest);
        if rest.len() == 0 {
            assert(entrypoints =~= seq![entrypoints[0]]);
        } else {
            assert(joined(fewer, seq!['\n']) == joined(rest, seq!['\n']) + seq!['\n']
                + fewer.last());
            assert(joined(entrypoints, seq!['\n']) == joined(rest, seq!['\n']) + seq!['\n']
                + entrypoints.last());
        }
        assert(joined(parts, seq!['\n']) == joined(entrypoints, seq!['\n']) + seq!['\n']
            + parts.last());
        assert(entrypoint_lines(entrypoints) =~= joined(parts, seq!['\n']));
    } else {
        assert(entrypoint_lines(entrypoints) =~= joined(parts, seq!['\n']));
    }
}

/// A shell string is run by the shell, an argument vector as it is, and of named commands each one
/// as it would be alone, in the order of the map.
pub proof fn law_invocations(command: Command)
    ensures
        match command {
            Command::Shell(s) => invocations(command) == seq![seq!["/bin/sh"@, "-c"@, s@]],
            Command::Argv(a) => invocations(command) == seq![texts(a@)],
            Command::Named(map) => invocations(command).len() == map.entries().len() && (forall|
                i: int,
            |
                0 <= i < map.entries().len() ==> #[trigger] invocations(command)[i]
                    == match map.entries()[i].1 {
                    StringOrArgv::Shell(s) => invocations(Command::Shell(s))[0],
                    StringOrArgv::Argv(a) => invocations(Command::Argv(a))[0],
                }),
        },
{
}

/// Commands run as the remote user, and as the user of the container where there is none.
pub proof fn law_remote_user(config: DevContainerConfig)
    ensures
        config.remote_user matches Some(user) ==> remote_user_of(config) == Some(user@),
        config.remote_user is None ==> remote_user_of(config) == opt_text(config.container_user),
{
}

/// What the substitution of variables does to each field of a configuration.
pub proof fn law_substituted_fields(
    before: DevContainerConfig,
    after: DevContainerConfig,
    vars: SubstitutionContext,
)
    requires
        config_substituted(before, after, vars),
    ensures
        is_substituted(before.workspace_folder, after.workspace_folder, vars),
        is_substituted(before.workspace_mount, after.workspace_mount, vars),
        is_substituted(before.remote_user, after.remote_user, vars),
        is_substituted(before.container_user, after.container_user, vars),
        after.container_env.entries().len() == before.container_env.entries().len(),
        forall|i: int|
            0 <= i < before.container_env.entries().len() ==> {
                let entry = #[trigger] before.container_env.entries()[i];
                let now = after.container_env.entries()[i];
                now.0@ == entry.0@ && now.1@ == substituted(entry.1@, vars)
            },
        after.remote_env.entries().len() == before.remote_env.entries().len(),
        forall|i: int|
            0 <= i < before.remote_env.entries().len() ==> {
                let entry = #[trigger] before.remote_env.entries()[i];
                let now = after.remote_env.entries()[i];
                now.0@ == entry.0@ && is_substituted(entry.1, now.1, vars)
            },
        after.run_args@.len() == before.run_args@.len(),
        forall|i: int|
            0 <= i < before.run_args@.len() ==> after.run_args@[i]@ == substituted(
                (#[trigger] before.run_args@[i])@,
                vars,
            ),
        after.mounts@.len() == before.mounts@.len(),
        forall|i: int|
            0 <= i < before.mounts@.len() ==> match (#[trigger] before.mounts@[i], after.mounts@[i]) {
                (Mount::Text(s), Mount::Text(t)) => t@ == substituted(s@, vars),
                (Mount::Object(o), Mount::Object(p)) => p.kind == o.kind && is_substituted(
                    o.source,
                    p.source,
                    vars,
                ) && p.target@ == substituted(o.target@, vars),
                _ => false,
            },
{
    let a = before.container_env;
    let b = after.container_env;
    assert(a.keys().len() == a.entries().len() && b.keys().len() == b.entries().len());
    assert forall|i: int| 0 <= i < a.entries().len() implies {
        let entry = #[trigger] a.entries()[i];
        let now = b.entries()[i];
        now.0@ == entry.0@ && now.1@ == substituted(entry.1@, vars)
    } by {
        assert(a.keys()[i] == b.keys()[i]);
    }
    let a = before.remote_env;
    let b = after.remote_env;
    assert(a.keys().len() == a.entries().len() && b.keys().len() == b.entries().len());
    assert forall|i: int| 0 <= i < a.entries().len() implies {
        let entry = #[trigger] a.entries()[i];
        let now = b.entries()[i];
        now.0@ == entry.0@ && is_substituted(entry.1, now.1, vars)
    } by {
        assert(a.keys()[i] == b.keys()[i]);
    }
    let list = before.run_args@.map_values(|s: String| substituted(s@, vars));
    assert(texts(after.run_args@).len() == after.run_args@.len());
    assert forall|i: int| 0 <= i < before.run_args@.len() implies after.run_args@[i]@
        == substituted((#[trigger] before.run_args@[i])@, vars) by {
        assert(list[i] == texts(after.run_args@)[i]);
    }
    assert forall|i: int| 0 <= i < before.mounts@.len() implies match (
        #[trigger] before.mounts@[i],
        after.mounts@[i],
    ) {
        (Mount::Text(s), Mount::Text(t)) => t@ == substituted(s@, vars),
        (Mount::Object(o), Mount::Object(p)) => p.kind == o.kind && is_substituted(
            o.source,
            p.source,
            vars,
        ) && p.target@ == substituted(o.target@, vars),
        _ => false,
    } by {
        assert(mount_substituted(before.mounts@[i], after.mounts@[i], vars));
    }
}

/// Whether `after` is there where `before` is, and is `before` with its variables replaced.
pub open spec fn is_substituted(
    before: Option<String>,
    after: Option<String>,
    vars: SubstitutionContext,
) -> bool {
    match (before, after) {
        (Some(b), Some(a)) => a@ == substituted(b@, vars),
        (None, None) => true,
        _ => false,
    }
}

/// The fields of a configuration that hold no variables stay as they are.
pub proof fn law_other_fields_stay(
    before: DevContainerConfig,
    after: DevContainerConfig,
    vars: SubstitutionContext,
)
    requires
        config_substituted(before, after, vars),
    ensures
        after.name == before.name,
        after.image == before.image,
        after.build == before.build,
        after.docker_file == before.docker_file,
        after.context == before.context,
        after.forward_ports == before.forward_ports,
        after.app_port == before.app_port,
        after.override_command == before.override_command,
        after.init == before.init,
        after.privileged == before.privileged,
        after.cap_add == before.cap_add,
        after.security_opt == before.security_opt,
        after.initialize_command == before.initialize_command,
        after.on_create_command == before.on_create_command,
        after.update_content_command == before.update_content_command,
        after.post_create_command == before.post_create_command,
        after.post_start_command == before.post_start_command,
        after.post_attach_command == before.post_attach_command,
        after.features == before.features,
        after.docker_compose_file == before.docker_compose_file,
{
}

} // verus!
