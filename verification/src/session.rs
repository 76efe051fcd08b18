//! Bringing up the dev container of a workspace, step by step.
//!
//! A session knows what is to be done for a workspace. It hands out the command line to run next,
//! and goes on from there once it is told how that ended.
use crate::config::{
    build_context_of, dockerfile_of, law_folder_variables, law_no_variables, substituted,
    BuildConfig, Command, DevContainerConfig, LoadedConfig, SubstitutionContext,
};
use crate::container::{
    build_run_args, command_invocations, config_substituted, effective_remote_user, exit_code,
    in_key_order, invocations, is_tag_char, law_hash_text, law_labels_are_set, law_run_line_entry,
    law_run_line_labels_and_env, law_run_line_user_and_args, law_sanitized_is_tag, law_set_entries,
    law_substituted_fields, open_shell, path_writes, places_before_labels, places_before_run_args,
    remote_env_pairs, remote_user_of, run_line, sanitize, sanitized, set_entries, shell_command,
    short, short_hash, short_id, substitute_config, text_of_hash, LABEL_CONFIG_FILE,
    LABEL_LOCAL_FOLDER,
};
use crate::docker::{
    assignments, build, build_line, captured, container_id, exec, exec_line, failure,
    find_by_labels, find_line, found_container, label_filters, law_build_line, law_exec_line,
    law_same_context, listed_container, no_container_id, run, run_failed, start,
};
use crate::features::{no_flags, FeatureRuntime, Prepared, RuntimeView};
use crate::lists::{flag_at, opt_text, text_lists, text_pairs, texts};
use crate::paths::{
    base_name, basename, below, is_normal, joined_path, law_joined_path, law_way_down, lies_in,
    path_below, resolve_relative,
};
use crate::sorted_map::SortedMap;
use crate::text::{
    assignment, concat, concat3, has_prefix, has_suffix, join, joined, law_prefix_and_suffix,
    trimmed, CharClass,
};
use std::collections::hash_map::DefaultHasher;
use vstd::prelude::*;
use vstd::std_specs::hash::DefaultHasherAdditionalSpecFns;

verus! {

// --- what is run ---

/// How a command line is run.
#[derive(Clone, Copy, PartialEq, Eq, Structural)]
pub enum Mode {
    /// On the host, in the workspace folder. The command line is the program and its arguments.
    Host,
    /// By `docker`, with the standard streams of this process.
    Inherit,
    /// By `docker`, without standard input; its standard output is kept.
    Capture,
    /// By `docker`, with the standard output and error of this process, and with its standard
    /// input if the flag is set.
    Exec(bool),
}

/// Where the container of a session comes from.
#[derive(Clone, Copy, PartialEq, Eq, Structural)]
pub enum Origin {
    /// It was running.
    Running,
    /// It was stopped, and is started.
    Stopped,
    /// It is created.
    Created,
}

/// What the command line that is being run is for.
pub enum Phase {
    /// The invocation of the `initializeCommand` at this place.
    Initialize(usize),
    /// Finding the container of the workspace.
    Locate,
    /// Starting the container of this id.
    Start(String),
    /// Building the image from the Dockerfile.
    BuildBase,
    /// Building the image with the features, which ask for these flags.
    BuildFeatures(FeatureRuntime),
    /// Creating the container.
    Create,
    /// The lifecycle invocation at this place, in the container of this id.
    Lifecycle(String, Origin, usize),
    /// The shell, or the command of the user.
    Attach,
}

/// A command line to run.
pub struct Run {
    pub mode: Mode,
    /// The arguments of `docker`; on the host, the program and its arguments.
    pub args: Vec<String>,
    pub phase: Phase,
}

/// What has to be done next.
pub enum Next {
    /// The command line has to be run.
    Run(Run),
    /// The features have to be fetched and laid out for the build of an image.
    Prepare {
        base_image: String,
        remote_user: String,
        container_user: String,
        cache_key: String,
    },
    /// Nothing; the session ends with this exit code.
    Finish(i32),
    /// Nothing; the session fails for this reason.
    Fail(String),
}

/// A step of a session: what to tell the user, and what to do then.
pub struct Step {
    pub notices: Vec<String>,
    pub next: Next,
}

/// How a process ended.
pub struct Outcome {
    /// Its exit code, if it ended by itself.
    pub code: Option<i32>,
    /// The signal that ended it, if one did.
    pub signal: Option<u8>,
    /// The status in words.
    pub status: String,
    /// What it printed, where that was kept.
    pub stdout: String,
}

impl Outcome {
    /// Whether the process ended well.
    pub open spec fn is_success(self) -> bool {
        self.code == Some(0i32)
    }

    fn success(&self) -> (r: bool)
        ensures
            r == self.is_success(),
    {
        match self.code {
            Some(code) => code == 0,
            None => false,
        }
    }
}

// --- what the types hold ---

/// What a `Phase` holds.
pub enum PhaseView {
    Initialize(int),
    Locate,
    Start(Seq<char>),
    BuildBase,
    BuildFeatures(RuntimeView),
    Create,
    Lifecycle(Seq<char>, Origin, int),
    Attach,
}

impl View for Phase {
    type V = PhaseView;

    open spec fn view(&self) -> PhaseView {
        match *self {
            Phase::Initialize(i) => PhaseView::Initialize(i as int),
            Phase::Locate => PhaseView::Locate,
            Phase::Start(id) => PhaseView::Start(id@),
            Phase::BuildBase => PhaseView::BuildBase,
            Phase::BuildFeatures(runtime) => PhaseView::BuildFeatures(runtime@),
            Phase::Create => PhaseView::Create,
            Phase::Lifecycle(id, origin, i) => PhaseView::Lifecycle(id@, origin, i as int),
            Phase::Attach => PhaseView::Attach,
        }
    }
}

/// What a `Run` holds.
pub struct RunView {
    pub mode: Mode,
    pub args: Seq<Seq<char>>,
    pub phase: PhaseView,
}

impl View for Run {
    type V = RunView;

    open spec fn view(&self) -> RunView {
        RunView { mode: self.mode, args: texts(self.args@), phase: self.phase@ }
    }
}

/// What a `Next` holds.
pub enum NextView {
    Run(RunView),
    Prepare {
        base_image: Seq<char>,
        remote_user: Seq<char>,
        container_user: Seq<char>,
        cache_key: Seq<char>,
    },
    Finish(int),
    Fail(Seq<char>),
}

impl View for Next {
    type V = NextView;

    open spec fn view(&self) -> NextView {
        match *self {
            Next::Run(run) => NextView::Run(run@),
            Next::Prepare { base_image, remote_user, container_user, cache_key } =>
                NextView::Prepare {
                    base_image: base_image@,
                    remote_user: remote_user@,
                    container_user: container_user@,
                    cache_key: cache_key@,
                },
            Next::Finish(code) => NextView::Finish(code as int),
            Next::Fail(reason) => NextView::Fail(reason@),
        }
    }
}

/// What a `Step` holds.
pub struct StepView {
    pub notices: Seq<Seq<char>>,
    pub next: NextView,
}

impl View for Step {
    type V = StepView;

    open spec fn view(&self) -> StepView {
        StepView { notices: texts(self.notices@), next: self.next@ }
    }
}

/// A step that tells the user nothing.
pub open spec fn silent(next: NextView) -> StepView {
    StepView { notices: seq![], next }
}

/// A step that tells the user one thing.
pub open spec fn telling(notice: Seq<char>, next: NextView) -> StepView {
    StepView { notices: seq![notice], next }
}

fn silent_step(next: Next) -> (r: Step)
    ensures
        r@ == silent(next@),
{
    let r = Step { notices: Vec::new(), next };
    assert(r@.notices =~= seq![]);
    r
}

fn telling_step(notice: String, next: Next) -> (r: Step)
    ensures
        r@ == telling(notice@, next@),
{
    let mut notices: Vec<String> = Vec::new();
    notices.push(notice);
    let r = Step { notices, next };
    assert(r@.notices =~= seq![notice@]);
    r
}

// --- sessions ---

/// What is to be done for a workspace.
pub struct Session {
    /// The workspace folder on the host.
    pub workspace: String,
    /// The directory that the paths in the configuration are relative to.
    pub config_dir: String,
    /// The values of the variables in the configuration.
    pub vars: SubstitutionContext,
    /// The configuration, with its variables replaced.
    pub config: DevContainerConfig,
    /// What tells the images of this workspace from those of others.
    pub key: String,
    /// The workspace folder in the container.
    pub folder: String,
    /// Where the shell or the command of the user is run in the container.
    pub cwd: String,
    /// The labels by which the container is found again.
    pub labels: Vec<(String, String)>,
    /// The command of the user; a shell is opened where it is empty.
    pub command: Vec<String>,
    /// Whether standard input is a terminal.
    pub tty: bool,
    /// Whether the host is a Linux.
    pub linux: bool,
}

/// The workspace folder in the container: the one that is configured, else one that is named like
/// the workspace.
pub open spec fn container_folder(config: DevContainerConfig, workspace: Seq<char>) -> Seq<char> {
    match config.workspace_folder {
        Some(folder) => folder@,
        None => "/workspaces/"@ + base_name(workspace),
    }
}

/// The directory in the container that stands for the directory `dir` of the workspace.
pub open spec fn container_dir(
    folder: Seq<char>,
    workspace: Seq<char>,
    dir: Seq<char>,
) -> Seq<char> {
    if below(workspace, dir).len() == 0 {
        folder
    } else {
        joined_path(folder, below(workspace, dir))
    }
}

/// What tells the images of a workspace from those of others: its name and a hash.
pub open spec fn image_key(workspace: Seq<char>, hash: Seq<char>) -> Seq<char> {
    sanitized(base_name(workspace)) + "-"@ + hash
}

fn folder_in_container(config: &DevContainerConfig, workspace: &str) -> (r: String)
    ensures
        r@ == container_folder(*config, workspace@),
{
    match &config.workspace_folder {
        Some(folder) => folder.clone(),
        None => {
            let name = basename(workspace);
            concat("/workspaces/", name.as_str())
        },
    }
}

impl Session {
    /// Whether this is the session for a workspace and the configuration that was loaded for it,
    /// begun in the directory `dir`, apart from the key of its images.
    pub open spec fn is_for(
        self,
        loaded: LoadedConfig,
        config_path: Seq<char>,
        workspace: Seq<char>,
        dir: Seq<char>,
    ) -> bool {
        let folder = container_folder(loaded.config, workspace);
        &&& self.workspace@ == workspace
        &&& self.config_dir@ == loaded.config_dir@
        &&& self.vars.local_workspace_folder@ == workspace
        &&& self.vars.local_workspace_folder_basename@ == base_name(workspace)
        &&& self.vars.container_workspace_folder@ == folder
        &&& self.vars.container_workspace_folder_basename@ == base_name(folder)
        &&& config_substituted(loaded.config, self.config, self.vars)
        &&& self.folder@ == container_folder(self.config, workspace)
        &&& self.cwd@ == container_dir(self.folder@, workspace, dir)
        &&& text_pairs(self.labels@) == seq![
            (LABEL_LOCAL_FOLDER@, workspace),
            (LABEL_CONFIG_FILE@, config_path),
        ]
    }

    /// The session for the configuration that was loaded from `config_path` for `workspace`, begun
    /// in the directory `dir` of the workspace. `hash` is the hash of the workspace.
    pub fn with_hash(
        loaded: LoadedConfig,
        config_path: &str,
        workspace: &str,
        dir: &str,
        hash: &str,
        local_env: Vec<(String, String)>,
        command: Vec<String>,
        tty: bool,
        linux: bool,
    ) -> (r: Session)
        ensures
            r.is_for(loaded, config_path@, workspace@, dir@),
            r.key@ == image_key(workspace@, hash@),
            r.vars.local_env == local_env,
            r.command == command,
            r.tty == tty,
            r.linux == linux,
    {
        let folder = folder_in_container(&loaded.config, workspace);
        let vars = SubstitutionContext {
            local_workspace_folder: workspace.to_owned(),
            local_workspace_folder_basename: basename(workspace),
            container_workspace_folder_basename: basename(folder.as_str()),
            container_workspace_folder: folder,
            local_env,
        };
        let config = substitute_config(loaded.config, &vars);
        // The folder may itself hold variables.
        let folder = folder_in_container(&config, workspace);
        let way = path_below(workspace, dir);
        let cwd = if way.as_str().is_empty() {
            folder.clone()
        } else {
            resolve_relative(folder.as_str(), way.as_str())
        };
        let mut labels: Vec<(String, String)> = Vec::new();
        labels.push((LABEL_LOCAL_FOLDER.to_owned(), workspace.to_owned()));
        labels.push((LABEL_CONFIG_FILE.to_owned(), config_path.to_owned()));
        assert(text_pairs(labels@) =~= seq![
            (LABEL_LOCAL_FOLDER@, workspace@),
            (LABEL_CONFIG_FILE@, config_path@),
        ]);
        let name = basename(workspace);
        let name = sanitize(name.as_str());
        Session {
            workspace: workspace.to_owned(),
            config_dir: loaded.config_dir,
            vars,
            config,
            key: concat3(name.as_str(), "-", hash),
            folder,
            cwd,
            labels,
            command,
            tty,
            linux,
        }
    }

    /// The session for the configuration that was loaded from `config_path` for `workspace`, begun
    /// in the directory `dir` of the workspace.
    pub fn new(
        loaded: LoadedConfig,
        config_path: &str,
        workspace: &str,
        dir: &str,
        local_env: Vec<(String, String)>,
        command: Vec<String>,
        tty: bool,
        linux: bool,
    ) -> (r: Session)
        ensures
            r.is_for(loaded, config_path@, workspace@, dir@),
            exists|platform: nat|
                r.key@ == image_key(
                    workspace@,
                    text_of_hash(
                        DefaultHasher::spec_finish(#[trigger] path_writes(workspace@, platform)),
                    ),
                ),
            r.vars.local_env == local_env,
            r.command == command,
            r.tty == tty,
            r.linux == linux,
    {
        let hash = short_hash(workspace);
        Session::with_hash(
            loaded,
            config_path,
            workspace,
            dir,
            hash.as_str(),
            local_env,
            command,
            tty,
            linux,
        )
    }
}

// --- commands ---

/// The invocations of a command, if there is one.
pub open spec fn opt_invocations(command: Option<Command>) -> Seq<Seq<Seq<char>>> {
    match command {
        Some(c) => invocations(c),
        None => seq![],
    }
}

/// The lifecycle invocations in a container of the given origin, in the order in which they run.
pub open spec fn lifecycle_commands(config: DevContainerConfig, origin: Origin) -> Seq<
    Seq<Seq<char>>,
> {
    match origin {
        Origin::Running => opt_invocations(config.post_attach_command),
        Origin::Stopped => opt_invocations(config.post_start_command) + opt_invocations(
            config.post_attach_command,
        ),
        Origin::Created => opt_invocations(config.on_create_command) + opt_invocations(
            config.update_content_command,
        ) + opt_invocations(config.post_create_command) + opt_invocations(
            config.post_start_command,
        ) + opt_invocations(config.post_attach_command),
    }
}

/// Whether the named commands among an optional command run in ascending order of their names.
pub open spec fn opt_in_key_order(command: Option<Command>) -> bool {
    command matches Some(c) ==> in_key_order(c)
}

/// Whether the named commands of the lifecycle in a container of the given origin run in ascending
/// order of their names.
pub open spec fn lifecycle_in_key_order(config: DevContainerConfig, origin: Origin) -> bool {
    match origin {
        Origin::Running => opt_in_key_order(config.post_attach_command),
        Origin::Stopped => opt_in_key_order(config.post_start_command) && opt_in_key_order(
            config.post_attach_command,
        ),
        Origin::Created => opt_in_key_order(config.on_create_command) && opt_in_key_order(
            config.update_content_command,
        ) && opt_in_key_order(config.post_create_command) && opt_in_key_order(
            config.post_start_command,
        ) && opt_in_key_order(config.post_attach_command),
    }
}

/// The invocation at a place; empty where there is none.
pub open spec fn invocation_at(commands: Seq<Seq<Seq<char>>>, i: int) -> Seq<Seq<char>> {
    if 0 <= i < commands.len() {
        commands[i]
    } else {
        seq![]
    }
}

fn add_invocations(list: &mut Vec<Vec<String>>, command: &Option<Command>)
    ensures
        text_lists(final(list)@) == text_lists(old(list)@) + opt_invocations(*command),
        opt_in_key_order(*command),
{
    if let Some(c) = command {
        let mut more = command_invocations(c);
        list.append(&mut more);
    }
    assert(text_lists(list@) =~= text_lists(old(list)@) + opt_invocations(*command));
}

fn host_invocations(config: &DevContainerConfig) -> (r: Vec<Vec<String>>)
    ensures
        text_lists(r@) == opt_invocations(config.initialize_command),
        opt_in_key_order(config.initialize_command),
{
    let mut r: Vec<Vec<String>> = Vec::new();
    add_invocations(&mut r, &config.initialize_command);
    assert(text_lists(r@) =~= opt_invocations(config.initialize_command));
    r
}

fn lifecycle_invocations(config: &DevContainerConfig, origin: Origin) -> (r: Vec<Vec<String>>)
    ensures
        text_lists(r@) == lifecycle_commands(*config, origin),
        lifecycle_in_key_order(*config, origin),
{
    let mut r: Vec<Vec<String>> = Vec::new();
    match origin {
        Origin::Running => {},
        Origin::Stopped => {
            add_invocations(&mut r, &config.post_start_command);
        },
        Origin::Created => {
            add_invocations(&mut r, &config.on_create_command);
            add_invocations(&mut r, &config.update_content_command);
            add_invocations(&mut r, &config.post_create_command);
            add_invocations(&mut r, &config.post_start_command);
        },
    }
    add_invocations(&mut r, &config.post_attach_command);
    assert(text_lists(r@) =~= lifecycle_commands(*config, origin));
    r
}

/// The invocation at a place of the list, taken out of it.
fn take_invocation(commands: Vec<Vec<String>>, i: usize) -> (r: Option<Vec<String>>)
    ensures
        match r {
            Some(argv) => i < commands@.len() && texts(argv@) == text_lists(commands@)[i as int],
            None => i >= commands@.len(),
        },
{
    let mut commands = commands;
    if i < commands.len() {
        Some(commands.swap_remove(i))
    } else {
        None
    }
}

// --- steps ---

/// What is said where a configuration names neither an image nor a Dockerfile.
pub open spec fn no_image() -> Seq<char> {
    "devcontainer.json must specify either \"image\" or a Dockerfile build."@
}

impl Session {
    /// The environment of the commands in the container.
    pub open spec fn env(self) -> Seq<(String, String)> {
        set_entries(self.config.remote_env.entries())
    }

    /// The image that is built from the Dockerfile.
    pub open spec fn base_tag(self) -> Seq<char> {
        "devc-"@ + self.key@
    }

    /// The image that holds the features.
    pub open spec fn features_tag(self) -> Seq<char> {
        "devc-features-"@ + self.key@
    }

    /// The arguments that build the image from the Dockerfile `file`. It and the build context are
    /// relative to the directory of the configuration.
    pub open spec fn base_build(self, file: Seq<char>) -> Seq<Seq<char>> {
        let context = joined_path(self.config_dir@, build_context_of(self.config));
        let dockerfile = joined_path(self.config_dir@, file);
        match self.config.build {
            Some(b) => build_line(
                context,
                dockerfile,
                self.base_tag(),
                assignments(b.args.entries()),
                opt_text(b.target),
                texts(b.cache_from.list()),
                texts(b.options@),
            ),
            None => build_line(context, dockerfile, self.base_tag(), seq![], None, seq![], seq![]),
        }
    }

    /// The invocation of the `initializeCommand` at `i`.
    pub open spec fn host_run(self, i: int) -> RunView {
        RunView {
            mode: Mode::Host,
            args: opt_invocations(self.config.initialize_command)[i],
            phase: PhaseView::Initialize(i),
        }
    }

    /// What is run to find the container of the workspace.
    pub open spec fn locate_run(self) -> RunView {
        RunView { mode: Mode::Capture, args: find_line(self.labels@), phase: PhaseView::Locate }
    }

    /// What is done for the `initializeCommand` from the invocation at `i` on.
    pub open spec fn initializing(self, i: int) -> NextView {
        if i < opt_invocations(self.config.initialize_command).len() {
            NextView::Run(self.host_run(i))
        } else {
            NextView::Run(self.locate_run())
        }
    }

    /// What is done in the container from the lifecycle invocation at `i` on.
    pub open spec fn living(self, id: Seq<char>, origin: Origin, i: int) -> NextView {
        if i < lifecycle_commands(self.config, origin).len() {
            NextView::Run(self.lifecycle_run(id, origin, i))
        } else {
            NextView::Run(self.attach_run(id))
        }
    }

    /// The lifecycle invocation at `i`, in the container workspace folder.
    pub open spec fn lifecycle_run(self, id: Seq<char>, origin: Origin, i: int) -> RunView {
        RunView {
            mode: Mode::Exec(false),
            args: exec_line(
                id,
                remote_user_of(self.config),
                Some(self.folder@),
                self.env(),
                lifecycle_commands(self.config, origin)[i],
                false,
                false,
            ),
            phase: PhaseView::Lifecycle(id, origin, i),
        }
    }

    /// The command that the user attaches to: their own, else a shell.
    pub open spec fn user_command(self) -> Seq<Seq<char>> {
        if self.command@.len() == 0 {
            shell_command()
        } else {
            texts(self.command@)
        }
    }

    /// What is run once the lifecycle commands have run: the shell or the command of the user.
    pub open spec fn attach_run(self, id: Seq<char>) -> RunView {
        RunView {
            mode: Mode::Exec(true),
            args: exec_line(
                id,
                remote_user_of(self.config),
                Some(self.cwd@),
                self.env(),
                self.user_command(),
                true,
                self.tty,
            ),
            phase: PhaseView::Attach,
        }
    }

    /// What is done where there is no container yet.
    pub open spec fn creating(self) -> StepView {
        match dockerfile_of(self.config) {
            Some(file) => telling(
                "devc: building image "@ + self.base_tag(),
                NextView::Run(
                    RunView {
                        mode: Mode::Inherit,
                        args: self.base_build(file),
                        phase: PhaseView::BuildBase,
                    },
                ),
            ),
            None => match self.config.image {
                Some(image) => self.extending(image@),
                None => silent(NextView::Fail(no_image())),
            },
        }
    }

    /// What is done once the base image is there.
    pub open spec fn extending(self, image: Seq<char>) -> StepView {
        if self.config.features@.len() == 0 {
            self.running(image, no_flags())
        } else {
            let remote_user = match self.config.remote_user {
                Some(user) => user@,
                None => "root"@,
            };
            silent(
                NextView::Prepare {
                    base_image: image,
                    remote_user,
                    container_user: match self.config.container_user {
                        Some(user) => user@,
                        None => remote_user,
                    },
                    cache_key: self.key@,
                },
            )
        }
    }

    /// What is done once the features of an image were laid out.
    pub open spec fn prepared_step(
        self,
        base_image: Seq<char>,
        prepared: Option<Prepared>,
    ) -> StepView {
        match prepared {
            Some(p) => telling(
                "devc: building features image "@ + self.features_tag(),
                NextView::Run(
                    RunView {
                        mode: Mode::Inherit,
                        args: build_line(
                            p.context.context_dir@,
                            p.context.dockerfile@,
                            self.features_tag(),
                            seq![],
                            None,
                            seq![],
                            seq![],
                        ),
                        phase: PhaseView::BuildFeatures(p.runtime@),
                    },
                ),
            ),
            None => self.running(base_image, no_flags()),
        }
    }

    /// What is done once the image of the container is there.
    pub open spec fn running(self, image: Seq<char>, runtime: RuntimeView) -> StepView {
        telling(
            "devc: creating container from "@ + image,
            NextView::Run(
                RunView {
                    mode: Mode::Capture,
                    args: seq!["run"@] + run_line(
                        self.workspace@,
                        self.config,
                        self.folder@,
                        self.labels@,
                        image,
                        runtime,
                        self.linux,
                    ),
                    phase: PhaseView::Create,
                },
            ),
        )
    }

    /// What is done once a command line has run.
    pub open spec fn going_on(self, run: RunView, outcome: Outcome) -> StepView {
        let failed = silent(NextView::Fail(run_failed(run.args, outcome.status@)));
        let out = trimmed(outcome.stdout@, CharClass::Whitespace);
        match run.phase {
            PhaseView::Initialize(i) => if outcome.is_success() {
                silent(self.initializing(i + 1))
            } else {
                silent(
                    NextView::Fail(
                        "initializeCommand failed: command failed: "@ + joined(run.args, " "@),
                    ),
                )
            },
            PhaseView::Locate => if !outcome.is_success() {
                failed
            } else {
                match listed_container(out) {
                    Some((id, true)) => telling(
                        "devc: reusing running container "@ + short_id(id),
                        self.living(id, Origin::Running, 0),
                    ),
                    Some((id, false)) => telling(
                        "devc: starting existing container "@ + short_id(id),
                        NextView::Run(
                            RunView {
                                mode: Mode::Inherit,
                                args: seq!["start"@, id],
                                phase: PhaseView::Start(id),
                            },
                        ),
                    ),
                    None => self.creating(),
                }
            },
            PhaseView::Start(id) => if outcome.is_success() {
                silent(self.living(id, Origin::Stopped, 0))
            } else {
                failed
            },
            PhaseView::BuildBase => if outcome.is_success() {
                self.extending(self.base_tag())
            } else {
                failed
            },
            PhaseView::BuildFeatures(runtime) => if outcome.is_success() {
                self.running(self.features_tag(), runtime)
            } else {
                failed
            },
            PhaseView::Create => if !outcome.is_success() {
                failed
            } else if out.len() == 0 {
                silent(NextView::Fail(no_container_id()))
            } else {
                telling(
                    "devc: started container "@ + short_id(out),
                    self.living(out, Origin::Created, 0),
                )
            },
            PhaseView::Lifecycle(id, origin, i) => if outcome.is_success() {
                silent(self.living(id, origin, i + 1))
            } else {
                let argv = invocation_at(lifecycle_commands(self.config, origin), i);
                silent(NextView::Fail("lifecycle command failed: "@ + joined(argv, " "@)))
            },
            PhaseView::Attach => silent(
                NextView::Finish(
                    match (outcome.code, outcome.signal) {
                        (Some(c), _) => c as int,
                        (None, Some(s)) => 128 + s,
                        (None, None) => 1,
                    },
                ),
            ),
        }
    }

    fn base_tag_text(&self) -> (r: String)
        ensures
            r@ == self.base_tag(),
    {
        concat("devc-", self.key.as_str())
    }

    fn features_tag_text(&self) -> (r: String)
        ensures
            r@ == self.features_tag(),
    {
        concat("devc-features-", self.key.as_str())
    }

    /// Brings up the dev container of the workspace: the first step. The `initializeCommand` runs
    /// on the host every time, before the container is looked for.
    pub fn up_and_run(&self) -> (r: Step)
        ensures
            r@ == silent(self.initializing(0)),
            opt_in_key_order(self.config.initialize_command),
    {
        silent_step(self.run_host_command(0))
    }

    /// Goes on with the `initializeCommand` at the invocation at `i`.
    fn run_host_command(&self, i: usize) -> (r: Next)
        ensures
            r@ == self.initializing(i as int),
            opt_in_key_order(self.config.initialize_command),
    {
        match take_invocation(host_invocations(&self.config), i) {
            Some(args) => Next::Run(Run { mode: Mode::Host, args, phase: Phase::Initialize(i) }),
            None => Next::Run(
                Run {
                    mode: Mode::Capture,
                    args: find_by_labels(&self.labels),
                    phase: Phase::Locate,
                },
            ),
        }
    }

    /// The step after a command line has run.
    pub fn advance(&self, run: Run, outcome: &Outcome) -> (r: Step)
        ensures
            r@ == self.going_on(run@, *outcome),
            match r@.next {
                NextView::Run(RunView { phase: PhaseView::Lifecycle(_, origin, _), .. }) =>
                    lifecycle_in_key_order(self.config, origin),
                _ => true,
            },
    {
        let ok = outcome.success();
        match run.phase {
            Phase::Initialize(i) => {
                if !ok {
                    let line = join(&run.args, " ");
                    let reason = concat(
                        "initializeCommand failed: command failed: ",
                        line.as_str(),
                    );
                    return silent_step(Next::Fail(reason));
                }
                let commands = host_invocations(&self.config);
                let n = commands.len();
                silent_step(self.run_host_command(after(i, n)))
            },
            Phase::Locate => {
                if !ok {
                    return silent_step(Next::Fail(failure(&run.args, outcome.status.as_str())));
                }
                let out = captured(outcome.stdout.as_str());
                match found_container(out.as_str()) {
                    Some(found) => {
                        let name = short(found.id.as_str());
                        if found.running {
                            let notice = concat(
                                "devc: reusing running container ",
                                name.as_str(),
                            );
                            telling_step(
                                notice,
                                self.run_lifecycle_in_container(found.id, Origin::Running, 0),
                            )
                        } else {
                            let notice = concat(
                                "devc: starting existing container ",
                                name.as_str(),
                            );
                            let args = start(found.id.as_str());
                            telling_step(
                                notice,
                                Next::Run(
                                    Run {
                                        mode: Mode::Inherit,
                                        args,
                                        phase: Phase::Start(found.id),
                                    },
                                ),
                            )
                        }
                    },
                    None => self.create_container(),
                }
            },
            Phase::Start(id) => {
                if !ok {
                    return silent_step(Next::Fail(failure(&run.args, outcome.status.as_str())));
                }
                silent_step(self.run_lifecycle_in_container(id, Origin::Stopped, 0))
            },
            Phase::BuildBase => {
                if !ok {
                    return silent_step(Next::Fail(failure(&run.args, outcome.status.as_str())));
                }
                self.extend_image(self.base_tag_text())
            },
            Phase::BuildFeatures(runtime) => {
                if !ok {
                    return silent_step(Next::Fail(failure(&run.args, outcome.status.as_str())));
                }
                let tag = self.features_tag_text();
                self.run_container(tag.as_str(), &runtime)
            },
            Phase::Create => {
                if !ok {
                    return silent_step(Next::Fail(failure(&run.args, outcome.status.as_str())));
                }
                let out = captured(outcome.stdout.as_str());
                match container_id(out.as_str()) {
                    Ok(id) => {
                        let name = short(id.as_str());
                        let notice = concat("devc: started container ", name.as_str());
                        telling_step(
                            notice,
                            self.run_lifecycle_in_container(id, Origin::Created, 0),
                        )
                    },
                    Err(reason) => silent_step(Next::Fail(reason)),
                }
            },
            Phase::Lifecycle(id, origin, i) => {
                let commands = lifecycle_invocations(&self.config, origin);
                let n = commands.len();
                if !ok {
                    let argv = match take_invocation(commands, i) {
                        Some(argv) => argv,
                        None => Vec::new(),
                    };
                    assert(texts(argv@) =~= invocation_at(
                        lifecycle_commands(self.config, origin),
                        i as int,
                    ));
                    let line = join(&argv, " ");
                    let reason = concat("lifecycle command failed: ", line.as_str());
                    return silent_step(Next::Fail(reason));
                }
                silent_step(self.run_lifecycle_in_container(id, origin, after(i, n)))
            },
            Phase::Attach => silent_step(Next::Finish(exit_code(outcome.code, outcome.signal))),
        }
    }

    /// The step after the features of an image were laid out; `prepared` is none where all of them
    /// are disabled.
    pub fn after_preparation(&self, base_image: &str, prepared: Option<Prepared>) -> (r: Step)
        ensures
            r@ == self.prepared_step(base_image@, prepared),
    {
        match prepared {
            Some(p) => {
                let tag = self.features_tag_text();
                let args = plain_build(
                    p.context.context_dir.as_str(),
                    p.context.dockerfile.as_str(),
                    tag.as_str(),
                );
                telling_step(
                    concat("devc: building features image ", tag.as_str()),
                    Next::Run(
                        Run {
                            mode: Mode::Inherit,
                            args,
                            phase: Phase::BuildFeatures(p.runtime),
                        },
                    ),
                )
            },
            None => self.run_container(base_image, &FeatureRuntime::default()),
        }
    }

    /// Begins to create the container: with the build of its image, or with what extends the
    /// image that is configured.
    fn create_container(&self) -> (r: Step)
        ensures
            r@ == self.creating(),
    {
        match self.config.dockerfile() {
            Some(file) => {
                let context_rel = self.config.build_context();
                let context = resolve_relative(self.config_dir.as_str(), context_rel.as_str());
                let dockerfile = resolve_relative(self.config_dir.as_str(), file.as_str());
                let tag = self.base_tag_text();
                let args = match &self.config.build {
                    Some(b) => build(
                        context.as_str(),
                        dockerfile.as_str(),
                        tag.as_str(),
                        &b.args,
                        &b.target,
                        &b.cache_from.as_vec(),
                        &b.options,
                    ),
                    None => plain_build(context.as_str(), dockerfile.as_str(), tag.as_str()),
                };
                telling_step(
                    concat("devc: building image ", tag.as_str()),
                    Next::Run(Run { mode: Mode::Inherit, args, phase: Phase::BuildBase }),
                )
            },
            None => match &self.config.image {
                Some(image) => self.extend_image(image.clone()),
                None => silent_step(
                    Next::Fail(
                        "devcontainer.json must specify either \"image\" or a Dockerfile build.".to_owned(),
                    ),
                ),
            },
        }
    }

    /// Goes on with the base image: with its features, if there are any.
    fn extend_image(&self, image: String) -> (r: Step)
        ensures
            r@ == self.extending(image@),
    {
        if self.config.features.len() == 0 {
            return self.run_container(image.as_str(), &FeatureRuntime::default());
        }
        let remote_user = match &self.config.remote_user {
            Some(user) => user.clone(),
            None => "root".to_owned(),
        };
        let container_user = match &self.config.container_user {
            Some(user) => user.clone(),
            None => remote_user.clone(),
        };
        silent_step(
            Next::Prepare {
                base_image: image,
                remote_user,
                container_user,
                cache_key: self.key.clone(),
            },
        )
    }

    /// Goes on with the image of the container.
    fn run_container(&self, image: &str, runtime: &FeatureRuntime) -> (r: Step)
        ensures
            r@ == self.running(image@, runtime@),
    {
        let run_args = build_run_args(
            self.workspace.as_str(),
            &self.config,
            self.folder.as_str(),
            &self.labels,
            image,
            runtime,
            self.linux,
        );
        telling_step(
            concat("devc: creating container from ", image),
            Next::Run(Run { mode: Mode::Capture, args: run(&run_args), phase: Phase::Create }),
        )
    }

    /// Goes on with the lifecycle commands at the invocation at `i`.
    fn run_lifecycle_in_container(&self, id: String, origin: Origin, i: usize) -> (r: Next)
        ensures
            r@ == self.living(id@, origin, i as int),
            lifecycle_in_key_order(self.config, origin),
    {
        match take_invocation(lifecycle_invocations(&self.config, origin), i) {
            Some(argv) => {
                let args = exec(
                    id.as_str(),
                    &effective_remote_user(&self.config),
                    &Some(self.folder.clone()),
                    &remote_env_pairs(&self.config),
                    &argv,
                    false,
                    false,
                );
                Next::Run(
                    Run { mode: Mode::Exec(false), args, phase: Phase::Lifecycle(id, origin, i) },
                )
            },
            None => self.run_command(id),
        }
    }

    /// Runs the command of the user, or opens a shell, as the remote user and with the remote
    /// environment.
    fn run_command(&self, id: String) -> (r: Next)
        ensures
            r@ == NextView::Run(self.attach_run(id@)),
    {
        let shell = open_shell();
        let cmd = if self.command.len() == 0 {
            &shell
        } else {
            &self.command
        };
        let args = exec(
            id.as_str(),
            &effective_remote_user(&self.config),
            &Some(self.cwd.clone()),
            &remote_env_pairs(&self.config),
            cmd,
            true,
            self.tty,
        );
        Next::Run(Run { mode: Mode::Exec(true), args, phase: Phase::Attach })
    }
}

/// The place after `i`; the end of the list where there is none.
fn after(i: usize, n: usize) -> (r: usize)
    ensures
        i < n ==> r == i + 1,
        i >= n ==> r == n,
{
    if i < n {
        i + 1
    } else {
        n
    }
}

/// The command line that builds an image without any further options.
fn plain_build(context: &str, dockerfile: &str, tag: &str) -> (r: Vec<String>)
    ensures
        texts(r@) == build_line(context@, dockerfile@, tag@, seq![], None, seq![], seq![]),
{
    let args: SortedMap<String> = SortedMap::new();
    let none: Vec<String> = Vec::new();
    assert(assignments(args.entries()) =~= seq![]);
    assert(texts(none@) =~= seq![]);
    build(context, dockerfile, tag, &args, &None, &none, &none)
}

// --- laws ---

impl Session {
    /// The command lines that are run, from `next` on, where they end with the given outcomes, up
    /// to the end of the session or to the preparation of features.
    pub open spec fn trace(self, next: NextView, outcomes: Seq<Outcome>) -> Seq<RunView>
        decreases outcomes.len(),
    {
        match next {
            NextView::Run(run) => if outcomes.len() == 0 {
                seq![run]
            } else {
                seq![run] + self.trace(self.going_on(run, outcomes[0]).next, outcomes.skip(1))
            },
            _ => seq![],
        }
    }
}

/// Whether every process ended well.
pub open spec fn all_succeed(outcomes: Seq<Outcome>) -> bool {
    forall|i: int| 0 <= i < outcomes.len() ==> (#[trigger] outcomes[i]).is_success()
}

proof fn lemma_rest_succeeds(outcomes: Seq<Outcome>)
    requires
        all_succeed(outcomes),
        outcomes.len() > 0,
    ensures
        outcomes[0].is_success(),
        all_succeed(outcomes.skip(1)),
{
    assert(outcomes[0].is_success());
    assert forall|i: int| 0 <= i < outcomes.skip(1).len() implies (#[trigger] outcomes.skip(
        1,
    )[i]).is_success() by {
        assert(outcomes[i + 1].is_success());
    }
}

/// The invocations of the `initializeCommand` run on the host, one after the other, before the
/// container is looked for.
pub proof fn law_initialize_first(session: Session, outcomes: Seq<Outcome>)
    requires
        all_succeed(outcomes),
        outcomes.len() == opt_invocations(session.config.initialize_command).len(),
    ensures
        session.trace(session.initializing(0), outcomes) == Seq::new(
            outcomes.len(),
            |i: int| session.host_run(i),
        ).push(session.locate_run()),
{
    lemma_initialize(session, outcomes, 0);
}

proof fn lemma_initialize(session: Session, outcomes: Seq<Outcome>, i: int)
    requires
        all_succeed(outcomes),
        0 <= i,
        outcomes.len() + i == opt_invocations(session.config.initialize_command).len(),
    ensures
        session.trace(session.initializing(i), outcomes) == Seq::new(
            outcomes.len(),
            |k: int| session.host_run(i + k),
        ).push(session.locate_run()),
    decreases outcomes.len(),
{
    let expected = Seq::new(outcomes.len(), |k: int| session.host_run(i + k)).push(
        session.locate_run(),
    );
    if outcomes.len() > 0 {
        let rest = outcomes.skip(1);
        lemma_rest_succeeds(outcomes);
        lemma_initialize(session, rest, i + 1);
        let after = Seq::new(rest.len(), |k: int| session.host_run(i + 1 + k)).push(
            session.locate_run(),
        );
        let run = session.host_run(i);
        assert(session.initializing(i) == NextView::Run(run));
        assert(session.going_on(run, outcomes[0]).next == session.initializing(i + 1));
        assert(session.trace(session.initializing(i + 1), rest) =~= after);
        assert(session.trace(session.initializing(i), outcomes) == seq![session.host_run(i)]
            + after);
        assert(seq![session.host_run(i)] + after =~= expected);
    } else {
        assert(session.trace(session.initializing(i), outcomes) =~= expected);
    }
}

/// The lifecycle commands run in the container one after the other, in their order, and then the
/// shell or the command of the user.
pub proof fn law_lifecycle_order(
    session: Session,
    id: Seq<char>,
    origin: Origin,
    outcomes: Seq<Outcome>,
)
    requires
        all_succeed(outcomes),
        outcomes.len() == lifecycle_commands(session.config, origin).len(),
    ensures
        session.trace(session.living(id, origin, 0), outcomes) == Seq::new(
            outcomes.len(),
            |i: int| session.lifecycle_run(id, origin, i),
        ).push(session.attach_run(id)),
{
    lemma_lifecycle(session, id, origin, outcomes, 0);
}

proof fn lemma_lifecycle(
    session: Session,
    id: Seq<char>,
    origin: Origin,
    outcomes: Seq<Outcome>,
    i: int,
)
    requires
        all_succeed(outcomes),
        0 <= i,
        outcomes.len() + i == lifecycle_commands(session.config, origin).len(),
    ensures
        session.trace(session.living(id, origin, i), outcomes) == Seq::new(
            outcomes.len(),
            |k: int| session.lifecycle_run(id, origin, i + k),
        ).push(session.attach_run(id)),
    decreases outcomes.len(),
{
    let expected = Seq::new(outcomes.len(), |k: int| session.lifecycle_run(id, origin, i + k)).push(
        session.attach_run(id),
    );
    if outcomes.len() > 0 {
        let rest = outcomes.skip(1);
        lemma_rest_succeeds(outcomes);
        lemma_lifecycle(session, id, origin, rest, i + 1);
        let after = Seq::new(rest.len(), |k: int| session.lifecycle_run(id, origin, i + 1 + k)).push(
            session.attach_run(id),
        );
        let run = session.lifecycle_run(id, origin, i);
        assert(session.living(id, origin, i) == NextView::Run(run));
        assert(session.going_on(run, outcomes[0]).next == session.living(id, origin, i + 1));
        assert(session.trace(session.living(id, origin, i + 1), rest) =~= after);
        assert(session.trace(session.living(id, origin, i), outcomes) == seq![
            session.lifecycle_run(id, origin, i),
        ] + after);
        assert(seq![session.lifecycle_run(id, origin, i)] + after =~= expected);
    } else {
        assert(session.trace(session.living(id, origin, i), outcomes) =~= expected);
    }
}

/// A container that is found running is reused: however the commands end, nothing is built,
/// created or started any more, and all that is run is run inside it.
pub proof fn law_running_container_is_reused(
    session: Session,
    found: Outcome,
    id: Seq<char>,
    outcomes: Seq<Outcome>,
)
    requires
        found.is_success(),
        listed_container(trimmed(found.stdout@, CharClass::Whitespace)) == Some((id, true)),
    ensures
        ({
            let step = session.going_on(session.locate_run(), found);
            let runs = session.trace(step.next, outcomes);
            &&& step.notices == seq!["devc: reusing running container "@ + short_id(id)]
            &&& forall|k: int|
                0 <= k < runs.len() ==> (#[trigger] runs[k]).mode is Exec && session.runs_inside(
                    runs[k],
                    id,
                )
        }),
{
    lemma_stays_inside(session, id, Origin::Running, 0, outcomes);
}

/// A container that is found stopped is started: however the command lines end, nothing is built or
/// created any more, and all that is run after its start is run inside it.
pub proof fn law_stopped_container_is_started(
    session: Session,
    found: Outcome,
    id: Seq<char>,
    outcomes: Seq<Outcome>,
)
    requires
        found.is_success(),
        listed_container(trimmed(found.stdout@, CharClass::Whitespace)) == Some((id, false)),
    ensures
        ({
            let step = session.going_on(session.locate_run(), found);
            let runs = session.trace(step.next, outcomes);
            &&& step.notices == seq!["devc: starting existing container "@ + short_id(id)]
            &&& runs.len() > 0
            &&& runs[0].args == seq!["start"@, id]
            &&& forall|k: int|
                0 < k < runs.len() ==> (#[trigger] runs[k]).mode is Exec && session.runs_inside(
                    runs[k],
                    id,
                )
        }),
{
    let step = session.going_on(session.locate_run(), found);
    let run = step.next->Run_0;
    if outcomes.len() > 0 {
        let rest = outcomes.skip(1);
        let next = session.going_on(run, outcomes[0]).next;
        if outcomes[0].is_success() {
            assert(next == session.living(id, Origin::Stopped, 0));
            lemma_stays_inside(session, id, Origin::Stopped, 0, rest);
        } else {
            assert(session.trace(next, rest) =~= seq![]);
        }
    }
}

impl Session {
    /// Whether this is one of the command lines that run a command of the session in the container
    /// of this id: a lifecycle command, or the shell or the command of the user.
    pub open spec fn runs_inside(self, run: RunView, id: Seq<char>) -> bool {
        match run.phase {
            PhaseView::Lifecycle(_, origin, i) => run == self.lifecycle_run(id, origin, i),
            PhaseView::Attach => run == self.attach_run(id),
            _ => false,
        }
    }
}

proof fn lemma_stays_inside(
    session: Session,
    id: Seq<char>,
    origin: Origin,
    i: int,
    outcomes: Seq<Outcome>,
)
    requires
        0 <= i,
    ensures
        ({
            let runs = session.trace(session.living(id, origin, i), outcomes);
            forall|k: int|
                0 <= k < runs.len() ==> (#[trigger] runs[k]).mode is Exec && session.runs_inside(
                    runs[k],
                    id,
                )
        }),
    decreases outcomes.len(),
{
    if outcomes.len() > 0 {
        let rest = outcomes.skip(1);
        lemma_stays_inside(session, id, origin, i + 1, rest);
        if i < lifecycle_commands(session.config, origin).len() {
            let run = session.lifecycle_run(id, origin, i);
            let next = session.going_on(run, outcomes[0]).next;
            if outcomes[0].is_success() {
                assert(next == session.living(id, origin, i + 1));
            } else {
                assert(session.trace(next, rest) =~= seq![]);
            }
        } else {
            let run = session.attach_run(id);
            assert(session.trace(session.going_on(run, outcomes[0]).next, rest) =~= seq![]);
        }
    }
}

/// A command line that fails, but for that of the user, ends the session with an error.
pub proof fn law_failure_ends(session: Session, run: RunView, outcome: Outcome)
    requires
        !(run.phase is Attach),
        !outcome.is_success(),
    ensures
        session.going_on(run, outcome).next is Fail,
        session.going_on(run, outcome).notices.len() == 0,
{
}

/// The exit code of the shell or the command of the user is that of the session.
pub proof fn law_exit_code_is_passed_on(
    session: Session,
    id: Seq<char>,
    outcome: Outcome,
    code: i32,
)
    requires
        outcome.code == Some(code),
    ensures
        session.going_on(session.attach_run(id), outcome).next == NextView::Finish(code as int),
{
}

/// The command of the user runs in the same context as the shell would: what stands before it on
/// the command line is the same.
pub proof fn law_command_runs_like_shell(command: Session, shell: Session, id: Seq<char>)
    requires
        shell == (Session { command: shell.command, ..command }),
        shell.command@.len() == 0,
    ensures
        ({
            let context = exec_line(
                id,
                remote_user_of(shell.config),
                Some(shell.cwd@),
                shell.env(),
                seq![],
                true,
                shell.tty,
            );
            &&& shell.attach_run(id).args == context + shell_command()
            &&& command.attach_run(id).args == context + command.user_command()
        }),
{
    law_same_context(
        id,
        remote_user_of(shell.config),
        Some(shell.cwd@),
        shell.env(),
        shell_command(),
        true,
        shell.tty,
    );
    law_same_context(
        id,
        remote_user_of(shell.config),
        Some(shell.cwd@),
        shell.env(),
        command.user_command(),
        true,
        shell.tty,
    );
}

/// From whatever directory of a workspace a session is begun, it looks for the same container.
pub proof fn law_one_container_per_workspace(
    a: Session,
    b: Session,
    loaded: LoadedConfig,
    again: LoadedConfig,
    config_path: Seq<char>,
    workspace: Seq<char>,
    dir: Seq<char>,
    other: Seq<char>,
)
    requires
        a.is_for(loaded, config_path, workspace, dir),
        b.is_for(again, config_path, workspace, other),
    ensures
        a.locate_run() == b.locate_run(),
{
    let x = a.labels@;
    let y = b.labels@;
    assert(text_pairs(x).len() == x.len() && text_pairs(y).len() == y.len());
    assert forall|i: int| 0 <= i < x.len() implies label_filters(x)[i] == label_filters(y)[i] by {
        assert(text_pairs(x)[i] == (x[i].0@, x[i].1@));
        assert(text_pairs(y)[i] == (y[i].0@, y[i].1@));
    }
    assert(label_filters(x) =~= label_filters(y));
}

/// A container that is created is found again: it carries each label by which the container of the
/// workspace is looked for.
pub proof fn law_created_container_is_found(
    session: Session,
    image: Seq<char>,
    runtime: RuntimeView,
    i: int,
) -> (k: int)
    requires
        0 <= i < session.labels@.len(),
    ensures
        ({
            let label = assignment(session.labels@[i].0@, session.labels@[i].1@);
            let run = session.running(image, runtime).next->Run_0;
            &&& label_filters(session.labels@)[i] == "label="@ + label
            &&& 0 <= k < run.args.len() - 1
            &&& run.args[k] == "-l"@
            &&& run.args[k + 1] == label
        }),
{
    let k = law_labels_are_set(
        session.workspace@,
        session.config,
        session.folder@,
        session.labels@,
        image,
        runtime,
        session.linux,
        i,
    );
    k + 1
}

/// The Dockerfile is relative to the directory of the configuration, whatever the build context
/// is.
pub proof fn law_dockerfile_is_relative_to_config(session: Session, file: Seq<char>)
    ensures
        session.base_build(file).len() >= 5,
        session.base_build(file)[1] == "-f"@,
        session.base_build(file)[2] == joined_path(session.config_dir@, file),
        session.base_build(file).last() == joined_path(
            session.config_dir@,
            build_context_of(session.config),
        ),
{
}

/// The images of a workspace have valid tags.
pub proof fn law_tags_are_valid(session: Session, workspace: Seq<char>, hash: u64)
    requires
        session.key@ == image_key(workspace, text_of_hash(hash)),
    ensures
        forall|i: int|
            0 <= i < session.base_tag().len() ==> is_tag_char(#[trigger] session.base_tag()[i]),
        forall|i: int|
            0 <= i < session.features_tag().len() ==> is_tag_char(
                #[trigger] session.features_tag()[i],
            ),
{
    reveal_strlit("-");
    reveal_strlit("devc-");
    reveal_strlit("devc-features-");
    law_sanitized_is_tag(base_name(workspace));
    law_hash_text(hash);
    let name = sanitized(base_name(workspace));
    let key = session.key@;
    assert forall|i: int| 0 <= i < key.len() implies is_tag_char(#[trigger] key[i]) by {
        if i < name.len() {
            assert(key[i] == name[i]);
        } else if i > name.len() {
            assert(key[i] == text_of_hash(hash)[i - name.len() - 1]);
        }
    }
    assert forall|i: int| 0 <= i < session.base_tag().len() implies is_tag_char(
        #[trigger] session.base_tag()[i],
    ) by {
        if i >= 5 {
            assert(session.base_tag()[i] == key[i - 5]);
        }
    }
    assert forall|i: int| 0 <= i < session.features_tag().len() implies is_tag_char(
        #[trigger] session.features_tag()[i],
    ) by {
        if i >= 14 {
            assert(session.features_tag()[i] == key[i - 14]);
        }
    }
}

/// The shell opens in the directory where the session was begun: the way down to it is the same in
/// the container as on the host.
pub proof fn law_same_way_down(folder: Seq<char>, workspace: Seq<char>, dir: Seq<char>)
    requires
        folder.len() > 0,
        is_normal(dir),
        lies_in(workspace, dir) || workspace == dir,
    ensures
        workspace == dir ==> container_dir(folder, workspace, dir) == folder,
        below(folder, container_dir(folder, workspace, dir)) == below(workspace, dir),
{
    reveal_strlit("/");
    if workspace != dir {
        law_way_down(workspace, dir);
        let way = below(workspace, dir);
        assert(below(folder, joined_path(folder, way)) =~= way);
    }
}

/// An image that was built from a Dockerfile is extended like one that is configured: the step after
/// its build is the one that the same session takes where its image is configured by that tag.
pub proof fn law_built_image_is_extended(session: Session, plain: Session, outcome: Outcome)
    requires
        dockerfile_of(session.config) is Some,
        outcome.is_success(),
        plain == (Session { config: plain.config, ..session }),
        plain.config == (DevContainerConfig {
            image: plain.config.image,
            build: plain.config.build,
            docker_file: plain.config.docker_file,
            context: plain.config.context,
            ..session.config
        }),
        plain.config.docker_file is None,
        plain.config.build is None,
        plain.config.image is Some,
        plain.config.image->0@ == "devc-"@ + session.key@,
    ensures
        match session.creating().next {
            NextView::Run(run) => {
                &&& flag_at(run.args, 3, "-t"@, plain.config.image->0@)
                &&& session.going_on(run, outcome) == plain.creating()
            },
            _ => false,
        },
{
    let image = plain.config.image->0@;
    let run = session.creating().next->Run_0;
    lemma_base_tag_is_built(session, dockerfile_of(session.config)->0);
    assert(plain.creating() == plain.extending(image));
    assert(session.going_on(run, outcome) == session.extending(image));
}

proof fn lemma_base_tag_is_built(session: Session, file: Seq<char>)
    ensures
        flag_at(session.base_build(file), 3, "-t"@, "devc-"@ + session.key@),
{
    let context = joined_path(session.config_dir@, build_context_of(session.config));
    let dockerfile = joined_path(session.config_dir@, file);
    match session.config.build {
        Some(b) => {
            law_build_line(
                context,
                dockerfile,
                session.base_tag(),
                assignments(b.args.entries()),
                opt_text(b.target),
                texts(b.cache_from.list()),
                texts(b.options@),
            );
        },
        None => {
            law_build_line(
                context,
                dockerfile,
                session.base_tag(),
                seq![],
                None,
                seq![],
                seq![],
            );
        },
    }
}

/// Where features are configured and no container is listed, none is created before they are
/// prepared: however the command lines end, at most the image of the Dockerfile is built, and what
/// is extended is the image that was just built or, without a Dockerfile, the configured one.
pub proof fn law_features_are_prepared(session: Session, found: Outcome, outcomes: Seq<Outcome>)
    requires
        session.config.features@.len() > 0,
        found.is_success(),
        listed_container(trimmed(found.stdout@, CharClass::Whitespace)) is None,
    ensures
        ({
            let step = session.going_on(session.locate_run(), found);
            let runs = session.trace(step.next, outcomes);
            &&& forall|k: int| 0 <= k < runs.len() ==> (#[trigger] runs[k]).phase is BuildBase
            &&& match (dockerfile_of(session.config), session.config.image) {
                (Some(_), _) => match step.next {
                    NextView::Run(run) => forall|built: Outcome|
                        built.is_success() ==> session.prepares(
                            (#[trigger] session.going_on(run, built)).next,
                            run.args[4],
                        ),
                    _ => false,
                },
                (None, Some(image)) => session.prepares(step.next, image@),
                (None, None) => step.next is Fail,
            }
        }),
{
    let step = session.going_on(session.locate_run(), found);
    assert(step == session.creating());
    if let Some(file) = dockerfile_of(session.config) {
        lemma_base_tag_is_built(session, file);
        let run = step.next->Run_0;
        if outcomes.len() > 0 {
            let next = session.going_on(run, outcomes[0]).next;
            assert(session.trace(next, outcomes.skip(1)) =~= seq![]);
        }
    }
}

impl Session {
    /// Whether the features are to be prepared next, on top of this image, for the users of the
    /// configuration: the remote user, or else `root`, and the user of the container, or else the
    /// remote one.
    pub open spec fn prepares(self, next: NextView, image: Seq<char>) -> bool {
        match next {
            NextView::Prepare { base_image, remote_user, container_user, cache_key } => {
                &&& base_image == image
                &&& cache_key == self.key@
                &&& match self.config.remote_user {
                    Some(user) => remote_user == user@,
                    None => remote_user == "root"@,
                }
                &&& match self.config.container_user {
                    Some(user) => container_user == user@,
                    None => container_user == remote_user,
                }
            },
            _ => false,
        }
    }

    /// Whether the container is to be created next, from this image and with these flags.
    pub open spec fn creates(self, step: StepView, image: Seq<char>, runtime: RuntimeView) -> bool {
        match step.next {
            NextView::Run(run) => {
                &&& step.notices == seq!["devc: creating container from "@ + image]
                &&& run.mode == Mode::Capture
                &&& run.phase == PhaseView::Create
                &&& run.args.len() > 0 && run.args[0] == "run"@
                &&& run.args.skip(1) == run_line(
                    self.workspace@,
                    self.config,
                    self.folder@,
                    self.labels@,
                    image,
                    runtime,
                    self.linux,
                )
            },
            _ => false,
        }
    }
}

/// Without features the container is created from the image as it is.
pub proof fn law_image_without_features(session: Session, run: RunView, built: Outcome)
    requires
        session.config.features@.len() == 0,
        run.phase is BuildBase,
        built.is_success(),
    ensures
        session.creates(session.going_on(run, built), "devc-"@ + session.key@, no_flags()),
        dockerfile_of(session.config) is None ==> (session.config.image matches Some(image)
            ==> session.creates(session.creating(), image@, no_flags())),
{
    lemma_creates(session, "devc-"@ + session.key@, no_flags());
    if let Some(image) = session.config.image {
        lemma_creates(session, image@, no_flags());
    }
}

proof fn lemma_creates(session: Session, image: Seq<char>, runtime: RuntimeView)
    ensures
        session.creates(session.running(image, runtime), image, runtime),
{
    let line = run_line(
        session.workspace@,
        session.config,
        session.folder@,
        session.labels@,
        image,
        runtime,
        session.linux,
    );
    assert((seq!["run"@] + line).skip(1) =~= line);
}

/// The image with the features is built from what was prepared, and the container is created from
/// it with the flags that the features ask for. Where all of them are disabled, it is created from
/// the base image.
pub proof fn law_prepared_features_are_used(
    session: Session,
    base_image: Seq<char>,
    p: Prepared,
    built: Outcome,
)
    requires
        built.is_success(),
    ensures
        session.creates(session.prepared_step(base_image, None), base_image, no_flags()),
        match session.prepared_step(base_image, Some(p)).next {
            NextView::Run(run) => {
                &&& run.mode == Mode::Inherit
                &&& run.args.len() == 6
                &&& run.args[0] == "build"@
                &&& flag_at(run.args, 1, "-f"@, p.context.dockerfile@)
                &&& flag_at(run.args, 3, "-t"@, "devc-features-"@ + session.key@)
                &&& run.args[5] == p.context.context_dir@
                &&& session.creates(session.going_on(run, built), run.args[4], p.runtime@)
            },
            _ => false,
        },
{
    lemma_creates(session, base_image, no_flags());
    lemma_creates(session, "devc-features-"@ + session.key@, p.runtime@);
    law_build_line(
        p.context.context_dir@,
        p.context.dockerfile@,
        session.features_tag(),
        seq![],
        None,
        seq![],
        seq![],
    );
}

/// Every variable of the configured `remoteEnv` reaches every command that is run in the container,
/// with the variables in its value replaced: it is set by an `-e` before the command.
pub proof fn law_remote_env_reaches_commands(
    session: Session,
    loaded: LoadedConfig,
    config_path: Seq<char>,
    workspace: Seq<char>,
    dir: Seq<char>,
    i: int,
    id: Seq<char>,
    origin: Origin,
    n: int,
) -> (places: (int, int))
    requires
        session.is_for(loaded, config_path, workspace, dir),
        0 <= i < loaded.config.remote_env.entries().len(),
        loaded.config.remote_env.entries()[i].1 is Some,
    ensures
        ({
            let entry = loaded.config.remote_env.entries()[i];
            let set = entry.0@ + "="@ + substituted(entry.1->0@, session.vars);
            let command = lifecycle_commands(session.config, origin)[n];
            let lifecycle = session.lifecycle_run(id, origin, n).args;
            let attach = session.attach_run(id).args;
            &&& flag_at(lifecycle, places.0, "-e"@, set)
            &&& places.0 + 2 < lifecycle.len() - command.len()
            &&& flag_at(attach, places.1, "-e"@, set)
            &&& places.1 + 2 < attach.len() - session.user_command().len()
        }),
{
    law_substituted_fields(loaded.config, session.config, session.vars);
    let entry = loaded.config.remote_env.entries()[i];
    let now = session.config.remote_env.entries()[i];
    law_set_entries(session.config.remote_env.entries(), i);
    let env = session.env();
    let pair = (now.0, now.1->0);
    let k = choose|k: int| 0 <= k < env.len() && env[k] == pair;
    assert(env.contains(pair));
    let user = remote_user_of(session.config);
    let command = lifecycle_commands(session.config, origin)[n];
    law_exec_line(id, user, Some(session.folder@), env, command, false, false);
    law_exec_line(id, user, Some(session.cwd@), env, session.user_command(), true, session.tty);
    let set = entry.0@ + "="@ + substituted(entry.1->0@, session.vars);
    assert(env[k].0@ + "="@ + env[k].1@ == set);
    let named: int = if user is Some && user->0.len() > 0 {
        2
    } else {
        0
    };
    let tty: int = if session.tty {
        1
    } else {
        0
    };
    (1 + named + 2 * k, 2 + tty + named + 2 * k)
}

/// In particular, a value of `remoteEnv` that holds `${containerWorkspaceFolder}` reaches the
/// commands with the workspace folder in the container in its place: the configured one, or else one
/// below `/workspaces` that is named like the workspace.
pub proof fn law_container_folder_in_remote_env(
    session: Session,
    loaded: LoadedConfig,
    config_path: Seq<char>,
    workspace: Seq<char>,
    dir: Seq<char>,
    i: int,
    before: Seq<char>,
    after: Seq<char>,
    id: Seq<char>,
    origin: Origin,
    n: int,
) -> (places: (int, int))
    requires
        session.is_for(loaded, config_path, workspace, dir),
        0 <= i < loaded.config.remote_env.entries().len(),
        loaded.config.remote_env.entries()[i].1 is Some,
        loaded.config.remote_env.entries()[i].1->0@ == before + ("${"@ + "containerWorkspaceFolder"@
            + "}"@ + after),
        !before.contains('$'),
        !after.contains('$'),
    ensures
        ({
            let key = loaded.config.remote_env.entries()[i].0@;
            let folder = match loaded.config.workspace_folder {
                Some(folder) => folder@,
                None => "/workspaces/"@ + base_name(workspace),
            };
            let set = key + "="@ + (before + folder + after);
            &&& flag_at(session.lifecycle_run(id, origin, n).args, places.0, "-e"@, set)
            &&& flag_at(session.attach_run(id).args, places.1, "-e"@, set)
        }),
{
    law_folder_variables(before, after, session.vars);
    law_no_variables(after, session.vars);
    law_remote_env_reaches_commands(
        session,
        loaded,
        config_path,
        workspace,
        dir,
        i,
        id,
        origin,
        n,
    )
}

/// The container is created with what the configuration says, with its variables replaced: every
/// variable of `containerEnv`, the user, and every one of the `runArgs`.
pub proof fn law_configuration_reaches_container(
    session: Session,
    loaded: LoadedConfig,
    config_path: Seq<char>,
    workspace: Seq<char>,
    dir: Seq<char>,
    image: Seq<char>,
    runtime: RuntimeView,
)
    requires
        session.is_for(loaded, config_path, workspace, dir),
    ensures
        ({
            let line = session.running(image, runtime).next->Run_0.args;
            let env = loaded.config.container_env.entries();
            let run_args = loaded.config.run_args@;
            let at_env = places_before_labels(session.config) + 2 * session.labels@.len() + 3;
            let at_args = places_before_run_args(session.config, session.labels@) + 1;
            &&& forall|i: int|
                0 <= i < env.len() ==> flag_at(
                    line,
                    at_env + 2 * i,
                    "-e"@,
                    (#[trigger] env[i]).0@ + "="@ + substituted(env[i].1@, session.vars),
                )
            &&& loaded.config.container_user matches Some(user) ==> flag_at(
                line,
                at_args - 2,
                "-u"@,
                substituted(user@, session.vars),
            )
            &&& forall|i: int|
                0 <= i < run_args.len() ==> line[at_args + i] == substituted(
                    (#[trigger] run_args[i])@,
                    session.vars,
                )
        }),
{
    law_substituted_fields(loaded.config, session.config, session.vars);
    let inner = run_line(
        session.workspace@,
        session.config,
        session.folder@,
        session.labels@,
        image,
        runtime,
        session.linux,
    );
    law_run_line_labels_and_env(
        session.workspace@,
        session.config,
        session.folder@,
        session.labels@,
        image,
        runtime,
        session.linux,
    );
    law_run_line_user_and_args(
        session.workspace@,
        session.config,
        session.folder@,
        session.labels@,
        image,
        runtime,
        session.linux,
    );
    law_run_line_entry(
        session.workspace@,
        session.config,
        session.folder@,
        session.labels@,
        image,
        runtime,
        session.linux,
    );
    let line = session.running(image, runtime).next->Run_0.args;
    let env = loaded.config.container_env.entries();
    let now = session.config.container_env.entries();
    let run_args = loaded.config.run_args@;
    let at_env = places_before_labels(session.config) + 2 * session.labels@.len() + 2;
    let at_args = places_before_run_args(session.config, session.labels@);
    assert forall|i: int| 0 <= i < env.len() implies flag_at(
        line,
        at_env + 1 + 2 * i,
        "-e"@,
        (#[trigger] env[i]).0@ + "="@ + substituted(env[i].1@, session.vars),
    ) by {
        assert(flag_at(inner, at_env + 2 * i, "-e"@, now[i].0@ + "="@ + now[i].1@));
        assert(now[i].0@ == env[i].0@);
    }
    assert forall|i: int| 0 <= i < run_args.len() implies line[at_args + 1 + i] == substituted(
        (#[trigger] run_args[i])@,
        session.vars,
    ) by {
        assert(inner[at_args + i] == session.config.run_args@[i]@);
    }
}

/// What a session knows of its workspace: the variables stand for the workspace folder on the host
/// and in the container and for their names; the paths in the configuration are relative to its
/// directory; and the container is found by the workspace and the path of the configuration.
pub proof fn law_session(
    session: Session,
    loaded: LoadedConfig,
    config_path: Seq<char>,
    workspace: Seq<char>,
    dir: Seq<char>,
)
    requires
        session.is_for(loaded, config_path, workspace, dir),
    ensures
        ({
            let named = "/workspaces/"@ + base_name(workspace);
            let before = match loaded.config.workspace_folder {
                Some(folder) => folder@,
                None => named,
            };
            &&& session.workspace@ == workspace
            &&& session.config_dir@ == loaded.config_dir@
            &&& session.vars.local_workspace_folder@ == workspace
            &&& session.vars.local_workspace_folder_basename@ == base_name(workspace)
            &&& session.vars.container_workspace_folder@ == before
            &&& session.vars.container_workspace_folder_basename@ == base_name(before)
            &&& session.folder@ == match loaded.config.workspace_folder {
                Some(folder) => substituted(folder@, session.vars),
                None => named,
            }
            &&& session.labels@.len() == 2
            &&& session.labels@[0].0@ == "devcontainer.local_folder"@
            &&& session.labels@[0].1@ == workspace
            &&& session.labels@[1].0@ == "devcontainer.config_file"@
            &&& session.labels@[1].1@ == config_path
        }),
        dir == workspace ==> session.cwd@ == session.folder@,
{
    law_substituted_fields(loaded.config, session.config, session.vars);
    let pairs = text_pairs(session.labels@);
    assert(pairs.len() == session.labels@.len());
    assert(pairs[0] == (session.labels@[0].0@, session.labels@[0].1@));
    assert(pairs[1] == (session.labels@[1].0@, session.labels@[1].1@));
}

/// A session that is begun further down in the workspace runs the command of the user as far down in
/// the container.
pub proof fn law_cwd(
    session: Session,
    loaded: LoadedConfig,
    config_path: Seq<char>,
    workspace: Seq<char>,
    way: Seq<char>,
)
    requires
        session.is_for(loaded, config_path, workspace, workspace + seq!['/'] + way),
        workspace.len() > 0 && workspace.last() != '/',
        way.len() > 0 && way[0] != '/',
        session.folder@.len() > 0 && session.folder@.last() != '/',
    ensures
        session.cwd@ == session.folder@ + seq!['/'] + way,
{
    reveal_strlit("/");
    let dir = workspace + seq!['/'] + way;
    assert(below(workspace, dir) =~= way);
    law_joined_path(session.folder@, way);
}

/// What runs in a container that was running is the `postAttachCommand`; in one that is started the
/// `postStartCommand` runs before that, and in one that is created `onCreateCommand`,
/// `updateContentCommand` and `postCreateCommand` run before these, in this order.
pub proof fn law_lifecycle_commands(config: DevContainerConfig)
    ensures
        lifecycle_commands(config, Origin::Running) == match config.post_attach_command {
            Some(command) => invocations(command),
            None => seq![],
        },
        lifecycle_commands(config, Origin::Stopped) == match config.post_start_command {
            Some(command) => invocations(command) + lifecycle_commands(config, Origin::Running),
            None => lifecycle_commands(config, Origin::Running),
        },
        ({
            let on_create = match config.on_create_command {
                Some(command) => invocations(command),
                None => seq![],
            };
            let update = match config.update_content_command {
                Some(command) => invocations(command),
                None => seq![],
            };
            let post_create = match config.post_create_command {
                Some(command) => invocations(command),
                None => seq![],
            };
            lifecycle_commands(config, Origin::Created) == on_create + update + post_create
                + lifecycle_commands(config, Origin::Stopped)
        }),
{
    let none: Seq<Seq<Seq<char>>> = seq![];
    assert(none + lifecycle_commands(config, Origin::Running) =~= lifecycle_commands(
        config,
        Origin::Running,
    ));
    let front = opt_invocations(config.on_create_command) + opt_invocations(
        config.update_content_command,
    ) + opt_invocations(config.post_create_command);
    assert(lifecycle_commands(config, Origin::Created) =~= front + lifecycle_commands(
        config,
        Origin::Stopped,
    ));
}

/// How many arguments stand before the working directory on the command line of a command in the
/// container: `exec`, the user, and the environment.
pub open spec fn places_before_cwd(session: Session) -> int {
    let user = remote_user_of(session.config);
    1 + 2 * session.env().len() + if user is Some && user->0.len() > 0 {
        2int
    } else {
        0
    }
}

/// A lifecycle command runs in the container as the remote user, in the workspace folder, and
/// without standard input.
pub proof fn law_lifecycle_run(session: Session, id: Seq<char>, origin: Origin, i: int)
    ensures
        ({
            let run = session.lifecycle_run(id, origin, i);
            let command = lifecycle_commands(session.config, origin)[i];
            let user = remote_user_of(session.config);
            let at = places_before_cwd(session);
            &&& run.mode == Mode::Exec(false)
            &&& run.phase == PhaseView::Lifecycle(id, origin, i)
            &&& run.args[0] == "exec"@
            &&& user is Some && user->0.len() > 0 ==> flag_at(run.args, 1, "-u"@, user->0)
            &&& flag_at(run.args, at, "-w"@, session.folder@)
            &&& run.args[at + 2] == id
            &&& run.args.len() == at + 3 + command.len()
            &&& forall|k: int|
                0 <= k < command.len() ==> run.args[at + 3 + k] == #[trigger] command[k]
        }),
{
    law_exec_line(
        id,
        remote_user_of(session.config),
        Some(session.folder@),
        session.env(),
        lifecycle_commands(session.config, origin)[i],
        false,
        false,
    );
}

/// The command of the user, or else a shell, runs in the container as the remote user, in the
/// directory where the session was begun, with standard input, and on a terminal where there is one.
pub proof fn law_attach_run(session: Session, id: Seq<char>)
    ensures
        ({
            let run = session.attach_run(id);
            let user = remote_user_of(session.config);
            let tty: int = if session.tty {
                1
            } else {
                0
            };
            let at = places_before_cwd(session) + 1 + tty;
            let command = if session.command@.len() > 0 {
                texts(session.command@)
            } else {
                seq!["/bin/sh"@, "-c"@, "exec \"$(command -v bash || command -v sh)\""@]
            };
            &&& run.mode == Mode::Exec(true)
            &&& run.phase == PhaseView::Attach
            &&& run.args[0] == "exec"@ && run.args[1] == "-i"@
            &&& session.tty ==> run.args[2] == "-t"@
            &&& user is Some && user->0.len() > 0 ==> flag_at(run.args, 2 + tty, "-u"@, user->0)
            &&& flag_at(run.args, at, "-w"@, session.cwd@)
            &&& run.args[at + 2] == id
            &&& run.args.len() == at + 3 + command.len()
            &&& forall|k: int|
                0 <= k < command.len() ==> run.args[at + 3 + k] == #[trigger] command[k]
        }),
{
    law_exec_line(
        id,
        remote_user_of(session.config),
        Some(session.cwd@),
        session.env(),
        session.user_command(),
        true,
        session.tty,
    );
}

/// A container that was created has the id that was printed, without the white space around it; all
/// its lifecycle commands run. Where nothing was printed the session fails.
pub proof fn law_created(session: Session, run: RunView, outcome: Outcome, id: Seq<char>)
    requires
        run.phase is Create,
        outcome.is_success(),
        trimmed(outcome.stdout@, CharClass::Whitespace) == id,
    ensures
        id.len() > 0 ==> session.going_on(run, outcome).next == session.living(
            id,
            Origin::Created,
            0,
        ) && session.going_on(run, outcome).notices == seq![
            "devc: started container "@ + short_id(id),
        ],
        id.len() == 0 ==> session.going_on(run, outcome).next == NextView::Fail(
            "docker run did not return a container id"@,
        ),
{
}

/// The lifecycle goes on with the next command, and behind the last one with the command of the
/// user.
pub proof fn law_living(session: Session, id: Seq<char>, origin: Origin, i: int)
    requires
        0 <= i,
    ensures
        i < lifecycle_commands(session.config, origin).len() ==> session.living(id, origin, i)
            == NextView::Run(session.lifecycle_run(id, origin, i)),
        i >= lifecycle_commands(session.config, origin).len() ==> session.living(id, origin, i)
            == NextView::Run(session.attach_run(id)),
        session.initializing(i) == NextView::Run(
            if i < opt_invocations(session.config.initialize_command).len() {
                session.host_run(i)
            } else {
                session.locate_run()
            },
        ),
{
}

/// A command of the user that is ended by a signal gives the exit code that a shell would give; one
/// that ends in neither way gives 1.
pub proof fn law_signal(session: Session, run: RunView, outcome: Outcome)
    requires
        run.phase is Attach,
        outcome.code is None,
    ensures
        session.going_on(run, outcome).next == NextView::Finish(
            match outcome.signal {
                Some(signal) => 128 + signal,
                None => 1,
            },
        ),
{
}

/// What is said where a command line fails: of `docker` the command line and how it ended, of a
/// command of the configuration which it was.
pub proof fn law_failure_reasons(session: Session, run: RunView, outcome: Outcome)
    requires
        !outcome.is_success(),
    ensures
        ({
            let docker = "docker "@ + joined(run.args, " "@) + " failed with "@ + outcome.status@;
            let next = session.going_on(run, outcome).next;
            match run.phase {
                PhaseView::Initialize(_) => next == NextView::Fail(
                    "initializeCommand failed: command failed: "@ + joined(run.args, " "@),
                ),
                PhaseView::Lifecycle(_, origin, i) => 0 <= i < lifecycle_commands(
                    session.config,
                    origin,
                ).len() ==> next == NextView::Fail(
                    "lifecycle command failed: "@ + joined(
                        lifecycle_commands(session.config, origin)[i],
                        " "@,
                    ),
                ),
                PhaseView::Attach => next is Finish,
                _ => next == NextView::Fail(docker),
            }
        }),
{
}

/// The image of a Dockerfile is built with what the configuration says of the build: its arguments,
/// its target, the images to take layers from, and further options.
pub proof fn law_base_build(session: Session, file: Seq<char>, b: BuildConfig)
    requires
        session.config.build == Some(b),
    ensures
        ({
            let line = session.base_build(file);
            let args = b.args.entries();
            let cache = b.cache_from.list();
            let at_target = 5int + 2 * args.len();
            let at_cache = at_target + if b.target is Some {
                2int
            } else {
                0
            };
            let at_options = at_cache + 2 * cache.len();
            &&& line[0] == "build"@
            &&& forall|i: int|
                0 <= i < args.len() ==> flag_at(
                    line,
                    5 + 2 * i,
                    "--build-arg"@,
                    (#[trigger] args[i]).0@ + "="@ + args[i].1@,
                )
            &&& b.target matches Some(t) ==> flag_at(line, at_target, "--target"@, t@)
            &&& forall|i: int|
                0 <= i < cache.len() ==> flag_at(
                    line,
                    at_cache + 2 * i,
                    "--cache-from"@,
                    (#[trigger] cache[i])@,
                )
            &&& forall|i: int|
                0 <= i < b.options@.len() ==> line[at_options + i] == (#[trigger] b.options@[i])@
            &&& line.len() == at_options + b.options@.len() + 1
        }),
{
    let context = joined_path(session.config_dir@, build_context_of(session.config));
    let dockerfile = joined_path(session.config_dir@, file);
    let line = session.base_build(file);
    let args = b.args.entries();
    let cache = b.cache_from.list();
    law_build_line(
        context,
        dockerfile,
        session.base_tag(),
        assignments(args),
        opt_text(b.target),
        texts(cache),
        texts(b.options@),
    );
    assert forall|i: int| 0 <= i < args.len() implies flag_at(
        line,
        5 + 2 * i,
        "--build-arg"@,
        (#[trigger] args[i]).0@ + "="@ + args[i].1@,
    ) by {
        assert(assignments(args)[i] == args[i].0@ + "="@ + args[i].1@);
    }
    let at_cache = 5int + 2 * args.len() + if b.target is Some {
        2int
    } else {
        0
    };
    assert forall|i: int| 0 <= i < cache.len() implies flag_at(
        line,
        at_cache + 2 * i,
        "--cache-from"@,
        (#[trigger] cache[i])@,
    ) by {
        assert(texts(cache)[i] == cache[i]@);
    }
    let at_options = at_cache + 2 * cache.len();
    assert forall|i: int| 0 <= i < b.options@.len() implies line[at_options + i] == (
    #[trigger] b.options@[i])@ by {
        assert(texts(b.options@)[i] == b.options@[i]@);
    }
}

/// The image of a Dockerfile is announced, and built with the output shown.
pub proof fn law_build_is_announced(session: Session)
    requires
        dockerfile_of(session.config) is Some,
    ensures
        session.creating().notices == seq!["devc: building image "@ + ("devc-"@ + session.key@)],
        match session.creating().next {
            NextView::Run(run) => run.mode == Mode::Inherit && run.phase is BuildBase && run.args
                == session.base_build(dockerfile_of(session.config)->0),
            _ => false,
        },
{
}

/// The images of a workspace are told from those of others by its name and the hash of its path, and
/// from each other by what they hold.
pub proof fn law_image_names(session: Session, workspace: Seq<char>, hash: Seq<char>)
    requires
        session.key@ == image_key(workspace, hash),
    ensures
        session.base_tag() == "devc-"@ + session.key@,
        session.features_tag() == "devc-features-"@ + session.key@,
        has_prefix(session.key@, sanitized(base_name(workspace))),
        has_suffix(session.key@, "-"@ + hash),
        session.key@.len() == sanitized(base_name(workspace)).len() + 1 + hash.len(),
        session.base_tag() != session.features_tag(),
{
    reveal_strlit("-");
    reveal_strlit("devc-");
    reveal_strlit("devc-features-");
    let name = sanitized(base_name(workspace));
    law_prefix_and_suffix("-"@ + hash, name);
    law_prefix_and_suffix(name, "-"@ + hash);
    assert(session.key@ =~= name + ("-"@ + hash));
    assert(session.base_tag().len() != session.features_tag().len());
}

/// The lifecycle of a container begins with the first of the commands for where it comes from: one
/// that is listed as running was running, and one that is listed as stopped is started first.
pub proof fn law_lifecycle_begins(session: Session, found: Outcome, started: Outcome, id: Seq<char>)
    requires
        found.is_success(),
        started.is_success(),
    ensures
        listed_container(trimmed(found.stdout@, CharClass::Whitespace)) == Some((id, true))
            ==> session.going_on(session.locate_run(), found).next == session.living(
            id,
            Origin::Running,
            0,
        ),
        listed_container(trimmed(found.stdout@, CharClass::Whitespace)) == Some((id, false))
            ==> match session.going_on(session.locate_run(), found).next {
            NextView::Run(run) => run.mode == Mode::Inherit && run.args == seq!["start"@, id]
                && session.going_on(run, started) == (StepView {
                notices: seq![],
                next: session.living(id, Origin::Stopped, 0),
            }),
            _ => false,
        },
{
}

} // verus!
