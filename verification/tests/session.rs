//! Sessions: bringing a container up and running something in it.
use devc::config::{
    load, BuildConfig, CacheFrom, Command, DevContainerConfig, Mount, Port, StringOrArgv,
};
use devc::container::{
    build_run_args, command_invocations, effective_remote_user, exit_code, hash_text, keep_alive,
    remote_env_pairs, sanitize, short, short_hash,
};
use devc::docker::{container_id, exec, found_container};
use devc::features::{BuiltContext, FeatureRuntime, Prepared};
use devc::json::Json;
use devc::session::{Mode, Next, Outcome, Phase, Run, Session, Step};
use devc::sorted_map::SortedMap;
use std::hash::{Hash, Hasher};

fn list(items: &[&str]) -> Vec<String> {
    items.iter().map(|s| s.to_string()).collect()
}

fn text(s: &str) -> Option<String> {
    Some(s.to_string())
}

fn shell(s: &str) -> Option<Command> {
    Some(Command::Shell(s.to_string()))
}

fn map(items: &[(&str, &str)]) -> SortedMap<String> {
    let mut m = SortedMap::new();
    for (k, v) in items {
        m.insert(k.to_string(), v.to_string());
    }
    m
}

/// The session of a configuration in `.devcontainer`, begun in `dir` of `/w/image-simple`.
fn session(config: DevContainerConfig, dir: &str, command: &[&str]) -> Session {
    let path = "/w/image-simple/.devcontainer/devcontainer.json";
    let loaded = load(config, path, "/w/image-simple").ok().unwrap();
    Session::with_hash(
        loaded,
        path,
        "/w/image-simple",
        dir,
        "0123abcd",
        vec![("LANG".to_string(), "C".to_string())],
        list(command),
        false,
        true,
    )
}

fn image(name: &str) -> DevContainerConfig {
    DevContainerConfig { image: text(name), ..DevContainerConfig::default() }
}

fn ended(code: i32, stdout: &str) -> Outcome {
    Outcome {
        code: Some(code),
        signal: None,
        status: format!("exit status: {code}"),
        stdout: stdout.to_string(),
    }
}

fn run_of(step: Step) -> Run {
    match step.next {
        Next::Run(run) => run,
        _ => panic!("a command line was expected"),
    }
}

fn reason(step: Step) -> String {
    match step.next {
        Next::Fail(reason) => reason,
        _ => panic!("a failure was expected"),
    }
}

/// Goes on to the step after the container was looked for with this result.
fn located(s: &Session, stdout: &str) -> Step {
    let run = run_of(s.up_and_run());
    assert!(matches!(run.phase, Phase::Locate));
    s.advance(run, &ended(0, stdout))
}

#[test]
fn the_container_is_looked_for_by_its_labels() {
    let run = run_of(session(image("debian"), "/w/image-simple", &[]).up_and_run());
    assert!(run.mode == Mode::Capture);
    assert_eq!(
        run.args,
        list(&[
            "ps",
            "-a",
            "--no-trunc",
            "--format",
            "{{.ID}}\t{{.State}}",
            "--filter",
            "label=devcontainer.local_folder=/w/image-simple",
            "--filter",
            "label=devcontainer.config_file=/w/image-simple/.devcontainer/devcontainer.json",
        ])
    );
}

#[test]
fn the_same_container_is_looked_for_from_a_subdirectory() {
    let root = session(image("debian"), "/w/image-simple", &[]);
    let deep = session(image("debian"), "/w/image-simple/nested/deep", &[]);
    assert_eq!(run_of(root.up_and_run()).args, run_of(deep.up_and_run()).args);
}

#[test]
fn the_shell_opens_in_the_invocation_subdirectory() {
    let s = session(image("debian"), "/w/image-simple/nested/deep", &[]);
    let run = run_of(located(&s, "abc\trunning\n"));
    assert!(run.mode == Mode::Exec(true));
    assert_eq!(
        run.args,
        list(&[
            "exec",
            "-i",
            "-w",
            "/workspaces/image-simple/nested/deep",
            "abc",
            "/bin/sh",
            "-c",
            "exec \"$(command -v bash || command -v sh)\"",
        ])
    );
}

#[test]
fn a_command_runs_in_the_invocation_subdirectory() {
    let s = session(image("debian"), "/w/image-simple/nested/deep", &["pwd"]);
    let run = run_of(located(&s, "abc\trunning\n"));
    assert_eq!(
        run.args,
        list(&["exec", "-i", "-w", "/workspaces/image-simple/nested/deep", "abc", "pwd"])
    );
}

#[test]
fn a_fresh_container_runs_the_whole_lifecycle() {
    let mut config = image("debian");
    config.container_env = map(&[("FOO", "bar-${localWorkspaceFolderBasename}")]);
    let mut remote_env = SortedMap::new();
    remote_env.insert("HELLO".to_string(), text("world"));
    remote_env.insert("GONE".to_string(), None);
    config.remote_env = remote_env;
    config.remote_user = text("vscode");
    config.on_create_command = shell("1");
    config.update_content_command = Some(Command::Argv(list(&["two", "2"])));
    let mut named = SortedMap::new();
    named.insert("z".to_string(), StringOrArgv::Argv(list(&["four"])));
    named.insert("b".to_string(), StringOrArgv::Shell("3".to_string()));
    config.post_create_command = Some(Command::Named(named));
    config.post_start_command = shell("5");
    config.post_attach_command = shell("6");
    let s = session(config, "/w/image-simple/nested", &[]);

    let step = located(&s, "");
    assert_eq!(step.notices, list(&["devc: creating container from debian"]));
    let run = run_of(step);
    assert!(run.mode == Mode::Capture);
    assert_eq!(
        run.args[..6],
        list(&[
            "run",
            "-d",
            "--mount",
            "type=bind,source=/w/image-simple,target=/workspaces/image-simple",
            "-l",
            "devcontainer.local_folder=/w/image-simple",
        ])[..]
    );
    assert!(run.args.contains(&"FOO=bar-image-simple".to_string()));

    let step = s.advance(run, &ended(0, "0123456789abcdef\n"));
    assert_eq!(step.notices, list(&["devc: started container 0123456789ab"]));
    let mut run = run_of(step);
    let expected = [
        vec!["/bin/sh", "-c", "1"],
        vec!["two", "2"],
        vec!["/bin/sh", "-c", "3"],
        vec!["four"],
        vec!["/bin/sh", "-c", "5"],
        vec!["/bin/sh", "-c", "6"],
    ];
    for argv in expected {
        assert!(run.mode == Mode::Exec(false));
        let mut line = list(&[
            "exec",
            "-u",
            "vscode",
            "-e",
            "HELLO=world",
            "-w",
            "/workspaces/image-simple",
            "0123456789abcdef",
        ]);
        line.extend(list(&argv));
        assert_eq!(run.args, line);
        run = run_of(s.advance(run, &ended(0, "")));
    }
    assert!(run.mode == Mode::Exec(true));
    assert_eq!(run.args[7], "/workspaces/image-simple/nested");
    match s.advance(run, &ended(7, "")).next {
        Next::Finish(code) => assert_eq!(code, 7),
        _ => panic!("the session should have ended"),
    }
}

#[test]
fn a_running_container_is_reused() {
    let mut config = image("debian");
    config.on_create_command = shell("create");
    config.post_start_command = shell("start");
    config.post_attach_command = shell("attach");
    let s = session(config, "/w/image-simple", &["true"]);
    let step = located(&s, "0123456789abcdef\trunning\nother\texited\n");
    assert_eq!(
        step.notices,
        list(&["devc: reusing running container 0123456789ab"])
    );
    let run = run_of(step);
    assert_eq!(run.args.last().unwrap(), "attach");
    let run = run_of(s.advance(run, &ended(0, "")));
    assert!(matches!(run.phase, Phase::Attach));
    assert_eq!(run.args.last().unwrap(), "true");
}

#[test]
fn a_stopped_container_is_started() {
    let mut config = image("debian");
    config.on_create_command = shell("create");
    config.post_start_command = shell("start");
    config.post_attach_command = shell("attach");
    let s = session(config, "/w/image-simple", &["true"]);
    let step = located(&s, "abc\texited");
    assert_eq!(step.notices, list(&["devc: starting existing container abc"]));
    let run = run_of(step);
    assert_eq!(run.args, list(&["start", "abc"]));
    let run = run_of(s.advance(run, &ended(0, "")));
    assert_eq!(run.args.last().unwrap(), "start");
    let run = run_of(s.advance(run, &ended(0, "")));
    assert_eq!(run.args.last().unwrap(), "attach");
    let run = run_of(s.advance(run, &ended(0, "")));
    assert!(matches!(run.phase, Phase::Attach));
}

#[test]
fn the_initialize_command_runs_on_the_host_first() {
    let mut config = image("debian");
    config.initialize_command = Some(Command::Argv(list(&["make", "init"])));
    let s = session(config, "/w/image-simple", &[]);
    let run = run_of(s.up_and_run());
    assert!(run.mode == Mode::Host);
    assert_eq!(run.args, list(&["make", "init"]));
    let run = run_of(s.advance(run, &ended(0, "")));
    assert!(matches!(run.phase, Phase::Locate));
    let run = run_of(s.up_and_run());
    assert_eq!(
        reason(s.advance(run, &ended(2, ""))),
        "initializeCommand failed: command failed: make init"
    );
}

#[test]
fn failures_end_the_session() {
    let mut config = image("debian");
    config.post_attach_command = Some(Command::Argv(list(&["make", "x"])));
    let s = session(config, "/w/image-simple", &[]);
    let run = run_of(s.up_and_run());
    let line = run.args.join(" ");
    assert_eq!(
        reason(s.advance(run, &ended(1, ""))),
        format!("docker {line} failed with exit status: 1")
    );
    let run = run_of(located(&s, "abc\trunning"));
    assert_eq!(
        reason(s.advance(run, &ended(1, ""))),
        "lifecycle command failed: make x"
    );
    let run = run_of(located(&s, "abc\texited"));
    assert_eq!(
        reason(s.advance(run, &ended(125, ""))),
        "docker start abc failed with exit status: 125"
    );
    let run = run_of(located(&s, ""));
    assert_eq!(
        reason(s.advance(run, &ended(0, " \n"))),
        "docker run did not return a container id"
    );
    let none = session(DevContainerConfig::default(), "/w/image-simple", &[]);
    assert_eq!(
        reason(located(&none, "\n")),
        "devcontainer.json must specify either \"image\" or a Dockerfile build."
    );
}

#[test]
fn an_image_is_built_with_build_args() {
    let config = DevContainerConfig {
        build: Some(BuildConfig {
            dockerfile: text("Dockerfile"),
            context: None,
            args: map(&[("GREETING", "hi-from-build-arg"), ("A", "1")]),
            target: text("dev"),
            cache_from: CacheFrom::One("img".to_string()),
            options: list(&["--pull"]),
        }),
        ..DevContainerConfig::default()
    };
    let s = session(config, "/w/image-simple", &[]);
    let step = located(&s, "");
    assert_eq!(
        step.notices,
        list(&["devc: building image devc-image-simple-0123abcd"])
    );
    let run = run_of(step);
    assert!(run.mode == Mode::Inherit);
    assert_eq!(
        run.args,
        list(&[
            "build",
            "-f",
            "/w/image-simple/.devcontainer/Dockerfile",
            "-t",
            "devc-image-simple-0123abcd",
            "--build-arg",
            "A=1",
            "--build-arg",
            "GREETING=hi-from-build-arg",
            "--target",
            "dev",
            "--cache-from",
            "img",
            "--pull",
            "/w/image-simple/.devcontainer/.",
        ])
    );
    let step = s.advance(run, &ended(0, ""));
    assert_eq!(
        step.notices,
        list(&["devc: creating container from devc-image-simple-0123abcd"])
    );
}

#[test]
fn the_dockerfile_is_relative_to_the_config_and_not_to_the_context() {
    let config = DevContainerConfig {
        build: Some(BuildConfig {
            dockerfile: text("Dockerfile"),
            context: text(".."),
            ..BuildConfig::default()
        }),
        ..DevContainerConfig::default()
    };
    let run = run_of(located(&session(config, "/w/image-simple", &[]), ""));
    assert_eq!(run.args[2], "/w/image-simple/.devcontainer/Dockerfile");
    assert_eq!(run.args.last().unwrap(), "/w/image-simple/.devcontainer/..");
    let legacy = DevContainerConfig {
        docker_file: text("/abs/Dockerfile"),
        ..DevContainerConfig::default()
    };
    let run = run_of(located(&session(legacy, "/w/image-simple", &[]), ""));
    assert_eq!(run.args[2], "/abs/Dockerfile");
}

#[test]
fn features_extend_the_image() {
    let mut config = image("debian");
    config.remote_user = text("vscode");
    config.features = vec![("ghcr.io/f/java:1".to_string(), Json::Bool(true))];
    let s = session(config, "/w/image-simple", &[]);
    match located(&s, "").next {
        Next::Prepare { base_image, remote_user, container_user, cache_key } => {
            assert_eq!(base_image, "debian");
            assert_eq!(remote_user, "vscode");
            assert_eq!(container_user, "vscode");
            assert_eq!(cache_key, "image-simple-0123abcd");
        }
        _ => panic!("the preparation of features was expected"),
    }
    let prepared = Prepared {
        context: BuiltContext {
            context_dir: "/tmp/c".to_string(),
            dockerfile: "/tmp/c/D".to_string(),
        },
        runtime: FeatureRuntime {
            init: true,
            privileged: false,
            cap_add: list(&["NET_ADMIN"]),
            security_opt: Vec::new(),
            entrypoints: list(&["/e.sh"]),
        },
    };
    let step = s.after_preparation("debian", Some(prepared));
    let tag = "devc-features-image-simple-0123abcd";
    assert_eq!(step.notices, vec![format!("devc: building features image {tag}")]);
    let run = run_of(step);
    assert_eq!(run.args, list(&["build", "-f", "/tmp/c/D", "-t", tag, "/tmp/c"]));
    let step = s.advance(run, &ended(0, ""));
    assert_eq!(step.notices, vec![format!("devc: creating container from {tag}")]);
    let run = run_of(step);
    let end = &run.args[run.args.len() - 8..];
    assert_eq!(end[..2], list(&["--init", "--cap-add"])[..]);
    assert!(end[7].contains("\n/e.sh\nexec"));
    // All of them disabled.
    let run = run_of(s.after_preparation("debian", None));
    assert!(!run.args.contains(&"--init".to_string()));
}

#[test]
fn run_arguments_stand_in_their_order() {
    let mut config = image("debian");
    config.forward_ports = vec![Port::Number(3000), Port::Text("8080:80".to_string())];
    config.app_port = Some(devc::config::AppPort::One(Port::Number(9)));
    config.mounts = vec![Mount::Text("m".to_string())];
    config.container_env = map(&[("B", "2"), ("A", "1")]);
    config.container_user = text("root");
    config.run_args = list(&["--network", "host"]);
    config.init = Some(true);
    config.privileged = Some(true);
    config.cap_add = list(&["C"]);
    config.security_opt = list(&["S"]);
    config.override_command = Some(false);
    let labels = vec![("k".to_string(), "v".to_string())];
    let runtime = FeatureRuntime {
        init: false,
        privileged: false,
        cap_add: list(&["D"]),
        security_opt: list(&["T"]),
        entrypoints: Vec::new(),
    };
    let args = build_run_args("/w", &config, "/ws", &labels, "img", &runtime, false);
    assert_eq!(
        args,
        list(&[
            "-d",
            "-p",
            "127.0.0.1:3000:3000",
            "-p",
            "8080:80",
            "-p",
            "127.0.0.1:9:9",
            "--mount",
            "type=bind,source=/w,target=/ws,consistency=cached",
            "--mount",
            "m",
            "-l",
            "k=v",
            "-l",
            "devc.managed=true",
            "-e",
            "A=1",
            "-e",
            "B=2",
            "-u",
            "root",
            "--network",
            "host",
            "--init",
            "--privileged",
            "--cap-add",
            "C",
            "--cap-add",
            "D",
            "--security-opt",
            "S",
            "--security-opt",
            "T",
            "img",
        ])
    );
}

#[test]
fn the_container_is_kept_alive() {
    assert_eq!(
        keep_alive(&list(&["/a.sh", "/b.sh"])),
        "echo Container started\ntrap \"exit 0\" 15\n/a.sh\n/b.sh\nexec \"$@\"\nwhile sleep 1 & wait $!; do :; done"
    );
    let args = build_run_args(
        "/w",
        &image("img"),
        "/ws",
        &Vec::new(),
        "img",
        &FeatureRuntime::default(),
        true,
    );
    assert_eq!(
        args[args.len() - 5..args.len() - 1],
        list(&["--entrypoint", "/bin/sh", "img", "-c"])[..]
    );
}

#[test]
fn variables_in_the_config_are_replaced() {
    let mut config = image("debian");
    config.workspace_folder = text("/src/${localWorkspaceFolderBasename}");
    config.workspace_mount = text("source=${localWorkspaceFolder},target=${containerWorkspaceFolder}");
    config.remote_user = text("${localEnv:LANG}");
    config.run_args = list(&["--name=${localWorkspaceFolderBasename}"]);
    config.mounts = vec![Mount::Text("x=${localEnv:NOPE:y}".to_string())];
    let s = session(config, "/w/image-simple/sub", &[]);
    assert_eq!(s.folder, "/src/image-simple");
    assert_eq!(s.cwd, "/src/image-simple/sub");
    // The variable in the folder is the folder as it was written.
    assert_eq!(
        s.config.workspace_mount,
        text("source=/w/image-simple,target=/src/${localWorkspaceFolderBasename}")
    );
    assert_eq!(s.config.remote_user, text("C"));
    assert_eq!(s.config.run_args, list(&["--name=image-simple"]));
    assert_eq!(s.config.mounts[0].to_mount_string(), "x=y");
    assert_eq!(s.config.image, text("debian"));
}

#[test]
fn the_user_of_commands() {
    let mut config = image("debian");
    assert_eq!(effective_remote_user(&config), None);
    config.container_user = text("c");
    assert_eq!(effective_remote_user(&config), text("c"));
    config.remote_user = text("r");
    assert_eq!(effective_remote_user(&config), text("r"));
    assert_eq!(remote_env_pairs(&config), Vec::new());
    let with = exec("i", &text(""), &None, &Vec::new(), &list(&["ls"]), true, true);
    assert_eq!(with, list(&["exec", "-i", "-t", "i", "ls"]));
}

#[test]
fn invocations_of_commands() {
    assert_eq!(
        command_invocations(&Command::Shell("a b".to_string())),
        vec![list(&["/bin/sh", "-c", "a b"])]
    );
    assert_eq!(
        command_invocations(&Command::Argv(list(&["a", "b"]))),
        vec![list(&["a", "b"])]
    );
    assert!(command_invocations(&Command::Named(SortedMap::new())).is_empty());
}

#[test]
fn listed_containers_are_read() {
    assert!(found_container("").is_none());
    assert!(found_container("  \nabc\trunning").is_none());
    let c = found_container("abc\trunning\r\ndef\texited").unwrap();
    assert_eq!(c.id, "abc");
    assert!(c.running);
    assert!(!found_container("abc").unwrap().running);
    assert!(!found_container("abc\tpaused").unwrap().running);
    assert_eq!(container_id("x").ok().unwrap(), "x");
}

#[test]
fn exit_codes_of_processes() {
    assert_eq!(exit_code(Some(5), None), 5);
    assert_eq!(exit_code(None, Some(9)), 137);
    assert_eq!(exit_code(None, None), 1);
}

#[test]
fn names_for_images() {
    assert_eq!(sanitize("My Project!"), "my-project");
    assert_eq!(sanitize("..a_B.."), "a_b");
    assert_eq!(sanitize("é"), "workspace");
    assert_eq!(sanitize(""), "workspace");
    assert_eq!(sanitize(&sanitize("--X y--")), "x-y");
    assert_eq!(short("0123456789abcdef"), "0123456789ab");
    assert_eq!(short("abc"), "abc");
    assert_eq!(hash_text(0xfedc_ba98_0000_00ff), "000000ff");
    assert_eq!(hash_text(0x1234_5678_9abc_def0), "9abcdef0");
}

#[test]
fn the_hash_is_that_of_the_path() {
    for path in ["/w/image-simple", "/", "/a/b"] {
        let mut h = std::collections::hash_map::DefaultHasher::new();
        std::path::Path::new(path).hash(&mut h);
        assert_eq!(short_hash(path), format!("{:08x}", h.finish() as u32));
    }
    assert_ne!(short_hash("/a"), short_hash("/b"));
    let loaded = load(image("x"), "/w/.devcontainer.json", "/w").ok().unwrap();
    let s = Session::new(
        loaded,
        "/w/.devcontainer.json",
        "/w",
        "/w",
        Vec::new(),
        Vec::new(),
        true,
        true,
    );
    assert_eq!(s.key, format!("w-{}", short_hash("/w")));
}

#[test]
fn image_tags_are_valid() {
    let path = "/w/My Project/.devcontainer.json";
    let loaded = load(image("x"), path, "/w/My Project").ok().unwrap();
    let s = Session::new(
        loaded,
        path,
        "/w/My Project",
        "/w/My Project",
        Vec::new(),
        Vec::new(),
        false,
        true,
    );
    assert!(s.key.starts_with("my-project-"));
    assert!(s
        .key
        .chars()
        .all(|c| c.is_ascii_lowercase() || c.is_ascii_digit() || "._-".contains(c)));
    // The folder in the container keeps the name as it is.
    assert_eq!(s.folder, "/workspaces/My Project");
}

#[test]
fn a_command_runs_like_the_shell() {
    let mut config = image("debian");
    config.remote_user = text("vscode");
    let shell = run_of(located(&session(config, "/w/image-simple/a", &[]), "abc\trunning"));
    let mut config = image("debian");
    config.remote_user = text("vscode");
    let command = run_of(located(&session(config, "/w/image-simple/a", &["ls", "-l"]), "abc\trunning"));
    assert_eq!(shell.args[..shell.args.len() - 3], command.args[..command.args.len() - 2]);
    assert_eq!(command.args[command.args.len() - 2..], list(&["ls", "-l"])[..]);
}

#[test]
fn the_environment_is_passed_on_in_key_order() {
    let mut remote_env = SortedMap::new();
    for (k, v) in [("Z", text("1")), ("A", None), ("M", text("2")), ("B", text(""))] {
        remote_env.insert(k.to_string(), v);
    }
    let config = DevContainerConfig { remote_env, ..image("debian") };
    let pairs: Vec<String> = remote_env_pairs(&config)
        .into_iter()
        .map(|(k, v)| format!("{k}={v}"))
        .collect();
    assert_eq!(pairs, list(&["B=", "M=2", "Z=1"]));
}
