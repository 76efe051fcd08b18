//! Configurations: discovery, loading, accessors, and substitution.
use devc::config::{
    find_config_path, load, probe_warning, AppPort, BuildConfig, CacheFrom, ConfigError,
    DevContainerConfig, Mount, MountObject, Port, Probe, Search, SubstitutionContext,
};
use devc::config::substitute;
use devc::json::Json;
use devc::sorted_map::SortedMap;

fn text(s: &str) -> Option<String> {
    Some(s.to_string())
}

/// Runs a search in a file system that holds the given files, and tells where it looked.
fn search(
    start: &str,
    files: &[&str],
    blocked: &[&str],
) -> (Result<(String, String), String>, Vec<String>) {
    let mut probes: Vec<Probe> = Vec::new();
    let mut seen: Vec<String> = Vec::new();
    loop {
        match find_config_path(start, &probes) {
            Search::Found(c) => return (Ok((c.workspace, c.path)), seen),
            Search::NotFound(e) => return (Err(e.message()), seen),
            Search::Check(c) => {
                probes.push(if files.contains(&c.path.as_str()) {
                    Probe::File
                } else if blocked.contains(&c.path.as_str()) {
                    Probe::Unreadable
                } else {
                    Probe::Absent
                });
                seen.push(c.path);
            }
        }
    }
}

#[test]
fn search_looks_at_every_directory_up_to_the_root() {
    let (found, seen) = search("/a/b", &[], &[]);
    assert_eq!(
        found.err().unwrap(),
        "No dev container configuration found in /a/b or any parent directory \
         (looked for .devcontainer/devcontainer.json and .devcontainer.json)."
    );
    assert_eq!(
        seen,
        vec![
            "/a/b/.devcontainer/devcontainer.json",
            "/a/b/.devcontainer.json",
            "/a/.devcontainer/devcontainer.json",
            "/a/.devcontainer.json",
            "/.devcontainer/devcontainer.json",
            "/.devcontainer.json",
        ]
    );
}

#[test]
fn search_climbs_from_a_subdirectory() {
    let files = [
        "/w/image-simple/.devcontainer/devcontainer.json",
        "/w/.devcontainer.json",
    ];
    let (found, _) = search("/w/image-simple/nested/deep", &files, &[]);
    assert_eq!(
        found,
        Ok((
            "/w/image-simple".to_string(),
            "/w/image-simple/.devcontainer/devcontainer.json".to_string()
        ))
    );
}

#[test]
fn search_prefers_the_folder_in_one_directory() {
    let files = ["/w/.devcontainer.json", "/w/.devcontainer/devcontainer.json"];
    let (found, seen) = search("/w", &files, &[]);
    assert_eq!(found.unwrap().1, "/w/.devcontainer/devcontainer.json");
    assert_eq!(seen.len(), 1);
    let (found, _) = search("/w", &files[..1], &[]);
    assert_eq!(found.unwrap().1, "/w/.devcontainer.json");
}

#[test]
fn search_goes_on_behind_an_unreadable_place() {
    let blocked = ["/a/b/.devcontainer/devcontainer.json"];
    let (found, seen) = search("/a/b", &[], &blocked);
    assert!(found.err().unwrap().contains("No dev container configuration found"));
    assert_eq!(seen.len(), 6);
    let (found, _) = search("/a/b", &["/a/.devcontainer.json"], &blocked);
    assert_eq!(found.unwrap().0, "/a");
    let warning = probe_warning(blocked[0], "Permission denied (os error 13)");
    assert_eq!(
        warning,
        "devc: warning: cannot check /a/b/.devcontainer/devcontainer.json: Permission denied (os error 13)"
    );
}

#[test]
fn missing_config_message_mentions_parents() {
    let e = ConfigError::NotFound("/a/b/c".to_string()).message();
    assert!(e.contains("No dev container configuration found"));
    assert!(e.contains("or any parent directory"));
    assert!(e.contains("/a/b/c"));
}

#[test]
fn compose_is_rejected() {
    let config = DevContainerConfig {
        docker_compose_file: Some(Json::Text("compose.yml".to_string())),
        ..DevContainerConfig::default()
    };
    match load(config, "/w/.devcontainer.json", "/w") {
        Err(e) => assert_eq!(
            e.message(),
            "/w/.devcontainer.json: docker-compose dev containers are not supported by devc."
        ),
        Ok(_) => panic!("a compose configuration was loaded"),
    }
}

#[test]
fn loaded_config_knows_its_directory() {
    let loaded = load(
        DevContainerConfig::default(),
        "/w/.devcontainer/devcontainer.json",
        "/w",
    )
    .ok()
    .unwrap();
    assert_eq!(loaded.config_path, "/w/.devcontainer/devcontainer.json");
    assert_eq!(loaded.config_dir, "/w/.devcontainer");
}

#[test]
fn dockerfile_and_context() {
    let mut config = DevContainerConfig::default();
    assert!(!config.is_dockerfile_build());
    assert_eq!(config.dockerfile(), None);
    assert_eq!(config.build_context(), ".");
    config.build = Some(BuildConfig {
        dockerfile: text("Dockerfile"),
        ..BuildConfig::default()
    });
    config.context = text("legacy");
    assert!(config.is_dockerfile_build());
    assert_eq!(config.dockerfile(), text("Dockerfile"));
    assert_eq!(config.build_context(), "legacy");
    config.build.as_mut().unwrap().context = text("..");
    config.docker_file = text("Old");
    assert_eq!(config.dockerfile(), text("Old"));
    assert_eq!(config.build_context(), "..");
}

#[test]
fn mounts_are_rendered() {
    assert_eq!(
        Mount::Text("type=tmpfs,target=/x".to_string()).to_mount_string(),
        "type=tmpfs,target=/x"
    );
    let full = Mount::Object(MountObject {
        kind: text("volume"),
        source: text("data"),
        target: "/data".to_string(),
    });
    assert_eq!(full.to_mount_string(), "type=volume,source=data,target=/data");
    let bare = Mount::Object(MountObject {
        kind: None,
        source: None,
        target: "/data".to_string(),
    });
    assert_eq!(bare.to_mount_string(), "type=bind,target=/data");
}

#[test]
fn one_or_many() {
    assert_eq!(CacheFrom::One("a".to_string()).as_vec(), vec!["a"]);
    assert_eq!(
        CacheFrom::Many(vec!["a".to_string(), "b".to_string()]).as_vec(),
        vec!["a", "b"]
    );
    assert!(CacheFrom::default().as_vec().is_empty());
    assert!(matches!(
        AppPort::One(Port::Number(80)).as_ports()[..],
        [Port::Number(80)]
    ));
    let many = AppPort::Many(vec![Port::Number(1), Port::Text("2:3".to_string())]);
    assert_eq!(many.as_ports().len(), 2);
}

fn vars() -> SubstitutionContext {
    SubstitutionContext {
        local_workspace_folder: "/home/u/image-simple".to_string(),
        local_workspace_folder_basename: "image-simple".to_string(),
        container_workspace_folder: "/workspaces/image-simple".to_string(),
        container_workspace_folder_basename: "c".to_string(),
        local_env: vec![
            ("USER".to_string(), "ana".to_string()),
            ("EMPTY".to_string(), String::new()),
        ],
    }
}

#[test]
fn variables_are_replaced() {
    let v = vars();
    assert_eq!(
        substitute("bar-${localWorkspaceFolderBasename}", &v),
        "bar-image-simple"
    );
    assert_eq!(
        substitute("${localWorkspaceFolder}:${containerWorkspaceFolder}", &v),
        "/home/u/image-simple:/workspaces/image-simple"
    );
    assert_eq!(substitute("${containerWorkspaceFolderBasename}", &v), "c");
}

#[test]
fn environment_variables_have_defaults() {
    let v = vars();
    assert_eq!(substitute("${localEnv:USER}", &v), "ana");
    assert_eq!(substitute("${containerEnv:USER:x}", &v), "ana");
    assert_eq!(substitute("${localEnv:EMPTY:x}", &v), "");
    assert_eq!(substitute("${localEnv:NOPE}", &v), "");
    assert_eq!(substitute("${localEnv:NOPE:a:b}", &v), "a:b");
}

#[test]
fn other_text_stays() {
    let v = vars();
    for s in ["", "plain", "${unknown}", "$", "${", "${localEnv:USER", "$USER}", "é€😀", "ü${x}é"] {
        assert_eq!(substitute(s, &v), s);
    }
    assert_eq!(substitute("😀${localEnv:USER}é", &v), "😀anaé");
    // What was put in is not read again.
    let mut w = vars();
    w.local_env.push(("A".to_string(), "${localEnv:USER}".to_string()));
    assert_eq!(substitute("${localEnv:A}", &w), "${localEnv:USER}");
    // A variable ends at the first brace.
    assert_eq!(substitute("${a${localEnv:USER}}", &v), "${a${localEnv:USER}}");
}

#[test]
fn sorted_map_orders_like_the_standard_one() {
    let keys = ["b", "a", "", "é", "ab", "Z", "b", "😀", "\u{ffff}", "aa"];
    let mut map: SortedMap<usize> = SortedMap::new();
    let mut reference = std::collections::BTreeMap::new();
    for (i, k) in keys.iter().enumerate() {
        map.insert(k.to_string(), i);
        reference.insert(k.to_string(), i);
    }
    assert_eq!(map.len(), reference.len());
    for (i, (k, v)) in reference.iter().enumerate() {
        assert_eq!(map.key(i), k);
        assert_eq!(map.value(i), v);
    }
}
