use stim_sidecar::{
    identity::{SidecarMode, SidecarStamp},
    process::{command_matches_criteria, env_matches_criteria, StampedProcessCriteria},
    ready::SidecarReadyLine,
    registry::{
        build_command, build_stamp, default_manifest_version, descriptors_for_project,
        env_keys_ascending,
        find_descriptor, load_registries, manifest_source, projects, split_registry_paths, LaunchSpec,
        LoadedDescriptor, ManifestSource, ReadyExpectation, RegistryError, SidecarDescriptor,
        SidecarManifest, SpawnError, SpawnOptions, SpawnStdio, DEFAULT_READY_TIMEOUT_SECS,
    },
    registry::spawn::{
        detached_log_path, pattern_wait_step, ready_line_expected, ready_strategy,
        synthesized_ready_line, timestamp_text, PatternReadEvent, PatternWaitStep, ReadyStrategy,
    },
};

fn loaded_descriptor(descriptor: SidecarDescriptor) -> LoadedDescriptor {
    LoadedDescriptor {
        project: "stim-agents".into(),
        descriptor,
        manifest_dir: "/tmp/example/stim-agents".into(),
        manifest_path: "/tmp/example/stim-agents/sidecars.toml".into(),
    }
}

fn cargo_descriptor(app: &str) -> SidecarDescriptor {
    SidecarDescriptor {
        app: app.into(),
        launch: LaunchSpec::Cargo {
            manifest_path: "Cargo.toml".into(),
            package: None,
            bin: None,
            cargo_args: vec![],
            args: vec![],
        },
        ready: None,
        stamp_source: None,
        stamp_via_env: false,
        cwd: None,
        env: Vec::new(),
        endpoint_env: None,
        inherits_env: Vec::new(),
    }
}

fn manifest(path: &str, project: &str, apps: &[&str]) -> ManifestSource {
    ManifestSource {
        path: path.into(),
        manifest_dir: "/tmp/fixtures".into(),
        manifest: SidecarManifest {
            manifest_version: 1,
            project: project.into(),
            sidecars: apps.iter().map(|a| cargo_descriptor(a)).collect(),
        },
    }
}

#[test]
fn appends_stamp_args() {
    let descriptor = SidecarDescriptor {
        app: "agents".into(),
        launch: LaunchSpec::Cargo {
            manifest_path: "Cargo.toml".into(),
            package: None,
            bin: None,
            cargo_args: vec![],
            args: vec!["serve".to_string()],
        },
        ready: Some(ReadyExpectation {
            role: "agents-runtime".into(),
            stdout_pattern: None,
        }),
        stamp_source: None,
        stamp_via_env: false,
        cwd: None,
        env: Default::default(),
        endpoint_env: None,
        inherits_env: Vec::new(),
    };

    let loaded = loaded_descriptor(descriptor);
    let workspace = "/tmp/example/stim";
    let options = SpawnOptions::new("design", SidecarMode::Dev, SpawnStdio::Inherit);

    let cmd = build_command(&loaded, workspace, &options);
    let args = cmd.args.clone();
    assert_eq!(args[0], "run");
    assert_eq!(args[1], "--manifest-path");
    assert_eq!(args[2], "/tmp/example/stim-agents/Cargo.toml");
    assert_eq!(args[3], "--");
    assert_eq!(args[4], "serve");
    assert!(args[5..].iter().any(|a| a == "--sidecar-stamp-app=agents"));
    assert!(args[5..]
        .iter()
        .any(|a| a == "--sidecar-stamp-namespace=design"));
    assert_eq!(cmd.current_dir, workspace);
}

#[test]
fn handles_shell_kind() {
    let descriptor = SidecarDescriptor {
        app: "renderer".into(),
        launch: LaunchSpec::Shell {
            command: "pnpm".into(),
            args: vec!["-C".into(), "apps/renderer".into(), "dev".into()],
        },
        ready: None,
        stamp_source: None,
        stamp_via_env: true,
        cwd: None,
        env: Default::default(),
        endpoint_env: None,
        inherits_env: Vec::new(),
    };

    let loaded = loaded_descriptor(descriptor);
    let workspace = "/tmp/example/stim-agents";
    let options = SpawnOptions::new("default", SidecarMode::Dev, SpawnStdio::Inherit);

    let cmd = build_command(&loaded, workspace, &options);
    assert_eq!(cmd.program, "pnpm");
    let args = cmd.args.clone();
    assert_eq!(args[0], "-C");
    assert_eq!(args[1], "apps/renderer");
    assert_eq!(args[2], "dev");
    assert!(
        !args.iter().any(|a| a.starts_with("--sidecar-stamp-")),
        "stamp_via_env should suppress argv stamp flags"
    );

    let envs = cmd.envs.clone();
    assert!(envs
        .iter()
        .any(|(k, v)| k == "STIM_SIDECAR_APP" && v == "renderer"));
    assert!(envs
        .iter()
        .any(|(k, v)| k == "STIM_SIDECAR_NAMESPACE" && v == "default"));
    assert!(envs
        .iter()
        .any(|(k, v)| k == "STIM_SIDECAR_MODE" && v == "dev"));
    assert!(envs
        .iter()
        .any(|(k, v)| k == "STIM_SIDECAR_SOURCE" && v == "tool:sidecar"));
}

#[test]
fn rejects_across_manifests() {
    let sources = vec![
        manifest("/tmp/fixtures/dup_proj_a.toml", "stim", &["controller"]),
        manifest("/tmp/fixtures/dup_proj_b.toml", "stim", &["renderer"]),
    ];
    match load_registries(sources) {
        Err(RegistryError::DuplicateProject { project, paths }) => {
            assert_eq!(project, "stim");
            assert_eq!(
                paths,
                vec![
                    "/tmp/fixtures/dup_proj_a.toml".to_string(),
                    "/tmp/fixtures/dup_proj_b.toml".to_string()
                ]
            );
        }
        other => panic!("expected DuplicateProject, got {other:?}"),
    }
}

#[test]
fn rejects_within_project() {
    let sources = vec![manifest(
        "/tmp/fixtures/dup_app.toml",
        "stim",
        &["tauri", "tauri"],
    )];
    match load_registries(sources) {
        Err(RegistryError::DuplicateApp {
            project,
            app,
            paths,
        }) => {
            assert_eq!(project, "stim");
            assert_eq!(app, "tauri");
            assert_eq!(paths.len(), 2);
        }
        other => panic!("expected DuplicateApp, got {other:?}"),
    }
}

#[test]
fn allows_cross_project_names() {
    let sources = vec![
        manifest("/tmp/fixtures/proj_stim.toml", "stim", &["tauri"]),
        manifest("/tmp/fixtures/proj_agents.toml", "stim-agents", &["tauri"]),
    ];
    let loaded = load_registries(sources).expect("project namespace is unique");
    assert_eq!(loaded.len(), 2);
    assert!(find_descriptor(&loaded, "stim", "tauri").is_some());
    assert!(find_descriptor(&loaded, "stim-agents", "tauri").is_some());
    assert!(find_descriptor(&loaded, "stim", "missing").is_none());

    let stim_items = descriptors_for_project(&loaded, "stim");
    assert_eq!(stim_items.len(), 1);
    assert_eq!(stim_items[0].descriptor.app, "tauri");

    let names = projects(&loaded);
    assert_eq!(names, vec!["stim", "stim-agents"]);
}

#[test]
fn smallest_duplicate_project_is_reported() {
    let sources = vec![
        manifest("/m/1.toml", "zeta", &["a"]),
        manifest("/m/2.toml", "alpha", &["b"]),
        manifest("/m/3.toml", "zeta", &["c"]),
        manifest("/m/4.toml", "alpha", &["d"]),
    ];
    match load_registries(sources) {
        Err(RegistryError::DuplicateProject { project, paths }) => {
            assert_eq!(project, "alpha");
            assert_eq!(paths, vec!["/m/2.toml".to_string(), "/m/4.toml".to_string()]);
        }
        other => panic!("expected DuplicateProject, got {other:?}"),
    }
}

#[test]
fn duplicate_project_wins_over_duplicate_app() {
    let sources = vec![
        manifest("/m/1.toml", "p", &["x", "x"]),
        manifest("/m/2.toml", "q", &["y"]),
        manifest("/m/3.toml", "q", &["z"]),
    ];
    assert!(matches!(
        load_registries(sources),
        Err(RegistryError::DuplicateProject { .. })
    ));
}

#[test]
fn registered_descriptors_keep_order_and_provenance() {
    let sources = vec![
        manifest("/m/b.toml", "beta", &["one", "two"]),
        manifest("/m/a.toml", "alpha", &["three"]),
    ];
    let loaded = load_registries(sources).unwrap();
    let apps: Vec<&str> = loaded.iter().map(|d| d.descriptor.app.as_str()).collect();
    assert_eq!(apps, vec!["one", "two", "three"]);
    assert_eq!(loaded[2].project, "alpha");
    assert_eq!(loaded[2].manifest_path, "/m/a.toml");
    assert_eq!(projects(&loaded), vec!["beta", "alpha"]);
    assert_eq!(descriptors_for_project(&loaded, "beta").len(), 2);
    assert!(descriptors_for_project(&loaded, "gamma").is_empty());
}

#[test]
fn registry_paths_split_on_colons() {
    assert_eq!(
        split_registry_paths("/a/sidecars.toml::/b/sidecars.toml:"),
        vec!["/a/sidecars.toml".to_string(), "/b/sidecars.toml".to_string()]
    );
    assert!(split_registry_paths("").is_empty());
}

#[test]
fn registry_defaults() {
    assert_eq!(default_manifest_version(), 1);
    assert_eq!(DEFAULT_READY_TIMEOUT_SECS, 120);
}

#[test]
fn cargo_command_with_package_bin_and_cwd() {
    let mut descriptor = cargo_descriptor("controller");
    descriptor.launch = LaunchSpec::Cargo {
        manifest_path: "apps/controller/Cargo.toml".into(),
        package: Some("stim-controller".into()),
        bin: Some("controller".into()),
        cargo_args: vec!["--release".into()],
        args: vec!["serve".into(), "--port=0".into()],
    };
    descriptor.cwd = Some("apps/controller".into());
    descriptor.stamp_source = Some("tool:stim-dev".into());
    descriptor.env = vec![("RUST_LOG".into(), "info".into())];
    let loaded = loaded_descriptor(descriptor);
    let mut options = SpawnOptions::new("dev-a", SidecarMode::Runtime, SpawnStdio::Detached);
    options.extra_args = vec!["--verbose".into()];
    options.extra_env = vec![("EXTRA".into(), "1".into())];

    let cmd = build_command(&loaded, "/ws", &options);
    assert_eq!(cmd.program, "cargo");
    assert_eq!(
        cmd.args,
        vec![
            "run",
            "--manifest-path",
            "/tmp/example/stim-agents/apps/controller/Cargo.toml",
            "-p",
            "stim-controller",
            "--bin",
            "controller",
            "--release",
            "--",
            "serve",
            "--port=0",
            "--verbose",
            "--sidecar-stamp-app=controller",
            "--sidecar-stamp-namespace=dev-a",
            "--sidecar-stamp-mode=runtime",
            "--sidecar-stamp-source=tool:stim-dev",
        ]
    );
    assert_eq!(cmd.current_dir, "/tmp/example/stim-agents/apps/controller");
    assert_eq!(
        cmd.envs,
        vec![
            ("RUST_LOG".to_string(), "info".to_string()),
            ("EXTRA".to_string(), "1".to_string()),
        ]
    );
}

#[test]
fn spawned_command_is_matched_by_its_stamp() {
    let mut descriptor = cargo_descriptor("controller");
    descriptor.launch = LaunchSpec::Shell {
        command: "stim-controller".into(),
        args: vec!["serve".into()],
    };
    let loaded = loaded_descriptor(descriptor.clone());
    let options = SpawnOptions::new("dev-a", SidecarMode::Dev, SpawnStdio::Inherit);
    let cmd = build_command(&loaded, "/ws", &options);
    let mut line = cmd.program.clone();
    for arg in &cmd.args {
        line.push(' ');
        line.push_str(arg);
    }
    let stamp = build_stamp(&descriptor, "dev-a", SidecarMode::Dev);
    let criteria = StampedProcessCriteria {
        app: Some(stamp.app.clone()),
        namespace: Some(stamp.namespace.clone()),
        mode: Some(stamp.mode),
        source: Some(stamp.source.clone()),
    };
    assert!(command_matches_criteria(&line, &criteria));
    let other = StampedProcessCriteria {
        namespace: Some("dev-b".into()),
        ..StampedProcessCriteria::default()
    };
    assert!(!command_matches_criteria(&line, &other));

    descriptor.stamp_via_env = true;
    let env_cmd = build_command(&loaded_descriptor(descriptor), "/ws", &options);
    assert!(env_matches_criteria(&env_cmd.envs, &criteria));
}

#[test]
fn stamp_source_defaults_to_tool_sidecar() {
    let d = cargo_descriptor("x");
    let stamp = build_stamp(&d, "ns", SidecarMode::Runtime);
    assert_eq!(
        stamp,
        SidecarStamp {
            app: "x".into(),
            namespace: "ns".into(),
            mode: SidecarMode::Runtime,
            source: "tool:sidecar".into(),
        }
    );
}

#[test]
fn ready_strategies() {
    let mut d = cargo_descriptor("x");
    assert_eq!(ready_strategy(&d, SpawnStdio::Inherit), ReadyStrategy::Skip);
    d.ready = Some(ReadyExpectation {
        role: "r".into(),
        stdout_pattern: None,
    });
    assert_eq!(
        ready_strategy(&d, SpawnStdio::Inherit),
        ReadyStrategy::StdoutLine { role: "r".into() }
    );
    assert_eq!(
        ready_strategy(&d, SpawnStdio::Detached),
        ReadyStrategy::LogLine { role: "r".into() }
    );
    d.ready = Some(ReadyExpectation {
        role: "r".into(),
        stdout_pattern: Some("p(.)".into()),
    });
    assert_eq!(
        ready_strategy(&d, SpawnStdio::Inherit),
        ReadyStrategy::StdoutPattern {
            role: "r".into(),
            pattern: "p(.)".into()
        }
    );
    assert_eq!(
        ready_strategy(&d, SpawnStdio::Detached),
        ReadyStrategy::LogPattern {
            role: "r".into(),
            pattern: "p(.)".into()
        }
    );
}

#[test]
fn expected_ready_line_checks_stamp_and_role() {
    let loaded = loaded_descriptor(cargo_descriptor("agents"));
    let stamp = build_stamp(&loaded.descriptor, "design", SidecarMode::Dev);
    let line = SidecarReadyLine::new(
        stamp.clone(),
        "agents-runtime".into(),
        "agents-1".into(),
        None,
        "t".into(),
    );
    assert!(ready_line_expected(&loaded, &line, "design", SidecarMode::Dev, "agents-runtime"));
    assert!(!ready_line_expected(&loaded, &line, "other", SidecarMode::Dev, "agents-runtime"));
    assert!(!ready_line_expected(&loaded, &line, "design", SidecarMode::Runtime, "agents-runtime"));
    assert!(!ready_line_expected(&loaded, &line, "design", SidecarMode::Dev, "other-role"));
}

#[test]
fn timestamps_pad_millis() {
    assert_eq!(timestamp_text(1714000000, 7), "1714000000-007");
    assert_eq!(timestamp_text(0, 123), "0-123");
    assert_eq!(timestamp_text(5, 1234), "5-1234");
}

#[test]
fn synthesized_line_uses_injected_stamp() {
    let loaded = loaded_descriptor(cargo_descriptor("renderer"));
    let options = SpawnOptions::new("dev-a", SidecarMode::Dev, SpawnStdio::Inherit);
    let line = synthesized_ready_line(
        &loaded,
        &options,
        "renderer-delivery",
        "http://127.0.0.1:1421/".into(),
        12345678,
        "1-000".into(),
    );
    assert!(line.is_ready_line());
    assert_eq!(line.instance_id, "renderer-345678");
    assert_eq!(line.stamp.namespace, "dev-a");
    assert_eq!(line.stamp.source, "tool:sidecar");
    assert_eq!(line.endpoint.as_deref(), Some("http://127.0.0.1:1421/"));
    assert!(ready_line_expected(&loaded, &line, "dev-a", SidecarMode::Dev, "renderer-delivery"));
}

#[test]
fn detached_logs_live_under_dev_root() {
    assert_eq!(
        detached_log_path("/ws", "dev-a", "controller"),
        "/ws/.tmp/dev/dev-a/logs/controller/latest.log"
    );
}

#[test]
fn registry_error_messages() {
    assert_eq!(
        RegistryError::EnvNotSet.describe(),
        "STIM_DEV_REGISTRIES environment variable is not set"
    );
    assert_eq!(
        RegistryError::DuplicateProject {
            project: "stim".into(),
            paths: vec!["/a.toml".into(), "/b.toml".into()],
        }
        .describe(),
        "project \"stim\" is declared by multiple manifests: /a.toml, /b.toml"
    );
    assert_eq!(
        RegistryError::DuplicateApp {
            project: "stim".into(),
            app: "tauri".into(),
            paths: vec!["/a.toml".into(), "/a.toml".into()],
        }
        .describe(),
        "sidecar app \"tauri\" is declared twice within project \"stim\": /a.toml, /a.toml"
    );
    assert_eq!(
        RegistryError::Io {
            path: "/missing.toml".into(),
            error: std::io::Error::other("no such file"),
        }
        .describe(),
        "failed to read /missing.toml: no such file"
    );
}

#[test]
fn spawn_error_messages() {
    assert_eq!(
        SpawnError::UnexpectedReady {
            role: "agents-runtime".into(),
            line: "{}".into(),
        }
        .describe(),
        "unexpected ready line for role \"agents-runtime\": {}"
    );
    assert_eq!(
        SpawnError::EarlyExit {
            context: "agents exited".into(),
            log_path: Some("/l/latest.log".into()),
        }
        .describe(),
        "agents exited; see /l/latest.log"
    );
    assert_eq!(
        SpawnError::EarlyExit {
            context: "agents exited".into(),
            log_path: None,
        }
        .describe(),
        "agents exited"
    );
    assert_eq!(
        SpawnError::Timeout {
            context: "agents".into(),
            log_path: None,
        }
        .describe(),
        "agents: timed out waiting for ready line"
    );
    assert_eq!(
        SpawnError::Timeout {
            context: "agents".into(),
            log_path: Some("/l".into()),
        }
        .describe(),
        "agents: timed out waiting for ready line; see /l"
    );
    assert_eq!(
        SpawnError::ReadyChannelMissing {
            context: "agents".into()
        }
        .describe(),
        "agents: stdout was not piped; cannot read ready line"
    );
    assert_eq!(
        SpawnError::Io {
            context: "spawn agents".into(),
            error: std::io::Error::other("denied"),
        }
        .describe(),
        "spawn agents: denied"
    );
}

#[test]
fn parse_error_message_names_path() {
    let error = toml::from_str::<toml::Value>("project = ").unwrap_err();
    let expected_tail = error.to_string();
    let message = RegistryError::Parse {
        path: "/x/sidecars.toml".into(),
        error,
    }
    .describe();
    assert_eq!(
        message,
        format!("failed to parse /x/sidecars.toml: {expected_tail}")
    );
}

#[test]
fn manifest_dir_is_parent_of_path() {
    let m = || SidecarManifest {
        manifest_version: 1,
        project: "stim".into(),
        sidecars: vec![],
    };
    assert_eq!(
        manifest_source("/ws/apps/sidecars.toml".into(), m()).manifest_dir,
        "/ws/apps"
    );
    assert_eq!(manifest_source("sidecars.toml".into(), m()).manifest_dir, "");
    assert_eq!(manifest_source("".into(), m()).manifest_dir, ".");
    assert_eq!(manifest_source("/".into(), m()).manifest_dir, ".");
    let source = manifest_source("/ws/sidecars.toml".into(), m());
    assert_eq!(source.path, "/ws/sidecars.toml");
    assert_eq!(source.manifest.project, "stim");
}

#[test]
fn pattern_wait_steps() {
    assert_eq!(
        pattern_wait_step(PatternReadEvent::Line {
            endpoint: Some("http://x".into()),
            timed_out: true
        }),
        PatternWaitStep::Found("http://x".into())
    );
    assert_eq!(
        pattern_wait_step(PatternReadEvent::Line {
            endpoint: None,
            timed_out: false
        }),
        PatternWaitStep::Continue
    );
    assert_eq!(
        pattern_wait_step(PatternReadEvent::Line {
            endpoint: None,
            timed_out: true
        }),
        PatternWaitStep::TimedOut
    );
    assert_eq!(
        pattern_wait_step(PatternReadEvent::Closed),
        PatternWaitStep::Closed
    );
}

#[test]
fn env_tables_ascend() {
    let pair = |k: &str| (k.to_string(), "v".to_string());
    assert!(env_keys_ascending(&vec![]));
    assert!(env_keys_ascending(&vec![pair("A"), pair("B"), pair("BA")]));
    assert!(!env_keys_ascending(&vec![pair("B"), pair("A")]));
    assert!(!env_keys_ascending(&vec![pair("A"), pair("A")]));
}
