use stim_sidecar::{
    identity::SidecarMode,
    platform::process::ProcessSnapshot,
    process::{
        command_matches_criteria, env_matches_criteria, is_stamp_env_key, matching_processes,
        parse_stamp_ps_env, process_matches_criteria, StampedProcessCriteria,
    },
};

#[test]
fn rejects_other_namespace() {
    let criteria = StampedProcessCriteria {
        app: Some("controller".into()),
        namespace: Some("other".into()),
        ..StampedProcessCriteria::default()
    };

    assert!(!command_matches_criteria(
        "stim-controller --stim-stamp-app=controller --stim-stamp-namespace=default",
        &criteria
    ));
}

#[test]
fn matches_env_stamped_process() {
    let env = vec![
        ("STIM_SIDECAR_APP".to_string(), "renderer".to_string()),
        (
            "STIM_SIDECAR_NAMESPACE".to_string(),
            "codex-regression".to_string(),
        ),
        ("STIM_SIDECAR_MODE".to_string(), "dev".to_string()),
        (
            "STIM_SIDECAR_SOURCE".to_string(),
            "tool:stim-dev".to_string(),
        ),
    ];
    let criteria = StampedProcessCriteria {
        app: Some("renderer".into()),
        namespace: Some("codex-regression".into()),
        mode: Some(SidecarMode::Dev),
        source: Some("tool:stim-dev".into()),
    };

    assert!(env_matches_criteria(&env, &criteria));
}

#[test]
fn rejects_unstamped_env() {
    let env = vec![("STIM_WORKSPACE_ROOT".to_string(), "/tmp/stim".to_string())];

    assert!(!env_matches_criteria(
        &env,
        &StampedProcessCriteria::default()
    ));
}

#[test]
fn matches_sidecar_stamped_command() {
    let command = "stim-controller --sidecar-stamp-app=controller \
                   --sidecar-stamp-namespace=default --sidecar-stamp-mode=dev \
                   --sidecar-stamp-source=tool:stim-dev";
    let criteria = StampedProcessCriteria {
        app: Some("controller".into()),
        namespace: Some("default".into()),
        mode: Some(SidecarMode::Dev),
        source: Some("tool:stim-dev".into()),
    };

    assert!(command_matches_criteria(command, &criteria));
}

#[test]
fn empty_criteria_match_any_command() {
    assert!(command_matches_criteria(
        "anything at all",
        &StampedProcessCriteria::default()
    ));
}

#[test]
fn env_mode_must_match() {
    let env = vec![("STIM_SIDECAR_MODE".to_string(), "dev".to_string())];
    let criteria = StampedProcessCriteria {
        mode: Some(SidecarMode::Runtime),
        ..StampedProcessCriteria::default()
    };
    assert!(!env_matches_criteria(&env, &criteria));
    assert!(env_matches_criteria(&env, &StampedProcessCriteria::default()));
}

#[test]
fn stamp_env_keys_are_the_four() {
    assert!(is_stamp_env_key("STIM_SIDECAR_APP"));
    assert!(is_stamp_env_key("STIM_SIDECAR_NAMESPACE"));
    assert!(is_stamp_env_key("STIM_SIDECAR_MODE"));
    assert!(is_stamp_env_key("STIM_SIDECAR_SOURCE"));
    assert!(!is_stamp_env_key("STIM_SIDECAR"));
    assert!(!is_stamp_env_key("PATH"));
}

#[test]
fn ps_env_keeps_stamp_variables() {
    let output = "node server.js PATH=/usr/bin STIM_SIDECAR_APP=renderer \
                  STIM_SIDECAR_MODE=dev HOME=/root STIM_SIDECAR_NAMESPACE=a=b";
    assert_eq!(
        parse_stamp_ps_env(output),
        vec![
            ("STIM_SIDECAR_APP".to_string(), "renderer".to_string()),
            ("STIM_SIDECAR_MODE".to_string(), "dev".to_string()),
            ("STIM_SIDECAR_NAMESPACE".to_string(), "a=b".to_string()),
        ]
    );
}

#[test]
fn process_matches_by_command_or_env() {
    let criteria = StampedProcessCriteria {
        app: Some("renderer".into()),
        ..StampedProcessCriteria::default()
    };
    let plain = ProcessSnapshot {
        command: "pnpm dev".into(),
        pid: 40,
        ppid: 1,
    };
    let env = vec![("STIM_SIDECAR_APP".to_string(), "renderer".to_string())];
    assert!(!process_matches_criteria(&plain, None, &criteria));
    assert!(process_matches_criteria(&plain, Some(&env), &criteria));
    let stamped = ProcessSnapshot {
        command: "pnpm dev --sidecar-stamp-app renderer".into(),
        pid: 41,
        ppid: 1,
    };
    assert!(process_matches_criteria(&stamped, None, &criteria));
}

#[test]
fn rejects_other_namespace_with_stamp() {
    let command = "stim-controller --sidecar-stamp-app=controller --sidecar-stamp-namespace=default";
    let other = StampedProcessCriteria {
        app: Some("controller".into()),
        namespace: Some("other".into()),
        ..StampedProcessCriteria::default()
    };
    let same = StampedProcessCriteria {
        app: Some("controller".into()),
        namespace: Some("default".into()),
        ..StampedProcessCriteria::default()
    };

    assert!(!command_matches_criteria(command, &other));
    assert!(command_matches_criteria(command, &same));
}

#[test]
fn matching_keeps_order_of_matches() {
    let criteria = StampedProcessCriteria {
        app: Some("renderer".into()),
        ..StampedProcessCriteria::default()
    };
    let processes = vec![
        ProcessSnapshot {
            command: "node --sidecar-stamp-app=renderer".into(),
            pid: 3,
            ppid: 1,
        },
        ProcessSnapshot {
            command: "pnpm dev".into(),
            pid: 4,
            ppid: 1,
        },
        ProcessSnapshot {
            command: "vite".into(),
            pid: 5,
            ppid: 4,
        },
        ProcessSnapshot {
            command: "bash".into(),
            pid: 6,
            ppid: 1,
        },
    ];
    let envs = vec![
        None,
        Some(vec![("STIM_SIDECAR_APP".to_string(), "other".to_string())]),
        Some(vec![("STIM_SIDECAR_APP".to_string(), "renderer".to_string())]),
        None,
    ];
    let found = matching_processes(&processes, &envs, &criteria);
    let pids: Vec<u32> = found.iter().map(|p| p.pid).collect();
    assert_eq!(pids, vec![3, 5]);
    assert_eq!(found[1], processes[2]);
}
