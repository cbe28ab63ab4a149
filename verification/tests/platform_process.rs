use stim_sidecar::platform::process::{
    after_kill, after_term, alive_ids, collect_process_tree_pids, is_zombie_state, parse_ps_line,
    parse_ps_output, plan_stop, unique_descending, AfterTerm, ProcessSnapshot, StopPlan,
};

#[test]
fn parses_spaced_commands() {
    assert_eq!(
        parse_ps_line("123 1 stim-controller --stim-stamp-app=controller"),
        Some(ProcessSnapshot {
            pid: 123,
            ppid: 1,
            command: "stim-controller --stim-stamp-app=controller".into(),
        })
    );
}

#[test]
fn collects_children_first() {
    let processes = vec![
        ProcessSnapshot {
            command: "root".into(),
            pid: 10,
            ppid: 1,
        },
        ProcessSnapshot {
            command: "child".into(),
            pid: 11,
            ppid: 10,
        },
        ProcessSnapshot {
            command: "grandchild".into(),
            pid: 12,
            ppid: 11,
        },
    ];

    assert_eq!(
        collect_process_tree_pids(&processes, &[10]),
        vec![12, 11, 10]
    );
}

#[test]
fn ps_line_needs_a_command() {
    assert_eq!(parse_ps_line("123 1"), None);
    assert_eq!(parse_ps_line("123 1   "), None);
    assert_eq!(parse_ps_line("abc 1 cmd"), None);
    assert_eq!(parse_ps_line("123 x cmd"), None);
    assert_eq!(parse_ps_line(""), None);
}

#[test]
fn ps_line_collapses_whitespace() {
    assert_eq!(
        parse_ps_line("  7   3   sleep    30 "),
        Some(ProcessSnapshot {
            pid: 7,
            ppid: 3,
            command: "sleep 30".into(),
        })
    );
}

#[test]
fn ps_output_skips_bad_lines() {
    let output = "  1     0 init\nbad line\n  42    1 worker --flag\n";
    assert_eq!(
        parse_ps_output(output),
        vec![
            ProcessSnapshot {
                pid: 1,
                ppid: 0,
                command: "init".into(),
            },
            ProcessSnapshot {
                pid: 42,
                ppid: 1,
                command: "worker --flag".into(),
            },
        ]
    );
}

#[test]
fn tree_ignores_unrelated_and_unknown_roots() {
    let processes = vec![
        ProcessSnapshot {
            command: "a".into(),
            pid: 5,
            ppid: 1,
        },
        ProcessSnapshot {
            command: "b".into(),
            pid: 6,
            ppid: 5,
        },
        ProcessSnapshot {
            command: "c".into(),
            pid: 7,
            ppid: 2,
        },
        ProcessSnapshot {
            command: "d".into(),
            pid: 8,
            ppid: 5,
        },
    ];
    assert_eq!(collect_process_tree_pids(&processes, &[5, 5]), vec![8, 6, 5]);
    assert_eq!(collect_process_tree_pids(&processes, &[99]), vec![99]);
    assert_eq!(collect_process_tree_pids(&processes, &[]), Vec::<u32>::new());
}

#[test]
fn zombie_state_starts_with_z() {
    assert!(is_zombie_state("Z+\n"));
    assert!(is_zombie_state("  Z"));
    assert!(!is_zombie_state("S"));
    assert!(!is_zombie_state(""));
}

#[test]
fn unique_pids_descend() {
    assert_eq!(unique_descending(&[3, 9, 3, 1, 9]), vec![9, 3, 1]);
    assert_eq!(unique_descending(&[]), Vec::<u32>::new());
}

#[test]
fn stop_of_nothing_is_already_stopped() {
    match plan_stop(&[]) {
        StopPlan::AlreadyStopped(result) => {
            assert!(result.already_stopped);
            assert!(result.matched_pids.is_empty());
            assert!(result.stopped_pids.is_empty());
        }
        StopPlan::Terminate(_) => panic!("expected AlreadyStopped"),
    }
    match plan_stop(&[4, 4, 2]) {
        StopPlan::Terminate(pids) => assert_eq!(pids, vec![4, 2]),
        StopPlan::AlreadyStopped(_) => panic!("expected Terminate"),
    }
}

#[test]
fn term_that_stops_all_is_done() {
    match after_term(vec![4, 2], &[false, false]) {
        AfterTerm::Stopped(result) => {
            assert!(!result.already_stopped);
            assert_eq!(result.matched_pids, vec![4, 2]);
            assert_eq!(result.stopped_pids, vec![4, 2]);
            assert!(result.forced_pids.is_empty());
            assert!(result.remaining_pids.is_empty());
        }
        AfterTerm::Kill(_) => panic!("expected Stopped"),
    }
    match after_term(vec![4, 2], &[false, true]) {
        AfterTerm::Kill(pids) => assert_eq!(pids, vec![2]),
        AfterTerm::Stopped(_) => panic!("expected Kill"),
    }
}

#[test]
fn kill_result_partitions_matched() {
    let result = after_kill(vec![9, 5, 2], vec![5, 2], &[false, true]);
    assert!(!result.already_stopped);
    assert_eq!(result.matched_pids, vec![9, 5, 2]);
    assert_eq!(result.forced_pids, vec![5, 2]);
    assert_eq!(result.remaining_pids, vec![2]);
    assert_eq!(result.stopped_pids, vec![9, 5]);
}

#[test]
fn ps_output_handles_crlf() {
    let output = "  1 0 init\r\n  2 1 sh -c x\r\n";
    assert_eq!(
        parse_ps_output(output),
        vec![
            ProcessSnapshot {
                pid: 1,
                ppid: 0,
                command: "init".into(),
            },
            ProcessSnapshot {
                pid: 2,
                ppid: 1,
                command: "sh -c x".into(),
            },
        ]
    );
}

#[test]
fn alive_ids_keep_order() {
    assert_eq!(alive_ids(&[9, 7, 5, 3], &[true, false, true, true]), vec![9, 5, 3]);
    assert_eq!(alive_ids(&[9, 7], &[false, false]), Vec::<u32>::new());
    assert_eq!(alive_ids(&[], &[]), Vec::<u32>::new());
}

#[test]
fn stop_decisions_nest_ids() {
    let unique = vec![30, 20, 10];
    let forced = match after_term(unique.clone(), &[true, false, true]) {
        AfterTerm::Kill(pids) => pids,
        AfterTerm::Stopped(_) => panic!("expected Kill"),
    };
    assert_eq!(forced, vec![30, 10]);
    let result = after_kill(unique, forced, &[false, true]);
    assert_eq!(result.forced_pids, vec![30, 10]);
    assert_eq!(result.remaining_pids, vec![10]);
    assert_eq!(result.stopped_pids, vec![30, 20]);
}
