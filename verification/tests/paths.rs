use stim_sidecar::platform::{
    network::LOOPBACK_HOST,
    os::{platform_kind_for, PlatformKind},
    paths::{dev_root, join_path, nearest_workspace_root},
};

#[test]
fn dev_root_joins_relative_dir() {
    assert_eq!(dev_root("/work/stim"), "/work/stim/.tmp/dev");
    assert_eq!(dev_root("/work/stim/"), "/work/stim/.tmp/dev");
}

#[test]
fn join_path_follows_path_join() {
    assert_eq!(join_path("/a", "b"), "/a/b");
    assert_eq!(join_path("/a/", "b"), "/a/b");
    assert_eq!(join_path("/a", "/b"), "/b");
    assert_eq!(join_path("", "b"), "b");
}

#[test]
fn platform_kinds_by_os_name() {
    assert_eq!(platform_kind_for("macos"), PlatformKind::Darwin);
    assert_eq!(platform_kind_for("linux"), PlatformKind::Linux);
    assert_eq!(platform_kind_for("windows"), PlatformKind::Windows);
    assert_eq!(platform_kind_for("freebsd"), PlatformKind::Other);
}

#[test]
fn loopback_is_ipv4_localhost() {
    assert_eq!(LOOPBACK_HOST, "127.0.0.1");
}

#[test]
fn nearest_root_is_first_answer() {
    let candidates = vec![
        "/w/a/b".to_string(),
        "/w/a".to_string(),
        "/w".to_string(),
        "/".to_string(),
    ];
    assert_eq!(
        nearest_workspace_root(&candidates, &[false, true, true, false]),
        Some("/w/a".to_string())
    );
    assert_eq!(
        nearest_workspace_root(&candidates, &[false, false, false, false]),
        None
    );
}
