use stim_sidecar::layout::SidecarLayout;

#[test]
fn layout_uses_namespace() {
    let layout = SidecarLayout::new("/tmp/stim-dev", Some("dev-a"));

    assert_eq!(layout.root, "/tmp/stim-dev/dev-a");
    assert_eq!(
        layout.app_log_path("controller"),
        "/tmp/stim-dev/dev-a/logs/controller/latest.log"
    );
    assert_eq!(
        layout.app_lock_path("controller"),
        "/tmp/stim-dev/dev-a/locks/controller.lock"
    );
}

#[test]
fn layout_defaults_namespace() {
    let layout = SidecarLayout::new("/tmp/stim-dev", None);

    assert_eq!(layout.namespace, "default");
    assert_eq!(layout.root, "/tmp/stim-dev/default");
    assert_eq!(layout.logs_root, "/tmp/stim-dev/default/logs");
    assert_eq!(layout.locks_root, "/tmp/stim-dev/default/locks");
    assert_eq!(layout.bridges_root, "/tmp/stim-dev/default/bridges");
}

#[test]
fn layout_trims_namespace() {
    let layout = SidecarLayout::new("/tmp/stim-dev", Some("  dev-b "));

    assert_eq!(layout.namespace, "dev-b");
    assert_eq!(layout.root, "/tmp/stim-dev/dev-b");
}
