use stim_sidecar::platform::lock::FileLockError;

#[test]
fn busy_lock_message_names_path() {
    let error = FileLockError::Busy {
        path: "/tmp/stim-dev/default/locks/controller.lock".into(),
    };
    assert_eq!(
        error.describe(),
        "lock is busy: /tmp/stim-dev/default/locks/controller.lock"
    );
}

#[test]
fn io_lock_message_is_the_io_error() {
    let error = FileLockError::Io(std::io::Error::other("disk full"));
    assert_eq!(error.describe(), "disk full");
}
