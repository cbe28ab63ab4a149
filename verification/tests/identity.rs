use stim_sidecar::identity::{
    mode_or_default, namespace_or_default, InvalidSidecarMode, SidecarMode, SidecarStamp,
    SOURCE_TOOL_SIDECAR,
};

#[test]
fn mode_accepts_values() {
    assert_eq!("dev".parse::<SidecarMode>().unwrap(), SidecarMode::Dev);
    assert_eq!(
        "runtime".parse::<SidecarMode>().unwrap(),
        SidecarMode::Runtime
    );
    assert!("prod".parse::<SidecarMode>().is_err());
    assert!("runtime-mode".parse::<SidecarMode>().is_err());
}

#[test]
fn namespace_defaults() {
    assert_eq!(namespace_or_default(None), "default");
    assert_eq!(namespace_or_default(Some("")), "default");
    assert_eq!(namespace_or_default(Some(" local ")), "local");
}

#[test]
fn mode_defaults_when_invalid() {
    assert_eq!(mode_or_default(None, SidecarMode::Dev), SidecarMode::Dev);
    assert_eq!(
        mode_or_default(Some("runtime"), SidecarMode::Dev),
        SidecarMode::Runtime
    );
    assert_eq!(
        mode_or_default(Some("runtime-mode"), SidecarMode::Dev),
        SidecarMode::Dev
    );
}

#[test]
fn mode_names_round_trip() {
    assert_eq!(SidecarMode::Dev.as_str(), "dev");
    assert_eq!(SidecarMode::Runtime.as_str(), "runtime");
    for mode in [SidecarMode::Dev, SidecarMode::Runtime] {
        assert_eq!(SidecarMode::parse(mode.as_str()), Ok(mode));
    }
}

#[test]
fn invalid_mode_keeps_the_value() {
    assert_eq!(
        SidecarMode::parse(" dev"),
        Err(InvalidSidecarMode {
            value: " dev".to_string()
        })
    );
}

#[test]
fn namespace_of_blanks_is_default() {
    assert_eq!(namespace_or_default(Some(" \t ")), "default");
    assert_eq!(namespace_or_default(Some("\tdev-a\n")), "dev-a");
}

#[test]
fn mode_default_keeps_given_default() {
    assert_eq!(
        mode_or_default(Some("prod"), SidecarMode::Runtime),
        SidecarMode::Runtime
    );
    assert_eq!(
        mode_or_default(Some("dev"), SidecarMode::Runtime),
        SidecarMode::Dev
    );
}

#[test]
fn stamps_compare_by_fields() {
    let a = SidecarStamp {
        app: "controller".into(),
        namespace: "default".into(),
        mode: SidecarMode::Dev,
        source: SOURCE_TOOL_SIDECAR.into(),
    };
    let mut b = a.clone();
    assert!(a.same_as(&b));
    b.mode = SidecarMode::Runtime;
    assert!(!a.same_as(&b));
}
