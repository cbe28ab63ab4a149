use stim_sidecar::{
    identity::{SidecarMode, SidecarStamp, SOURCE_TOOL_SIDECAR},
    stamp::{
        command_contains_stamp, create_stamp_args, read_flag_value, read_stamp, StampError,
        STAMP_APP_FLAG, STAMP_MODE_FLAG, STAMP_NAMESPACE_FLAG, STAMP_SOURCE_FLAG,
    },
};

#[test]
fn roundtrips_stamp_args() {
    let stamp = SidecarStamp {
        app: "controller".into(),
        namespace: "default".into(),
        mode: SidecarMode::Dev,
        source: SOURCE_TOOL_SIDECAR.into(),
    };
    let args = create_stamp_args(&stamp);

    assert_eq!(args.len(), 4);
    assert_eq!(read_stamp(&args).unwrap(), stamp);
}

#[test]
fn rejects_runtime_mode_flag() {
    let args = vec![
        format!("{STAMP_APP_FLAG}=controller"),
        "--sidecar-stamp-namespace=default".into(),
        format!("{STAMP_MODE_FLAG}=runtime-mode"),
        "--sidecar-stamp-source=tool:sidecar".into(),
    ];

    assert!(read_stamp(&args).is_err());
}

#[test]
fn matches_split_flags() {
    assert!(command_contains_stamp(
        "stim-controller --sidecar-stamp-app=controller",
        STAMP_APP_FLAG,
        "controller"
    ));
    assert!(command_contains_stamp(
        "stim-controller --sidecar-stamp-app controller",
        STAMP_APP_FLAG,
        "controller"
    ));
}

#[test]
fn stamp_args_are_inline_flags() {
    let stamp = SidecarStamp {
        app: "renderer".into(),
        namespace: "dev-a".into(),
        mode: SidecarMode::Runtime,
        source: "app:packaged".into(),
    };
    assert_eq!(
        create_stamp_args(&stamp),
        vec![
            "--sidecar-stamp-app=renderer".to_string(),
            "--sidecar-stamp-namespace=dev-a".to_string(),
            "--sidecar-stamp-mode=runtime".to_string(),
            "--sidecar-stamp-source=app:packaged".to_string(),
        ]
    );
}

#[test]
fn roundtrips_odd_values() {
    let stamp = SidecarStamp {
        app: "a b=c".into(),
        namespace: "".into(),
        mode: SidecarMode::Runtime,
        source: "--sidecar-stamp-mode=dev".into(),
    };
    assert_eq!(read_stamp(&create_stamp_args(&stamp)).unwrap(), stamp);
}

#[test]
fn flag_value_forms() {
    let args = vec![
        "serve".to_string(),
        STAMP_APP_FLAG.to_string(),
        "agents".to_string(),
        format!("{STAMP_APP_FLAG}=later"),
    ];
    assert_eq!(
        read_flag_value(&args, STAMP_APP_FLAG),
        Some("agents".to_string())
    );
    assert_eq!(read_flag_value(&args, STAMP_MODE_FLAG), None);
    let dangling = vec![STAMP_SOURCE_FLAG.to_string()];
    assert_eq!(read_flag_value(&dangling, STAMP_SOURCE_FLAG), None);
    let prefix_only = vec!["--sidecar-stamp-application=x".to_string()];
    assert_eq!(read_flag_value(&prefix_only, STAMP_APP_FLAG), None);
}

#[test]
fn missing_flags_in_read_order() {
    assert_eq!(read_stamp(&[]), Err(StampError::Missing(STAMP_MODE_FLAG)));
    let only_mode = vec![format!("{STAMP_MODE_FLAG}=dev")];
    assert_eq!(
        read_stamp(&only_mode),
        Err(StampError::Missing(STAMP_APP_FLAG))
    );
    let no_ns = vec![
        format!("{STAMP_MODE_FLAG}=dev"),
        format!("{STAMP_APP_FLAG}=a"),
    ];
    assert_eq!(
        read_stamp(&no_ns),
        Err(StampError::Missing(STAMP_NAMESPACE_FLAG))
    );
    let no_source = vec![
        format!("{STAMP_MODE_FLAG}=dev"),
        format!("{STAMP_APP_FLAG}=a"),
        format!("{STAMP_NAMESPACE_FLAG}=n"),
    ];
    assert_eq!(
        read_stamp(&no_source),
        Err(StampError::Missing(STAMP_SOURCE_FLAG))
    );
}

#[test]
fn invalid_mode_is_reported_before_missing_app() {
    let args = vec![format!("{STAMP_MODE_FLAG}=prod")];
    assert_eq!(
        read_stamp(&args),
        Err(StampError::InvalidMode("prod".to_string()))
    );
}

#[test]
fn stamp_error_messages() {
    assert_eq!(
        StampError::Missing(STAMP_APP_FLAG).describe(),
        "--sidecar-stamp-app is required"
    );
    assert_eq!(
        StampError::InvalidMode("prod".into()).describe(),
        "invalid sidecar-mode: prod"
    );
}

#[test]
fn stamp_needs_whole_words() {
    assert!(!command_contains_stamp(
        "x --sidecar-stamp-app=controllers",
        STAMP_APP_FLAG,
        "controller"
    ));
    assert!(command_contains_stamp(
        "x --sidecar-stamp-app controllerish",
        STAMP_APP_FLAG,
        "controller"
    ));
    assert!(!command_contains_stamp("x", STAMP_APP_FLAG, "controller"));
}
