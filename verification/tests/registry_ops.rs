//! Manifest validation and the registry operations.

use gitcat_plugins::manifest::{validate_manifest, VALID_TAMA_POSE_KEYS};
use gitcat_plugins::registry::{
    find_command, remove_from, set_enabled_in, Plugin, PluginCommand, PluginContext, PluginEvent,
    PluginHook, PluginPlacement, PluginTama,
};

fn sample_plugin(id: &str) -> Plugin {
    Plugin {
        id: id.to_string(),
        name: "Sample".into(),
        version: "1.0.0".into(),
        description: Some("a test plugin".into()),
        enabled: true,
        commands: vec![PluginCommand {
            id: "greet".into(),
            label: "Greet".into(),
            run: "echo hi".into(),
            context: PluginContext::Commit,
            placement: PluginPlacement::Both,
            mutates: false,
        }],
        hooks: vec![PluginHook { event: PluginEvent::PostMutation, run: "echo done".into(), mutates: false }],
        tama: None,
        dir: None,
    }
}

#[test]
fn id_charset_validation() {
    // Valid: lowercase letters/digits/'-' with a letter-or-digit first char.
    // A trailing dash is allowed (only the first char is constrained).
    for good in ["a", "1", "my-plugin", "gitcat-lint", "x9", "0abc-def", "trail-"] {
        let p = sample_plugin(good);
        assert!(validate_manifest(&p).is_ok(), "{good:?} should be a valid id");
    }
    // Invalid: uppercase, leading '-', spaces, underscores, dots, non-ASCII, empty.
    for bad in ["", "-lead", "Upper", "has space", "under_score", "dot.id", "café"] {
        let mut p = sample_plugin("placeholder");
        p.id = bad.to_string();
        let err = validate_manifest(&p).unwrap_err();
        assert!(err.contains("invalid"), "{bad:?} should be rejected, got: {err}");
    }
}

#[test]
fn empty_name_version_or_run_is_rejected() {
    let mut p = sample_plugin("ok");
    p.name = "   ".into();
    assert!(validate_manifest(&p).unwrap_err().contains("name"));

    let mut p = sample_plugin("ok");
    p.version = "".into();
    assert!(validate_manifest(&p).unwrap_err().contains("version"));

    let mut p = sample_plugin("ok");
    p.commands[0].run = "  ".into();
    assert!(validate_manifest(&p).unwrap_err().contains("run"));
}

#[test]
fn enable_toggle() {
    let mut plugins = vec![sample_plugin("alpha"), sample_plugin("beta")];
    set_enabled_in(&mut plugins, "beta", false).expect("toggling an existing plugin should succeed");
    assert!(plugins[0].enabled);
    assert!(!plugins[1].enabled);
    set_enabled_in(&mut plugins, "beta", true).unwrap();
    assert!(plugins[1].enabled);

    let err = set_enabled_in(&mut plugins, "ghost", false).unwrap_err();
    assert!(err.contains("No plugin with id"), "got: {err}");
}

#[test]
fn remove() {
    let mut plugins = vec![sample_plugin("alpha"), sample_plugin("beta")];
    remove_from(&mut plugins, "alpha").expect("removing an existing plugin should succeed");
    assert_eq!(plugins.len(), 1);
    assert_eq!(plugins[0].id, "beta");

    let err = remove_from(&mut plugins, "alpha").unwrap_err();
    assert!(err.contains("No plugin with id"), "removing a missing id should error, got: {err}");
}

#[test]
fn find_command_addresses_by_plugin_and_command_id() {
    let plugins = vec![sample_plugin("alpha")];
    let found = find_command(&plugins, "alpha", "greet");
    assert!(found.is_some());
    let missing = find_command(&plugins, "alpha", "nope");
    assert!(missing.is_none());
}

#[test]
fn tama_with_an_unknown_pose_key_is_rejected() {
    let mut p = sample_plugin("skin");
    let poses = vec![("wiggle".to_string(), "assets/wiggle.webp".to_string())];
    p.tama = Some(PluginTama { poses, copy: Vec::new() });
    let err = validate_manifest(&p).unwrap_err();
    assert!(err.contains("wiggle") && err.contains("built-in pose"), "got: {err}");
}

#[test]
fn every_built_in_pose_key_is_accepted() {
    // All eight documented keys must validate.
    for key in VALID_TAMA_POSE_KEYS {
        let mut p = sample_plugin("skin");
        let poses = vec![(key.to_string(), format!("assets/{key}.webp"))];
        p.tama = Some(PluginTama { poses, copy: Vec::new() });
        validate_manifest(&p).unwrap_or_else(|e| panic!("pose key {key:?} should be valid: {e}"));
    }
}

#[test]
fn tama_pose_path_with_dotdot_or_absolute_is_rejected_at_validation() {
    // Parent-escaping: contains "..".
    let mut p = sample_plugin("skin");
    let poses = vec![("curious".to_string(), "../../etc/passwd".to_string())];
    p.tama = Some(PluginTama { poses, copy: Vec::new() });
    let err = validate_manifest(&p).unwrap_err();
    assert!(err.contains("unsafe asset path"), "dotdot path should be rejected, got: {err}");

    // Absolute path, written the way this platform spells one.
    let absolute = if std::path::MAIN_SEPARATOR == '\\' {
        r"C:\Windows\system32\x.webp".to_string()
    } else {
        "/etc/passwd".to_string()
    };
    let mut p = sample_plugin("skin");
    let poses = vec![("curious".to_string(), absolute)];
    p.tama = Some(PluginTama { poses, copy: Vec::new() });
    let err = validate_manifest(&p).unwrap_err();
    assert!(err.contains("unsafe asset path"), "absolute path should be rejected, got: {err}");
}
