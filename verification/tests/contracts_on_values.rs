//! Concrete values for the contracts and laws of the library.

use gitcat_plugins::ansi::strip_ansi;
use gitcat_plugins::command::{
    command_output, plan_plugin_command, prepare_command, snapshot_refusal, PLUGIN_CMD_TIMEOUT_SECS,
};
use gitcat_plugins::entries::{entries_from, insert_entry};
use gitcat_plugins::manifest::{
    accept_manifest, check_manifest, check_manifest_metadata, check_manifest_text, contains_dotdot,
    is_valid_id, is_valid_pose_key, validate_manifest, MAX_MANIFEST_BYTES,
};
use gitcat_plugins::placeholder::{ctx_values, expand_placeholders, quote_files, quote_opt, shell_quote, PlaceholderCtx};
use gitcat_plugins::registry::{
    default_true, install_from, plugin_index, remove_from, set_enabled_in, Plugin, PluginCommand,
    PluginContext, PluginEvent, PluginHook, PluginPlacement, PluginTama,
};
use gitcat_plugins::skin::{
    add_pose, asset_fits, asset_is_within_dir, asset_step, AssetEvent, AssetState, mime_for_extension, pose_data_uri, skin_assets,
    skin_copy, skin_plugin_index, tama_asset_mime, TamaSkin, MAX_TAMA_ASSET_BYTES,
};
use gitcat_plugins::store::{corrupt_backup_name, FILE_NAME, SCHEMA_VERSION};
use gitcat_plugins::text::{decimal, is_blank, same_text};

fn plugin(id: &str) -> Plugin {
    Plugin {
        id: id.to_string(),
        name: "Sample".into(),
        version: "1.0.0".into(),
        description: None,
        enabled: true,
        commands: vec![PluginCommand {
            id: "greet".into(),
            label: "Greet".into(),
            run: "echo {sha}".into(),
            context: PluginContext::Commit,
            placement: PluginPlacement::Palette,
            mutates: false,
        }],
        hooks: vec![PluginHook { event: PluginEvent::Undo, run: "echo undo".into(), mutates: true }],
        tama: None,
        dir: None,
    }
}

fn skin_plugin(poses: &[(&str, &str)]) -> Plugin {
    let mut p = plugin("skin");
    p.tama = Some(PluginTama {
        poses: poses.iter().map(|(k, v)| (k.to_string(), v.to_string())).collect(),
        copy: vec![("curious".to_string(), "hmm?".to_string())],
    });
    p
}

// ---- quoting and expansion ------------------------------------------------

#[test]
fn quoted_value_reads_back_as_one_word() {
    // The quoted form of a value holding every kind of quote and operator is
    // one word whose value, read the way sh reads it, is the value again.
    let value = "it's a \"test\" $(x) `y` \\ ;|&";
    let q = shell_quote(value);
    let mut out = String::new();
    let mut quoted = false;
    let chars: Vec<char> = q.chars().collect();
    let mut i = 0;
    while i < chars.len() {
        let c = chars[i];
        if quoted {
            if c == '\'' { quoted = false } else { out.push(c) }
        } else if c == '\'' {
            quoted = true;
        } else if c == '\\' {
            out.push(chars[i + 1]);
            i += 1;
        } else {
            panic!("unquoted character {c:?} in {q}");
        }
        i += 1;
    }
    assert!(!quoted);
    assert_eq!(out, value);
}

#[test]
fn quote_opt_and_quote_files_exact() {
    assert_eq!(quote_opt(&None), "");
    assert_eq!(quote_opt(&Some(String::new())), "''");
    assert_eq!(quote_opt(&Some("a'b".to_string())), "'a'\\''b'");
    assert_eq!(quote_files(&[]), "");
    assert_eq!(quote_files(&["x".to_string()]), "'x'");
    assert_eq!(quote_files(&["x".to_string(), "y z".to_string()]), "'x' 'y z'");
}

#[test]
fn text_without_braces_is_unchanged() {
    let ctx = PlaceholderCtx { sha: Some("s".into()), ..Default::default() };
    let t = "git log --oneline | head -n 5 && echo ok";
    assert_eq!(expand_placeholders(t, &ctx), t);
}

#[test]
fn literal_prefix_then_token_then_rest() {
    let ctx = PlaceholderCtx { repo: Some("/r".into()), diff: Some("{repo}".into()), ..Default::default() };
    assert_eq!(expand_placeholders("cd {repo} && x {diff} {repo}", &ctx), "cd '/r' && x '{repo}' '/r'");
}

#[test]
fn a_brace_before_a_token_is_kept() {
    let ctx = PlaceholderCtx { sha: Some("1".into()), ..Default::default() };
    assert_eq!(expand_placeholders("{{sha}}", &ctx), "{'1'}");
    assert_eq!(expand_placeholders("}{sha}{", &ctx), "}'1'{");
}

#[test]
fn ctx_values_lists_tokens_in_order() {
    let ctx = PlaceholderCtx {
        sha: Some("s".into()),
        files: vec!["a".into(), "b".into()],
        gitref: Some("r".into()),
        ..Default::default()
    };
    let v = ctx_values(&ctx);
    assert_eq!(v, vec![("sha", "s"), ("files", "a"), ("files", "b"), ("ref", "r")]);
}

// ---- ANSI stripping --------------------------------------------------------

#[test]
fn strip_ansi_handles_osc_and_lone_escapes() {
    assert_eq!(strip_ansi("a\u{1b}]0;title\u{7}b"), "ab");
    assert_eq!(strip_ansi("a\u{1b}]8;;x\u{1b}\\b"), "ab");
    assert_eq!(strip_ansi("a\u{1b}]unterminated"), "a");
    assert_eq!(strip_ansi("a\u{1b}(Bc"), "aBc");
    assert_eq!(strip_ansi("a\u{1b}"), "a");
    assert_eq!(strip_ansi("a\u{1b}[31"), "a");
}

#[test]
fn strip_ansi_leaves_no_escape_and_is_idempotent() {
    let raw = "x\u{1b}\u{1b}[1mY\u{1b}[0m\u{1b}]2;t\u{1b}Z";
    let once = strip_ansi(raw);
    assert!(!once.contains('\u{1b}'));
    assert_eq!(strip_ansi(&once), once);
}

// ---- running a command ------------------------------------------------------

#[test]
fn prepare_command_refuses_unsafe_values_only_on_windows() {
    let ctx = PlaceholderCtx { sha: Some("ok".into()), branch: Some("a & b".into()), ..Default::default() };
    assert_eq!(prepare_command("x {branch}", &ctx, false).unwrap(), "x 'a & b'");
    assert_eq!(
        prepare_command("x {branch}", &ctx, true).unwrap_err(),
        "Refusing to run the plugin command on Windows: the branch value contains a character unsafe for cmd.exe (one of & | < > ^ % ! \" or a newline). This is a known Windows limitation of GitCat's plugin executor."
    );
    let safe = PlaceholderCtx { sha: Some("ok".into()), ..Default::default() };
    assert_eq!(prepare_command("x {sha}", &safe, true).unwrap(), "x 'ok'");
}

#[test]
fn plan_plugin_command_resolves_run_and_cwd() {
    let plugins = vec![plugin("alpha")];
    let ctx = PlaceholderCtx { repo: Some("/repo".into()), ..Default::default() };
    let plan = plan_plugin_command(&plugins, "alpha", "greet", &ctx).unwrap();
    assert_eq!(plan.run, "echo {sha}");
    assert_eq!(plan.cwd, "/repo");
    assert!(!plan.snapshot_first);
    assert_eq!(
        plan_plugin_command(&plugins, "alpha", "nope", &ctx).unwrap_err(),
        "Plugin command alpha/nope was not found or is disabled."
    );
    let blank = PlaceholderCtx { repo: Some("  ".into()), ..Default::default() };
    assert_eq!(
        plan_plugin_command(&plugins, "alpha", "greet", &blank).unwrap_err(),
        "No repository path was provided for the plugin command."
    );
    assert!(plan_plugin_command(&plugins, "alpha", "greet", &PlaceholderCtx::default()).is_err());
}

#[test]
fn a_disabled_plugins_command_is_refused() {
    let mut plugins = vec![plugin("alpha")];
    plugins[0].enabled = false;
    let ctx = PlaceholderCtx { repo: Some("/repo".into()), ..Default::default() };
    assert_eq!(
        plan_plugin_command(&plugins, "alpha", "greet", &ctx).unwrap_err(),
        "Plugin command alpha/greet was not found or is disabled."
    );
}

#[test]
fn a_mutating_command_is_snapshotted_first() {
    let mut plugins = vec![plugin("alpha")];
    plugins[0].commands[0].mutates = true;
    let ctx = PlaceholderCtx { repo: Some("/repo".into()), ..Default::default() };
    assert!(plan_plugin_command(&plugins, "alpha", "greet", &ctx).unwrap().snapshot_first);
    assert_eq!(
        snapshot_refusal("no HEAD"),
        "Refusing to run a mutating plugin command: the repository could not be snapshotted first (no HEAD)."
    );
}

#[test]
fn templates_without_tokens_and_concatenation() {
    let ctx = PlaceholderCtx { sha: Some("s".into()), ..Default::default() };
    for t in ["{", "{}", "${HOME}", "${1}", "awk '{print $1}'", "{Sha}", "{sha_x}", "a{sha"] {
        assert_eq!(expand_placeholders(t, &ctx), t);
    }
    let a = "x {sha} y}";
    let b = "{sha}z";
    assert_eq!(
        expand_placeholders(&format!("{a}{b}"), &ctx),
        expand_placeholders(a, &ctx) + &expand_placeholders(b, &ctx)
    );
}

#[test]
fn only_fields_of_present_tokens_matter() {
    let c1 = PlaceholderCtx { sha: Some("s".into()), repo: Some("one".into()), ..Default::default() };
    let c2 = PlaceholderCtx { sha: Some("s".into()), repo: Some("two".into()), files: vec!["f".into()], ..Default::default() };
    assert_eq!(expand_placeholders("a {sha} {reppo}", &c1), expand_placeholders("a {sha} {reppo}", &c2));
}

#[test]
fn command_output_strips_and_keeps_status() {
    let out = command_output("\u{1b}[32mok\u{1b}[0m\n", Some(3), false);
    assert_eq!(out.stdout, "ok\n");
    assert_eq!(out.exit_code, Some(3));
    assert!(!out.success);
    assert_eq!(PLUGIN_CMD_TIMEOUT_SECS, 120);
}

// ---- manifests ----------------------------------------------------------------

#[test]
fn validation_messages_are_exact() {
    let mut p = plugin("x");
    p.id = "Upper".into();
    assert_eq!(
        validate_manifest(&p).unwrap_err(),
        "Plugin id \"Upper\" is invalid — it must start with a lowercase letter or digit and then contain only lowercase letters, digits, and '-'."
    );
    let mut p = plugin("x");
    p.commands[0].run = "\t\n".into();
    assert_eq!(validate_manifest(&p).unwrap_err(), "Plugin command \"greet\" has an empty run command.");
    let p = skin_plugin(&[("wiggle", "a.png")]);
    assert_eq!(
        validate_manifest(&p).unwrap_err(),
        "Plugin tama pose key \"wiggle\" is not a built-in pose — it must be one of [\"hero\", \"curious\", \"confident\", \"thinking\", \"happy\", \"alarm\", \"shocked\", \"sleep\"]."
    );
    let p = skin_plugin(&[("hero", "a/../b.png")]);
    assert_eq!(
        validate_manifest(&p).unwrap_err(),
        "Plugin tama pose \"hero\" has an unsafe asset path \"a/../b.png\" — it must be a relative path inside the plugin dir (no leading '/' and no '..')."
    );
}

#[test]
fn check_manifest_uses_the_given_absolute_flags() {
    let p = skin_plugin(&[("hero", "hero.webp"), ("sleep", "sleep.png")]);
    assert!(check_manifest(&p, &[false, false]).is_ok());
    assert!(check_manifest(&p, &[false, true]).unwrap_err().contains("\"sleep\""));
}

#[test]
fn id_and_key_helpers() {
    assert!(is_valid_id("a-1"));
    assert!(!is_valid_id("A"));
    assert!(is_valid_pose_key("alarm"));
    assert!(!is_valid_pose_key("Alarm"));
    assert!(contains_dotdot("x..y"));
    assert!(!contains_dotdot("x.y."));
    assert!(is_blank("\u{3000} \u{a0}"));
    assert!(!is_blank(" x "));
    assert!(same_text("にゃ", "にゃ"));
    assert_eq!(decimal(0), "0");
    assert_eq!(decimal(262144), "262144");
}

#[test]
fn manifest_size_checks() {
    assert!(check_manifest_metadata("m.json", true, MAX_MANIFEST_BYTES).is_ok());
    assert_eq!(
        check_manifest_metadata("m.json", true, 300000).unwrap_err(),
        "Plugin manifest m.json is too large (300000 bytes; the limit is 262144 bytes)."
    );
    assert_eq!(
        check_manifest_metadata("m.json", false, 0).unwrap_err(),
        "Plugin manifest m.json is not a regular file."
    );
    assert!(check_manifest_text("m.json", 262144).is_ok());
    assert_eq!(
        check_manifest_text("m.json", 262145).unwrap_err(),
        "Plugin manifest m.json is too large (limit 262144 bytes)."
    );
}

#[test]
fn accept_manifest_always_overwrites_dir() {
    let mut p = plugin("ok");
    p.dir = Some("/etc".into());
    let accepted = accept_manifest(p, Some("/plugins/ok".into())).unwrap();
    assert_eq!(accepted.dir.as_deref(), Some("/plugins/ok"));
    let mut p = plugin("ok");
    p.dir = Some("/etc".into());
    assert_eq!(accept_manifest(p, None).unwrap().dir, None);
    let mut bad = plugin("ok");
    bad.name = String::new();
    assert!(accept_manifest(bad, None).is_err());
}

// ---- the registry --------------------------------------------------------------

#[test]
fn install_then_remove_restores_the_registry() {
    let mut plugins = vec![plugin("alpha")];
    let installed = install_from(&mut plugins, plugin("beta")).unwrap();
    assert_eq!(installed.id, "beta");
    assert!(installed.enabled);
    assert_eq!(plugins.len(), 2);
    assert_eq!(plugin_index(&plugins, "beta"), Some(1));
    remove_from(&mut plugins, "beta").unwrap();
    assert_eq!(plugins.len(), 1);
    assert_eq!(plugins[0].id, "alpha");
}

#[test]
fn duplicate_install_is_rejected_and_changes_nothing() {
    let mut plugins = vec![plugin("alpha")];
    let err = install_from(&mut plugins, plugin("alpha")).unwrap_err();
    assert_eq!(err, "A plugin with id \"alpha\" is already installed.");
    assert_eq!(plugins.len(), 1);
}

#[test]
fn enable_last_write_wins_and_touches_only_the_flag() {
    let mut plugins = vec![plugin("a"), plugin("b")];
    set_enabled_in(&mut plugins, "a", false).unwrap();
    set_enabled_in(&mut plugins, "a", true).unwrap();
    set_enabled_in(&mut plugins, "a", false).unwrap();
    assert!(!plugins[0].enabled);
    assert!(plugins[1].enabled);
    assert_eq!(plugins[0].id, "a");
    assert_eq!(plugins[0].commands.len(), 1);
    assert_eq!(
        set_enabled_in(&mut plugins, "zz", true).unwrap_err(),
        "No plugin with id \"zz\" is installed."
    );
}

#[test]
fn remove_drops_every_plugin_of_the_id() {
    let mut plugins = vec![plugin("a"), plugin("b"), plugin("a")];
    remove_from(&mut plugins, "a").unwrap();
    assert_eq!(plugins.len(), 1);
    assert_eq!(plugins[0].id, "b");
}

#[test]
fn manifest_defaults() {
    assert!(default_true());
    assert_eq!(PluginContext::default(), PluginContext::NoSelection);
    assert_eq!(PluginPlacement::default(), PluginPlacement::Palette);
    assert_eq!(FILE_NAME, "plugins.json");
    assert_eq!(SCHEMA_VERSION, 1);
}

#[test]
fn corrupt_backup_names() {
    assert_eq!(corrupt_backup_name(Some("plugins.json"), 1700000000), "plugins.json.corrupt-1700000000");
    assert_eq!(corrupt_backup_name(None, 5), "plugins.json.corrupt-5");
}

// ---- skins ------------------------------------------------------------------------

#[test]
fn mime_types_by_extension() {
    assert_eq!(tama_asset_mime("assets/a.webp"), Some("image/webp"));
    assert_eq!(tama_asset_mime("assets/a.PNG"), Some("image/png"));
    assert_eq!(tama_asset_mime("assets/a.WebP"), Some("image/webp"));
    assert_eq!(tama_asset_mime("assets/a.gif"), None);
    assert_eq!(tama_asset_mime("assets/png"), None);
    assert_eq!(tama_asset_mime(".png"), None);
    assert_eq!(mime_for_extension(Some("pNg")), Some("image/png"));
    assert_eq!(mime_for_extension(None), None);
}

#[test]
fn asset_mime_reads_the_file_name_as_every_platform_does() {
    assert_eq!(tama_asset_mime("a/X.WEBP"), Some("image/webp"));
    assert_eq!(tama_asset_mime("assets//x.png"), Some("image/png"));
    assert_eq!(tama_asset_mime("assets/./x.png"), Some("image/png"));
    assert_eq!(tama_asset_mime("assets/x.png/"), Some("image/png"));
    assert_eq!(tama_asset_mime("assets/x.png/."), Some("image/png"));
    assert_eq!(tama_asset_mime("./x.webp"), Some("image/webp"));
    assert_eq!(tama_asset_mime("assets/x.png/.."), None);
    assert_eq!(tama_asset_mime("assets/.png"), None);
    assert_eq!(tama_asset_mime("assets/x.tar.png"), Some("image/png"));
    assert_eq!(tama_asset_mime("assets/x."), None);
    assert_eq!(tama_asset_mime("/"), None);
    assert_eq!(tama_asset_mime(""), None);
}

fn pairs(v: &[(&str, &str)]) -> Vec<(String, String)> {
    v.iter().map(|(k, x)| (k.to_string(), x.to_string())).collect()
}

#[test]
fn entries_are_a_map_first_place_last_value() {
    let e = entries_from(pairs(&[("hero", "a.png"), ("happy", "b.png"), ("hero", "c.png")]));
    assert_eq!(e, pairs(&[("hero", "c.png"), ("happy", "b.png")]));
    assert!(entries_from(Vec::new()).is_empty());
    let mut m = pairs(&[("a", "1")]);
    insert_entry(&mut m, "b", "2".to_string());
    insert_entry(&mut m, "a", "3".to_string());
    assert_eq!(m, pairs(&[("a", "3"), ("b", "2")]));
}

#[test]
fn skin_declaration_from_entries_drops_repeated_keys() {
    let t = PluginTama::from_entries(
        pairs(&[("hero", "assets/a.png"), ("hero", "assets/b.png")]),
        pairs(&[("curious", "hmm?"), ("happy", "yay"), ("curious", "huh?")]),
    );
    assert_eq!(t.poses, pairs(&[("hero", "assets/b.png")]));
    assert_eq!(t.copy, pairs(&[("curious", "huh?"), ("happy", "yay")]));
}

#[test]
fn skin_assets_keep_only_safe_allow_listed_poses() {
    let p = skin_plugin(&[
        ("curious", "assets/curious.webp"),
        ("happy", "assets/happy.png"),
        ("hero", "assets/hero.gif"),
        ("wiggle", "assets/wiggle.png"),
        ("sleep", "../sleep.png"),
        ("alarm", "/abs/alarm.png"),
    ]);
    let assets = skin_assets(&p);
    let got: Vec<(&str, &str, &str)> = assets.iter().map(|a| (a.key.as_str(), a.rel.as_str(), a.mime)).collect();
    assert_eq!(got, vec![("curious", "assets/curious.webp", "image/webp"), ("happy", "assets/happy.png", "image/png")]);
    assert!(skin_assets(&plugin("plain")).is_empty());
}

#[test]
fn skin_copy_passes_copy_through() {
    let skin = skin_copy(&skin_plugin(&[("hero", "hero.webp")]));
    assert!(skin.poses.is_empty());
    assert_eq!(skin.copy, vec![("curious".to_string(), "hmm?".to_string())]);
    let plain = skin_copy(&plugin("plain"));
    assert!(plain.poses.is_empty() && plain.copy.is_empty());
}

#[test]
fn data_uri_and_pose_insertion() {
    assert_eq!(pose_data_uri("image/png", b"hello"), "data:image/png;base64,aGVsbG8=");
    assert_eq!(pose_data_uri("image/webp", b""), "data:image/webp;base64,");
    let mut skin = TamaSkin::default();
    add_pose(&mut skin, "happy", "u1".to_string());
    add_pose(&mut skin, "hero", "u2".to_string());
    add_pose(&mut skin, "happy", "u3".to_string());
    assert_eq!(skin.poses, vec![("happy".to_string(), "u3".to_string()), ("hero".to_string(), "u2".to_string())]);
    assert!(skin.copy.is_empty());
}

#[test]
fn asset_size_cap_and_containment() {
    assert!(asset_fits(MAX_TAMA_ASSET_BYTES));
    assert!(!asset_fits(MAX_TAMA_ASSET_BYTES + 1));
    assert!(asset_is_within_dir("/p/plugin", "/p/plugin/assets/a.webp"));
    assert!(asset_is_within_dir("/p/plugin", "/p/plugin"));
    assert!(!asset_is_within_dir("/p/plugin", "/p/plugin-evil/x.webp"));
    assert!(!asset_is_within_dir("/p/plugin", "/etc/passwd"));
}

#[test]
fn skin_plugin_must_exist_and_be_enabled() {
    let mut plugins = vec![plugin("a"), plugin("b")];
    plugins[1].enabled = false;
    assert_eq!(skin_plugin_index(&plugins, "a"), Ok(0));
    assert_eq!(skin_plugin_index(&plugins, "b").unwrap_err(), "Plugin \"b\" is disabled.");
    assert_eq!(skin_plugin_index(&plugins, "c").unwrap_err(), "No plugin with id \"c\" is installed.");
}

#[test]
fn asset_steps_check_containment_then_size_then_admit() {
    let p = skin_plugin(&[("happy", "assets/happy.png")]);
    let asset = skin_assets(&p).pop().unwrap();
    let mut skin = TamaSkin::default();
    let s = asset_step(&mut skin, "/p", &asset, AssetState::Resolve, AssetEvent::Resolved(Some("/q/happy.png".into())));
    assert!(matches!(s, AssetState::Done));
    let s = asset_step(&mut skin, "/p", &asset, AssetState::Resolve, AssetEvent::Resolved(Some("/p/assets/happy.png".into())));
    assert!(matches!(&s, AssetState::Inspect(q) if q == "/p/assets/happy.png"));
    let big = asset_step(&mut skin, "/p", &asset, AssetState::Inspect("/p/a".into()), AssetEvent::Inspected(true, MAX_TAMA_ASSET_BYTES + 1));
    assert!(matches!(big, AssetState::Done));
    let dir = asset_step(&mut skin, "/p", &asset, AssetState::Inspect("/p/a".into()), AssetEvent::Inspected(false, 3));
    assert!(matches!(dir, AssetState::Done));
    let s = asset_step(&mut skin, "/p", &asset, s, AssetEvent::Inspected(true, 5));
    assert!(matches!(&s, AssetState::Read(q) if q == "/p/assets/happy.png"));
    assert!(skin.poses.is_empty());
    let s = asset_step(&mut skin, "/p", &asset, s, AssetEvent::Bytes(b"hello".to_vec()));
    assert!(matches!(s, AssetState::Done));
    assert_eq!(skin.poses, vec![("happy".to_string(), "data:image/png;base64,aGVsbG8=".to_string())]);
    let s = asset_step(&mut skin, "/p", &asset, AssetState::Read("/p/x".into()), AssetEvent::Failed);
    assert!(matches!(s, AssetState::Done));
    assert_eq!(skin.poses.len(), 1);
}
