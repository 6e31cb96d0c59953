//! Shell quoting, placeholder expansion, the Windows guard and ANSI stripping.

use gitcat_plugins::ansi::strip_ansi;
use gitcat_plugins::placeholder::{expand_placeholders, shell_quote, windows_cmd_unsafe, PlaceholderCtx};

// ---- shell_quote --------------------------------------------------------

#[test]
fn shell_quote_basics() {
    assert_eq!(shell_quote("word"), "'word'");
    assert_eq!(shell_quote(""), "''"); // empty -> a real empty argument
    assert_eq!(shell_quote("a b c"), "'a b c'");
    assert_eq!(shell_quote("with\nnewline"), "'with\nnewline'");
}

#[test]
fn shell_quote_embedded_single_quote_uses_the_classic_escape() {
    // ' -> '\''  (close, escaped-quote, reopen)
    assert_eq!(shell_quote("it's"), "'it'\\''s'");
    assert_eq!(shell_quote("'"), "''\\'''");
}

#[test]
fn shell_quote_neutralizes_every_shell_metacharacter() {
    // Backticks, $(), $VAR, pipes, redirects, globs, semicolons — all inert
    // inside single quotes.
    assert_eq!(shell_quote("`whoami`"), "'`whoami`'");
    assert_eq!(shell_quote("$(rm -rf /)"), "'$(rm -rf /)'");
    assert_eq!(shell_quote("$HOME"), "'$HOME'");
    assert_eq!(shell_quote("a | b > c & d ; e"), "'a | b > c & d ; e'");
    assert_eq!(shell_quote("*.rs"), "'*.rs'");
}

// ---- expand_placeholders: happy path -----------------------------------

#[test]
fn every_token_substitutes_its_quoted_value() {
    let ctx = PlaceholderCtx {
        sha: Some("abc123".into()),
        file: Some("src/a.rs".into()),
        diff: Some("+added\n-removed".into()),
        repo: Some("/home/me/proj".into()),
        branch: Some("feature/x".into()),
        gitref: Some("refs/tags/v1".into()),
        ..Default::default()
    };
    assert_eq!(
        expand_placeholders("{sha} {file} {diff} {repo} {branch} {ref}", &ctx),
        "'abc123' 'src/a.rs' '+added\n-removed' '/home/me/proj' 'feature/x' 'refs/tags/v1'"
    );
}

#[test]
fn files_token_quotes_each_and_space_joins() {
    let ctx = PlaceholderCtx {
        files: vec!["a.rs".into(), "dir/b c.rs".into(), "weird'name.rs".into()],
        ..Default::default()
    };
    assert_eq!(expand_placeholders("{files}", &ctx), "'a.rs' 'dir/b c.rs' 'weird'\\''name.rs'");
}

#[test]
fn empty_files_and_none_scalars_expand_to_nothing() {
    let ctx = PlaceholderCtx::default();
    assert_eq!(expand_placeholders("[{files}]", &ctx), "[]");
    assert_eq!(expand_placeholders("[{sha}]", &ctx), "[]");
    assert_eq!(expand_placeholders("[{branch}]", &ctx), "[]");
}

#[test]
fn none_is_empty_but_some_empty_string_is_an_explicit_empty_arg() {
    let ctx = PlaceholderCtx { sha: None, file: Some(String::new()), ..Default::default() };
    assert_eq!(expand_placeholders("[{sha}][{file}]", &ctx), "[]['']");
}

#[test]
fn unknown_token_expands_to_empty() {
    let ctx = PlaceholderCtx { sha: Some("x".into()), ..Default::default() };
    assert_eq!(expand_placeholders("a{foo}b{sha}c{bar}d", &ctx), "ab'x'cd");
}

#[test]
fn adjacent_tokens_and_surrounding_text() {
    let ctx = PlaceholderCtx { sha: Some("A".into()), branch: Some("B".into()), ..Default::default() };
    assert_eq!(expand_placeholders("{sha}{branch}", &ctx), "'A''B'");
    assert_eq!(expand_placeholders("x={sha};y={branch}", &ctx), "x='A';y='B'");
}

#[test]
fn ref_token_maps_to_the_gitref_field() {
    let ctx = PlaceholderCtx { gitref: Some("HEAD~3".into()), ..Default::default() };
    assert_eq!(expand_placeholders("show {ref}", &ctx), "show 'HEAD~3'");
}

#[test]
fn multibyte_utf8_survives_inside_and_outside_tokens() {
    let ctx = PlaceholderCtx { file: Some("にゃ.txt".into()), ..Default::default() };
    assert_eq!(expand_placeholders("猫{file}猫", &ctx), "猫'にゃ.txt'猫");
}

// ---- expand_placeholders: literal-brace / non-token robustness ----------

#[test]
fn literal_braces_left_alone() {
    let ctx = PlaceholderCtx::default();
    // A template's own POSIX constructs must NOT be eaten.
    assert_eq!(expand_placeholders("awk '{print $1}'", &ctx), "awk '{print $1}'");
    assert_eq!(expand_placeholders("echo ${HOME}", &ctx), "echo ${HOME}"); // uppercase -> not a token
    assert_eq!(expand_placeholders("${1}", &ctx), "${1}"); // digit -> not a token
    assert_eq!(expand_placeholders("{}", &ctx), "{}"); // empty braces
    assert_eq!(expand_placeholders("a{sha", &ctx), "a{sha"); // unterminated
    assert_eq!(expand_placeholders("{Sha}", &ctx), "{Sha}"); // uppercase letter -> not a token
    assert_eq!(expand_placeholders("{sha_x}", &ctx), "{sha_x}"); // underscore -> not [a-z]+
}

// ---- expand_placeholders: ADVERSARIAL (the security-critical cases) -----

#[test]
fn adversarial_branch_named_rm_rf_stays_a_single_inert_literal() {
    let ctx = PlaceholderCtx { branch: Some("; rm -rf ~".into()), ..Default::default() };
    // The ; is INSIDE the single quotes — the shell can't start a new command.
    assert_eq!(expand_placeholders("git checkout {branch}", &ctx), "git checkout '; rm -rf ~'");
}

#[test]
fn adversarial_file_with_spaces_quotes_and_metachars() {
    let ctx = PlaceholderCtx {
        file: Some("my file's \"$(id)\" `whoami`.txt".into()),
        ..Default::default()
    };
    assert_eq!(
        expand_placeholders("open {file}", &ctx),
        "open 'my file'\\''s \"$(id)\" `whoami`.txt'"
    );
}

#[test]
fn adversarial_command_substitution_and_backticks_are_inert() {
    let ctx = PlaceholderCtx {
        repo: Some("$(touch pwned)".into()),
        gitref: Some("`reboot`".into()),
        ..Default::default()
    };
    assert_eq!(expand_placeholders("{repo} {ref}", &ctx), "'$(touch pwned)' '`reboot`'");
}

#[test]
fn adversarial_quote_breakout_attempt_is_reclosed_safely() {
    // A value engineered to try to close our quote and inject a command.
    let ctx = PlaceholderCtx { branch: Some("foo'; rm -rf ~; echo 'bar".into()), ..Default::default() };
    // Every embedded ' becomes '\'' so the string never actually opens up.
    assert_eq!(expand_placeholders("{branch}", &ctx), "'foo'\\''; rm -rf ~; echo '\\''bar'");
}

#[test]
fn a_value_containing_placeholder_text_is_not_re_expanded() {
    // THE single-pass guarantee: diff content full of {repo}/{sha}/{diff}
    // must be copied through literally, never treated as further tokens.
    let ctx = PlaceholderCtx {
        diff: Some("has {repo} and {sha} and even {diff} inside".into()),
        repo: Some("SECRET_REPO".into()),
        sha: Some("SECRET_SHA".into()),
        ..Default::default()
    };
    let out = expand_placeholders("tool {diff}", &ctx);
    assert_eq!(out, "tool 'has {repo} and {sha} and even {diff} inside'");
    // The real repo/sha values did NOT leak in via re-expansion.
    assert!(!out.contains("SECRET_REPO"), "re-expansion leaked repo: {out}");
    assert!(!out.contains("SECRET_SHA"), "re-expansion leaked sha: {out}");
}

#[test]
fn adversarial_filenames_in_files_each_stay_inert() {
    let ctx = PlaceholderCtx {
        files: vec!["a b.txt".into(), "x';rm -rf ~;'.txt".into(), "$(id).txt".into()],
        ..Default::default()
    };
    assert_eq!(
        expand_placeholders("{files}", &ctx),
        "'a b.txt' 'x'\\'';rm -rf ~;'\\''.txt' '$(id).txt'"
    );
}

// ---- windows_cmd_unsafe (the Windows fail-closed guard) ----------------

#[test]
fn windows_cmd_unsafe_flags_cmd_metacharacters() {
    // Every character cmd.exe would act on regardless of our single-quoting.
    for bad in ["a & b", "a | b", "in < f", "out > f", "a ^ b", "50% off", "v!x", "say \"hi\"", "line\r", "line\n"] {
        assert!(windows_cmd_unsafe(bad), "should flag: {bad:?}");
    }
}

#[test]
fn windows_cmd_unsafe_allows_ordinary_values() {
    // Ordinary refs/paths — and note `;` is NOT a cmd command-chainer, so a
    // single-quoted "; rm -rf ~" cannot inject under cmd (it is inert on
    // unix too). Only the chainers/redirectors above are rejected.
    for ok in ["feature/x", "clean-branch_1.2", "src/a.rs", "; rm -rf ~", "a'b", "HEAD~3"] {
        assert!(!windows_cmd_unsafe(ok), "should allow: {ok:?}");
    }
}

// ---- strip_ansi --------------------------------

#[test]
fn strip_ansi_drops_escapes_keeps_text_and_multibyte() {
    let raw = "\u{1b}[?25l\u{1b}[1G\u{1b}[K done \u{1b}[?25h";
    assert_eq!(strip_ansi(raw).trim(), "done");
    assert_eq!(strip_ansi("\u{1b}[32mにゃ\u{1b}[0m"), "にゃ");
    assert_eq!(strip_ansi("plain"), "plain");
}

