//! The decisions around running a plugin command: which command and working
//! directory an invocation resolves to, the Windows fail-closed guard, the
//! script handed to the platform shell, and the captured result.

use vstd::prelude::*;
use crate::ansi::{ansi_stripped, strip_ansi};
use crate::placeholder::{
    ctx_pairs, ctx_values, expand_placeholders, expansion, has_cmd_meta, pair_views,
    windows_cmd_unsafe, PlaceholderCtx,
};
use crate::registry::{
    command_at, find_command, first_index, lemma_first_index_facts, plugin_ids, plugin_index, Plugin,
    PluginCommand,
};
use crate::text::{is_blank, is_blank_text};

verus! {

/// How long a plugin command may run before it is stopped, in seconds.
pub const PLUGIN_CMD_TIMEOUT_SECS: u64 = 120;

/// The captured result of running a plugin command.
#[derive(Debug)]
pub struct CommandOutput {
    /// stdout with ANSI escapes removed; not trimmed.
    pub stdout: String,
    /// The process exit code, or `None` if it was killed by a signal.
    pub exit_code: Option<i32>,
    /// `true` iff the process exited 0.
    pub success: bool,
}

/// The captured result of a finished command: its stdout, decoded, with
/// escape sequences stripped, and its exit status as reported.
pub fn command_output(stdout_text: &str, exit_code: Option<i32>, success: bool) -> (r: CommandOutput)
    ensures
        r.stdout@ == ansi_stripped(stdout_text@),
        r.exit_code == exit_code,
        r.success == success,
{
    CommandOutput { stdout: strip_ansi(stdout_text), exit_code, success }
}

/// The token of the first substituted value that holds a `cmd.exe`
/// metacharacter.
pub open spec fn first_unsafe_token(pairs: Seq<(Seq<char>, Seq<char>)>) -> Option<Seq<char>>
    decreases pairs.len(),
{
    if pairs.len() == 0 {
        None
    } else if has_cmd_meta(pairs[0].1) {
        Some(pairs[0].0)
    } else {
        first_unsafe_token(pairs.drop_first())
    }
}

/// Why a command is refused on Windows.
pub open spec fn refusal_message(tok: Seq<char>) -> Seq<char> {
    "Refusing to run the plugin command on Windows: the "@ + tok
        + " value contains a character unsafe for cmd.exe (one of & | < > ^ % ! \" or a newline). This is a known Windows limitation of GitCat's plugin executor."@
}

/// The script a template runs as: on Windows, refused when a substituted
/// value holds a `cmd.exe` metacharacter (single-quoting does not bind
/// `cmd.exe`), else the expanded template.
pub open spec fn prepared_script(template: Seq<char>, ctx: PlaceholderCtx, windows: bool) -> Result<
    Seq<char>,
    Seq<char>,
> {
    match (if windows { first_unsafe_token(ctx_pairs(ctx)) } else { None }) {
        Some(tok) => Err(refusal_message(tok)),
        None => Ok(expansion(template, ctx)),
    }
}

/// The script to hand to the platform shell (`sh -c` on Unix, `cmd /C` on
/// Windows) for `template` and `ctx`. On Windows the command fails closed:
/// it is refused, naming the token, when any substituted value contains a
/// `cmd.exe` metacharacter.
pub fn prepare_command(template: &str, ctx: &PlaceholderCtx, windows: bool) -> (r: Result<
    String,
    String,
>)
    ensures
        match prepared_script(template@, *ctx, windows) {
            Ok(s) => r matches Ok(x) && x@ == s,
            Err(e) => r matches Err(x) && x@ == e,
        },
{
    if windows {
        let pairs = ctx_values(ctx);
        let ghost views = pair_views(pairs@);
        let mut i: usize = 0;
        assert(views.skip(0) =~= views);
        while i < pairs.len()
            invariant
                windows,
                views == pair_views(pairs@),
                views == ctx_pairs(*ctx),
                i <= pairs@.len(),
                first_unsafe_token(views) == first_unsafe_token(views.skip(i as int)),
            decreases pairs.len() - i,
        {
            let ghost rest = views.skip(i as int);
            assert(rest[0] == (pairs@[i as int].0@, pairs@[i as int].1@));
            let (tok, value) = pairs[i];
            if windows_cmd_unsafe(value) {
                assert(rest.len() > 0);
                assert(has_cmd_meta(rest[0].1));
                assert(first_unsafe_token(rest) == Some(tok@));
                let mut s = String::from_str("Refusing to run the plugin command on Windows: the ");
                s.append(tok);
                s.append(
                    " value contains a character unsafe for cmd.exe (one of & | < > ^ % ! \" or a newline). This is a known Windows limitation of GitCat's plugin executor.",
                );
                return Err(s);
            }
            assert(rest.drop_first() =~= views.skip(i + 1));
            i = i + 1;
        }
        assert(views.skip(i as int).len() == 0);
    }
    Ok(expand_placeholders(template, ctx))
}

/// The Windows guard fails closed: a script is handed to `cmd.exe` only when
/// no substituted value holds a `cmd.exe` metacharacter, and a refusal names
/// a token whose value does.
pub proof fn law_windows_guard_fails_closed(pairs: Seq<(Seq<char>, Seq<char>)>)
    ensures
        first_unsafe_token(pairs) is None <==> forall|k: int|
            0 <= k < pairs.len() ==> !has_cmd_meta(#[trigger] pairs[k].1),
        first_unsafe_token(pairs) matches Some(tok) ==> exists|k: int|
            0 <= k < pairs.len() && #[trigger] pairs[k].0 == tok && has_cmd_meta(pairs[k].1),
    decreases pairs.len(),
{
    if pairs.len() > 0 {
        let d = pairs.drop_first();
        law_windows_guard_fails_closed(d);
        assert forall|k: int| 0 < k < pairs.len() implies pairs[k] == d[k - 1] by {}
        if !has_cmd_meta(pairs[0].1) {
            if first_unsafe_token(d) is None {
                assert forall|k: int| 0 <= k < pairs.len() implies !has_cmd_meta(
                    #[trigger] pairs[k].1,
                ) by {
                    if k > 0 {
                        assert(pairs[k] == d[k - 1]);
                    }
                }
            } else {
                let tok = first_unsafe_token(d)->0;
                let k = choose|k: int| 0 <= k < d.len() && #[trigger] d[k].0 == tok && has_cmd_meta(d[k].1);
                assert(pairs[k + 1] == d[k]);
            }
        }
    }
}

/// The error for an address that resolves to no command.
pub open spec fn not_found_message(plugin_id: Seq<char>, command_id: Seq<char>) -> Seq<char> {
    "Plugin command "@ + plugin_id + "/"@ + command_id + " was not found or is disabled."@
}

/// The error for an invocation with no repository to run in.
pub open spec fn no_repo_message() -> Seq<char> {
    "No repository path was provided for the plugin command."@
}

/// A resolved invocation: the `run` template, the directory it runs in, and
/// whether the repository must be snapshotted before it runs (the command
/// declares `mutates`).
#[derive(Debug)]
pub struct PluginRun {
    pub run: String,
    pub cwd: String,
    pub snapshot_first: bool,
}

/// The command an invocation may run: the addressed command, provided the
/// first plugin with that id is enabled. A disabled plugin's commands do not
/// run.
pub open spec fn runnable_command(ps: Seq<Plugin>, plugin_id: Seq<char>, command_id: Seq<char>) -> Option<
    PluginCommand,
> {
    match first_index(plugin_ids(ps), plugin_id) {
        Some(i) => if ps[i].enabled {
            command_at(ps, plugin_id, command_id)
        } else {
            None
        },
        None => None,
    }
}

/// What an invocation resolves to: the addressed command of an enabled
/// plugin, run in `ctx.repo`, which must be present and not blank since it is
/// both the `{repo}` value and the directory to run in; a mutating command is
/// marked to be snapshotted first. A missing or disabled command, or a
/// missing repository, is refused.
pub fn plan_plugin_command(
    plugins: &[Plugin],
    plugin_id: &str,
    command_id: &str,
    ctx: &PlaceholderCtx,
) -> (r: Result<PluginRun, String>)
    ensures
        match runnable_command(plugins@, plugin_id@, command_id@) {
            None => r matches Err(e) && e@ == not_found_message(plugin_id@, command_id@),
            Some(c) => match ctx.repo {
                Some(repo) => if is_blank_text(repo@) {
                    r matches Err(e) && e@ == no_repo_message()
                } else {
                    r matches Ok(p) && p.run == c.run && p.cwd == repo && p.snapshot_first
                        == c.mutates
                },
                None => r matches Err(e) && e@ == no_repo_message(),
            },
        },
{
    let enabled = match plugin_index(plugins, plugin_id) {
        Some(i) => {
            proof {
                lemma_first_index_facts(plugin_ids(plugins@), plugin_id@);
            }
            plugins[i].enabled
        },
        None => false,
    };
    let found = if enabled {
        find_command(plugins, plugin_id, command_id)
    } else {
        None
    };
    let command = match found {
        Some(c) => c,
        None => {
            let mut s = String::from_str("Plugin command ");
            s.append(plugin_id);
            s.append("/");
            s.append(command_id);
            s.append(" was not found or is disabled.");
            return Err(s);
        },
    };
    match &ctx.repo {
        Some(repo) => {
            if is_blank(repo.as_str()) {
                Err(String::from_str("No repository path was provided for the plugin command."))
            } else {
                let snapshot_first = command.mutates;
                Ok(PluginRun { run: command.run, cwd: repo.clone(), snapshot_first })
            }
        },
        None => Err(String::from_str("No repository path was provided for the plugin command.")),
    }
}

/// Why a mutating command is refused when the repository could not be
/// snapshotted first: it would otherwise run outside Undo.
pub open spec fn unsnapshotted_message(cause: Seq<char>) -> Seq<char> {
    "Refusing to run a mutating plugin command: the repository could not be snapshotted first ("@
        + cause + ")."@
}

/// The refusal of a mutating command whose snapshot failed with `cause`.
pub fn snapshot_refusal(cause: &str) -> (r: String)
    ensures
        r@ == unsnapshotted_message(cause@),
{
    let mut s = String::from_str(
        "Refusing to run a mutating plugin command: the repository could not be snapshotted first (",
    );
    s.append(cause);
    s.append(").");
    s
}

} // verus!
