//! Well-formedness of plugin manifests: the id charset, non-blank name,
//! version and command templates, and a Tama skin's pose keys and asset
//! paths; plus the size limits and the final acceptance of a manifest file.

use vstd::prelude::*;
use crate::placeholder::is_lower;
use crate::registry::{Plugin, PluginCommand, PluginTama};
use crate::text::{
    chars_of, debug_quote, quoted_text, decimal, decimal_text, is_blank, is_blank_text, is_plain_printable,
    same_text,
};

verus! {

/// Hard cap on a manifest file's size, in bytes.
pub const MAX_MANIFEST_BYTES: u64 = 256 * 1024;

/// The eight built-in Tama pose keys; a skin may only override one of these.
pub const VALID_TAMA_POSE_KEYS: [&'static str; 8] = [
    "hero",
    "curious",
    "confident",
    "thinking",
    "happy",
    "alarm",
    "shocked",
    "sleep",
];

/// An ASCII digit.
pub open spec fn is_digit(c: char) -> bool {
    '0' <= c && c <= '9'
}

/// `^[a-z0-9][a-z0-9-]*$`.
pub open spec fn valid_id(s: Seq<char>) -> bool {
    &&& s.len() > 0
    &&& (is_lower(s[0]) || is_digit(s[0]))
    &&& forall|k: int| 1 <= k < s.len() ==> is_lower(#[trigger] s[k]) || is_digit(s[k]) || s[k] == '-'
}

/// `^[a-z0-9][a-z0-9-]*$`: first character a lowercase ASCII letter or
/// digit, the rest lowercase letters, digits or `-`.
pub fn is_valid_id(id: &str) -> (r: bool)
    ensures
        r == valid_id(id@),
{
    let cs = chars_of(id);
    if cs.len() == 0 {
        return false;
    }
    let c0 = cs[0];
    if !(('a' <= c0 && c0 <= 'z') || ('0' <= c0 && c0 <= '9')) {
        return false;
    }
    let mut i: usize = 1;
    while i < cs.len()
        invariant
            cs@ == id@,
            1 <= i <= cs.len(),
            forall|k: int| 1 <= k < i ==> is_lower(#[trigger] cs@[k]) || is_digit(cs@[k]) || cs@[k]
                == '-',
        decreases cs.len() - i,
    {
        let c = cs[i];
        if !(('a' <= c && c <= 'z') || ('0' <= c && c <= '9') || c == '-') {
            assert(!(is_lower(cs@[i as int]) || is_digit(cs@[i as int]) || cs@[i as int] == '-'));
            return false;
        }
        i = i + 1;
    }
    true
}

/// One of the eight built-in pose keys.
pub open spec fn is_pose_key(k: Seq<char>) -> bool {
    ||| k == "hero"@
    ||| k == "curious"@
    ||| k == "confident"@
    ||| k == "thinking"@
    ||| k == "happy"@
    ||| k == "alarm"@
    ||| k == "shocked"@
    ||| k == "sleep"@
}

/// Whether `key` is one of the built-in pose keys.
pub fn is_valid_pose_key(key: &str) -> (r: bool)
    ensures
        r == is_pose_key(key@),
{
    same_text(key, "hero") || same_text(key, "curious") || same_text(key, "confident") || same_text(
        key,
        "thinking",
    ) || same_text(key, "happy") || same_text(key, "alarm") || same_text(key, "shocked")
        || same_text(key, "sleep")
}

/// Text holding `..`.
pub open spec fn has_dotdot(s: Seq<char>) -> bool {
    exists|k: int| 0 <= k < s.len() - 1 && #[trigger] s[k] == '.' && s[k + 1] == '.'
}

/// Whether `s` contains `..`.
pub fn contains_dotdot(s: &str) -> (r: bool)
    ensures
        r == has_dotdot(s@),
{
    let cs = chars_of(s);
    if cs.len() < 2 {
        return false;
    }
    let mut i: usize = 0;
    while i + 1 < cs.len()
        invariant
            cs@ == s@,
            cs.len() >= 2,
            i + 1 <= cs.len(),
            forall|k: int| 0 <= k < i ==> !(#[trigger] cs@[k] == '.' && cs@[k + 1] == '.'),
        decreases cs.len() - i,
    {
        if cs[i] == '.' && cs[i + 1] == '.' {
            return true;
        }
        i = i + 1;
    }
    false
}

/// A path that is relative on every platform: it starts with neither `/`
/// nor a backslash and holds no `:` (so it has neither a root nor a Windows
/// prefix such as `C:`).
pub open spec fn surely_relative(p: Seq<char>) -> bool {
    &&& !(p.len() > 0 && (p[0] == '/' || p[0] == '\\'))
    &&& forall|k: int| 0 <= k < p.len() ==> #[trigger] p[k] != ':'
}

/// Whether a path is absolute on this platform (`Path::is_absolute`). On
/// Unix that is a leading `/`; on Windows it takes a prefix such as `C:` and
/// a root. Which of the two applies depends on the platform the library is
/// built for, so the contract states what holds on both: a path without a
/// leading separator and without `:` is not absolute.
#[verifier::external_body]
pub(crate) fn path_is_absolute(p: &str) -> (r: bool)
    ensures
        surely_relative(p@) ==> !r,
{
    std::path::Path::new(p).is_absolute()
}

// ---------------------------------------------------------------------------
// Error messages
// ---------------------------------------------------------------------------

pub open spec fn invalid_id_message(id: Seq<char>) -> Seq<char> {
    "Plugin id "@ + quoted_text(id)
        + " is invalid — it must start with a lowercase letter or digit and then contain only lowercase letters, digits, and '-'."@
}

pub open spec fn missing_name_message() -> Seq<char> {
    "Plugin manifest is missing a non-empty name."@
}

pub open spec fn missing_version_message() -> Seq<char> {
    "Plugin manifest is missing a non-empty version."@
}

pub open spec fn empty_run_message(command_id: Seq<char>) -> Seq<char> {
    "Plugin command "@ + quoted_text(command_id) + " has an empty run command."@
}

pub open spec fn bad_pose_key_message(key: Seq<char>) -> Seq<char> {
    "Plugin tama pose key "@ + quoted_text(key)
        + " is not a built-in pose — it must be one of [\"hero\", \"curious\", \"confident\", \"thinking\", \"happy\", \"alarm\", \"shocked\", \"sleep\"]."@
}

pub open spec fn unsafe_path_message(key: Seq<char>, rel: Seq<char>) -> Seq<char> {
    "Plugin tama pose "@ + quoted_text(key) + " has an unsafe asset path "@ + quoted_text(rel)
        + " — it must be a relative path inside the plugin dir (no leading '/' and no '..')."@
}

/// Text that occurs in `s`.
pub open spec fn occurs_in(w: Seq<char>, s: Seq<char>) -> bool {
    exists|i: int| 0 <= i && i + w.len() <= s.len() && #[trigger] s.subrange(i, i + w.len()) == w
}

/// The error for an unknown pose key names the key, when the key is text
/// that its quoted rendering leaves as it is (printable ASCII without `"` or
/// a backslash).
pub proof fn law_bad_pose_key_message_names_the_key(key: Seq<char>)
    requires
        is_plain_printable(key),
    ensures
        occurs_in(key, bad_pose_key_message(key)),
{
    let a = "Plugin tama pose key "@;
    let m = bad_pose_key_message(key);
    let i = a.len() + 1;
    assert(m.subrange(i as int, i + key.len() as int) =~= key);
}

// ---------------------------------------------------------------------------
// The validation rule
// ---------------------------------------------------------------------------

/// The index of the first command whose `run` is blank.
pub open spec fn first_blank_run(cs: Seq<PluginCommand>) -> Option<int>
    decreases cs.len(),
{
    if cs.len() == 0 {
        None
    } else if is_blank_text(cs[0].run@) {
        Some(0)
    } else {
        match first_blank_run(cs.drop_first()) {
            Some(k) => Some(k + 1),
            None => None,
        }
    }
}

proof fn lemma_first_blank_run(cs: Seq<PluginCommand>, i: int)
    requires
        0 <= i <= cs.len(),
        forall|j: int| 0 <= j < i ==> !is_blank_text(#[trigger] cs[j].run@),
        i < cs.len() ==> is_blank_text(cs[i].run@),
    ensures
        first_blank_run(cs) == (if i < cs.len() { Some(i) } else { None::<int> }),
    decreases i,
{
    if i > 0 {
        let d = cs.drop_first();
        assert forall|j: int| 0 <= j < i - 1 implies !is_blank_text(#[trigger] d[j].run@) by {
            assert(d[j] == cs[j + 1]);
        }
        if i < cs.len() {
            assert(d[i - 1] == cs[i]);
        }
        lemma_first_blank_run(d, i - 1);
        assert(!is_blank_text(cs[0].run@));
    }
}

/// The first problem with a skin's poses, scanning them in order: a key that
/// is no built-in pose, or an asset path that is absolute (as `absolute`
/// says, one flag per pose) or contains `..`.
pub open spec fn poses_error(poses: Seq<(String, String)>, absolute: Seq<bool>) -> Option<Seq<char>>
    decreases poses.len(),
{
    if poses.len() == 0 {
        None
    } else if !is_pose_key(poses[0].0@) {
        Some(bad_pose_key_message(poses[0].0@))
    } else if absolute[0] || has_dotdot(poses[0].1@) {
        Some(unsafe_path_message(poses[0].0@, poses[0].1@))
    } else {
        poses_error(poses.drop_first(), absolute.drop_first())
    }
}

/// Flags for a manifest's poses that agree with the platform wherever the
/// platform has no say: a surely relative path is flagged not absolute.
pub open spec fn absolute_flags_fit(p: Plugin, absolute: Seq<bool>) -> bool {
    &&& absolute.len() == pose_count(p)
    &&& match p.tama {
        Some(t) => forall|k: int|
            0 <= k < absolute.len() && surely_relative(t.poses@[k].1@) ==> !#[trigger] absolute[k],
        None => true,
    }
}

/// The number of poses a manifest declares.
pub open spec fn pose_count(p: Plugin) -> nat {
    match p.tama {
        Some(t) => t.poses@.len(),
        None => 0,
    }
}

/// The first problem with a manifest, in the order the checks run, given
/// which pose paths are absolute; `None` for a well-formed manifest.
pub open spec fn manifest_error(p: Plugin, absolute: Seq<bool>) -> Option<Seq<char>> {
    if !valid_id(p.id@) {
        Some(invalid_id_message(p.id@))
    } else if is_blank_text(p.name@) {
        Some(missing_name_message())
    } else if is_blank_text(p.version@) {
        Some(missing_version_message())
    } else {
        match first_blank_run(p.commands@) {
            Some(k) => Some(empty_run_message(p.commands@[k].id@)),
            None => match p.tama {
                Some(t) => poses_error(t.poses@, absolute),
                None => None,
            },
        }
    }
}

/// `r` is the error `e` if there is one, and `Ok` otherwise.
pub open spec fn reports<T>(r: Result<T, String>, e: Option<Seq<char>>) -> bool {
    match e {
        Some(m) => r matches Err(x) && x@ == m,
        None => r is Ok,
    }
}

fn check_poses(poses: &Vec<(String, String)>, absolute: &[bool]) -> (r: Result<(), String>)
    requires
        absolute@.len() == poses@.len(),
    ensures
        reports(r, poses_error(poses@, absolute@)),
{
    let mut i: usize = 0;
    assert(poses@.skip(0) =~= poses@);
    assert(absolute@.skip(0) =~= absolute@);
    while i < poses.len()
        invariant
            absolute@.len() == poses@.len(),
            i <= poses@.len(),
            poses_error(poses@, absolute@) == poses_error(poses@.skip(i as int), absolute@.skip(
                i as int,
            )),
        decreases poses.len() - i,
    {
        let ghost ps = poses@.skip(i as int);
        let ghost ab = absolute@.skip(i as int);
        assert(ps[0] == poses@[i as int]);
        assert(ab[0] == absolute@[i as int]);
        let key = poses[i].0.as_str();
        let rel = poses[i].1.as_str();
        if !is_valid_pose_key(key) {
            let mut s = String::from_str("Plugin tama pose key ");
            let q = debug_quote(key);
            s.append(q.as_str());
            s.append(
                " is not a built-in pose — it must be one of [\"hero\", \"curious\", \"confident\", \"thinking\", \"happy\", \"alarm\", \"shocked\", \"sleep\"].",
            );
            return Err(s);
        }
        if absolute[i] || contains_dotdot(rel) {
            let mut s = String::from_str("Plugin tama pose ");
            let q = debug_quote(key);
            s.append(q.as_str());
            s.append(" has an unsafe asset path ");
            let q2 = debug_quote(rel);
            s.append(q2.as_str());
            s.append(
                " — it must be a relative path inside the plugin dir (no leading '/' and no '..').",
            );
            return Err(s);
        }
        assert(ps.drop_first() =~= poses@.skip(i + 1));
        assert(ab.drop_first() =~= absolute@.skip(i + 1));
        i = i + 1;
    }
    Ok(())
}

/// Check a parsed manifest's well-formedness given, for each declared pose in
/// order, whether its asset path is absolute on this platform: valid `id`
/// charset, non-blank name and version, every command's `run` non-blank,
/// every pose key built in and every asset path relative without `..`.
/// Reports the first problem found. Does not check id uniqueness.
pub fn check_manifest(plugin: &Plugin, absolute: &[bool]) -> (r: Result<(), String>)
    requires
        absolute@.len() == pose_count(*plugin),
    ensures
        reports(r, manifest_error(*plugin, absolute@)),
{
    if !is_valid_id(plugin.id.as_str()) {
        let mut s = String::from_str("Plugin id ");
        let q = debug_quote(plugin.id.as_str());
        s.append(q.as_str());
        s.append(
            " is invalid — it must start with a lowercase letter or digit and then contain only lowercase letters, digits, and '-'.",
        );
        return Err(s);
    }
    if is_blank(plugin.name.as_str()) {
        return Err(String::from_str("Plugin manifest is missing a non-empty name."));
    }
    if is_blank(plugin.version.as_str()) {
        return Err(String::from_str("Plugin manifest is missing a non-empty version."));
    }
    let mut i: usize = 0;
    while i < plugin.commands.len()
        invariant
            i <= plugin.commands@.len(),
            valid_id(plugin.id@),
            !is_blank_text(plugin.name@),
            !is_blank_text(plugin.version@),
            forall|j: int| 0 <= j < i ==> !is_blank_text(#[trigger] plugin.commands@[j].run@),
        decreases plugin.commands.len() - i,
    {
        if is_blank(plugin.commands[i].run.as_str()) {
            proof {
                lemma_first_blank_run(plugin.commands@, i as int);
            }
            let mut s = String::from_str("Plugin command ");
            let q = debug_quote(plugin.commands[i].id.as_str());
            s.append(q.as_str());
            s.append(" has an empty run command.");
            assert(first_blank_run(plugin.commands@) == Some(i as int));
            assert(s@ == empty_run_message(plugin.commands@[i as int].id@));
            assert(manifest_error(*plugin, absolute@) == Some(
                empty_run_message(plugin.commands@[i as int].id@),
            ));
            return Err(s);
        }
        i = i + 1;
    }
    proof {
        lemma_first_blank_run(plugin.commands@, i as int);
    }
    match &plugin.tama {
        Some(t) => check_poses(&t.poses, absolute),
        None => Ok(()),
    }
}

/// Validate a parsed manifest's well-formedness (see [`check_manifest`]),
/// asking the platform whether each pose's asset path is absolute. Does not
/// check id uniqueness, which needs the registry.
pub fn validate_manifest(plugin: &Plugin) -> (r: Result<(), String>)
    ensures
        exists|absolute: Seq<bool>|
            absolute_flags_fit(*plugin, absolute) && reports(r, #[trigger] manifest_error(*plugin, absolute)),
{
    let mut absolute: Vec<bool> = Vec::new();
    match &plugin.tama {
        Some(t) => {
            let mut i: usize = 0;
            while i < t.poses.len()
                invariant
                    i <= t.poses@.len(),
                    absolute@.len() == i,
                    forall|k: int|
                        0 <= k < i && surely_relative(t.poses@[k].1@) ==> !#[trigger] absolute@[k],
                decreases t.poses.len() - i,
            {
                absolute.push(path_is_absolute(t.poses[i].1.as_str()));
                i = i + 1;
            }
        },
        None => {},
    }
    let r = check_manifest(plugin, absolute.as_slice());
    assert(reports(r, manifest_error(*plugin, absolute@)));
    assert(absolute_flags_fit(*plugin, absolute@));
    r
}

// ---------------------------------------------------------------------------
// Reading a manifest file
// ---------------------------------------------------------------------------

pub open spec fn not_regular_message(display: Seq<char>) -> Seq<char> {
    "Plugin manifest "@ + display + " is not a regular file."@
}

pub open spec fn too_large_message(display: Seq<char>, len: nat) -> Seq<char> {
    "Plugin manifest "@ + display + " is too large ("@ + decimal_text(len) + " bytes; the limit is "@
        + decimal_text(MAX_MANIFEST_BYTES as nat) + " bytes)."@
}

pub open spec fn text_too_large_message(display: Seq<char>) -> Seq<char> {
    "Plugin manifest "@ + display + " is too large (limit "@ + decimal_text(MAX_MANIFEST_BYTES as nat)
        + " bytes)."@
}

/// The check made on a manifest file's metadata before any byte is read: it
/// must be a regular file (a FIFO or device reports length 0 and could block
/// or stream without end) of at most [`MAX_MANIFEST_BYTES`] bytes. `display`
/// is how the file is named in the error.
pub fn check_manifest_metadata(display: &str, is_file: bool, len: u64) -> (r: Result<(), String>)
    ensures
        reports(
            r,
            if !is_file {
                Some(not_regular_message(display@))
            } else if len > MAX_MANIFEST_BYTES {
                Some(too_large_message(display@, len as nat))
            } else {
                None
            },
        ),
{
    if !is_file {
        let mut s = String::from_str("Plugin manifest ");
        s.append(display);
        s.append(" is not a regular file.");
        return Err(s);
    }
    if len > MAX_MANIFEST_BYTES {
        let mut s = String::from_str("Plugin manifest ");
        s.append(display);
        s.append(" is too large (");
        let n = decimal(len);
        s.append(n.as_str());
        s.append(" bytes; the limit is ");
        let m = decimal(MAX_MANIFEST_BYTES);
        s.append(m.as_str());
        s.append(" bytes).");
        return Err(s);
    }
    Ok(())
}

/// The check made on the text read through the byte cap: more than
/// [`MAX_MANIFEST_BYTES`] bytes (the file grew since its metadata was read)
/// is rejected rather than parsed.
pub fn check_manifest_text(display: &str, text_bytes: usize) -> (r: Result<(), String>)
    ensures
        reports(
            r,
            if text_bytes > MAX_MANIFEST_BYTES {
                Some(text_too_large_message(display@))
            } else {
                None
            },
        ),
{
    if text_bytes as u64 > MAX_MANIFEST_BYTES {
        let mut s = String::from_str("Plugin manifest ");
        s.append(display);
        s.append(" is too large (limit ");
        let m = decimal(MAX_MANIFEST_BYTES);
        s.append(m.as_str());
        s.append(" bytes).");
        return Err(s);
    }
    Ok(())
}

/// Accept a parsed manifest: validate it, then record `source_dir` (the
/// canonical directory of its file, if it could be resolved) as its `dir`.
/// The recorded directory always replaces whatever `dir` the manifest text
/// carried, so a manifest can never choose where its assets are read from.
pub fn accept_manifest(plugin: Plugin, source_dir: Option<String>) -> (r: Result<Plugin, String>)
    ensures
        exists|absolute: Seq<bool>|
            absolute_flags_fit(plugin, absolute) && match #[trigger] manifest_error(plugin, absolute) {
                Some(m) => r matches Err(x) && x@ == m,
                None => r == Ok::<Plugin, String>(Plugin { dir: source_dir, ..plugin }),
            },
{
    let v = validate_manifest(&plugin);
    match v {
        Ok(()) => {
            let mut p = plugin;
            p.dir = source_dir;
            Ok(p)
        },
        Err(e) => Err(e),
    }
}

/// A plugin id is valid exactly when it is not empty, starts with an ASCII
/// lowercase letter or digit, and every character is an ASCII lowercase
/// letter, an ASCII digit or `-`: an id with an uppercase letter, a space or
/// any other character anywhere is invalid.
pub proof fn law_valid_id_charset(s: Seq<char>)
    ensures
        valid_id(s) <==> (s.len() > 0 && (('a' <= s[0] && s[0] <= 'z') || ('0' <= s[0] && s[0]
            <= '9')) && forall|k: int|
            0 <= k < s.len() ==> ('a' <= #[trigger] s[k] && s[k] <= 'z') || ('0' <= s[k] && s[k]
                <= '9') || s[k] == '-'),
{
}

/// A manifest whose id holds a character other than an ASCII lowercase
/// letter, an ASCII digit or `-` (or is empty, or starts with `-`) is
/// refused first of all, with the invalid-id message, whatever else it holds.
pub proof fn law_bad_id_is_refused(p: Plugin, absolute: Seq<bool>, k: int)
    requires
        0 <= k < p.id@.len(),
        !(('a' <= p.id@[k] && p.id@[k] <= 'z') || ('0' <= p.id@[k] && p.id@[k] <= '9') || (p.id@[k]
            == '-' && k > 0)),
    ensures
        manifest_error(p, absolute) == Some(invalid_id_message(p.id@)),
{
}

} // verus!
