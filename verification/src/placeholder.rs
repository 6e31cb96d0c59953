//! The placeholder grammar of plugin command templates.
//!
//! A template such as `mytool --sha {sha} --repo {repo}` is expanded against a
//! [`PlaceholderCtx`]: each `{name}` token, where `name` is one or more ASCII
//! lowercase letters, is replaced by the POSIX single-quoted value of that
//! placeholder; every other character is copied through. The scan is a single
//! left-to-right pass: substituted values are never scanned again.

use vstd::prelude::*;
use crate::text::{chars_are, chars_of, push_char};

verus! {

/// Values substituted into a plugin command's `run` template. A placeholder
/// whose value is absent expands to the empty string.
#[derive(Debug)]
pub struct PlaceholderCtx {
    /// `{sha}`: a commit id.
    pub sha: Option<String>,
    /// `{file}`: a single file path.
    pub file: Option<String>,
    /// `{files}`: several file paths, each quoted, joined by single spaces.
    pub files: Vec<String>,
    /// `{diff}`: diff text.
    pub diff: Option<String>,
    /// `{repo}`: the repository path, also the command's working directory.
    pub repo: Option<String>,
    /// `{branch}`: a branch name.
    pub branch: Option<String>,
    /// `{ref}`: a full ref, tag or symbolic ref.
    pub gitref: Option<String>,
}

impl Default for PlaceholderCtx {
    fn default() -> (r: Self)
        ensures
            r.sha is None,
            r.file is None,
            r.files@.len() == 0,
            r.diff is None,
            r.repo is None,
            r.branch is None,
            r.gitref is None,
    {
        PlaceholderCtx {
            sha: None,
            file: None,
            files: Vec::new(),
            diff: None,
            repo: None,
            branch: None,
            gitref: None,
        }
    }
}

// ---------------------------------------------------------------------------
// Shell quoting
// ---------------------------------------------------------------------------

/// How one character of a value is written inside single quotes: a single
/// quote becomes `'\''` (close, escaped quote, reopen); anything else is kept.
pub open spec fn quote_char(c: char) -> Seq<char> {
    if c == '\'' {
        seq!['\'', '\\', '\'', '\'']
    } else {
        seq![c]
    }
}

/// The characters of `s` as they stand between the opening and the closing quote.
pub open spec fn quoted_body(s: Seq<char>) -> Seq<char>
    decreases s.len(),
{
    if s.len() == 0 {
        seq![]
    } else {
        quoted_body(s.drop_last()) + quote_char(s.last())
    }
}

/// `s` POSIX single-quoted: `'` + the quoted body + `'`.
pub open spec fn shell_quoted(s: Seq<char>) -> Seq<char> {
    seq!['\''] + quoted_body(s) + seq!['\'']
}

/// How a POSIX shell reads `w`, restricted to words made only of
/// single-quoted segments and backslash-escaped characters: `Some(v)` when
/// `w` is one such word whose literal value is `v` (no splitting, no
/// expansion, no operator can occur in it), `None` otherwise. `quoted` says
/// whether the scan is inside single quotes. Any other character outside
/// quotes, a backslash before a newline, and an unterminated quote give `None`.
pub open spec fn sh_scan(w: Seq<char>, quoted: bool) -> Option<Seq<char>>
    decreases w.len(),
{
    if w.len() == 0 {
        if quoted { None } else { Some(seq![]) }
    } else if quoted {
        if w[0] == '\'' {
            sh_scan(w.drop_first(), false)
        } else {
            match sh_scan(w.drop_first(), true) {
                Some(v) => Some(seq![w[0]] + v),
                None => None,
            }
        }
    } else if w[0] == '\'' {
        sh_scan(w.drop_first(), true)
    } else if w[0] == '\\' && w.len() >= 2 && w[1] != '\n' {
        match sh_scan(w.skip(2), false) {
            Some(v) => Some(seq![w[1]] + v),
            None => None,
        }
    } else {
        None
    }
}

/// The literal value of `w` read as one inert shell word (see [`sh_scan`]).
pub open spec fn inert_word_value(w: Seq<char>) -> Option<Seq<char>> {
    sh_scan(w, false)
}

/// POSIX single-quote `s` so that a shell reads it as one inert literal
/// argument: the whole text is wrapped in `'...'` and an embedded `'` is
/// written `'\''`. An empty string becomes `''`.
pub fn shell_quote(s: &str) -> (r: String)
    ensures
        r@ == shell_quoted(s@),
{
    let cs = chars_of(s);
    let mut out = String::new();
    push_char(&mut out, '\'');
    let mut i: usize = 0;
    while i < cs.len()
        invariant
            cs@ == s@,
            i <= cs.len(),
            out@ == seq!['\''] + quoted_body(cs@.take(i as int)),
        decreases cs.len() - i,
    {
        let c = cs[i];
        let ghost before = out@;
        if c == '\'' {
            push_char(&mut out, '\'');
            push_char(&mut out, '\\');
            push_char(&mut out, '\'');
            push_char(&mut out, '\'');
        } else {
            push_char(&mut out, c);
        }
        assert(cs@.take(i + 1).drop_last() =~= cs@.take(i as int));
        assert(out@ =~= before + quote_char(c));
        i = i + 1;
    }
    push_char(&mut out, '\'');
    assert(cs@.take(cs.len() as int) =~= cs@);
    out
}

/// Prepending a character to a value prepends its quoted form to the body.
proof fn lemma_quoted_body_prepend(c: char, s: Seq<char>)
    ensures
        quoted_body(seq![c] + s) == quote_char(c) + quoted_body(s),
    decreases s.len(),
{
    if s.len() == 0 {
        assert(seq![c] + s =~= seq![c]);
        assert(seq![c].drop_last() =~= Seq::<char>::empty());
        assert(seq![c].last() == c);
        assert(quoted_body(Seq::<char>::empty()) =~= Seq::<char>::empty());
        assert(quoted_body(seq![c]) =~= quote_char(c));
    } else {
        let t = seq![c] + s;
        assert(t.drop_last() =~= seq![c] + s.drop_last());
        assert(t.last() == s.last());
        lemma_quoted_body_prepend(c, s.drop_last());
        assert(quoted_body(t) =~= quote_char(c) + quoted_body(s));
    }
}

/// Inside single quotes, a quoted body reads back as the value it quotes.
proof fn lemma_scan_quoted_body(s: Seq<char>, rest: Seq<char>)
    ensures
        sh_scan(quoted_body(s) + rest, true) == (match sh_scan(rest, true) {
            Some(v) => Some(s + v),
            None => None,
        }),
    decreases s.len(),
{
    if s.len() == 0 {
        assert(quoted_body(s) + rest =~= rest);
        match sh_scan(rest, true) {
            Some(v) => { assert(s + v =~= v); },
            None => {},
        }
    } else {
        let c = s[0];
        let tail = s.drop_first();
        assert(s =~= seq![c] + tail);
        lemma_quoted_body_prepend(c, tail);
        lemma_scan_quoted_body(tail, rest);
        let x = quoted_body(tail) + rest;
        assert(quoted_body(s) + rest =~= quote_char(c) + x);
        if c == '\'' {
            let w = quote_char(c) + x;
            assert(w[0] == '\'');
            assert(w.drop_first() =~= seq!['\\', '\'', '\''] + x);
            let w1 = w.drop_first();
            assert(w1[0] == '\\' && w1.len() >= 2 && w1[1] == '\'');
            assert(w1.skip(2) =~= seq!['\''] + x);
            let w2 = w1.skip(2);
            assert(w2[0] == '\'');
            assert(w2.drop_first() =~= x);
            assert(sh_scan(w2, false) == sh_scan(x, true));
            assert(sh_scan(w, true) == sh_scan(w1, false));
            assert(sh_scan(w1, false) == (match sh_scan(w2, false) {
                Some(v) => Some(seq![w1[1]] + v),
                None => None,
            }));
            match sh_scan(rest, true) {
                Some(v) => { assert(seq!['\''] + (tail + v) =~= s + v); },
                None => {},
            }
        } else {
            let w = quote_char(c) + x;
            assert(w =~= seq![c] + x);
            assert(w.drop_first() =~= x);
            assert(w[0] == c);
            assert(sh_scan(w, true) == (match sh_scan(x, true) {
                Some(v) => Some(seq![c] + v),
                None => None,
            }));
            match sh_scan(rest, true) {
                Some(v) => { assert(seq![c] + (tail + v) =~= s + v); },
                None => {},
            }
        }
    }
}

/// What `shell_quote` produces is read by a POSIX shell as exactly one
/// argument whose value is `s` itself: no quote can be broken out of,
/// no command started and no expansion triggered, whatever `s` holds.
pub proof fn law_shell_quote_is_one_inert_word(s: Seq<char>)
    ensures
        inert_word_value(shell_quoted(s)) == Some(s),
{
    let w = shell_quoted(s);
    assert(w[0] == '\'');
    assert(w.drop_first() =~= quoted_body(s) + seq!['\'']);
    lemma_scan_quoted_body(s, seq!['\'']);
    let q = seq!['\''];
    assert(q[0] == '\'');
    assert(q.drop_first() =~= Seq::<char>::empty());
    assert(sh_scan(Seq::<char>::empty(), false) == Some(Seq::<char>::empty()));
    assert(sh_scan(q, true) == sh_scan(q.drop_first(), false));
    assert(sh_scan(q, true) == Some(Seq::<char>::empty()));
    assert(s + Seq::<char>::empty() =~= s);
}

// ---------------------------------------------------------------------------
// Substitution
// ---------------------------------------------------------------------------

/// `Some(v)` quotes `v` (`Some("")` gives `''`, a real empty argument);
/// `None` inserts nothing.
pub open spec fn quoted_opt(v: Option<String>) -> Seq<char> {
    match v {
        Some(s) => shell_quoted(s@),
        None => seq![],
    }
}

/// `{files}`: each path quoted, joined by single spaces; no paths, nothing.
pub open spec fn quoted_files(fs: Seq<String>) -> Seq<char>
    decreases fs.len(),
{
    if fs.len() == 0 {
        seq![]
    } else if fs.len() == 1 {
        shell_quoted(fs[0]@)
    } else {
        quoted_files(fs.drop_last()) + seq![' '] + shell_quoted(fs.last()@)
    }
}

/// The text that the token `{name}` expands to; an unknown name gives nothing.
pub open spec fn substitution(name: Seq<char>, ctx: PlaceholderCtx) -> Seq<char> {
    if name == "sha"@ {
        quoted_opt(ctx.sha)
    } else if name == "file"@ {
        quoted_opt(ctx.file)
    } else if name == "files"@ {
        quoted_files(ctx.files@)
    } else if name == "diff"@ {
        quoted_opt(ctx.diff)
    } else if name == "repo"@ {
        quoted_opt(ctx.repo)
    } else if name == "branch"@ {
        quoted_opt(ctx.branch)
    } else if name == "ref"@ {
        quoted_opt(ctx.gitref)
    } else {
        seq![]
    }
}

/// Quote an optional value: `Some(v)` gives `shell_quote(v)`, `None` gives "".
pub fn quote_opt(v: &Option<String>) -> (r: String)
    ensures
        r@ == quoted_opt(*v),
{
    match v {
        Some(s) => shell_quote(s.as_str()),
        None => String::new(),
    }
}

/// `{files}`: each path shell-quoted, space-joined. An empty list gives "".
pub fn quote_files(files: &[String]) -> (r: String)
    ensures
        r@ == quoted_files(files@),
{
    let mut out = String::new();
    let mut i: usize = 0;
    while i < files.len()
        invariant
            i <= files.len(),
            out@ == quoted_files(files@.take(i as int)),
        decreases files.len() - i,
    {
        let q = shell_quote(files[i].as_str());
        if i > 0 {
            push_char(&mut out, ' ');
        }
        out.append(q.as_str());
        let ghost t = files@.take(i + 1);
        assert(t.drop_last() =~= files@.take(i as int));
        assert(t.last() == files@[i as int]);
        if i == 0 {
            assert(out@ =~= shell_quoted(files@[0]@));
        }
        i = i + 1;
    }
    assert(files@.take(files.len() as int) =~= files@);
    out
}

/// Map a token name `cs[from..to]` to its quoted value; an unrecognized name
/// gives the empty string.
pub fn substitute(cs: &[char], from: usize, to: usize, ctx: &PlaceholderCtx) -> (r: String)
    requires
        from <= to <= cs@.len(),
    ensures
        r@ == substitution(cs@.subrange(from as int, to as int), *ctx),
{
    if chars_are(cs, from, to, "sha") {
        quote_opt(&ctx.sha)
    } else if chars_are(cs, from, to, "file") {
        quote_opt(&ctx.file)
    } else if chars_are(cs, from, to, "files") {
        quote_files(ctx.files.as_slice())
    } else if chars_are(cs, from, to, "diff") {
        quote_opt(&ctx.diff)
    } else if chars_are(cs, from, to, "repo") {
        quote_opt(&ctx.repo)
    } else if chars_are(cs, from, to, "branch") {
        quote_opt(&ctx.branch)
    } else if chars_are(cs, from, to, "ref") {
        quote_opt(&ctx.gitref)
    } else {
        String::new()
    }
}

// ---------------------------------------------------------------------------
// Tokens and expansion
// ---------------------------------------------------------------------------

/// An ASCII lowercase letter.
pub open spec fn is_lower(c: char) -> bool {
    'a' <= c && c <= 'z'
}

/// The number of ASCII lowercase letters at the start of `s`.
pub open spec fn lower_run(s: Seq<char>) -> nat
    decreases s.len(),
{
    if s.len() > 0 && is_lower(s[0]) {
        1 + lower_run(s.drop_first())
    } else {
        0
    }
}

/// For text starting with `{`: the index of the `}` that closes a token
/// `{` + one or more lowercase letters + `}`, if the text starts with one.
pub open spec fn token_close(t: Seq<char>) -> Option<int> {
    let m = lower_run(t.drop_first()) as int;
    if t.len() > 0 && t[0] == '{' && m > 0 && m + 1 < t.len() && t[m + 1] == '}' {
        Some(m + 1)
    } else {
        None
    }
}

/// The expansion of a template: tokens replaced by their substitution, every
/// other character copied, scanning left to right once.
pub open spec fn expansion(t: Seq<char>, ctx: PlaceholderCtx) -> Seq<char>
    decreases t.len(),
{
    if t.len() == 0 {
        seq![]
    } else {
        match token_close(t) {
            Some(k) => substitution(t.subrange(1, k), ctx) + expansion(t.skip(k + 1), ctx),
            None => seq![t[0]] + expansion(t.drop_first(), ctx),
        }
    }
}

proof fn lemma_lower_run_is(s: Seq<char>, m: int)
    requires
        0 <= m <= s.len(),
        forall|k: int| 0 <= k < m ==> is_lower(#[trigger] s[k]),
        m == s.len() || !is_lower(s[m]),
    ensures
        lower_run(s) == m,
    decreases m,
{
    if m > 0 {
        let d = s.drop_first();
        assert forall|k: int| 0 <= k < m - 1 implies is_lower(#[trigger] d[k]) by {
            assert(d[k] == s[k + 1]);
        }
        if m - 1 < d.len() {
            assert(d[m - 1] == s[m]);
        }
        lemma_lower_run_is(d, m - 1);
    }
}

/// Parse a token off `cs[i..]`, which starts with `{`: the index of the
/// closing `}` when `{` + one or more ASCII lowercase letters + `}` follows,
/// else `None`. Literal braces such as `${HOME}`, `{print $1}` or `{}` are no token.
pub fn parse_token(cs: &[char], i: usize) -> (r: Option<usize>)
    requires
        i < cs@.len(),
        cs@[i as int] == '{',
    ensures
        match token_close(cs@.skip(i as int)) {
            Some(k) => r == Some((i + k) as usize),
            None => r is None,
        },
{
    let n = cs.len();
    assert(i < n);
    let mut j: usize = i + 1;
    while j < cs.len() && 'a' <= cs[j] && cs[j] <= 'z'
        invariant
            i < j <= cs@.len(),
            forall|k: int| i < k < j ==> is_lower(#[trigger] cs@[k]),
        decreases cs.len() - j,
    {
        j = j + 1;
    }
    let ghost t = cs@.skip(i as int);
    let ghost d = t.drop_first();
    proof {
        assert forall|k: int| 0 <= k < j - i - 1 implies is_lower(#[trigger] d[k]) by {
            assert(d[k] == cs@[i + 1 + k]);
        }
        if j < cs.len() {
            assert(d[j - i - 1] == cs@[j as int]);
        }
        lemma_lower_run_is(d, j - i - 1);
        assert(t[0] == '{');
    }
    if j > i + 1 && j < cs.len() && cs[j] == '}' {
        assert(t[j - i] == cs@[j as int]);
        Some(j)
    } else {
        proof {
            if j < cs.len() {
                assert(t[j - i] == cs@[j as int]);
            }
        }
        None
    }
}

/// Expand the `{sha} {file} {files} {diff} {repo} {branch} {ref}` tokens of
/// `template` against `ctx`. Each recognized token is replaced by its
/// shell-quoted value; an absent value and an unrecognized `{name}` expand to
/// the empty string. Single pass: substituted values are copied into the
/// output and never scanned again; text that is no token is copied verbatim.
pub fn expand_placeholders(template: &str, ctx: &PlaceholderCtx) -> (r: String)
    ensures
        r@ == expansion(template@, *ctx),
{
    let cs = chars_of(template);
    let mut out = String::new();
    let mut i: usize = 0;
    assert(cs@.skip(0) =~= cs@);
    while i < cs.len()
        invariant
            cs@ == template@,
            i <= cs.len(),
            out@ + expansion(cs@.skip(i as int), *ctx) == expansion(cs@, *ctx),
        decreases cs.len() - i,
    {
        let ghost t = cs@.skip(i as int);
        let ghost before = out@;
        if cs[i] == '{' {
            if let Some(k) = parse_token(cs.as_slice(), i) {
                let sub = substitute(cs.as_slice(), i + 1, k, ctx);
                out.append(sub.as_str());
                proof {
                    let kk = (k - i) as int;
                    assert(token_close(t) == Some(kk));
                    assert(t.subrange(1, kk) =~= cs@.subrange(i + 1, k as int));
                    assert(t.skip(kk + 1) =~= cs@.skip(k + 1));
                    assert(expansion(t, *ctx) == substitution(t.subrange(1, kk), *ctx) + expansion(
                        t.skip(kk + 1),
                        *ctx,
                    ));
                    assert(out@ + expansion(cs@.skip(k + 1), *ctx) =~= before + expansion(t, *ctx));
                }
                i = k + 1;
                continue;
            }
        }
        let c = cs[i];
        push_char(&mut out, c);
        proof {
            assert(t[0] == c);
            assert(token_close(t) is None);
            assert(t.drop_first() =~= cs@.skip(i + 1));
            assert(out@ + expansion(cs@.skip(i + 1), *ctx) =~= before + expansion(t, *ctx));
        }
        i = i + 1;
    }
    assert(cs@.skip(cs.len() as int) =~= Seq::<char>::empty());
    assert(out@ + Seq::<char>::empty() =~= out@);
    out
}

// ---------------------------------------------------------------------------
// Laws of the expansion
// ---------------------------------------------------------------------------

/// Text that holds no `{` is copied through unchanged.
pub proof fn law_text_without_braces_is_unchanged(t: Seq<char>, ctx: PlaceholderCtx)
    requires
        forall|k: int| 0 <= k < t.len() ==> t[k] != '{',
    ensures
        expansion(t, ctx) == t,
    decreases t.len(),
{
    if t.len() > 0 {
        let d = t.drop_first();
        assert forall|k: int| 0 <= k < d.len() implies d[k] != '{' by {
            assert(d[k] == t[k + 1]);
        }
        law_text_without_braces_is_unchanged(d, ctx);
        assert(seq![t[0]] + d =~= t);
    }
}

/// Literal text before a token does not change how the rest expands: the
/// expansion of `p + q`, where `p` holds no `{`, is `p` followed by the
/// expansion of `q`.
pub proof fn law_literal_prefix(p: Seq<char>, q: Seq<char>, ctx: PlaceholderCtx)
    requires
        forall|k: int| 0 <= k < p.len() ==> p[k] != '{',
    ensures
        expansion(p + q, ctx) == p + expansion(q, ctx),
    decreases p.len(),
{
    if p.len() == 0 {
        assert(p + q =~= q);
        assert(p + expansion(q, ctx) =~= expansion(q, ctx));
    } else {
        let d = p.drop_first();
        assert forall|k: int| 0 <= k < d.len() implies d[k] != '{' by {
            assert(d[k] == p[k + 1]);
        }
        law_literal_prefix(d, q, ctx);
        let t = p + q;
        assert(t[0] == p[0]);
        assert(t.drop_first() =~= d + q);
        assert(seq![p[0]] + (d + expansion(q, ctx)) =~= p + expansion(q, ctx));
    }
}

/// A token at the start is replaced by its substitution and the scan goes on
/// after the token, in the template: what was substituted is never scanned,
/// so a value holding `{repo}` or any other token text stays as it is.
pub proof fn law_token_then_rest(name: Seq<char>, rest: Seq<char>, ctx: PlaceholderCtx)
    requires
        name.len() > 0,
        forall|k: int| 0 <= k < name.len() ==> is_lower(#[trigger] name[k]),
    ensures
        expansion(seq!['{'] + name + seq!['}'] + rest, ctx) == substitution(name, ctx) + expansion(
            rest,
            ctx,
        ),
{
    let t = seq!['{'] + name + seq!['}'] + rest;
    let d = t.drop_first();
    assert(d =~= name + seq!['}'] + rest);
    assert forall|k: int| 0 <= k < name.len() implies is_lower(#[trigger] d[k]) by {
        assert(d[k] == name[k]);
    }
    assert(d[name.len() as int] == '}');
    lemma_lower_run_is(d, name.len() as int);
    let m = name.len() as int;
    assert(t[m + 1] == '}');
    assert(token_close(t) == Some(m + 1));
    assert(t.subrange(1, m + 1) =~= name);
    assert(t.skip(m + 2) =~= rest);
}

/// No `{` of `t` opens a token: every `{` is followed by something other than
/// one or more lowercase letters and a `}`.
pub open spec fn has_no_token(t: Seq<char>) -> bool {
    forall|i: int| 0 <= i < t.len() && t[i] == '{' ==> #[trigger] token_close(t.skip(i)) is None
}

/// A template without any `{name}` token is copied unchanged: stray `{`,
/// `{}`, `${HOME}`, `${1}`, `{print $1}`, `{Sha}`, `{sha_x}` and an
/// unterminated `a{sha` all stay as they are.
pub proof fn law_text_without_tokens_is_unchanged(t: Seq<char>, ctx: PlaceholderCtx)
    requires
        has_no_token(t),
    ensures
        expansion(t, ctx) == t,
    decreases t.len(),
{
    if t.len() > 0 {
        let d = t.drop_first();
        assert forall|i: int| 0 <= i < d.len() && d[i] == '{' implies #[trigger] token_close(
            d.skip(i),
        ) is None by {
            assert(d[i] == t[i + 1]);
            assert(d.skip(i) =~= t.skip(i + 1));
        }
        law_text_without_tokens_is_unchanged(d, ctx);
        if t[0] == '{' {
            assert(t.skip(0) =~= t);
        }
        assert(token_close(t) is None);
        assert(seq![t[0]] + d =~= t);
    }
}

/// The text of the token `{name}`.
pub open spec fn token_text(name: Seq<char>) -> Seq<char> {
    seq!['{'] + name + seq!['}']
}

/// `w` occurs in `s`.
pub open spec fn occurs(w: Seq<char>, s: Seq<char>) -> bool {
    exists|i: int| 0 <= i && i + w.len() <= s.len() && #[trigger] s.subrange(i, i + w.len()) == w
}

/// Two contexts agree on every field whose token occurs in `t`.
pub open spec fn agree_on_tokens(t: Seq<char>, c1: PlaceholderCtx, c2: PlaceholderCtx) -> bool {
    &&& occurs(token_text("sha"@), t) ==> c1.sha == c2.sha
    &&& occurs(token_text("file"@), t) ==> c1.file == c2.file
    &&& occurs(token_text("files"@), t) ==> c1.files@ == c2.files@
    &&& occurs(token_text("diff"@), t) ==> c1.diff == c2.diff
    &&& occurs(token_text("repo"@), t) ==> c1.repo == c2.repo
    &&& occurs(token_text("branch"@), t) ==> c1.branch == c2.branch
    &&& occurs(token_text("ref"@), t) ==> c1.gitref == c2.gitref
}

proof fn lemma_occurs_in_suffix(w: Seq<char>, t: Seq<char>, m: int)
    requires
        0 <= m <= t.len(),
        occurs(w, t.skip(m)),
    ensures
        occurs(w, t),
{
    let u = t.skip(m);
    let i = choose|i: int| 0 <= i && i + w.len() <= u.len() && #[trigger] u.subrange(i, i + w.len()) == w;
    assert(t.subrange(i + m, i + m + w.len()) =~= u.subrange(i, i + w.len()));
}

proof fn lemma_agree_on_suffix(t: Seq<char>, c1: PlaceholderCtx, c2: PlaceholderCtx, m: int)
    requires
        0 <= m <= t.len(),
        agree_on_tokens(t, c1, c2),
    ensures
        agree_on_tokens(t.skip(m), c1, c2),
{
    if occurs(token_text("sha"@), t.skip(m)) {
        lemma_occurs_in_suffix(token_text("sha"@), t, m);
    }
    if occurs(token_text("file"@), t.skip(m)) {
        lemma_occurs_in_suffix(token_text("file"@), t, m);
    }
    if occurs(token_text("files"@), t.skip(m)) {
        lemma_occurs_in_suffix(token_text("files"@), t, m);
    }
    if occurs(token_text("diff"@), t.skip(m)) {
        lemma_occurs_in_suffix(token_text("diff"@), t, m);
    }
    if occurs(token_text("repo"@), t.skip(m)) {
        lemma_occurs_in_suffix(token_text("repo"@), t, m);
    }
    if occurs(token_text("branch"@), t.skip(m)) {
        lemma_occurs_in_suffix(token_text("branch"@), t, m);
    }
    if occurs(token_text("ref"@), t.skip(m)) {
        lemma_occurs_in_suffix(token_text("ref"@), t, m);
    }
}

/// A field reaches the output only through its own token in the template:
/// two contexts that agree on the fields whose tokens occur in `t` expand it
/// alike, whatever their other fields (and their values) hold.
pub proof fn law_only_present_tokens_matter(t: Seq<char>, c1: PlaceholderCtx, c2: PlaceholderCtx)
    requires
        agree_on_tokens(t, c1, c2),
    ensures
        expansion(t, c1) == expansion(t, c2),
    decreases t.len(),
{
    if t.len() > 0 {
        match token_close(t) {
            Some(k) => {
                let n = t.subrange(1, k);
                assert(t.subrange(0, k + 1) =~= token_text(n));
                assert(token_text(n).len() == k + 1);
                assert(t.subrange(0, 0 + token_text(n).len() as int) == token_text(n));
                assert(occurs(token_text(n), t));
                assert(substitution(n, c1) == substitution(n, c2));
                lemma_agree_on_suffix(t, c1, c2, k + 1);
                law_only_present_tokens_matter(t.skip(k + 1), c1, c2);
            },
            None => {
                lemma_agree_on_suffix(t, c1, c2, 1);
                assert(t.skip(1) =~= t.drop_first());
                law_only_present_tokens_matter(t.drop_first(), c1, c2);
            },
        }
    }
}

/// `a` does not end inside a possible token: no suffix of `a` is `{`
/// followed only by lowercase letters.
pub open spec fn ends_outside_token(a: Seq<char>) -> bool {
    forall|i: int| 0 <= i < a.len() && a[i] == '{' ==> #[trigger] lower_run(a.skip(i + 1)) < a.len() - i - 1
}

proof fn lemma_ends_outside_token_skip(a: Seq<char>, j: int)
    requires
        0 <= j <= a.len(),
        ends_outside_token(a),
    ensures
        ends_outside_token(a.skip(j)),
{
    let u = a.skip(j);
    assert forall|i: int| 0 <= i < u.len() && u[i] == '{' implies #[trigger] lower_run(u.skip(i + 1))
        < u.len() - i - 1 by {
        assert(u[i] == a[i + j]);
        assert(u.skip(i + 1) =~= a.skip(i + j + 1));
        assert(lower_run(a.skip(i + j + 1)) < a.len() - (i + j) - 1);
    }
}

proof fn lemma_lower_run_concat(x: Seq<char>, y: Seq<char>)
    requires
        lower_run(x) < x.len(),
    ensures
        lower_run(x + y) == lower_run(x),
    decreases x.len(),
{
    let z = x + y;
    assert(z[0] == x[0]);
    if is_lower(x[0]) {
        assert(z.drop_first() =~= x.drop_first() + y);
        lemma_lower_run_concat(x.drop_first(), y);
    }
}

/// Expansion distributes over concatenation when the first part does not
/// end inside a possible token: `expand(a + b) == expand(a) + expand(b)`.
pub proof fn law_expansion_of_concatenation(a: Seq<char>, b: Seq<char>, ctx: PlaceholderCtx)
    requires
        ends_outside_token(a),
    ensures
        expansion(a + b, ctx) == expansion(a, ctx) + expansion(b, ctx),
    decreases a.len(),
{
    let t = a + b;
    if a.len() == 0 {
        assert(t =~= b);
        assert(expansion(a, ctx) + expansion(b, ctx) =~= expansion(b, ctx));
    } else {
        assert(t[0] == a[0]);
        assert(t.drop_first() =~= a.drop_first() + b);
        if a[0] == '{' {
            assert(a.skip(1) =~= a.drop_first());
            assert(lower_run(a.drop_first()) < a.len() - 1);
            lemma_lower_run_concat(a.drop_first(), b);
            let m = lower_run(a.drop_first()) as int;
            assert(t[m + 1] == a[m + 1]);
            assert(token_close(t) == token_close(a));
        } else {
            assert(token_close(t) is None);
            assert(token_close(a) is None);
        }
        match token_close(a) {
            Some(k) => {
                assert(t.subrange(1, k) =~= a.subrange(1, k));
                assert(t.skip(k + 1) =~= a.skip(k + 1) + b);
                lemma_ends_outside_token_skip(a, k + 1);
                law_expansion_of_concatenation(a.skip(k + 1), b, ctx);
                assert(expansion(t, ctx) =~= expansion(a, ctx) + expansion(b, ctx));
            },
            None => {
                assert(a.skip(1) =~= a.drop_first());
                lemma_ends_outside_token_skip(a, 1);
                law_expansion_of_concatenation(a.drop_first(), b, ctx);
                assert(expansion(t, ctx) =~= expansion(a, ctx) + expansion(b, ctx));
            },
        }
    }
}

/// The scalar token `{name}` whose placeholder holds `v`.
pub open spec fn scalar_value_is(name: Seq<char>, ctx: PlaceholderCtx, v: String) -> bool {
    ||| name == "sha"@ && ctx.sha == Some(v)
    ||| name == "file"@ && ctx.file == Some(v)
    ||| name == "diff"@ && ctx.diff == Some(v)
    ||| name == "repo"@ && ctx.repo == Some(v)
    ||| name == "branch"@ && ctx.branch == Some(v)
    ||| name == "ref"@ && ctx.gitref == Some(v)
}

/// A lone scalar token whose value is present expands to exactly one inert
/// shell word whose value is the placeholder's value, whatever it holds.
pub proof fn law_scalar_token_is_one_inert_word(name: Seq<char>, ctx: PlaceholderCtx, v: String)
    requires
        scalar_value_is(name, ctx, v),
    ensures
        inert_word_value(expansion(seq!['{'] + name + seq!['}'], ctx)) == Some(v@),
{
    reveal_strlit("sha");
    reveal_strlit("file");
    reveal_strlit("files");
    reveal_strlit("diff");
    reveal_strlit("repo");
    reveal_strlit("branch");
    reveal_strlit("ref");
    assert(name.len() > 0);
    assert forall|k: int| 0 <= k < name.len() implies is_lower(#[trigger] name[k]) by {}
    let t = seq!['{'] + name + seq!['}'];
    assert(t =~= seq!['{'] + name + seq!['}'] + Seq::<char>::empty());
    law_token_then_rest(name, Seq::<char>::empty(), ctx);
    assert(expansion(Seq::<char>::empty(), ctx) == Seq::<char>::empty());
    assert(substitution(name, ctx) + Seq::<char>::empty() =~= shell_quoted(v@));
    law_shell_quote_is_one_inert_word(v@);
}

/// The token `{name}` whose placeholder has no value: a scalar placeholder
/// that is `None`, or `{files}` with no paths.
pub open spec fn value_absent(name: Seq<char>, ctx: PlaceholderCtx) -> bool {
    ||| name == "sha"@ && ctx.sha is None
    ||| name == "file"@ && ctx.file is None
    ||| name == "diff"@ && ctx.diff is None
    ||| name == "repo"@ && ctx.repo is None
    ||| name == "branch"@ && ctx.branch is None
    ||| name == "ref"@ && ctx.gitref is None
    ||| name == "files"@ && ctx.files@.len() == 0
}

/// A token whose value is absent inserts nothing, not even an empty quoted
/// argument: the template expands as if the token were not there, whatever
/// follows it. In particular a lone `{name}` expands to the empty text.
pub proof fn law_absent_value_inserts_nothing(name: Seq<char>, rest: Seq<char>, ctx: PlaceholderCtx)
    requires
        value_absent(name, ctx),
    ensures
        expansion(seq!['{'] + name + seq!['}'] + rest, ctx) == expansion(rest, ctx),
        expansion(seq!['{'] + name + seq!['}'], ctx).len() == 0,
{
    reveal_strlit("sha");
    reveal_strlit("file");
    reveal_strlit("files");
    reveal_strlit("diff");
    reveal_strlit("repo");
    reveal_strlit("branch");
    reveal_strlit("ref");
    assert(name.len() > 0);
    assert forall|k: int| 0 <= k < name.len() implies is_lower(#[trigger] name[k]) by {}
    law_token_then_rest(name, rest, ctx);
    law_token_then_rest(name, Seq::<char>::empty(), ctx);
    assert(substitution(name, ctx) =~= Seq::<char>::empty());
    assert(seq!['{'] + name + seq!['}'] + Seq::<char>::empty() =~= seq!['{'] + name + seq!['}']);
    assert(substitution(name, ctx) + expansion(rest, ctx) =~= expansion(rest, ctx));
}

/// An unrecognised token, `{` and lowercase letters and `}` that name none
/// of the seven placeholders, expands to nothing: it is dropped, and the
/// scan goes on after it in the template.
pub proof fn law_unknown_token_inserts_nothing(name: Seq<char>, rest: Seq<char>, ctx: PlaceholderCtx)
    requires
        name.len() > 0,
        forall|k: int| 0 <= k < name.len() ==> 'a' <= #[trigger] name[k] && name[k] <= 'z',
        name != "sha"@ && name != "file"@ && name != "files"@ && name != "diff"@,
        name != "repo"@ && name != "branch"@ && name != "ref"@,
    ensures
        expansion(seq!['{'] + name + seq!['}'] + rest, ctx) == expansion(rest, ctx),
{
    assert forall|k: int| 0 <= k < name.len() implies is_lower(#[trigger] name[k]) by {}
    law_token_then_rest(name, rest, ctx);
    assert(substitution(name, ctx) + expansion(rest, ctx) =~= expansion(rest, ctx));
}

/// A scalar token whose value is present is replaced by that value as one
/// inert shell word, and the scan goes on after the token in the template.
pub proof fn law_present_value_is_one_word_then_rest(
    name: Seq<char>,
    rest: Seq<char>,
    ctx: PlaceholderCtx,
    v: String,
)
    requires
        scalar_value_is(name, ctx, v),
    ensures
        ({
            let w = expansion(seq!['{'] + name + seq!['}'] + rest, ctx);
            let n = (w.len() - expansion(rest, ctx).len()) as int;
            &&& expansion(rest, ctx).len() <= w.len()
            &&& w.skip(n) == expansion(rest, ctx)
            &&& inert_word_value(w.take(n)) == Some(v@)
        }),
{
    reveal_strlit("sha");
    reveal_strlit("file");
    reveal_strlit("files");
    reveal_strlit("diff");
    reveal_strlit("repo");
    reveal_strlit("branch");
    reveal_strlit("ref");
    assert(name.len() > 0);
    assert forall|k: int| 0 <= k < name.len() implies is_lower(#[trigger] name[k]) by {}
    law_token_then_rest(name, rest, ctx);
    let q = substitution(name, ctx);
    assert(q == shell_quoted(v@));
    let w = expansion(seq!['{'] + name + seq!['}'] + rest, ctx);
    assert(w.take(q.len() as int) =~= q);
    assert(w.skip(q.len() as int) =~= expansion(rest, ctx));
    law_shell_quote_is_one_inert_word(v@);
}

// ---------------------------------------------------------------------------
// The Windows fail-closed guard
// ---------------------------------------------------------------------------

/// A character that `cmd.exe` acts on whatever the single-quoting:
/// `& | < > ^ % ! "`, carriage return and line feed.
pub open spec fn is_cmd_meta(c: char) -> bool {
    ||| c == '&'
    ||| c == '|'
    ||| c == '<'
    ||| c == '>'
    ||| c == '^'
    ||| c == '%'
    ||| c == '!'
    ||| c == '"'
    ||| c == '\r'
    ||| c == '\n'
}

/// Text holding a `cmd.exe` metacharacter.
pub open spec fn has_cmd_meta(s: Seq<char>) -> bool {
    exists|k: int| 0 <= k < s.len() && is_cmd_meta(#[trigger] s[k])
}

/// True if `s` contains a character `cmd.exe` treats as a metacharacter
/// regardless of single-quoting, i.e. a value that could break out of its
/// argument under `cmd /C`.
pub fn windows_cmd_unsafe(s: &str) -> (r: bool)
    ensures
        r == has_cmd_meta(s@),
{
    let cs = chars_of(s);
    let mut i: usize = 0;
    while i < cs.len()
        invariant
            cs@ == s@,
            i <= cs.len(),
            forall|k: int| 0 <= k < i ==> !is_cmd_meta(#[trigger] cs@[k]),
        decreases cs.len() - i,
    {
        let c = cs[i];
        if c == '&' || c == '|' || c == '<' || c == '>' || c == '^' || c == '%' || c == '!' || c
            == '"' || c == '\r' || c == '\n' {
            assert(is_cmd_meta(cs@[i as int]));
            return true;
        }
        i = i + 1;
    }
    false
}

/// The `(token, value)` pair of an optional scalar, if present.
pub open spec fn opt_pair(tok: Seq<char>, v: Option<String>) -> Seq<(Seq<char>, Seq<char>)> {
    match v {
        Some(s) => seq![(tok, s@)],
        None => seq![],
    }
}

/// One `("files", path)` pair per path.
pub open spec fn files_pairs(fs: Seq<String>) -> Seq<(Seq<char>, Seq<char>)> {
    fs.map_values(|f: String| ("files"@, f@))
}

/// The `(token, value)` pairs that will be substituted, in the order sha,
/// file, each of files, diff, repo, branch, ref.
pub open spec fn ctx_pairs(ctx: PlaceholderCtx) -> Seq<(Seq<char>, Seq<char>)> {
    opt_pair("sha"@, ctx.sha) + opt_pair("file"@, ctx.file) + files_pairs(ctx.files@) + opt_pair(
        "diff"@,
        ctx.diff,
    ) + opt_pair("repo"@, ctx.repo) + opt_pair("branch"@, ctx.branch) + opt_pair(
        "ref"@,
        ctx.gitref,
    )
}

/// The views of a list of `(token, value)` pairs.
pub open spec fn pair_views(v: Seq<(&str, &str)>) -> Seq<(Seq<char>, Seq<char>)> {
    v.map_values(|p: (&str, &str)| (p.0@, p.1@))
}

fn push_opt<'a>(v: &mut Vec<(&'static str, &'a str)>, tok: &'static str, o: &'a Option<String>)
    ensures
        pair_views(final(v)@) == pair_views(old(v)@) + opt_pair(tok@, *o),
{
    let ghost before = v@;
    match o {
        Some(s) => {
            v.push((tok, s.as_str()));
            assert(pair_views(v@) =~= pair_views(before) + opt_pair(tok@, *o));
        },
        None => {
            assert(pair_views(v@) =~= pair_views(before) + opt_pair(tok@, *o));
        },
    }
}

/// The `(token, value)` pairs that will be substituted, for the Windows
/// fail-closed scan.
pub fn ctx_values<'a>(ctx: &'a PlaceholderCtx) -> (r: Vec<(&'static str, &'a str)>)
    ensures
        pair_views(r@) == ctx_pairs(*ctx),
{
    let mut v: Vec<(&'static str, &'a str)> = Vec::new();
    assert(pair_views(v@) =~= Seq::<(Seq<char>, Seq<char>)>::empty());
    push_opt(&mut v, "sha", &ctx.sha);
    push_opt(&mut v, "file", &ctx.file);
    let ghost base = pair_views(v@);
    let mut i: usize = 0;
    while i < ctx.files.len()
        invariant
            i <= ctx.files@.len(),
            pair_views(v@) == base + files_pairs(ctx.files@.take(i as int)),
        decreases ctx.files.len() - i,
    {
        let ghost before = v@;
        v.push(("files", ctx.files[i].as_str()));
        assert(pair_views(v@) =~= pair_views(before).push(("files"@, ctx.files@[i as int]@)));
        assert(files_pairs(ctx.files@.take(i + 1)) =~= files_pairs(ctx.files@.take(i as int)).push(
            ("files"@, ctx.files@[i as int]@),
        ));
        i = i + 1;
    }
    assert(ctx.files@.take(ctx.files.len() as int) =~= ctx.files@);
    push_opt(&mut v, "diff", &ctx.diff);
    push_opt(&mut v, "repo", &ctx.repo);
    push_opt(&mut v, "branch", &ctx.branch);
    push_opt(&mut v, "ref", &ctx.gitref);
    assert(pair_views(v@) =~= ctx_pairs(*ctx));
    v
}

} // verus!
