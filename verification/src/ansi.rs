//! Removal of ANSI escape sequences from command output: command-line tools
//! stream colour and cursor escapes even when their output is a pipe.

use vstd::prelude::*;
use crate::text::{chars_of, push_char};

verus! {

/// The escape character `ESC` (U+001B).
pub open spec fn esc() -> char {
    '\u{1b}'
}

/// A CSI final byte: `@` through `~`.
pub open spec fn is_csi_final(c: char) -> bool {
    '@' <= c && c <= '~'
}

/// How many characters after `ESC [` a CSI sequence takes: up to and
/// including its final byte, or everything left when there is none.
pub open spec fn csi_len(r: Seq<char>) -> nat
    decreases r.len(),
{
    if r.len() == 0 {
        0
    } else if is_csi_final(r[0]) {
        1
    } else {
        1 + csi_len(r.drop_first())
    }
}

/// How many characters after `ESC ]` an OSC sequence takes: up to and
/// including a BEL, or an `ESC` (with the `\` of an `ESC \` terminator), or
/// everything left when there is no terminator.
pub open spec fn osc_len(r: Seq<char>) -> nat
    decreases r.len(),
{
    if r.len() == 0 {
        0
    } else if r[0] == '\u{7}' {
        1
    } else if r[0] == esc() {
        if r.len() >= 2 && r[1] == '\\' {
            2
        } else {
            1
        }
    } else {
        1 + osc_len(r.drop_first())
    }
}

/// A CSI sequence never runs past the end of the text.
pub proof fn lemma_csi_len_bound(r: Seq<char>)
    ensures
        csi_len(r) <= r.len(),
    decreases r.len(),
{
    if r.len() > 0 && !is_csi_final(r[0]) {
        lemma_csi_len_bound(r.drop_first());
    }
}

/// An OSC sequence never runs past the end of the text.
pub proof fn lemma_osc_len_bound(r: Seq<char>)
    ensures
        osc_len(r) <= r.len(),
    decreases r.len(),
{
    if r.len() > 0 && r[0] != '\u{7}' && r[0] != esc() {
        lemma_osc_len_bound(r.drop_first());
    }
}

/// `s` with its escape sequences removed: a CSI sequence (`ESC [` … final
/// byte), an OSC sequence (`ESC ]` … BEL or `ESC \`), and any other `ESC`
/// together with the character after it. Everything else is kept in order.
pub open spec fn ansi_stripped(s: Seq<char>) -> Seq<char>
    decreases s.len(),
{
    if s.len() == 0 {
        seq![]
    } else if s[0] != esc() {
        seq![s[0]] + ansi_stripped(s.drop_first())
    } else if s.len() >= 2 && s[1] == '[' {
        proof {
            lemma_csi_len_bound(s.skip(2));
        }
        ansi_stripped(s.skip(2 + csi_len(s.skip(2)) as int))
    } else if s.len() >= 2 && s[1] == ']' {
        proof {
            lemma_osc_len_bound(s.skip(2));
        }
        ansi_stripped(s.skip(2 + osc_len(s.skip(2)) as int))
    } else if s.len() >= 2 {
        ansi_stripped(s.skip(2))
    } else {
        seq![]
    }
}

/// Strip ANSI escape sequences from `s`, character by character, so that
/// multibyte text survives.
pub fn strip_ansi(s: &str) -> (r: String)
    ensures
        r@ == ansi_stripped(s@),
{
    let cs = chars_of(s);
    let n = cs.len();
    let mut out = String::new();
    let mut i: usize = 0;
    assert(cs@.skip(0) =~= cs@);
    while i < n
        invariant
            cs@ == s@,
            n == cs@.len(),
            i <= n,
            out@ + ansi_stripped(cs@.skip(i as int)) == ansi_stripped(cs@),
        decreases n - i,
    {
        let ghost t = cs@.skip(i as int);
        let ghost before = out@;
        let c = cs[i];
        assert(t[0] == c);
        if c != '\u{1b}' {
            push_char(&mut out, c);
            assert(t.drop_first() =~= cs@.skip(i + 1));
            assert(out@ + ansi_stripped(cs@.skip(i + 1)) =~= before + ansi_stripped(t));
            i = i + 1;
        } else if i + 1 < n && cs[i + 1] == '[' {
            assert(t[1] == cs@[i + 1]);
            let ghost r = t.skip(2);
            assert(r =~= cs@.skip(i + 2));
            let mut j: usize = i + 2;
            assert(cs@.skip(j as int) =~= r);
            while j < n && !('@' <= cs[j] && cs[j] <= '~')
                invariant
                    n == cs@.len(),
                    i + 2 <= j <= n,
                    r == cs@.skip(i + 2),
                    csi_len(r) == (j - (i + 2)) + csi_len(cs@.skip(j as int)),
                decreases n - j,
            {
                let ghost u = cs@.skip(j as int);
                assert(u[0] == cs@[j as int]);
                assert(u.drop_first() =~= cs@.skip(j + 1));
                j = j + 1;
            }
            if j < n {
                let ghost u = cs@.skip(j as int);
                assert(u[0] == cs@[j as int]);
                assert(csi_len(u) == 1);
                j = j + 1;
            } else {
                assert(cs@.skip(j as int).len() == 0);
            }
            assert(t.skip(2 + csi_len(r) as int) =~= cs@.skip(j as int));
            i = j;
        } else if i + 1 < n && cs[i + 1] == ']' {
            assert(t[1] == cs@[i + 1]);
            let ghost r = t.skip(2);
            assert(r =~= cs@.skip(i + 2));
            let mut j: usize = i + 2;
            assert(cs@.skip(j as int) =~= r);
            while j < n && cs[j] != '\u{7}' && cs[j] != '\u{1b}'
                invariant
                    n == cs@.len(),
                    i + 2 <= j <= n,
                    r == cs@.skip(i + 2),
                    osc_len(r) == (j - (i + 2)) + osc_len(cs@.skip(j as int)),
                decreases n - j,
            {
                let ghost u = cs@.skip(j as int);
                assert(u[0] == cs@[j as int]);
                assert(u.drop_first() =~= cs@.skip(j + 1));
                j = j + 1;
            }
            if j < n {
                let ghost u = cs@.skip(j as int);
                assert(u[0] == cs@[j as int]);
                if cs[j] == '\u{7}' {
                    assert(osc_len(u) == 1);
                    j = j + 1;
                } else if j + 1 < n && cs[j + 1] == '\\' {
                    assert(u[1] == cs@[j + 1]);
                    assert(osc_len(u) == 2);
                    j = j + 2;
                } else {
                    proof {
                        if u.len() >= 2 {
                            assert(u[1] == cs@[j + 1]);
                        }
                    }
                    assert(osc_len(u) == 1);
                    j = j + 1;
                }
            } else {
                assert(cs@.skip(j as int).len() == 0);
            }
            assert(t.skip(2 + osc_len(r) as int) =~= cs@.skip(j as int));
            i = j;
        } else if i + 1 < n {
            assert(t[1] == cs@[i + 1]);
            assert(t.skip(2) =~= cs@.skip(i + 2));
            i = i + 2;
        } else {
            assert(cs@.skip(i + 1).len() == 0);
            assert(ansi_stripped(cs@.skip(i + 1)) =~= Seq::<char>::empty());
            i = i + 1;
        }
    }
    assert(ansi_stripped(cs@.skip(n as int)) =~= Seq::<char>::empty());
    assert(out@ + Seq::<char>::empty() =~= out@);
    out
}

/// No escape character is left after stripping.
pub proof fn law_stripped_text_has_no_escape(s: Seq<char>)
    ensures
        forall|k: int| 0 <= k < ansi_stripped(s).len() ==> #[trigger] ansi_stripped(s)[k] != esc(),
    decreases s.len(),
{
    if s.len() == 0 {
    } else if s[0] != esc() {
        law_stripped_text_has_no_escape(s.drop_first());
        let a = ansi_stripped(s.drop_first());
        assert(ansi_stripped(s) == seq![s[0]] + a);
        assert forall|k: int| 0 <= k < ansi_stripped(s).len() implies #[trigger] ansi_stripped(
            s,
        )[k] != esc() by {
            if k > 0 {
                assert(ansi_stripped(s)[k] == a[k - 1]);
            }
        }
    } else if s.len() >= 2 && s[1] == '[' {
        lemma_csi_len_bound(s.skip(2));
        let rest = s.skip(2 + csi_len(s.skip(2)) as int);
        law_stripped_text_has_no_escape(rest);
        assert(ansi_stripped(s) == ansi_stripped(rest));
    } else if s.len() >= 2 && s[1] == ']' {
        lemma_osc_len_bound(s.skip(2));
        let rest = s.skip(2 + osc_len(s.skip(2)) as int);
        law_stripped_text_has_no_escape(rest);
        assert(ansi_stripped(s) == ansi_stripped(rest));
    } else if s.len() >= 2 {
        law_stripped_text_has_no_escape(s.skip(2));
        assert(ansi_stripped(s) == ansi_stripped(s.skip(2)));
    } else {
        assert(ansi_stripped(s).len() == 0);
    }
}

/// Text without an escape character comes through unchanged: plain text,
/// multibyte text included, is never altered.
pub proof fn law_plain_text_is_unchanged(s: Seq<char>)
    requires
        forall|k: int| 0 <= k < s.len() ==> #[trigger] s[k] != esc(),
    ensures
        ansi_stripped(s) == s,
    decreases s.len(),
{
    if s.len() > 0 {
        let d = s.drop_first();
        assert forall|k: int| 0 <= k < d.len() implies #[trigger] d[k] != esc() by {
            assert(d[k] == s[k + 1]);
        }
        law_plain_text_is_unchanged(d);
        assert(seq![s[0]] + d =~= s);
    }
}

/// Stripping twice is stripping once.
pub proof fn law_strip_is_idempotent(s: Seq<char>)
    ensures
        ansi_stripped(ansi_stripped(s)) == ansi_stripped(s),
{
    law_stripped_text_has_no_escape(s);
    law_plain_text_is_unchanged(ansi_stripped(s));
}

proof fn lemma_csi_len_of(p: Seq<char>, f: char, t: Seq<char>)
    requires
        forall|k: int| 0 <= k < p.len() ==> !('@' <= #[trigger] p[k] && p[k] <= '~'),
        '@' <= f && f <= '~',
    ensures
        csi_len(p + seq![f] + t) == p.len() + 1,
    decreases p.len(),
{
    let r = p + seq![f] + t;
    if p.len() == 0 {
        assert(r[0] == f);
    } else {
        assert(r[0] == p[0]);
        assert(r.drop_first() =~= p.drop_first() + seq![f] + t);
        assert forall|k: int| 0 <= k < p.drop_first().len() implies !('@' <= #[trigger] p.drop_first()[k]
            && p.drop_first()[k] <= '~') by {
            assert(p.drop_first()[k] == p[k + 1]);
        }
        lemma_csi_len_of(p.drop_first(), f, t);
    }
}

proof fn lemma_osc_len_of(p: Seq<char>, term: Seq<char>, t: Seq<char>)
    requires
        forall|k: int| 0 <= k < p.len() ==> #[trigger] p[k] != '\u{7}' && p[k] != '\u{1b}',
        term == seq!['\u{7}'] || term == seq!['\u{1b}', '\\'],
    ensures
        osc_len(p + term + t) == p.len() + term.len(),
    decreases p.len(),
{
    let r = p + term + t;
    if p.len() == 0 {
        assert(r[0] == term[0]);
        if term.len() == 2 {
            assert(r[1] == term[1]);
        }
    } else {
        assert(r[0] == p[0]);
        assert(r.drop_first() =~= p.drop_first() + term + t);
        assert forall|k: int| 0 <= k < p.drop_first().len() implies #[trigger] p.drop_first()[k]
            != '\u{7}' && p.drop_first()[k] != '\u{1b}' by {
            assert(p.drop_first()[k] == p[k + 1]);
        }
        lemma_osc_len_of(p.drop_first(), term, t);
    }
}

/// A character other than `ESC` is kept, in front of whatever the rest of
/// the text strips to.
pub proof fn law_plain_character_is_kept(c: char, t: Seq<char>)
    requires
        c != '\u{1b}',
    ensures
        ansi_stripped(seq![c] + t) == seq![c] + ansi_stripped(t),
{
    let s = seq![c] + t;
    assert(s[0] == c);
    assert(s.drop_first() =~= t);
}

/// A complete CSI sequence (`ESC [`, parameter characters outside `@`..`~`,
/// then a final character in `@`..`~`) is removed and nothing else: the text
/// after it strips as it would alone, so a space or any other character right
/// after the sequence survives.
pub proof fn law_csi_sequence_is_removed_alone(p: Seq<char>, f: char, t: Seq<char>)
    requires
        forall|k: int| 0 <= k < p.len() ==> !('@' <= #[trigger] p[k] && p[k] <= '~'),
        '@' <= f && f <= '~',
    ensures
        ansi_stripped(seq!['\u{1b}', '['] + p + seq![f] + t) == ansi_stripped(t),
{
    let s = seq!['\u{1b}', '['] + p + seq![f] + t;
    assert(s[0] == '\u{1b}' && s[1] == '[');
    assert(s.skip(2) =~= p + seq![f] + t);
    lemma_csi_len_of(p, f, t);
    assert(s.skip((2 + p.len() + 1) as int) =~= t);
}

/// A complete OSC sequence (`ESC ]`, a body without BEL or `ESC`, then BEL
/// or `ESC \`) is removed and nothing else.
pub proof fn law_osc_sequence_is_removed_alone(p: Seq<char>, term: Seq<char>, t: Seq<char>)
    requires
        forall|k: int| 0 <= k < p.len() ==> #[trigger] p[k] != '\u{7}' && p[k] != '\u{1b}',
        term == seq!['\u{7}'] || term == seq!['\u{1b}', '\\'],
    ensures
        ansi_stripped(seq!['\u{1b}', ']'] + p + term + t) == ansi_stripped(t),
{
    let s = seq!['\u{1b}', ']'] + p + term + t;
    assert(s[0] == '\u{1b}' && s[1] == ']');
    assert(s.skip(2) =~= p + term + t);
    lemma_osc_len_of(p, term, t);
    assert(s.skip((2 + p.len() + term.len()) as int) =~= t);
}

/// Any other escape, `ESC` and the one character after it, is removed and
/// nothing else.
pub proof fn law_two_character_escape_is_removed_alone(c: char, t: Seq<char>)
    requires
        c != '[' && c != ']',
    ensures
        ansi_stripped(seq!['\u{1b}', c] + t) == ansi_stripped(t),
{
    let s = seq!['\u{1b}', c] + t;
    assert(s[0] == '\u{1b}' && s[1] == c);
    assert(s.skip(2) =~= t);
}

proof fn lemma_csi_len_unterminated(p: Seq<char>)
    requires
        forall|k: int| 0 <= k < p.len() ==> !('@' <= #[trigger] p[k] && p[k] <= '~'),
    ensures
        csi_len(p) == p.len(),
    decreases p.len(),
{
    if p.len() > 0 {
        assert(!is_csi_final(p[0]));
        assert forall|k: int| 0 <= k < p.drop_first().len() implies !('@' <= #[trigger] p.drop_first()[k]
            && p.drop_first()[k] <= '~') by {
            assert(p.drop_first()[k] == p[k + 1]);
        }
        lemma_csi_len_unterminated(p.drop_first());
    }
}

/// A CSI sequence that never reaches a final character runs to the end of
/// the text, and a lone `ESC` at the end is dropped: neither leaves anything.
pub proof fn law_unterminated_escape_leaves_nothing(p: Seq<char>)
    requires
        forall|k: int| 0 <= k < p.len() ==> !('@' <= #[trigger] p[k] && p[k] <= '~'),
    ensures
        ansi_stripped(seq!['\u{1b}', '['] + p).len() == 0,
        ansi_stripped(seq!['\u{1b}']).len() == 0,
{
    let s = seq!['\u{1b}', '['] + p;
    assert(s[0] == '\u{1b}' && s[1] == '[');
    assert(s.skip(2) =~= p);
    lemma_csi_len_unterminated(p);
    let e = s.skip((2 + p.len()) as int);
    assert(e =~= Seq::<char>::empty());
    assert(ansi_stripped(s) == ansi_stripped(e));
    assert(seq!['\u{1b}'][0] == '\u{1b}');
}

} // verus!
