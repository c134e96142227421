//! ANSI colouring of terminal text.
use vstd::prelude::*;
use vstd::string::StringExecFns;
use crate::text::{find_char, lemma_find_char};

verus! {

/// The colour classes of runner output.
#[derive(Clone, Copy, Debug, PartialEq, Eq, Structural)]
pub enum Tone {
    Success,
    Failure,
    Skipped,
    Active,
    Muted,
}

/// The ANSI escape sequence that starts text of a tone.
pub open spec fn ansi_code(tone: Tone) -> Seq<char> {
    match tone {
        Tone::Success => "\x1b[32m"@,
        Tone::Failure => "\x1b[31m"@,
        Tone::Skipped => "\x1b[33m"@,
        Tone::Active => "\x1b[36m"@,
        Tone::Muted => "\x1b[2m"@,
    }
}

/// `text` in `tone` when colour is enabled, else `text` itself.
pub open spec fn painted(enabled: bool, tone: Tone, text: Seq<char>) -> Seq<char> {
    if enabled {
        ansi_code(tone) + text + "\x1b[0m"@
    } else {
        text
    }
}

impl Tone {
    pub fn ansi(self) -> (r: &'static str)
        ensures
            r@ == ansi_code(self),
    {
        match self {
            Tone::Success => "\x1b[32m",
            Tone::Failure => "\x1b[31m",
            Tone::Skipped => "\x1b[33m",
            Tone::Active => "\x1b[36m",
            Tone::Muted => "\x1b[2m",
        }
    }
}

/// `text` wrapped in the escape sequences of `tone` when `enabled`.
pub fn paint(enabled: bool, tone: Tone, text: &str) -> (r: String)
    ensures
        r@ == painted(enabled, tone, text@),
{
    if enabled {
        let mut r = String::from_str(tone.ansi());
        r.append(text);
        r.append("\x1b[0m");
        r
    } else {
        String::from_str(text)
    }
}

/// `s` holds no escape character.
#[verifier::opaque]
pub open spec fn no_escape(s: Seq<char>) -> bool {
    forall|i: int| 0 <= i < s.len() ==> s[i] != '\x1b'
}

/// `s` without its ANSI escape sequences: each escape character is left out
/// together with what follows it up to and including the next `m`.
pub open spec fn strip_ansi(s: Seq<char>) -> Seq<char>
    decreases s.len(),
{
    if s.len() == 0 {
        s
    } else if s[0] == '\x1b' {
        let k = find_char(s, 'm');
        if k < s.len() {
            strip_ansi(s.skip(k as int + 1))
        } else {
            Seq::empty()
        }
    } else {
        seq![s[0]] + strip_ansi(s.drop_first())
    }
}

/// Text without escape characters passes through unchanged.
pub proof fn lemma_strip_plain(a: Seq<char>, b: Seq<char>)
    requires
        no_escape(a),
    ensures
        strip_ansi(a + b) == a + strip_ansi(b),
    decreases a.len(),
{
    reveal(strip_ansi);
    reveal(no_escape);
    if a.len() == 0 {
        assert(a + b =~= b);
    } else {
        assert((a + b)[0] == a[0]);
        assert((a + b).drop_first() =~= a.drop_first() + b);
        assert(no_escape(a.drop_first())) by {
            assert forall|i: int| 0 <= i < a.drop_first().len() implies a.drop_first()[i] != '\x1b' by {
                assert(a.drop_first()[i] == a[i + 1]);
            }
        }
        lemma_strip_plain(a.drop_first(), b);
        assert(a =~= seq![a[0]] + a.drop_first());
    }
}

/// An escape sequence is left out whole.
proof fn lemma_strip_code(c: Seq<char>, b: Seq<char>)
    requires
        c.len() > 0,
        c[0] == '\x1b',
        c.last() == 'm',
        forall|j: int| 0 <= j < c.len() - 1 ==> c[j] != 'm',
    ensures
        strip_ansi(c + b) == strip_ansi(b),
{
    reveal(strip_ansi);
    let s = c + b;
    lemma_find_char(s, 'm');
    let k = find_char(s, 'm');
    assert(s[c.len() - 1] == 'm');
    if k < c.len() - 1 {
        assert(s[k as int] == c[k as int]);
    }
    assert(k == c.len() - 1);
    assert(s.skip(k as int + 1) =~= b);
}

/// The escape sequence of every tone, and the reset sequence, are left out whole.
proof fn lemma_strip_tone_codes(tone: Tone, b: Seq<char>)
    ensures
        strip_ansi(ansi_code(tone) + b) == strip_ansi(b),
        strip_ansi("\x1b[0m"@ + b) == strip_ansi(b),
{
    reveal_strlit("\x1b[32m");
    reveal_strlit("\x1b[31m");
    reveal_strlit("\x1b[33m");
    reveal_strlit("\x1b[36m");
    reveal_strlit("\x1b[2m");
    reveal_strlit("\x1b[0m");
    lemma_strip_code(ansi_code(tone), b);
    lemma_strip_code("\x1b[0m"@, b);
}

/// Removing the escape sequences from `a` followed by any text gives `plain`
/// followed by that text with its escape sequences removed.
pub open spec fn strips_to(a: Seq<char>, plain: Seq<char>) -> bool {
    forall|b: Seq<char>| #[trigger] strip_ansi(a + b) == plain + strip_ansi(b)
}

/// Text without escape characters strips to itself.
pub proof fn lemma_strips_plain(a: Seq<char>)
    requires
        no_escape(a),
    ensures
        strips_to(a, a),
{
    assert forall|b: Seq<char>| #[trigger] strip_ansi(a + b) == a + strip_ansi(b) by {
        lemma_strip_plain(a, b);
    }
}

/// Painted text without escape characters strips to the text itself.
pub proof fn lemma_strips_painted(color: bool, tone: Tone, t: Seq<char>)
    requires
        no_escape(t),
    ensures
        strips_to(painted(color, tone, t), t),
{
    assert forall|b: Seq<char>| #[trigger] strip_ansi(painted(color, tone, t) + b) == t + strip_ansi(b) by {
        if color {
            assert(painted(color, tone, t) + b =~= ansi_code(tone) + (t + ("\x1b[0m"@ + b)));
            lemma_strip_tone_codes(tone, t + ("\x1b[0m"@ + b));
            lemma_strip_plain(t, "\x1b[0m"@ + b);
            lemma_strip_tone_codes(tone, b);
        } else {
            lemma_strip_plain(t, b);
        }
    }
}

/// Stripping goes piece by piece.
pub proof fn lemma_strips_concat(a: Seq<char>, ap: Seq<char>, c: Seq<char>, cp: Seq<char>)
    requires
        strips_to(a, ap),
        strips_to(c, cp),
    ensures
        strips_to(a + c, ap + cp),
{
    assert forall|b: Seq<char>| #[trigger] strip_ansi((a + c) + b) == (ap + cp) + strip_ansi(b) by {
        assert((a + c) + b =~= a + (c + b));
        assert(strip_ansi(a + (c + b)) == ap + strip_ansi(c + b));
        assert(strip_ansi(c + b) == cp + strip_ansi(b));
        assert((ap + cp) + strip_ansi(b) =~= ap + (cp + strip_ansi(b)));
    }
}

/// A whole text that strips to `plain` is `plain` without its escape sequences.
pub proof fn lemma_strips_whole(a: Seq<char>, plain: Seq<char>)
    requires
        strips_to(a, plain),
    ensures
        strip_ansi(a) == plain,
{
    reveal(strip_ansi);
    assert(strip_ansi(a + Seq::<char>::empty()) == plain + strip_ansi(Seq::<char>::empty()));
    assert(a + Seq::<char>::empty() =~= a);
    assert(plain + Seq::<char>::empty() =~= plain);
}

} // verus!
