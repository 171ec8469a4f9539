//! Trimming and escaping of matched text.

use vstd::prelude::*;

verus! {

/// The characters with the Unicode property `White_Space`.
pub open spec fn is_white_space(c: char) -> bool {
    ||| '\u{9}' <= c <= '\u{d}'
    ||| c == ' '
    ||| c == '\u{85}'
    ||| c == '\u{a0}'
    ||| c == '\u{1680}'
    ||| '\u{2000}' <= c <= '\u{200a}'
    ||| c == '\u{2028}'
    ||| c == '\u{2029}'
    ||| c == '\u{202f}'
    ||| c == '\u{205f}'
    ||| c == '\u{3000}'
}

/// `s` without its leading white space.
pub open spec fn trimmed_start(s: Seq<char>) -> Seq<char>
    decreases s.len(),
{
    if s.len() > 0 && is_white_space(s.first()) {
        trimmed_start(s.drop_first())
    } else {
        s
    }
}

/// `s` without its trailing white space.
pub open spec fn trimmed_end(s: Seq<char>) -> Seq<char>
    decreases s.len(),
{
    if s.len() > 0 && is_white_space(s.last()) {
        trimmed_end(s.drop_last())
    } else {
        s
    }
}

/// `s` without its leading and trailing white space.
pub open spec fn trimmed(s: Seq<char>) -> Seq<char> {
    trimmed_end(trimmed_start(s))
}

/// The letter that stands behind the backslash for a control character that
/// has one; `None` for every other character.
pub open spec fn control_code(c: char) -> Option<char> {
    if c == '\u{7}' {
        Some('a')
    } else if c == '\u{8}' {
        Some('b')
    } else if c == '\t' {
        Some('t')
    } else if c == '\n' {
        Some('n')
    } else if c == '\u{b}' {
        Some('v')
    } else if c == '\u{c}' {
        Some('f')
    } else if c == '\r' {
        Some('r')
    } else {
        None
    }
}

/// What stands behind the backslash for a character that is escaped: its
/// letter for a control character, itself for a backslash and for a quote,
/// single or double. `None` for a character that is kept as it is.
pub open spec fn escape_code(c: char) -> Option<char> {
    if c == '\\' || c == '"' || c == '\'' {
        Some(c)
    } else {
        control_code(c)
    }
}

/// What one character becomes: a backslash and its code, or itself.
pub open spec fn escaped_char(c: char) -> Seq<char> {
    match escape_code(c) {
        Some(code) => seq!['\\', code],
        None => seq![c],
    }
}

/// `s` with each of its characters escaped, in order.
pub open spec fn escaped(s: Seq<char>) -> Seq<char>
    decreases s.len(),
{
    if s.len() == 0 {
        Seq::empty()
    } else {
        escaped_char(s.first()) + escaped(s.drop_first())
    }
}

/// What stands behind the backslash that `escape_string` puts: the letter of
/// a control character, a space for a space, a backslash for a backslash.
/// `None` for a character that it keeps as it is, quotes among them.
pub open spec fn backslash_code(c: char) -> Option<char> {
    if c == ' ' || c == '\\' {
        Some(c)
    } else {
        control_code(c)
    }
}

/// What `escape_string` makes of a text, character by character.
pub open spec fn backslashed(s: Seq<char>) -> Seq<char>
    decreases s.len(),
{
    if s.len() == 0 {
        Seq::empty()
    } else {
        (match backslash_code(s.first()) {
            Some(code) => seq!['\\', code],
            None => seq![s.first()],
        }) + backslashed(s.drop_first())
    }
}

/// Whether a text holds no space and no quote: what `escape_string` and
/// this library escape alike.
pub open spec fn is_run(s: Seq<char>) -> bool {
    forall|i: int| 0 <= i < s.len() ==> s[i] != ' ' && s[i] != '"' && s[i] != '\''
}

/// `str::trim` of std: the slice between the first and the last character
/// that is not white space, white space being the Unicode property
/// `White_Space`; the empty slice where there is no such character.
pub assume_specification[ str::trim ](s: &str) -> (r: &str)
    ensures
        r@ == trimmed(s@),
;

/// `String::push` of std: the character is appended.
pub assume_specification[ String::push ](s: &mut String, c: char)
    ensures
        final(s)@ == old(s)@.push(c),
;

/// `escape_string::escape`: puts a backslash and a letter in place of each
/// bell, backspace, tab, line feed, vertical tab, form feed and carriage
/// return, a backslash before each space and each backslash, and keeps every
/// other character. It goes byte by byte; the bytes that it looks for are
/// ASCII, which in UTF-8 stand for themselves only, so that is character by
/// character.
#[verifier::external_body]
fn backslash(text: &str) -> (out: String)
    ensures
        out@ == backslashed(text@),
{
    escape_string::escape(text).into_owned()
}

/// Escapes a text: a backslash and a letter stand for each bell (`\a`),
/// backspace (`\b`), tab (`\t`), line feed (`\n`), vertical tab (`\v`), form
/// feed (`\f`) and carriage return (`\r`); a backslash stands before each
/// backslash and each quote, single or double; every other character, the
/// space among them, is kept.
///
/// `escape_string` does the runs between spaces and quotes: by itself it
/// would put a backslash before each space and none before a quote.
pub fn escape(text: &str) -> (out: String)
    ensures
        out@ == escaped(text@),
{
    let mut out = String::new();
    let mut run = String::new();
    for c in chars: text.chars()
        invariant
            chars.seq() == text@,
            is_run(run@),
            out@ + escaped(run@) == escaped(text@.take(chars.index() as int)),
    {
        proof {
            let seen = text@.take(chars.index() as int);
            assert(text@.take(chars.index() + 1) =~= seen.push(c));
            lemma_escaped_push(seen, c);
            lemma_escaped_push(run@, c);
            lemma_backslashed_run(run@);
        }
        if c == ' ' || c == '"' || c == '\'' {
            let done = backslash(run.as_str());
            out.append(done.as_str());
            if c != ' ' {
                out.push('\\');
            }
            out.push(c);
            run = String::new();
            assert(out@ + escaped(run@) =~= escaped(text@.take(chars.index() + 1)));
        } else {
            run.push(c);
            assert(out@ + escaped(run@) =~= escaped(text@.take(chars.index() + 1)));
        }
    }
    proof {
        assert(text@.take(text@.len() as int) =~= text@);
        lemma_backslashed_run(run@);
    }
    let done = backslash(run.as_str());
    out.append(done.as_str());
    out
}

/// In a text without spaces and quotes, `escape_string` escapes what this
/// library escapes.
pub proof fn lemma_backslashed_run(s: Seq<char>)
    requires
        is_run(s),
    ensures
        backslashed(s) == escaped(s),
    decreases s.len(),
{
    if s.len() > 0 {
        assert(is_run(s.drop_first())) by {
            assert forall|i: int| 0 <= i < s.drop_first().len() implies s.drop_first()[i] != ' '
                && s.drop_first()[i] != '"' && s.drop_first()[i] != '\'' by {
                assert(s.drop_first()[i] == s[i + 1]);
            }
        }
        lemma_backslashed_run(s.drop_first());
    }
}

/// Escaping goes through a text from left to right.
pub proof fn lemma_escaped_concat(a: Seq<char>, b: Seq<char>)
    ensures
        escaped(a + b) == escaped(a) + escaped(b),
    decreases a.len(),
{
    if a.len() == 0 {
        assert(a + b =~= b);
    } else {
        assert((a + b).drop_first() =~= a.drop_first() + b);
        lemma_escaped_concat(a.drop_first(), b);
    }
}

/// A character behind a text is escaped behind the escaped text.
pub proof fn lemma_escaped_push(s: Seq<char>, c: char)
    ensures
        escaped(s.push(c)) == escaped(s) + escaped_char(c),
{
    assert(escaped(seq![c].drop_first()) =~= Seq::<char>::empty());
    assert(escaped(seq![c]) =~= escaped_char(c));
    assert(s.push(c) =~= s + seq![c]);
    lemma_escaped_concat(s, seq![c]);
}

/// Escaping changes nothing in a text that holds no bell, backspace, tab,
/// line feed, vertical tab, form feed, carriage return, backslash or quote.
pub proof fn lemma_escaped_plain(s: Seq<char>)
    requires
        forall|i: int| 0 <= i < s.len() ==> escape_code(#[trigger] s[i]) is None,
    ensures
        escaped(s) == s,
    decreases s.len(),
{
    if s.len() > 0 {
        lemma_escaped_plain(s.drop_first());
        assert(escaped(s) =~= s);
    }
}

/// Two texts that are escaped to the same text are the same text.
pub proof fn lemma_escaped_injective(a: Seq<char>, b: Seq<char>)
    requires
        escaped(a) == escaped(b),
    ensures
        a == b,
    decreases a.len(),
{
    if a.len() == 0 || b.len() == 0 {
        // an escaped character is never empty, so both texts are
        assert(a =~= b);
    } else {
        let head_a = escaped_char(a.first());
        let head_b = escaped_char(b.first());
        // a backslash opens every escape and is itself escaped, so the
        // first one or two characters tell which character was escaped
        assert(escaped(a)[0] == head_a[0]);
        assert(escaped(b)[0] == head_b[0]);
        if escape_code(a.first()) is Some {
            assert(escaped(a)[1] == head_a[1]);
            assert(escaped(b)[1] == head_b[1]);
        }
        assert(a.first() == b.first());
        assert(escaped(a.drop_first()) =~= escaped(a).skip(head_a.len() as int));
        assert(escaped(b.drop_first()) =~= escaped(b).skip(head_b.len() as int));
        lemma_escaped_injective(a.drop_first(), b.drop_first());
        assert(a =~= seq![a.first()] + a.drop_first());
        assert(b =~= seq![b.first()] + b.drop_first());
    }
}

/// Two texts that differ in one character, be it a control character or any
/// other, differ when they are escaped.
pub proof fn lemma_escaped_tells_apart(before: Seq<char>, c: char, d: char, after: Seq<char>)
    requires
        c != d,
    ensures
        escaped(before.push(c) + after) != escaped(before.push(d) + after),
{
    let a = before.push(c) + after;
    let b = before.push(d) + after;
    assert(a[before.len() as int] == c);
    assert(b[before.len() as int] == d);
    if escaped(a) == escaped(b) {
        lemma_escaped_injective(a, b);
    }
}

} // verus!
