//! Single-quoting for a POSIX shell.

use vstd::prelude::*;

verus! {

/// One character inside single quotes: a single quote closes the quotes, is
/// written escaped, and opens them again; anything else stands for itself.
pub open spec fn quoted_char(c: char) -> Seq<char> {
    if c == '\'' {
        seq!['\'', '\\', '\'', '\'']
    } else {
        seq![c]
    }
}

/// A text as it stands between the outer single quotes.
pub open spec fn quoted_body(value: Seq<char>) -> Seq<char>
    decreases value.len(),
{
    if value.len() == 0 {
        Seq::empty()
    } else {
        quoted_body(value.drop_last()) + quoted_char(value.last())
    }
}

/// A text as one single-quoted shell word.
pub open spec fn quoted_text(value: Seq<char>) -> Seq<char> {
    seq!['\''] + quoted_body(value) + seq!['\'']
}

/// How a POSIX shell reads a word made of single-quoted stretches and
/// backslash escapes. `quoted` says whether the reader is inside single quotes.
/// `None` where the text ends inside quotes, or where any other character
/// stands outside them.
pub open spec fn read_word(text: Seq<char>, quoted: bool) -> Option<Seq<char>>
    decreases text.len(),
{
    if text.len() == 0 {
        if quoted {
            None
        } else {
            Some(Seq::empty())
        }
    } else if text[0] == '\'' {
        read_word(text.skip(1), !quoted)
    } else if quoted {
        followed_by(seq![text[0]], read_word(text.skip(1), true))
    } else if text[0] == '\\' && text.len() >= 2 {
        followed_by(seq![text[1]], read_word(text.skip(2), false))
    } else {
        None
    }
}

/// `head` in front of what was read, if anything was.
pub open spec fn followed_by(head: Seq<char>, rest: Option<Seq<char>>) -> Option<Seq<char>> {
    match rest {
        Some(rest) => Some(head + rest),
        None => None,
    }
}

proof fn lemma_read_quoted_char(c: char, rest: Seq<char>)
    ensures
        read_word(quoted_char(c) + rest, true) == followed_by(seq![c], read_word(rest, true)),
{
    let text = quoted_char(c) + rest;
    if c == '\'' {
        assert(text.skip(1).skip(2).skip(1) == rest);
        assert(text.skip(1)[0] == '\\');
        assert(text.skip(1)[1] == '\'');
        assert(text.skip(1).skip(2)[0] == '\'');
        assert(read_word(text.skip(1).skip(2), false) == read_word(rest, true));
        assert(read_word(text.skip(1), false) == followed_by(
            seq!['\''],
            read_word(text.skip(1).skip(2), false),
        ));
    } else {
        assert(text.skip(1) == rest);
    }
}

proof fn lemma_read_quoted_body(value: Seq<char>, rest: Seq<char>)
    ensures
        read_word(quoted_body(value) + rest, true) == followed_by(value, read_word(rest, true)),
    decreases value.len(),
{
    if value.len() == 0 {
        assert(quoted_body(value) + rest == rest);
        match read_word(rest, true) {
            Some(t) => assert(value + t == t),
            None => {},
        }
    } else {
        let c = value.last();
        lemma_read_quoted_body(value.drop_last(), quoted_char(c) + rest);
        lemma_read_quoted_char(c, rest);
        assert(quoted_body(value) + rest == quoted_body(value.drop_last()) + (quoted_char(c)
            + rest));
        match read_word(rest, true) {
            Some(t) => assert(value.drop_last() + (seq![c] + t) == value + t),
            None => {},
        }
    }
}

/// Quoting keeps every text intact: the shell reads the quoted word back as
/// exactly the text that was quoted.
pub proof fn law_shell_reads_back_what_was_quoted(value: Seq<char>)
    ensures
        read_word(quoted_text(value), false) == Some(value),
{
    let rest: Seq<char> = seq!['\''];
    lemma_read_quoted_body(value, rest);
    assert(quoted_text(value).skip(1) == quoted_body(value) + rest);
    assert(rest.skip(1) == Seq::<char>::empty());
    assert(read_word(Seq::empty(), false) == Some(Seq::<char>::empty()));
    assert(read_word(rest, true) == Some(Seq::<char>::empty()));
    assert(value + Seq::<char>::empty() == value);
}

/// `value` as one single-quoted shell word.
pub fn shell_quote(value: &str) -> (quoted: String)
    ensures
        quoted@ == quoted_text(value@),
{
    proof {
        reveal_strlit("'");
        reveal_strlit("'\\''");
        assert("'"@ =~= seq!['\'']);
        assert("'\\''"@ =~= seq!['\'', '\\', '\'', '\'']);
    }
    let len: usize = value.unicode_len();
    let mut quoted: String = "'".to_string();
    let mut i: usize = 0;
    while i < len
        invariant
            i <= len,
            len == value@.len(),
            "'\\''"@ == seq!['\'', '\\', '\'', '\''],
            quoted@ == seq!['\''] + quoted_body(value@.take(i as int)),
        decreases len - i,
    {
        proof {
            assert(value@.take(i + 1).drop_last() == value@.take(i as int));
            assert(value@.subrange(i as int, i + 1) == seq![value@[i as int]]);
        }
        if value.get_char(i) == '\'' {
            quoted.append("'\\''");
        } else {
            quoted.append(value.substring_char(i, i + 1));
        }
        i = i + 1;
    }
    assert(value@.take(len as int) == value@);
    quoted.append("'");
    quoted
}

} // verus!
