//! The tokenizer of the shell: a command line becomes a program's name and
//! its arguments.

use crate::text::views;
use vstd::prelude::*;
use vstd::string::*;

verus! {

/// Whether the character is white space: one of the characters with the
/// Unicode property White_Space. These are tab, line feed, vertical tab,
/// form feed and carriage return, the space, next line, the no-break
/// space, the Ogham space mark, the spaces from en quad to hair space, the
/// line and the paragraph separator, the narrow no-break space, the medium
/// mathematical space and the ideographic space.
pub open spec fn white_space(c: char) -> bool {
    ||| '\u{9}' <= c <= '\u{d}'
    ||| c == ' '
    ||| c == '\u{85}'
    ||| c == '\u{a0}'
    ||| c == '\u{1680}'
    ||| '\u{2000}' <= c <= '\u{200a}'
    ||| c == '\u{2028}'
    ||| c == '\u{2029}'
    ||| c == '\u{202f}'
    ||| c == '\u{205f}'
    ||| c == '\u{3000}'
}

/// `char::is_whitespace` tells whether the character has the Unicode
/// property White_Space; the contract says which characters have it.
pub assume_specification[ char::is_whitespace ](c: char) -> (r: bool)
    ensures
        r == white_space(c),
;

/// The character that takes the next one literally.
pub const ESCAPE: char = '\\';

/// The character that opens and closes a quoted stretch.
pub const QUOTE: char = '"';

/// How far the tokenizer has come: the finished tokens, the token under
/// way, whether it is inside quotes, and whether the last character was an
/// escape.
pub struct LexState {
    pub args: Seq<Seq<char>>,
    pub cur: Seq<char>,
    pub in_string: bool,
    pub escaping: bool,
}

/// The state before any character is read.
pub open spec fn lex_start() -> LexState {
    LexState { args: Seq::empty(), cur: Seq::empty(), in_string: false, escaping: false }
}

/// The tokens with the token under way added, unless it is empty.
pub open spec fn flushed(args: Seq<Seq<char>>, cur: Seq<char>) -> Seq<Seq<char>> {
    if cur.len() > 0 {
        args.push(cur)
    } else {
        args
    }
}

/// What one character does. After an escape the character is taken as it
/// is. Otherwise an escape is noted, a quote opens or closes a quoted
/// stretch, white space outside quotes ends the token under way, and any
/// other character joins it.
pub open spec fn lex_step(st: LexState, ch: char) -> LexState {
    if st.escaping {
        LexState { cur: st.cur.push(ch), escaping: false, ..st }
    } else if ch == ESCAPE {
        LexState { escaping: true, ..st }
    } else if ch == QUOTE {
        LexState { in_string: !st.in_string, ..st }
    } else if white_space(ch) && !st.in_string {
        LexState { args: flushed(st.args, st.cur), cur: Seq::empty(), ..st }
    } else {
        LexState { cur: st.cur.push(ch), ..st }
    }
}

/// The state after the whole text is read.
pub open spec fn lex(s: Seq<char>) -> LexState
    decreases s.len(),
{
    if s.len() == 0 {
        lex_start()
    } else {
        lex_step(lex(s.drop_last()), s.last())
    }
}

/// The tokens of a command line. A quote that is never closed runs to the
/// end of the line, and an escape at the very end is dropped.
pub open spec fn tokens(s: Seq<char>) -> Seq<Seq<char>> {
    flushed(lex(s).args, lex(s).cur)
}

/// No token is empty.
pub proof fn lemma_tokens_nonempty(s: Seq<char>)
    ensures
        forall|i: int| 0 <= i < lex(s).args.len() ==> (#[trigger] lex(s).args[i]).len() > 0,
        forall|i: int| 0 <= i < tokens(s).len() ==> (#[trigger] tokens(s)[i]).len() > 0,
    decreases s.len(),
{
    if s.len() > 0 {
        lemma_tokens_nonempty(s.drop_last());
        let before = lex(s.drop_last());
        let after = lex(s);
        assert(after == lex_step(before, s.last()));
        assert forall|i: int| 0 <= i < after.args.len() implies (#[trigger] after.args[i]).len()
            > 0 by {
            if i < before.args.len() {
                assert(after.args[i] == before.args[i]);
            }
        }
    }
    let st = lex(s);
    assert forall|i: int| 0 <= i < tokens(s).len() implies (#[trigger] tokens(s)[i]).len() > 0 by {
        if i < st.args.len() {
            assert(tokens(s)[i] == st.args[i]);
        }
    }
}

/// Whether the character is one that the tokenizer treats specially.
pub open spec fn is_special(c: char) -> bool {
    c == ESCAPE || c == QUOTE || white_space(c)
}

/// A line of characters none of which is special is one token.
pub proof fn lemma_plain_word_is_one_token(s: Seq<char>)
    requires
        s.len() > 0,
        forall|i: int| 0 <= i < s.len() ==> !is_special(#[trigger] s[i]),
    ensures
        tokens(s) == seq![s],
{
    lemma_plain_word_lexed(s);
    assert(Seq::<Seq<char>>::empty().push(s) =~= seq![s]);
}

/// Characters none of which is special gather in the token under way.
proof fn lemma_plain_word_lexed(s: Seq<char>)
    requires
        forall|i: int| 0 <= i < s.len() ==> !is_special(#[trigger] s[i]),
    ensures
        lex(s) == (LexState { cur: s, ..lex_start() }),
    decreases s.len(),
{
    if s.len() > 0 {
        assert forall|i: int| 0 <= i < s.drop_last().len() implies !is_special(
            #[trigger] s.drop_last()[i],
        ) by {
            assert(s.drop_last()[i] == s[i]);
        }
        lemma_plain_word_lexed(s.drop_last());
        assert(!is_special(s[s.len() - 1]));
        assert(s.drop_last().push(s.last()) =~= s);
    } else {
        assert(s =~= Seq::<char>::empty());
    }
}

/// Splits a command line into tokens at white space. Double quotes keep
/// white space inside a token, and a backslash takes the next character
/// literally, be it a quote, a backslash or white space.
pub fn parse_command(command: &str) -> (r: Vec<String>)
    ensures
        views(r@) == tokens(command@),
{
    let mut in_string = false;
    let mut escaping = false;
    let mut args: Vec<String> = Vec::new();
    let mut cur_arg = String::new();
    for ch in it: command.chars()
        invariant
            it.seq() == command@,
            lex(command@.take(it.index() as int)).args =~= views(args@),
            lex(command@.take(it.index() as int)).cur =~= cur_arg@,
            lex(command@.take(it.index() as int)).in_string == in_string,
            lex(command@.take(it.index() as int)).escaping == escaping,
    {
        proof {
            let n = it.index() as int;
            assert(command@.take(n + 1).drop_last() == command@.take(n));
        }
        let ghost before = views(args@);
        if escaping {
            cur_arg.push(ch);
            escaping = false;
        } else if ch == ESCAPE {
            escaping = true;
        } else if ch == QUOTE {
            in_string = !in_string;
        } else if ch.is_whitespace() && !in_string {
            if !cur_arg.as_str().is_empty() {
                args.push(cur_arg);
                assert(views(args@) == before.push(cur_arg@));
            }
            cur_arg = String::new();
        } else {
            cur_arg.push(ch);
        }
    }
    proof {
        assert(command@.take(command@.len() as int) == command@);
    }
    let ghost before = views(args@);
    if !cur_arg.as_str().is_empty() {
        args.push(cur_arg);
        assert(views(args@) == before.push(cur_arg@));
    }
    args
}

} // verus!
