//! Completion of a command line: what the shell offers for the word at the
//! cursor. Places in a line are counted in characters.

use crate::command::{white_space, ESCAPE, QUOTE};
use crate::computer::{Computer, ComputerModel};
use crate::fs::{ContentModel, NodeModel};
use crate::path::{parse_spec, render, Path, SEPARATOR};
use crate::text::{has_prefix, matches_at, string_of, to_chars};
use vstd::prelude::*;
use vstd::string::*;

verus! {

/// The other character that opens and closes a quoted stretch.
pub const SINGLE_QUOTE: char = '\'';

/// Whether the character is one of the two quotes.
pub open spec fn is_quote(c: char) -> bool {
    c == QUOTE || c == SINGLE_QUOTE
}

/// The quote that is open at the end of the text, with its place. A quote
/// is closed by the next quote of its kind.
pub open spec fn open_quote(s: Seq<char>) -> Option<(nat, char)>
    decreases s.len(),
{
    if s.len() == 0 {
        None
    } else {
        match open_quote(s.drop_last()) {
            Some(q) => if s.last() == q.1 {
                None
            } else {
                Some(q)
            },
            None => if is_quote(s.last()) {
                Some(((s.len() - 1) as nat, s.last()))
            } else {
                None
            },
        }
    }
}

/// The place of the first white space from place `from` on that comes
/// before any backslash.
pub open spec fn first_space(s: Seq<char>, from: nat) -> Option<nat>
    decreases s.len() - from,
{
    if from >= s.len() {
        None
    } else if s[from as int] == ESCAPE {
        None
    } else if white_space(s[from as int]) {
        Some(from)
    } else {
        first_space(s, from + 1)
    }
}

/// The search for the last white space among the first `n` characters,
/// going backwards with the place `found` already in hand: the search ends
/// at the first character that is no backslash once a place is in hand.
pub open spec fn last_space_from(s: Seq<char>, n: nat, found: Option<nat>) -> Option<nat>
    decreases n,
{
    if n == 0 {
        found
    } else {
        let ch = s[n - 1];
        if ch != ESCAPE && found is Some {
            found
        } else if white_space(ch) {
            last_space_from(s, (n - 1) as nat, Some((n - 1) as nat))
        } else {
            last_space_from(s, (n - 1) as nat, found)
        }
    }
}

/// The place of the last white space of the text.
pub open spec fn last_space(s: Seq<char>) -> Option<nat> {
    last_space_from(s, s.len(), None)
}

/// How far the removal of escapes and quotes has come: the text so far,
/// the quote that is open, and whether the last character was a backslash.
pub struct UnescapeState {
    pub buf: Seq<char>,
    pub quote: Option<char>,
    pub escape: bool,
}

/// What one character does to the removal of escapes and quotes: after a
/// backslash it is kept as it is; a backslash is dropped and noted; inside
/// quotes everything is dropped up to the closing quote; a quote opens a
/// quoted stretch; any other character is kept.
pub open spec fn unescape_step(st: UnescapeState, ch: char) -> UnescapeState {
    if st.escape {
        UnescapeState { buf: st.buf.push(ch), escape: false, ..st }
    } else if ch == ESCAPE {
        UnescapeState { escape: true, ..st }
    } else if st.quote is Some {
        if st.quote->0 == ch {
            UnescapeState { quote: None, ..st }
        } else {
            st
        }
    } else if is_quote(ch) {
        UnescapeState { quote: Some(ch), ..st }
    } else {
        UnescapeState { buf: st.buf.push(ch), ..st }
    }
}

/// The state of the removal after the whole text.
pub open spec fn unescape_state(s: Seq<char>) -> UnescapeState
    decreases s.len(),
{
    if s.len() == 0 {
        UnescapeState { buf: Seq::empty(), quote: None, escape: false }
    } else {
        unescape_step(unescape_state(s.drop_last()), s.last())
    }
}

/// The text without its escapes and quotes.
pub open spec fn unescaped(s: Seq<char>) -> Seq<char> {
    unescape_state(s).buf
}

/// The text with a backslash before every white space and every quote.
pub open spec fn escaped(s: Seq<char>) -> Seq<char>
    decreases s.len(),
{
    if s.len() == 0 {
        Seq::empty()
    } else if white_space(s.last()) || is_quote(s.last()) {
        escaped(s.drop_last()).push(ESCAPE).push(s.last())
    } else {
        escaped(s.drop_last()).push(s.last())
    }
}

/// Removing escapes and quotes never lengthens a text.
pub proof fn lemma_unescaped_shorter(s: Seq<char>)
    ensures
        unescaped(s).len() <= s.len(),
    decreases s.len(),
{
    if s.len() > 0 {
        lemma_unescaped_shorter(s.drop_last());
    }
}

/// The quote that is open at the end of the first `end` characters.
pub fn find_unclosed_quote(line: &Vec<char>, end: usize) -> (r: Option<(usize, char)>)
    requires
        end <= line@.len(),
    ensures
        match r {
            Some(q) => open_quote(line@.take(end as int)) == Some((q.0 as nat, q.1)),
            None => open_quote(line@.take(end as int)) is None,
        },
{
    let mut last_quote: Option<(usize, char)> = None;
    let mut i: usize = 0;
    while i < end
        invariant
            i <= end <= line@.len(),
            match last_quote {
                Some(q) => open_quote(line@.take(i as int)) == Some((q.0 as nat, q.1)),
                None => open_quote(line@.take(i as int)) is None,
            },
        decreases end - i,
    {
        proof {
            assert(line@.take(i + 1).drop_last() =~= line@.take(i as int));
            assert(line@.take(i + 1).last() == line@[i as int]);
        }
        let ch = line[i];
        match last_quote {
            Some(q) => {
                if ch == q.1 {
                    last_quote = None;
                }
            },
            None => {
                if ch == SINGLE_QUOTE || ch == QUOTE {
                    last_quote = Some((i, ch));
                }
            },
        }
        i = i + 1;
    }
    last_quote
}

/// The place, counted from `start`, of the first white space at or behind
/// `start` that comes before any backslash.
pub fn find_unescaped_space(line: &Vec<char>, start: usize) -> (r: Option<usize>)
    requires
        start <= line@.len(),
    ensures
        match r {
            Some(i) => first_space(line@.skip(start as int), 0) == Some(i as nat) && start + i
                < line@.len(),
            None => first_space(line@.skip(start as int), 0) is None,
        },
{
    let ghost tail = line@.skip(start as int);
    let mut i: usize = start;
    while i < line.len()
        invariant
            start <= i <= line@.len(),
            tail == line@.skip(start as int),
            first_space(tail, 0) == first_space(tail, (i - start) as nat),
        decreases line@.len() - i,
    {
        assert(tail[i - start] == line@[i as int]);
        let ch = line[i];
        if ch == ESCAPE {
            return None;
        } else if ch.is_whitespace() {
            return Some(i - start);
        }
        i = i + 1;
    }
    None
}

/// The place of the last white space among the first `end` characters.
pub fn rfind_unescaped_space(line: &Vec<char>, end: usize) -> (r: Option<usize>)
    requires
        end <= line@.len(),
    ensures
        match r {
            Some(i) => last_space(line@.take(end as int)) == Some(i as nat) && i < end,
            None => last_space(line@.take(end as int)) is None,
        },
{
    let ghost head = line@.take(end as int);
    let mut candidate: Option<usize> = None;
    let mut n: usize = end;
    while n > 0
        invariant
            n <= end <= line@.len(),
            head == line@.take(end as int),
            candidate is Some ==> candidate->0 < end,
            last_space(head) == last_space_from(
                head,
                n as nat,
                match candidate {
                    Some(c) => Some(c as nat),
                    None => None,
                },
            ),
        decreases n,
    {
        assert(head[n - 1] == line@[n - 1]);
        let ch = line[n - 1];
        if ch != ESCAPE && candidate.is_some() {
            return candidate;
        } else if ch.is_whitespace() {
            candidate = Some(n - 1);
        }
        n = n - 1;
    }
    candidate
}

/// The text without its escapes and quotes.
pub fn unescape(word: &Vec<char>) -> (r: Vec<char>)
    ensures
        r@ == unescaped(word@),
{
    let mut buf: Vec<char> = Vec::new();
    let mut quote: Option<char> = None;
    let mut escape = false;
    let mut i: usize = 0;
    while i < word.len()
        invariant
            i <= word@.len(),
            unescape_state(word@.take(i as int)).buf =~= buf@,
            unescape_state(word@.take(i as int)).quote == quote,
            unescape_state(word@.take(i as int)).escape == escape,
        decreases word@.len() - i,
    {
        proof {
            assert(word@.take(i + 1).drop_last() =~= word@.take(i as int));
            assert(word@.take(i + 1).last() == word@[i as int]);
        }
        let ch = word[i];
        if escape {
            escape = false;
            buf.push(ch);
        } else if ch == ESCAPE {
            escape = true;
        } else if quote.is_some() {
            match quote {
                Some(q) => {
                    if q == ch {
                        quote = None;
                    }
                },
                None => {},
            }
        } else if ch == QUOTE || ch == SINGLE_QUOTE {
            quote = Some(ch);
        } else {
            buf.push(ch);
        }
        i = i + 1;
    }
    proof {
        assert(word@.take(word@.len() as int) =~= word@);
    }
    buf
}

/// The text with a backslash before every white space and every quote.
pub fn escape(text: &str) -> (r: String)
    ensures
        r@ == escaped(text@),
{
    let chars = to_chars(text);
    let mut buf = String::new();
    let mut i: usize = 0;
    while i < chars.len()
        invariant
            i <= chars@.len(),
            chars@ == text@,
            buf@ == escaped(chars@.take(i as int)),
        decreases chars@.len() - i,
    {
        proof {
            assert(chars@.take(i + 1).drop_last() =~= chars@.take(i as int));
            assert(chars@.take(i + 1).last() == chars@[i as int]);
        }
        let ch = chars[i];
        if ch.is_whitespace() || ch == SINGLE_QUOTE || ch == QUOTE {
            buf.push(ESCAPE);
        }
        buf.push(ch);
        i = i + 1;
    }
    proof {
        assert(chars@.take(chars@.len() as int) =~= chars@);
    }
    buf
}

/// The names among `names` that begin with `prefix`, in the same order.
pub open spec fn with_prefix(names: Seq<Seq<char>>, prefix: Seq<char>) -> Seq<Seq<char>>
    decreases names.len(),
{
    if names.len() == 0 {
        Seq::empty()
    } else if has_prefix(names.last(), prefix) {
        with_prefix(names.drop_last(), prefix).push(names.last())
    } else {
        with_prefix(names.drop_last(), prefix)
    }
}

/// The names of the entries, one for one.
pub open spec fn names_of(s: Seq<NodeModel>) -> Seq<Seq<char>> {
    Seq::new(s.len(), |i: int| s[i].name)
}

/// What is offered for each name: the path of the entry in the directory,
/// with escapes, followed by the rest of the line.
pub open spec fn offers(
    names: Seq<Seq<char>>,
    dir: Seq<Seq<char>>,
    rest: Seq<char>,
) -> Seq<Seq<char>> {
    Seq::new(names.len(), |i: int| escaped(render(dir.push(names[i]))) + rest)
}

/// What is offered for the line with the cursor at `pos`. Nothing is
/// offered where the cursor is outside the line or inside an open quote.
/// For the first word of the line the names of the executables of the
/// search path are offered that begin with it. For a later word, whatever
/// stands behind the last white space before the cursor is read as a path,
/// and the entries of its directory are offered whose names begin as the
/// path ends; a path that ends with the separator names the directory
/// itself.
pub open spec fn complete_spec(c: ComputerModel, line: Seq<char>, pos: nat) -> Option<
    (nat, Seq<Seq<char>>),
> {
    if pos > line.len() {
        None
    } else if open_quote(line.take(pos as int)) is Some {
        None
    } else {
        let tail = line.skip(pos as int);
        match last_space(line.take(pos as int)) {
            Some(space) => {
                let word = match first_space(tail, 0) {
                    Some(end) => line.subrange(space as int + 1, pos as int + end as int),
                    None => line.skip(space as int + 1),
                };
                let un = unescaped(word);
                let path = parse_spec(c.cwd, un);
                let slash = un.len() > 0 && un.last() == SEPARATOR;
                let dir = if slash || path.len() == 0 {
                    path
                } else {
                    path.drop_last()
                };
                let base = if slash || path.len() == 0 {
                    Seq::empty()
                } else {
                    path.last()
                };
                let rest = line.skip(space as int + 1 + un.len() as int);
                match c.root.lookup(dir) {
                    Some(n) => match n.content {
                        ContentModel::Dir(children) => Some(
                            (space + 1, offers(with_prefix(names_of(children), base), dir, rest)),
                        ),
                        _ => Some((0, Seq::empty())),
                    },
                    None => Some((0, Seq::empty())),
                }
            },
            None => {
                let word = match first_space(tail, 0) {
                    Some(end) => line.take(end as int),
                    None => line,
                };
                Some((0, with_prefix(names_of(c.exes()), word)))
            },
        }
    }
}

/// What the shell offers for the line with the cursor at `pos`: where the
/// replacement starts, and the replacements.
pub fn complete(c: &Computer, line: &str, pos: usize) -> (r: Option<(usize, Vec<String>)>)
    ensures
        match r {
            Some(found) => complete_spec(c@, line@, pos as nat) == Some(
                (found.0 as nat, crate::text::views(found.1@)),
            ),
            None => complete_spec(c@, line@, pos as nat) is None,
        },
{
    let chars = to_chars(line);
    if pos > chars.len() {
        return None;
    }
    if find_unclosed_quote(&chars, pos).is_some() {
        return None;
    }
    let ghost tail = line@.skip(pos as int);
    let end_space = find_unescaped_space(&chars, pos);
    match rfind_unescaped_space(&chars, pos) {
        Some(space) => {
            let word_end = match end_space {
                Some(end) => pos + end,
                None => chars.len(),
            };
            let ghost word = line@.subrange(space + 1, word_end as int);
            proof {
                if end_space is None {
                    assert(word =~= line@.skip(space + 1));
                }
                lemma_unescaped_shorter(word);
            }
            let mut word_chars: Vec<char> = Vec::new();
            let mut k: usize = space + 1;
            assert(line@.subrange(space + 1, space + 1) =~= Seq::<char>::empty());
            while k < word_end
                invariant
                    space + 1 <= k <= word_end <= chars@.len(),
                    chars@ == line@,
                    word_chars@ == line@.subrange(space + 1, k as int),
                decreases word_end - k,
            {
                word_chars.push(chars[k]);
                assert(line@.subrange(space + 1, k + 1) =~= line@.subrange(space + 1, k as int).push(
                    line@[k as int],
                ));
                k = k + 1;
            }
            let un = unescape(&word_chars);
            let un_text = string_of(&un, 0, un.len());
            assert(un_text@ =~= un@);
            let path = Path::parse(&c.cwd, un_text.as_str());
            let slash = un.len() > 0 && un[un.len() - 1] == SEPARATOR;
            let top = slash || path.0.len() == 0;
            let dir_path = if top {
                path.clone()
            } else {
                path.parent()
            };
            let base: Vec<char> = if top {
                Vec::new()
            } else {
                match path.basename() {
                    Some(b) => to_chars(b.as_str()),
                    None => Vec::new(),
                }
            };
            let rest = string_of(&chars, space + 1 + un.len(), chars.len());
            proof {
                assert(rest@ =~= line@.skip(space + 1 + un@.len()));
            }
            match c.root.get_dir(&dir_path) {
                Some(dir) => {
                    let kids = dir.children();
                    let ghost names = names_of(dir@);
                    let mut subs: Vec<String> = Vec::new();
                    let mut j: usize = 0;
                    proof {
                        assert(names.take(0) =~= Seq::<Seq<char>>::empty());
                        assert(offers(with_prefix(names.take(0), base@), dir_path@, rest@)
                            =~= Seq::<Seq<char>>::empty());
                    }
                    while j < kids.len()
                        invariant
                            j <= kids@.len(),
                            kids@.len() == dir@.len(),
                            names == names_of(dir@),
                            forall|i: int|
                                0 <= i < kids@.len() ==> (#[trigger] kids@[i])@ == dir@[i],
                            crate::text::views(subs@) == offers(
                                with_prefix(names.take(j as int), base@),
                                dir_path@,
                                rest@,
                            ),
                        decreases kids@.len() - j,
                    {
                        proof {
                            assert(names.take(j + 1).drop_last() =~= names.take(j as int));
                            assert(names.take(j + 1).last() == kids@[j as int]@.name);
                        }
                        let name = to_chars(kids[j].name.as_str());
                        proof {
                            assert(name@.skip(0) =~= name@);
                        }
                        if matches_at(&name, 0, &base) {
                            let mut segs: Vec<String> = Vec::new();
                            segs.push(kids[j].name.clone());
                            let full = dir_path.clone().join(&Path::new(segs));
                            let mut offer = escape(full.to_string().as_str());
                            offer.append(rest.as_str());
                            let ghost before = crate::text::views(subs@);
                            proof {
                                assert(full@ =~= dir_path@.push(kids@[j as int]@.name));
                            }
                            subs.push(offer);
                            proof {
                                let prev = with_prefix(names.take(j as int), base@);
                                let n = kids@[j as int]@.name;
                                assert(has_prefix(n, base@));
                                assert(with_prefix(names.take(j + 1), base@) == prev.push(n));
                                assert(offer@ == escaped(render(dir_path@.push(n))) + rest@);
                                assert(offers(prev.push(n), dir_path@, rest@) =~= offers(
                                    prev,
                                    dir_path@,
                                    rest@,
                                ).push(offer@));
                                assert(crate::text::views(subs@) =~= before.push(offer@));
                            }
                            assert(crate::text::views(subs@) =~= offers(
                                with_prefix(names.take(j + 1), base@),
                                dir_path@,
                                rest@,
                            ));
                        }
                        j = j + 1;
                    }
                    proof {
                        assert(names.take(kids@.len() as int) =~= names);
                    }
                    Some((space + 1, subs))
                },
                None => {
                    let none: Vec<String> = Vec::new();
                    assert(crate::text::views(none@) =~= Seq::<Seq<char>>::empty());
                    Some((0, none))
                },
            }
        },
        None => {
            let prefix_end = match end_space {
                Some(end) => end,
                None => chars.len(),
            };
            let ghost word = line@.take(prefix_end as int);
            proof {
                if end_space is None {
                    assert(word =~= line@);
                }
            }
            let mut prefix: Vec<char> = Vec::new();
            let mut k: usize = 0;
            while k < prefix_end
                invariant
                    k <= prefix_end <= chars@.len(),
                    chars@ == line@,
                    prefix@ == line@.take(k as int),
                decreases prefix_end - k,
            {
                prefix.push(chars[k]);
                assert(line@.take(k + 1) =~= line@.take(k as int).push(line@[k as int]));
                k = k + 1;
            }
            let found = c.exes();
            let ghost names = names_of(c@.exes());
            let mut out: Vec<String> = Vec::new();
            let mut j: usize = 0;
            proof {
                assert(names.take(0) =~= Seq::<Seq<char>>::empty());
                assert(crate::text::views(out@) =~= with_prefix(names.take(0), prefix@));
            }
            while j < found.len()
                invariant
                    j <= found@.len(),
                    found@.len() == c@.exes().len(),
                    names == names_of(c@.exes()),
                    forall|i: int| 0 <= i < found@.len() ==> (#[trigger] found@[i])@ == c@.exes()[i],
                    crate::text::views(out@) == with_prefix(names.take(j as int), prefix@),
                decreases found@.len() - j,
            {
                proof {
                    assert(names.take(j + 1).drop_last() =~= names.take(j as int));
                    assert(names.take(j + 1).last() == found@[j as int]@.name);
                }
                let name = to_chars(found[j].name.as_str());
                proof {
                    assert(name@.skip(0) =~= name@);
                }
                if matches_at(&name, 0, &prefix) {
                    out.push(found[j].name.clone());
                    assert(crate::text::views(out@) =~= with_prefix(names.take(j + 1), prefix@));
                }
                j = j + 1;
            }
            proof {
                assert(names.take(found@.len() as int) =~= names);
            }
            Some((0, out))
        },
    }
}

} // verus!
