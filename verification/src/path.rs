//! Slash-delimited paths: an ordered list of segments, parsed from text
//! against a base directory and normalized as a shell would.

use crate::text::{
    clone_strings, free_of, lemma_split_append_piece, lex_lt, split, split_on, str_lt, views,
};
use std::cmp::Ordering;
use vstd::prelude::*;
use vstd::std_specs::cmp::{PartialEqSpecImpl, PartialOrdSpecImpl};
use vstd::string::*;

verus! {

/// The character between the segments of a path.
pub const SEPARATOR: char = '/';

/// The segment that names the directory itself.
pub open spec fn dot() -> Seq<char> {
    seq!['.']
}

/// The segment that names the parent directory.
pub open spec fn dot_dot() -> Seq<char> {
    seq!['.', '.']
}

/// A segment that names an entry: not empty, not "." and not "..".
pub open spec fn is_plain(seg: Seq<char>) -> bool {
    seg.len() != 0 && seg != dot() && seg != dot_dot()
}

/// What one more segment does to the segments accumulated so far: an empty
/// one and "." change nothing, ".." removes the last (nothing at the root),
/// any other is appended.
pub open spec fn step(acc: Seq<Seq<char>>, seg: Seq<char>) -> Seq<Seq<char>> {
    if seg.len() == 0 || seg == dot() {
        acc
    } else if seg == dot_dot() {
        if acc.len() > 0 {
            acc.drop_last()
        } else {
            acc
        }
    } else {
        acc.push(seg)
    }
}

/// The segments that remain when `segs` are applied in order from the root.
pub open spec fn normalize(segs: Seq<Seq<char>>) -> Seq<Seq<char>>
    decreases segs.len(),
{
    if segs.len() == 0 {
        Seq::empty()
    } else {
        step(normalize(segs.drop_last()), segs.last())
    }
}

/// Every segment names an entry.
pub open spec fn is_normal(segs: Seq<Seq<char>>) -> bool {
    forall|i: int| 0 <= i < segs.len() ==> is_plain(#[trigger] segs[i])
}

/// Whether applying `segs` in order from the root ever meets ".." at the
/// root itself.
pub open spec fn climbs_above_start(segs: Seq<Seq<char>>) -> bool
    decreases segs.len(),
{
    if segs.len() == 0 {
        false
    } else {
        climbs_above_start(segs.drop_last()) || (segs.last() == dot_dot() && normalize(
            segs.drop_last(),
        ).len() == 0)
    }
}

/// Whether the text is an absolute path.
pub open spec fn is_absolute(text: Seq<char>) -> bool {
    text.len() > 0 && text[0] == SEPARATOR
}

/// The path that `text` names when read in the directory `base`.
pub open spec fn parse_spec(base: Seq<Seq<char>>, text: Seq<char>) -> Seq<Seq<char>> {
    if is_absolute(text) {
        normalize(split(text, SEPARATOR))
    } else {
        normalize(base + split(text, SEPARATOR))
    }
}

/// The segments with `sep` between each two neighbours.
pub open spec fn join_segments(segs: Seq<Seq<char>>, sep: char) -> Seq<char>
    decreases segs.len(),
{
    if segs.len() == 0 {
        Seq::empty()
    } else if segs.len() == 1 {
        segs[0]
    } else {
        join_segments(segs.drop_last(), sep).push(sep) + segs.last()
    }
}

/// The text of a path: the separator, then the segments joined by it.
pub open spec fn render(segs: Seq<Seq<char>>) -> Seq<char> {
    seq![SEPARATOR] + join_segments(segs, SEPARATOR)
}

/// The text of a path on a drive: the drive's name, a colon, then the path.
pub open spec fn render_on_drive(drive: Option<Seq<char>>, segs: Seq<Seq<char>>) -> Seq<char> {
    match drive {
        Some(d) => d.push(':') + render(segs),
        None => render(segs),
    }
}

/// Plain segments after any others are kept as they are.
pub proof fn lemma_normalize_keeps_plain_tail(front: Seq<Seq<char>>, tail: Seq<Seq<char>>)
    requires
        is_normal(tail),
    ensures
        normalize(front + tail) == normalize(front) + tail,
    decreases tail.len(),
{
    if tail.len() == 0 {
        assert(front + tail =~= front);
        assert(normalize(front) + tail =~= normalize(front));
    } else {
        let all = front + tail;
        assert(all.drop_last() =~= front + tail.drop_last());
        assert(all.last() == tail.last());
        assert(is_plain(tail[tail.len() - 1]));
        lemma_normalize_keeps_plain_tail(front, tail.drop_last());
        assert((normalize(front) + tail.drop_last()).push(tail.last()) =~= normalize(front)
            + tail);
    }
}

/// Normalizing changes nothing where every segment names an entry.
pub proof fn lemma_normalize_fixes_normal(segs: Seq<Seq<char>>)
    requires
        is_normal(segs),
    ensures
        normalize(segs) == segs,
{
    let front = Seq::<Seq<char>>::empty();
    lemma_normalize_keeps_plain_tail(front, segs);
    assert(front + segs =~= segs);
}

/// What normalizing leaves holds only segments that name an entry.
pub proof fn lemma_normalize_is_normal(segs: Seq<Seq<char>>)
    ensures
        is_normal(normalize(segs)),
    decreases segs.len(),
{
    if segs.len() > 0 {
        lemma_normalize_is_normal(segs.drop_last());
    }
}

/// A path read from text holds only segments that name an entry, whatever
/// the base and the text are.
pub proof fn lemma_parse_is_normal(base: Seq<Seq<char>>, text: Seq<char>)
    ensures
        is_normal(parse_spec(base, text)),
{
    lemma_normalize_is_normal(split(text, SEPARATOR));
    lemma_normalize_is_normal(base + split(text, SEPARATOR));
}

/// Segments applied below a base of plain segments leave the base in place,
/// unless they climb above where they started.
pub proof fn lemma_normalize_below_base(base: Seq<Seq<char>>, segs: Seq<Seq<char>>)
    requires
        is_normal(base),
        base.len() == 0 || !climbs_above_start(segs),
    ensures
        normalize(base + segs) == base + normalize(segs),
    decreases segs.len(),
{
    if base.len() == 0 {
        assert(base + segs =~= segs);
        assert(base + normalize(segs) =~= normalize(segs));
    } else if segs.len() == 0 {
        assert(base + segs =~= base);
        lemma_normalize_fixes_normal(base);
        assert(base + normalize(segs) =~= base);
    } else {
        let all = base + segs;
        assert(all.drop_last() =~= base + segs.drop_last());
        assert(all.last() == segs.last());
        lemma_normalize_below_base(base, segs.drop_last());
        let inner = normalize(segs.drop_last());
        let seg = segs.last();
        assert(step(base + inner, seg) =~= base + step(inner, seg));
    }
}

/// Text without a leading separator is read below the base: where the base
/// holds only segments that name an entry, and the text never climbs above
/// the base with "..", the path is the base followed by the normalized
/// segments of the text.
pub proof fn lemma_parse_relative_extends_base(base: Seq<Seq<char>>, text: Seq<char>)
    requires
        !is_absolute(text),
        is_normal(base),
        base.len() == 0 || !climbs_above_start(split(text, SEPARATOR)),
    ensures
        parse_spec(base, text) == base + normalize(split(text, SEPARATOR)),
{
    lemma_normalize_below_base(base, split(text, SEPARATOR));
}

/// Text with a leading separator names the same path in every directory.
pub proof fn lemma_parse_absolute_ignores_base(
    base1: Seq<Seq<char>>,
    base2: Seq<Seq<char>>,
    text: Seq<char>,
)
    requires
        is_absolute(text),
    ensures
        parse_spec(base1, text) == parse_spec(base2, text),
{
}

/// How often `sep` occurs in `s`.
pub open spec fn occurrences(s: Seq<char>, sep: char) -> nat
    decreases s.len(),
{
    if s.len() == 0 {
        0
    } else if s.last() == sep {
        occurrences(s.drop_last(), sep) + 1
    } else {
        occurrences(s.drop_last(), sep)
    }
}

/// Splitting loses nothing: there is one piece more than there are
/// separators, no piece holds the separator, and the pieces joined by the
/// separator give the text again.
pub proof fn lemma_split_joins_back(s: Seq<char>, sep: char)
    ensures
        split(s, sep).len() == 1 + occurrences(s, sep),
        forall|i: int| 0 <= i < split(s, sep).len() ==> free_of(#[trigger] split(s, sep)[i], sep),
        join_segments(split(s, sep), sep) == s,
    decreases s.len(),
{
    let r = split(s, sep);
    if s.len() == 0 {
        assert(join_segments(r, sep) =~= s);
    } else {
        let t = s.drop_last();
        let c = s.last();
        let head = split(t, sep);
        lemma_split_joins_back(t, sep);
        assert(t.push(c) =~= s);
        if c == sep {
            assert(r.drop_last() =~= head);
            assert(join_segments(r, sep) =~= join_segments(head, sep).push(sep));
            assert forall|i: int| 0 <= i < r.len() implies free_of(#[trigger] r[i], sep) by {
                if i < head.len() {
                    assert(r[i] == head[i]);
                }
            }
        } else {
            let n = head.len() - 1;
            assert forall|i: int| 0 <= i < r.len() implies free_of(#[trigger] r[i], sep) by {
                if i < n {
                    assert(r[i] == head[i]);
                } else {
                    assert(free_of(head[n], sep));
                }
            }
            if head.len() == 1 {
                assert(join_segments(r, sep) =~= join_segments(head, sep).push(c));
            } else {
                assert(r.drop_last() =~= head.drop_last());
                assert(join_segments(r, sep) =~= join_segments(head, sep).push(c));
            }
        }
    }
}

/// The separator alone splits into two empty pieces.
pub proof fn lemma_split_separator_alone()
    ensures
        split(seq![SEPARATOR], SEPARATOR) == seq![Seq::<char>::empty(), Seq::<char>::empty()],
{
    let e = Seq::<char>::empty();
    let root = seq![SEPARATOR];
    assert(split(e, SEPARATOR) =~= seq![e]);
    assert(root.drop_last() =~= e);
    assert(split(root, SEPARATOR) =~= seq![e, e]);
}

/// Empty pieces normalize to the root.
pub proof fn lemma_normalize_empty_pieces()
    ensures
        normalize(seq![Seq::<char>::empty()]) == Seq::<Seq<char>>::empty(),
        normalize(seq![Seq::<char>::empty(), Seq::<char>::empty()]) == Seq::<Seq<char>>::empty(),
{
    let e = Seq::<char>::empty();
    let none = Seq::<Seq<char>>::empty();
    assert(normalize(none) =~= none);
    assert(seq![e].drop_last() =~= none);
    assert(normalize(seq![e]) =~= none);
    assert(seq![e, e].drop_last() =~= seq![e]);
    assert(normalize(seq![e, e]) =~= none);
}

/// The text of a path with at least one segment, none of which holds the
/// separator, splits into an empty piece followed by the segments.
pub proof fn lemma_split_render(segs: Seq<Seq<char>>)
    requires
        segs.len() > 0,
        forall|i: int| 0 <= i < segs.len() ==> free_of(#[trigger] segs[i], SEPARATOR),
    ensures
        split(render(segs), SEPARATOR) == seq![Seq::<char>::empty()] + segs,
    decreases segs.len(),
{
    let sep = SEPARATOR;
    let e = Seq::<char>::empty();
    let root = seq![sep];
    lemma_split_separator_alone();
    let last = segs.last();
    assert(free_of(segs[segs.len() - 1], sep));
    if segs.len() == 1 {
        assert(render(segs) =~= root + last);
        lemma_split_append_piece(root, last, sep);
        assert(e + last =~= last);
        assert(split(render(segs), sep) =~= seq![e] + segs);
    } else {
        let init = segs.drop_last();
        assert forall|i: int| 0 <= i < init.len() implies free_of(#[trigger] init[i], sep) by {
            assert(init[i] == segs[i]);
        }
        lemma_split_render(init);
        let head = render(init).push(sep);
        assert(render(segs) =~= head + last);
        assert(head.drop_last() =~= render(init));
        lemma_split_append_piece(head, last, sep);
        assert(e + last =~= last);
        assert(split(render(segs), sep) =~= seq![e] + segs);
    }
}

/// Writing a path as text and reading the text back from the root gives the
/// path again, where each segment names an entry and none holds the
/// separator.
pub proof fn lemma_render_round_trip(base: Seq<Seq<char>>, segs: Seq<Seq<char>>)
    requires
        is_normal(segs),
        forall|i: int| 0 <= i < segs.len() ==> free_of(#[trigger] segs[i], SEPARATOR),
    ensures
        parse_spec(base, render(segs)) == segs,
{
    let sep = SEPARATOR;
    let e = Seq::<char>::empty();
    assert(is_absolute(render(segs)));
    if segs.len() == 0 {
        let root = seq![sep];
        assert(render(segs) =~= root);
        lemma_split_separator_alone();
        lemma_normalize_empty_pieces();
        assert(segs =~= Seq::<Seq<char>>::empty());
    } else {
        lemma_split_render(segs);
        lemma_normalize_keeps_plain_tail(seq![e], segs);
        lemma_normalize_empty_pieces();
        assert(normalize(seq![e]) + segs =~= segs);
    }
}

/// An ordered sequence of path segments.
#[derive(Debug)]
pub struct Path(pub Vec<String>);

impl View for Path {
    type V = Seq<Seq<char>>;

    open spec fn view(&self) -> Seq<Seq<char>> {
        views(self.0@)
    }
}

impl Clone for Path {
    fn clone(&self) -> (r: Self)
        ensures
            r.0@ == self.0@,
    {
        Path(clone_strings(&self.0))
    }
}

/// How one path stands to another.
#[derive(Debug, Clone, Copy, PartialEq, Eq, Structural)]
pub enum Rank {
    Before,
    Same,
    After,
}

/// How `a` stands to `b`: the first segment in which they differ decides,
/// by the order of text, and a path comes before every path that goes on
/// behind it.
pub open spec fn rank(a: Seq<Seq<char>>, b: Seq<Seq<char>>) -> Rank
    decreases a.len(),
{
    if a.len() == 0 && b.len() == 0 {
        Rank::Same
    } else if a.len() == 0 {
        Rank::Before
    } else if b.len() == 0 {
        Rank::After
    } else if a[0] == b[0] {
        rank(a.drop_first(), b.drop_first())
    } else if lex_lt(a[0], b[0]) {
        Rank::Before
    } else {
        Rank::After
    }
}

/// Two paths stand the same exactly when they have the same segments.
pub proof fn lemma_rank_same(a: Seq<Seq<char>>, b: Seq<Seq<char>>)
    ensures
        rank(a, b) == Rank::Same <==> a == b,
    decreases a.len(),
{
    if a.len() > 0 && b.len() > 0 {
        lemma_rank_same(a.drop_first(), b.drop_first());
        if a[0] == b[0] && a.drop_first() == b.drop_first() {
            assert(a =~= seq![a[0]] + a.drop_first());
            assert(b =~= seq![b[0]] + b.drop_first());
        }
    } else if a.len() == 0 && b.len() == 0 {
        assert(a =~= b);
    }
}

/// How the segments `a` stand to the segments `b`.
pub fn rank_segments(a: &Vec<String>, b: &Vec<String>) -> (r: Rank)
    ensures
        r == rank(views(a@), views(b@)),
{
    let ghost x = views(a@);
    let ghost y = views(b@);
    let mut i: usize = 0;
    proof {
        assert(x.skip(0) =~= x);
        assert(y.skip(0) =~= y);
    }
    while i < a.len() && i < b.len()
        invariant
            i <= a@.len(),
            i <= b@.len(),
            x == views(a@),
            y == views(b@),
            rank(x, y) == rank(x.skip(i as int), y.skip(i as int)),
        decreases a@.len() - i,
    {
        proof {
            assert(x.skip(i as int)[0] == a@[i as int]@);
            assert(y.skip(i as int)[0] == b@[i as int]@);
            assert(x.skip(i as int).drop_first() =~= x.skip(i + 1));
            assert(y.skip(i as int).drop_first() =~= y.skip(i + 1));
        }
        if !a[i].as_str().eq(b[i].as_str()) {
            if str_lt(a[i].as_str(), b[i].as_str()) {
                return Rank::Before;
            } else {
                return Rank::After;
            }
        }
        i = i + 1;
    }
    if i < b.len() {
        Rank::Before
    } else if i < a.len() {
        Rank::After
    } else {
        Rank::Same
    }
}

impl PartialEq for Path {
    fn eq(&self, other: &Self) -> (r: bool) {
        proof {
            lemma_rank_same(self@, other@);
        }
        match rank_segments(&self.0, &other.0) {
            Rank::Same => true,
            _ => false,
        }
    }
}

impl PartialEqSpecImpl for Path {
    open spec fn obeys_eq_spec() -> bool {
        true
    }

    open spec fn eq_spec(&self, other: &Self) -> bool {
        self@ == other@
    }
}

impl Eq for Path {

}

impl PartialOrd for Path {
    fn partial_cmp(&self, other: &Self) -> (r: Option<Ordering>) {
        match rank_segments(&self.0, &other.0) {
            Rank::Before => Some(Ordering::Less),
            Rank::Same => Some(Ordering::Equal),
            Rank::After => Some(Ordering::Greater),
        }
    }
}

impl PartialOrdSpecImpl for Path {
    open spec fn obeys_partial_cmp_spec() -> bool {
        true
    }

    open spec fn partial_cmp_spec(&self, other: &Self) -> Option<Ordering> {
        match rank(self@, other@) {
            Rank::Before => Some(Ordering::Less),
            Rank::Same => Some(Ordering::Equal),
            Rank::After => Some(Ordering::Greater),
        }
    }
}

impl Default for Path {
    fn default() -> (r: Self)
        ensures
            r@ == Seq::<Seq<char>>::empty(),
    {
        Path(Vec::new())
    }
}

/// Whether the text begins with the separator.
pub fn starts_with_separator(text: &str) -> (r: bool)
    ensures
        r == is_absolute(text@),
{
    let mut it = text.chars();
    match it.next() {
        Some(c) => c == SEPARATOR,
        None => false,
    }
}

impl Path {
    /// The path with exactly these segments.
    pub fn new(path: Vec<String>) -> (r: Self)
        ensures
            r.0 == path,
    {
        Path(path)
    }

    /// Reads `relative` in the directory `cwd`: text that begins with the
    /// separator is taken from the root, any other from `cwd`; "." and empty
    /// segments vanish and ".." removes the segment before it.
    pub fn parse(cwd: &Path, relative: &str) -> (r: Self)
        ensures
            r@ == parse_spec(cwd@, relative@),
            is_normal(r@),
    {
        let mut new_path: Vec<String> = if starts_with_separator(relative) {
            Vec::new()
        } else {
            clone_strings(&cwd.0)
        };
        let mut segs = split_on(relative, SEPARATOR);
        proof {
            let all = views(new_path@ + segs@);
            if is_absolute(relative@) {
                assert(all == split(relative@, SEPARATOR));
            } else {
                assert(all == cwd@ + split(relative@, SEPARATOR));
            }
        }
        new_path.append(&mut segs);
        Path(new_path).normalized()
    }

    /// This path followed by the segments of `other`.
    pub fn join(self, other: &Path) -> (r: Self)
        ensures
            r@ == self@ + other@,
    {
        let mut segs = self.0;
        let mut tail = clone_strings(&other.0);
        segs.append(&mut tail);
        let r = Path(segs);
        assert(r@ == self@ + other@);
        r
    }

    /// The path with "." and empty segments removed and each ".." resolved.
    pub fn normalized(&self) -> (r: Self)
        ensures
            r@ == normalize(self@),
            is_normal(r@),
    {
        proof {
            lemma_normalize_is_normal(self@);
        }
        let mut new_path: Vec<String> = Vec::new();
        let mut i: usize = 0;
        while i < self.0.len()
            invariant
                i <= self.0.len(),
                views(new_path@) == normalize(self@.take(i as int)),
            decreases self.0.len() - i,
        {
            proof {
                reveal_strlit(".");
                reveal_strlit("..");
                assert("."@ =~= dot());
                assert(".."@ =~= dot_dot());
                assert(self@.take(i + 1).drop_last() == self@.take(i as int));
            }
            let sub = &self.0[i];
            let ghost before = new_path@;
            if sub.as_str().is_empty() || sub.as_str().eq(".") {
            } else if sub.as_str().eq("..") {
                let _ = new_path.pop();
                assert(views(new_path@) == step(views(before), sub@));
            } else {
                new_path.push(sub.clone());
                assert(views(new_path@) == step(views(before), sub@));
            }
            assert(self@.take(i + 1).last() == sub@);
            i = i + 1;
        }
        proof {
            assert(self@.take(self@.len() as int) == self@);
        }
        Path(new_path)
    }

    /// All segments but the last; the root is its own parent.
    pub fn parent(&self) -> (r: Self)
        ensures
            r@ == if self@.len() == 0 {
                self@
            } else {
                self@.drop_last()
            },
    {
        let mut segs = clone_strings(&self.0);
        let _ = segs.pop();
        let r = Path(segs);
        assert(r@ == if self@.len() == 0 {
            self@
        } else {
            self@.drop_last()
        });
        r
    }

    /// The last segment, or nothing for the root.
    pub fn basename(&self) -> (r: Option<String>)
        ensures
            match r {
                Some(name) => self@.len() > 0 && name@ == self@.last(),
                None => self@.len() == 0,
            },
    {
        let n = self.0.len();
        if n == 0 {
            None
        } else {
            Some(self.0[n - 1].clone())
        }
    }

    /// The segments joined by the separator, without a leading one.
    fn joined(&self) -> (r: String)
        ensures
            r@ == join_segments(self@, SEPARATOR),
    {
        let mut out = String::new();
        let mut i: usize = 0;
        while i < self.0.len()
            invariant
                i <= self.0.len(),
                out@ == join_segments(self@.take(i as int), SEPARATOR),
            decreases self.0.len() - i,
        {
            proof {
                assert(self@.take(i + 1).drop_last() == self@.take(i as int));
            }
            if i > 0 {
                out.push(SEPARATOR);
            }
            out.append(self.0[i].as_str());
            i = i + 1;
        }
        proof {
            assert(self@.take(self@.len() as int) == self@);
        }
        out
    }

    /// The text of the path: the root is the separator alone, any other
    /// path the separator followed by its segments joined by it.
    pub fn to_string(&self) -> (r: String)
        ensures
            r@ == render(self@),
    {
        let mut out = String::new();
        out.push(SEPARATOR);
        let body = self.joined();
        out.append(body.as_str());
        out
    }

    /// The text of the path on a drive, if there is one: the drive's name
    /// and a colon go before the text of the path.
    pub fn format(&self, drive: &Option<String>) -> (r: String)
        ensures
            r@ == render_on_drive(
                match drive {
                    Some(d) => Some(d@),
                    None => None,
                },
                self@,
            ),
    {
        let mut out = String::new();
        match drive {
            Some(d) => {
                out.append(d.as_str());
                out.push(':');
            },
            None => {},
        }
        let body = self.to_string();
        out.append(body.as_str());
        out
    }
}

} // verus!
