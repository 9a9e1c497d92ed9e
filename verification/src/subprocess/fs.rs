//! The programs that show and walk the filesystem: `ls`, `cd` and `cat`.
//! Each works on one computer and returns the text that it prints.

use crate::computer::{Computer, ComputerModel};
use crate::fs::{names_sorted, ContentModel, Dir, Node, NodeContent, NodeModel};
use crate::path::{parse_spec, render, Path};
use crate::text::{
    lex_lt, byte_len, decimal, pad_left, pad_right, push_padded_left, push_padded_right, str_byte_len,
    to_decimal, views,
};
use vstd::prelude::*;
use vstd::string::*;

verus! {

/// The programs for the filesystem with the names under which a computer
/// has them.
pub open spec fn default_list() -> Seq<(Seq<char>, crate::subprocess::Builtin)> {
    seq![
        ("ls"@, crate::subprocess::Builtin::Ls),
        ("cd"@, crate::subprocess::Builtin::Cd),
        ("cat"@, crate::subprocess::Builtin::Cat),
    ]
}

/// The programs for the filesystem with the names under which a computer
/// has them.
pub fn defaults() -> (r: Vec<(String, crate::subprocess::Builtin)>)
    ensures
        crate::subprocess::exe_list(r@) == default_list(),
{
    let mut out: Vec<(String, crate::subprocess::Builtin)> = Vec::new();
    out.push((String::from_str("ls"), crate::subprocess::Builtin::Ls));
    out.push((String::from_str("cd"), crate::subprocess::Builtin::Cd));
    out.push((String::from_str("cat"), crate::subprocess::Builtin::Cat));
    assert(crate::subprocess::exe_list(out@) =~= default_list());
    out
}

/// What `cd` does with its arguments: the computer afterwards, and the text
/// that is printed. With one argument that names a directory the working
/// directory becomes that directory and nothing is printed; in every other
/// case the computer stays as it is and a message says why.
pub open spec fn cd_spec(c: ComputerModel, args: Seq<Seq<char>>) -> (ComputerModel, Seq<char>) {
    if args.len() != 1 {
        (c, "Expected 1 argument.\n"@)
    } else {
        let target = parse_spec(c.cwd, args[0]);
        match c.root.lookup(target) {
            Some(n) => if n.content is Dir {
                (ComputerModel { cwd: target, ..c }, Seq::empty())
            } else {
                (c, "Path is not a directory \""@ + render(target) + "\".\n"@)
            },
            None => (c, "No such directory \""@ + render(target) + "\".\n"@),
        }
    }
}

/// `cd` changes at most the working directory, and only to a directory
/// that exists. Whenever it leaves the computer as it is, it says why:
/// where the path reaches nothing or reaches something that is no
/// directory, the working directory stays and a message is printed.
pub proof fn lemma_cd_moves_only_into_directories(c: ComputerModel, args: Seq<Seq<char>>)
    ensures
        cd_spec(c, args).0 == (ComputerModel { cwd: cd_spec(c, args).0.cwd, ..c }),
        cd_spec(c, args).0.cwd != c.cwd ==> args.len() == 1 && cd_spec(c, args).0.cwd == parse_spec(
            c.cwd,
            args[0],
        ) && c.root.lookup(cd_spec(c, args).0.cwd) is Some && c.root.lookup(
            cd_spec(c, args).0.cwd,
        )->0.content is Dir,
        args.len() == 1 && !(c.resolve(args[0]) is Some && c.resolve(args[0])->0.content is Dir)
            ==> cd_spec(c, args).0 == c && cd_spec(c, args).1.len() > 0,
{
}

/// Changes the working directory of the computer and returns what is
/// printed.
pub fn change_directory(c: &mut Computer, args: &Vec<String>) -> (r: String)
    ensures
        final(c)@ == cd_spec(old(c)@, views(args@)).0,
        r@ == cd_spec(old(c)@, views(args@)).1,
{
    if args.len() != 1 {
        return String::from_str("Expected 1 argument.\n");
    }
    let subdir = Path::parse(&c.cwd, args[0].as_str());
    let mut out = String::new();
    let mut found_dir = false;
    match c.root.get_node(&subdir) {
        Some(node) => {
            if node.is_dir() {
                found_dir = true;
            } else {
                out.append("Path is not a directory \"");
                out.append(subdir.to_string().as_str());
                out.append("\".\n");
            }
        },
        None => {
            out.append("No such directory \"");
            out.append(subdir.to_string().as_str());
            out.append("\".\n");
        },
    }
    if found_dir {
        c.cwd = subdir;
    }
    out
}

/// How far `cat` has come: what it has printed, what it has gathered to
/// print at the end, and whether it has given up.
pub struct CatState {
    pub printed: Seq<char>,
    pub buf: Seq<char>,
    pub aborted: bool,
}

/// What one argument does to `cat`: a file's text is gathered, with a line
/// end behind it; an entry that is no file gets a message and the work goes
/// on; a missing entry gets a message and ends the work.
pub open spec fn cat_step(c: ComputerModel, st: CatState, file: Seq<char>) -> CatState {
    if st.aborted {
        st
    } else {
        match c.resolve(file) {
            Some(n) => match n.content {
                ContentModel::File(t) => CatState { buf: st.buf + t + seq!['\n'], ..st },
                _ => CatState {
                    printed: st.printed + "Path \""@ + file + "\" is not a file.\n"@,
                    ..st
                },
            },
            None => CatState {
                printed: st.printed + "File \""@ + file + "\" does not exist.\n"@,
                aborted: true,
                ..st
            },
        }
    }
}

/// The state of `cat` after all arguments.
pub open spec fn cat_scan(c: ComputerModel, args: Seq<Seq<char>>) -> CatState
    decreases args.len(),
{
    if args.len() == 0 {
        CatState { printed: Seq::empty(), buf: Seq::empty(), aborted: false }
    } else {
        cat_step(c, cat_scan(c, args.drop_last()), args.last())
    }
}

/// What `cat` prints: its messages in the order of the arguments, and then
/// the texts of the files, unless a missing entry ended the work, in which
/// case what was gathered is dropped.
pub open spec fn cat_text(c: ComputerModel, args: Seq<Seq<char>>) -> Seq<char> {
    let st = cat_scan(c, args);
    if st.aborted {
        st.printed
    } else {
        st.printed + st.buf
    }
}

/// The text that `cat` prints for these arguments.
pub fn concatenate(c: &Computer, args: &Vec<String>) -> (r: String)
    ensures
        r@ == cat_text(c@, views(args@)),
{
    let mut printed = String::new();
    let mut buf = String::new();
    let mut i: usize = 0;
    let ghost all = views(args@);
    proof {
        assert(all.take(0) =~= Seq::<Seq<char>>::empty());
    }
    while i < args.len()
        invariant
            i <= args.len(),
            all == views(args@),
            !cat_scan(c@, all.take(i as int)).aborted,
            cat_scan(c@, all.take(i as int)).printed == printed@,
            cat_scan(c@, all.take(i as int)).buf == buf@,
        decreases args.len() - i,
    {
        proof {
            assert(all.take(i + 1).drop_last() =~= all.take(i as int));
            assert(all.take(i + 1).last() == args@[i as int]@);
        }
        let file = args[i].as_str();
        let at = Path::parse(&c.cwd, file);
        match c.root.get_node(&at) {
            Some(node) => match node.as_file() {
                Some(f) => {
                    buf.append(f.content.as_str());
                    buf.push('\n');
                },
                None => {
                    printed.append("Path \"");
                    printed.append(file);
                    printed.append("\" is not a file.\n");
                },
            },
            None => {
                printed.append("File \"");
                printed.append(file);
                printed.append("\" does not exist.\n");
                proof {
                    lemma_cat_aborted_stays(c@, all, i + 1);
                }
                return printed;
            },
        }
        i = i + 1;
    }
    proof {
        assert(all.take(args@.len() as int) =~= all);
    }
    printed.append(buf.as_str());
    printed
}

/// Once `cat` has given up, later arguments change nothing.
pub proof fn lemma_cat_aborted_stays(c: ComputerModel, args: Seq<Seq<char>>, k: int)
    requires
        0 <= k <= args.len(),
        cat_scan(c, args.take(k)).aborted,
    ensures
        cat_scan(c, args) == cat_scan(c, args.take(k)),
    decreases args.len() - k,
{
    if k < args.len() {
        assert(args.take(k + 1).drop_last() =~= args.take(k));
        lemma_cat_aborted_stays(c, args, k + 1);
    } else {
        assert(args.take(k) =~= args);
    }
}

/// The directories among the entries where `dirs` is set, and else the
/// entries that are none, in the same order.
pub open spec fn of_kind(s: Seq<NodeModel>, dirs: bool) -> Seq<NodeModel>
    decreases s.len(),
{
    if s.len() == 0 {
        Seq::empty()
    } else if (s.last().content is Dir) == dirs {
        of_kind(s.drop_last(), dirs).push(s.last())
    } else {
        of_kind(s.drop_last(), dirs)
    }
}

/// The order of a listing: directories before everything else, and each of
/// the two groups in the order of the directory, which is by name.
pub open spec fn listing_order(children: Seq<NodeModel>) -> Seq<NodeModel> {
    of_kind(children, true) + of_kind(children, false)
}

/// Whether `a` stands before `b` in a listing: a directory before anything
/// that is none, and among two of a kind the smaller name first.
pub open spec fn listed_before(a: NodeModel, b: NodeModel) -> bool {
    if (a.content is Dir) == (b.content is Dir) {
        lex_lt(a.name, b.name)
    } else {
        a.content is Dir
    }
}

/// The entries of one kind are of that kind, come from the entries, and
/// keep their order of name; every entry of that kind is among them.
pub proof fn lemma_of_kind(s: Seq<NodeModel>, dirs: bool)
    requires
        names_sorted(s),
    ensures
        of_kind(s, dirs).len() <= s.len(),
        forall|i: int|
            0 <= i < of_kind(s, dirs).len() ==> ((#[trigger] of_kind(s, dirs)[i]).content is Dir)
                == dirs && s.contains(of_kind(s, dirs)[i]),
        forall|i: int, j: int|
            #![trigger of_kind(s, dirs)[i], of_kind(s, dirs)[j]]
            0 <= i < j < of_kind(s, dirs).len() ==> lex_lt(
                of_kind(s, dirs)[i].name,
                of_kind(s, dirs)[j].name,
            ),
        forall|k: int|
            0 <= k < s.len() && ((#[trigger] s[k]).content is Dir) == dirs ==> of_kind(
                s,
                dirs,
            ).contains(s[k]),
        of_kind(s, true).len() + of_kind(s, false).len() == s.len(),
    decreases s.len(),
{
    if s.len() > 0 {
        let front = s.drop_last();
        let last = s.last();
        assert forall|i: int, j: int| #![trigger front[i], front[j]] 0 <= i < j
            < front.len() implies lex_lt(front[i].name, front[j].name) by {
            assert(front[i] == s[i] && front[j] == s[j]);
        }
        lemma_of_kind(front, dirs);
        lemma_of_kind(front, !dirs);
        let f = of_kind(front, dirs);
        let t = of_kind(s, dirs);
        assert forall|i: int| 0 <= i < t.len() implies ((#[trigger] t[i]).content is Dir) == dirs
            && s.contains(t[i]) by {
            if i < f.len() {
                assert(t[i] == f[i]);
                let k = choose|k: int| 0 <= k < front.len() && front[k] == f[i];
                assert(s[k] == t[i]);
            } else {
                assert(s[s.len() - 1] == t[i]);
            }
        }
        assert forall|i: int, j: int| #![trigger t[i], t[j]] 0 <= i < j < t.len() implies lex_lt(
            t[i].name,
            t[j].name,
        ) by {
            assert(t[i] == f[i]);
            if j < f.len() {
                assert(t[j] == f[j]);
            } else {
                let k = choose|k: int| 0 <= k < front.len() && front[k] == f[i];
                assert(s[k] == f[i]);
                assert(lex_lt(s[k].name, s[s.len() - 1].name));
            }
        }
        assert forall|k: int| 0 <= k < s.len() && ((#[trigger] s[k]).content is Dir)
            == dirs implies t.contains(s[k]) by {
            if k < front.len() {
                assert(front[k] == s[k]);
                let i = choose|i: int| 0 <= i < f.len() && f[i] == front[k];
                assert(t[i] == s[k]);
            } else {
                assert(t[t.len() - 1] == s[k]);
            }
        }
    }
}

/// A listing holds every child once, the directories first and then the
/// others, each group in ascending order of name.
pub proof fn lemma_listing_order(children: Seq<NodeModel>)
    requires
        names_sorted(children),
    ensures
        listing_order(children).len() == children.len(),
        forall|i: int, j: int|
            #![trigger listing_order(children)[i], listing_order(children)[j]]
            0 <= i < j < children.len() ==> listed_before(
                listing_order(children)[i],
                listing_order(children)[j],
            ),
        forall|k: int|
            0 <= k < children.len() ==> listing_order(children).contains(#[trigger] children[k]),
{
    lemma_of_kind(children, true);
    lemma_of_kind(children, false);
    let d = of_kind(children, true);
    let o = of_kind(children, false);
    let order = listing_order(children);
    assert forall|i: int, j: int| #![trigger order[i], order[j]] 0 <= i < j
        < children.len() implies listed_before(order[i], order[j]) by {
        if j < d.len() {
            assert(order[i] == d[i] && order[j] == d[j]);
        } else if i < d.len() {
            assert(order[i] == d[i] && order[j] == o[j - d.len()]);
        } else {
            assert(order[i] == o[i - d.len()] && order[j] == o[j - d.len()]);
        }
    }
    assert forall|k: int| 0 <= k < children.len() implies order.contains(
        #[trigger] children[k],
    ) by {
        if children[k].content is Dir {
            let i = choose|i: int| 0 <= i < d.len() && d[i] == children[k];
            assert(order[i] == children[k]);
        } else {
            let i = choose|i: int| 0 <= i < o.len() && o[i] == children[k];
            assert(order[i + d.len()] == children[k]);
        }
    }
}

/// The four columns of a line of a listing.
pub struct RowModel {
    pub perm: Seq<char>,
    pub date: Seq<char>,
    pub size: Seq<char>,
    pub name: Seq<char>,
}

/// The columns for one entry: a `d` for a directory or a `-`, followed by
/// the permissions of the owner and of the others; the date; the size in
/// bytes for a file and nothing for anything else; the name.
pub open spec fn row_of(n: NodeModel) -> RowModel {
    RowModel {
        perm: seq![if n.content is Dir { 'd' } else { '-' }] + n.owner_security.text()
            + n.other_security.text(),
        date: n.date.text(),
        size: match n.content {
            ContentModel::File(t) => decimal(byte_len(t)),
            _ => Seq::empty(),
        },
        name: n.name,
    }
}

/// The rows of the entries, one for one.
pub open spec fn rows_of(s: Seq<NodeModel>) -> Seq<RowModel> {
    Seq::new(s.len(), |i: int| row_of(s[i]))
}

/// The larger of two numbers.
pub open spec fn larger(a: nat, b: nat) -> nat {
    if a >= b {
        a
    } else {
        b
    }
}

/// The widths of the four columns.
pub struct Widths {
    pub perm: nat,
    pub date: nat,
    pub size: nat,
    pub name: nat,
}

/// The space that the widest text of each column needs, counted in bytes
/// and not less than 8.
pub open spec fn widest(rows: Seq<RowModel>) -> Widths
    decreases rows.len(),
{
    if rows.len() == 0 {
        Widths { perm: 8, date: 8, size: 8, name: 8 }
    } else {
        let w = widest(rows.drop_last());
        let r = rows.last();
        Widths {
            perm: larger(w.perm, byte_len(r.perm)),
            date: larger(w.date, byte_len(r.date)),
            size: larger(w.size, byte_len(r.size)),
            name: larger(w.name, byte_len(r.name)),
        }
    }
}

/// The widths of the columns: two more than the widest text needs.
pub open spec fn column_widths(rows: Seq<RowModel>) -> Widths {
    let w = widest(rows);
    Widths { perm: w.perm + 2, date: w.date + 2, size: w.size + 2, name: w.name + 2 }
}

/// One line of a listing: the first and the last column with their text at
/// the left, the two in the middle with their text at the right and a space
/// behind.
pub open spec fn row_line(r: RowModel, w: Widths) -> Seq<char> {
    pad_right(r.perm, w.perm) + pad_left(r.date, w.date) + seq![' '] + pad_left(r.size, w.size)
        + seq![' '] + pad_right(r.name, w.name) + seq!['\n']
}

/// The lines of the rows, one after the other.
pub open spec fn row_lines(rows: Seq<RowModel>, w: Widths) -> Seq<char>
    decreases rows.len(),
{
    if rows.len() == 0 {
        Seq::empty()
    } else {
        row_lines(rows.drop_last(), w) + row_line(rows.last(), w)
    }
}

/// The listing of the children of a directory.
pub open spec fn listing(children: Seq<NodeModel>) -> Seq<char> {
    let rows = rows_of(listing_order(children));
    row_lines(rows, column_widths(rows))
}

/// What `ls` prints for no argument or one: the listing of the working
/// directory, or of the directory that the argument names. An entry that is
/// no directory is listed as nothing, and a path that reaches nothing gets a
/// message.
pub open spec fn ls_text(c: ComputerModel, args: Seq<Seq<char>>) -> Seq<char> {
    let dir = if args.len() == 1 {
        parse_spec(c.cwd, args[0])
    } else {
        c.cwd
    };
    match c.root.lookup(dir) {
        Some(n) => match n.content {
            ContentModel::Dir(children) => listing(children),
            _ => Seq::empty(),
        },
        None => seq!['"'] + render(dir) + "\" is not a directory\n"@,
    }
}

/// The four columns of a line of a listing.
pub struct Row {
    pub perm: String,
    pub date: String,
    pub size: String,
    pub name: String,
}

impl View for Row {
    type V = RowModel;

    open spec fn view(&self) -> RowModel {
        RowModel { perm: self.perm@, date: self.date@, size: self.size@, name: self.name@ }
    }
}

/// The columns for one entry.
pub fn make_row(node: &Node) -> (r: Row)
    ensures
        r@ == row_of(node@),
{
    let mut perm = String::new();
    perm.push(if node.is_dir() { 'd' } else { '-' });
    perm.append(node.owner_security.to_string().as_str());
    perm.append(node.other_security.to_string().as_str());
    let size = match &node.content {
        NodeContent::File(f) => to_decimal(str_byte_len(f.content.as_str())),
        _ => String::new(),
    };
    Row { perm, date: node.date.to_text(), size, name: node.name.clone() }
}

/// The children of a directory in the order of a listing.
pub fn in_listing_order(dir: &Dir) -> (r: Vec<&Node>)
    ensures
        r@.len() == listing_order(dir@).len(),
        forall|i: int| 0 <= i < r@.len() ==> (#[trigger] r@[i])@ == listing_order(dir@)[i],
{
    let kids = dir.children();
    let ghost ks = dir@;
    let mut out: Vec<&Node> = Vec::new();
    let mut j: usize = 0;
    while j < kids.len()
        invariant
            j <= kids.len(),
            kids@.len() == ks.len(),
            forall|k: int| 0 <= k < kids@.len() ==> (#[trigger] kids@[k])@ == ks[k],
            out@.len() == of_kind(ks.take(j as int), true).len(),
            forall|k: int|
                0 <= k < out@.len() ==> (#[trigger] out@[k])@ == of_kind(ks.take(j as int), true)[k],
        decreases kids.len() - j,
    {
        proof {
            assert(ks.take(j + 1).drop_last() =~= ks.take(j as int));
            assert(ks.take(j + 1).last() == kids@[j as int]@);
        }
        if kids[j].is_dir() {
            out.push(&kids[j]);
        }
        j = j + 1;
    }
    proof {
        assert(ks.take(kids@.len() as int) =~= ks);
    }
    let ghost dirs = of_kind(ks, true);
    j = 0;
    while j < kids.len()
        invariant
            j <= kids.len(),
            kids@.len() == ks.len(),
            dirs == of_kind(ks, true),
            forall|k: int| 0 <= k < kids@.len() ==> (#[trigger] kids@[k])@ == ks[k],
            out@.len() == dirs.len() + of_kind(ks.take(j as int), false).len(),
            forall|k: int| 0 <= k < dirs.len() ==> (#[trigger] out@[k])@ == dirs[k],
            forall|k: int|
                dirs.len() <= k < out@.len() ==> (#[trigger] out@[k])@ == of_kind(ks.take(j as int), false)[k - dirs.len()],
        decreases kids.len() - j,
    {
        proof {
            assert(ks.take(j + 1).drop_last() =~= ks.take(j as int));
            assert(ks.take(j + 1).last() == kids@[j as int]@);
        }
        if !kids[j].is_dir() {
            out.push(&kids[j]);
        }
        j = j + 1;
    }
    proof {
        assert(ks.take(kids@.len() as int) =~= ks);
    }
    out
}

/// The views of rows, one for one.
pub open spec fn row_views(rows: Seq<Row>) -> Seq<RowModel> {
    Seq::new(rows.len(), |i: int| rows[i]@)
}

/// The text of a listing of these rows.
pub fn format_rows(rows: &Vec<Row>) -> (r: String)
    ensures
        r@ == row_lines(row_views(rows@), column_widths(row_views(rows@))),
{
    let ghost ms = row_views(rows@);
    let mut w_perm: usize = 8;
    let mut w_date: usize = 8;
    let mut w_size: usize = 8;
    let mut w_name: usize = 8;
    let mut i: usize = 0;
    proof {
        assert(ms.take(0) =~= Seq::<RowModel>::empty());
    }
    while i < rows.len()
        invariant
            i <= rows.len(),
            ms == row_views(rows@),
            widest(ms.take(i as int)) == (Widths {
                perm: w_perm as nat,
                date: w_date as nat,
                size: w_size as nat,
                name: w_name as nat,
            }),
        decreases rows.len() - i,
    {
        proof {
            assert(ms.take(i + 1).drop_last() =~= ms.take(i as int));
            assert(ms.take(i + 1).last() == rows@[i as int]@);
        }
        let row = &rows[i];
        let a = str_byte_len(row.perm.as_str());
        let b = str_byte_len(row.date.as_str());
        let c = str_byte_len(row.size.as_str());
        let d = str_byte_len(row.name.as_str());
        if a > w_perm {
            w_perm = a;
        }
        if b > w_date {
            w_date = b;
        }
        if c > w_size {
            w_size = c;
        }
        if d > w_name {
            w_name = d;
        }
        i = i + 1;
    }
    proof {
        assert(ms.take(rows@.len() as int) =~= ms);
    }
    let wa: u128 = w_perm as u128 + 2;
    let wb: u128 = w_date as u128 + 2;
    let wc: u128 = w_size as u128 + 2;
    let wd: u128 = w_name as u128 + 2;
    let ghost w = column_widths(ms);
    let mut out = String::new();
    i = 0;
    while i < rows.len()
        invariant
            i <= rows.len(),
            ms == row_views(rows@),
            w == (Widths { perm: wa as nat, date: wb as nat, size: wc as nat, name: wd as nat }),
            out@ == row_lines(ms.take(i as int), w),
        decreases rows.len() - i,
    {
        proof {
            assert(ms.take(i + 1).drop_last() =~= ms.take(i as int));
            assert(ms.take(i + 1).last() == rows@[i as int]@);
        }
        let row = &rows[i];
        let ghost before = out@;
        push_padded_right(&mut out, row.perm.as_str(), wa);
        push_padded_left(&mut out, row.date.as_str(), wb);
        out.push(' ');
        push_padded_left(&mut out, row.size.as_str(), wc);
        out.push(' ');
        push_padded_right(&mut out, row.name.as_str(), wd);
        out.push('\n');
        assert(out@ =~= before + row_line(row@, w));
        i = i + 1;
    }
    proof {
        assert(ms.take(rows@.len() as int) =~= ms);
    }
    out
}

/// The text of the listing of a directory.
pub fn list_directory(dir: &Dir) -> (r: String)
    ensures
        r@ == listing(dir@),
{
    let order = in_listing_order(dir);
    let ghost ms = listing_order(dir@);
    let mut rows: Vec<Row> = Vec::new();
    let mut i: usize = 0;
    while i < order.len()
        invariant
            i <= order.len(),
            order@.len() == ms.len(),
            forall|k: int| 0 <= k < order@.len() ==> (#[trigger] order@[k])@ == ms[k],
            rows@.len() == i,
            forall|k: int| 0 <= k < i ==> (#[trigger] rows@[k])@ == row_of(ms[k]),
        decreases order.len() - i,
    {
        let row = make_row(order[i]);
        rows.push(row);
        i = i + 1;
    }
    proof {
        assert(row_views(rows@) =~= rows_of(ms));
    }
    format_rows(&rows)
}

/// The text that `ls` prints for no argument or one.
pub fn list(c: &Computer, args: &Vec<String>) -> (r: String)
    ensures
        r@ == ls_text(c@, views(args@)),
{
    let dir = if args.len() == 1 {
        Path::parse(&c.cwd, args[0].as_str())
    } else {
        c.cwd.clone()
    };
    match c.root.get_node(&dir) {
        Some(entry) => match entry.as_dir() {
            Some(d) => list_directory(d),
            None => String::new(),
        },
        None => {
            let mut out = String::new();
            out.push('"');
            out.append(dir.to_string().as_str());
            out.append("\" is not a directory\n");
            out
        },
    }
}

} // verus!
