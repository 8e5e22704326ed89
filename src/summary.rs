//! Assembles the whole index document from the source root.

use vstd::prelude::*;
use crate::order::{sort_order, sort_order_of, lemma_sort_order_bounds};
use crate::tree::{Entry, EntryKind, walk, lines_view, process_directory};

verus! {

/// The upper-case form of a character, as std's Unicode tables give it.
pub uninterp spec fn upper_of(c: char) -> Seq<char>;

/// Relies on `char::to_uppercase`: the upper-case mapping of a character,
/// which depends on that character alone.
#[verifier::external_body]
fn char_to_upper(c: char) -> (r: String)
    ensures
        r@ == upper_of(c),
{
    c.to_uppercase().collect::<String>()
}

/// `s` with its first character upper-cased and the rest unchanged.
pub open spec fn capitalized(s: Seq<char>) -> Seq<char> {
    if s.len() == 0 {
        Seq::empty()
    } else {
        upper_of(s[0]) + s.drop_first()
    }
}

/// Upper-cases the first character of `s` and keeps the rest as it is.
pub fn capitalize_first(s: &str) -> (r: String)
    ensures
        r@ == capitalized(s@),
{
    let n = s.unicode_len();
    if n == 0 {
        String::new()
    } else {
        let mut r = char_to_upper(s.get_char(0));
        r.append(s.substring_char(1, n));
        assert(s@.drop_first() =~= s@.subrange(1, n as int));
        r
    }
}

/// The source root: whether it holds an `aboutMe.md` page, and its listing.
pub struct SourceRoot {
    pub has_about_me: bool,
    pub entries: Vec<Entry>,
}

/// The lines of one section: its heading, a blank line, the lines of its
/// contents, and a closing blank line. A plain file gives none.
pub open spec fn section_lines(e: Entry) -> Seq<Seq<char>> {
    match e.kind {
        EntryKind::Dir { contents, .. } => {
            let body = match contents {
                Some(c) => walk(c, e.name@, Seq::empty()),
                None => Seq::empty(),
            };
            seq!["# "@ + capitalized(e.name@), Seq::<char>::empty()] + body + seq![Seq::<char>::empty()]
        },
        EntryKind::File => Seq::empty(),
    }
}

/// The lines of the sections among the first `k` entries of `order`.
pub open spec fn sections_upto(s: Seq<Entry>, order: Seq<int>, k: int) -> Seq<Seq<char>>
    decreases k,
{
    if k <= 0 {
        Seq::empty()
    } else {
        sections_upto(s, order, k - 1) + section_lines(s[order[k - 1]])
    }
}

/// The opening lines: the title, and the link to the about page if there is one.
pub open spec fn head_lines(has_about_me: bool) -> Seq<Seq<char>> {
    let title = seq!["# Summary"@, Seq::<char>::empty()];
    if has_about_me {
        title + seq!["- [about me](./aboutMe.md)"@, Seq::<char>::empty()]
    } else {
        title
    }
}

/// Every line of the index of `root`, in order.
pub open spec fn summary_lines(root: SourceRoot) -> Seq<Seq<char>> {
    let order = sort_order(root.entries@);
    head_lines(root.has_about_me) + sections_upto(root.entries@, order, order.len() as int)
}

/// The lines, each followed by a newline.
pub open spec fn joined(lines: Seq<Seq<char>>) -> Seq<char>
    decreases lines.len(),
{
    if lines.len() == 0 {
        Seq::empty()
    } else {
        joined(lines.drop_last()) + lines.last() + "\n"@
    }
}

/// The text of the index of `root`.
pub open spec fn summary_text(root: SourceRoot) -> Seq<char> {
    joined(summary_lines(root))
}

/// Writes out the lines, each followed by a newline.
pub fn join_lines(lines: &Vec<String>) -> (r: String)
    ensures
        r@ == joined(lines_view(lines@)),
{
    let mut r = String::new();
    let mut i: usize = 0;
    while i < lines.len()
        invariant
            i <= lines@.len(),
            r@ == joined(lines_view(lines@.take(i as int))),
        decreases lines@.len() - i,
    {
        assert(lines_view(lines@.take(i + 1)).drop_last() =~= lines_view(lines@.take(i as int)));
        r.append(lines[i].as_str());
        r.append("\n");
        i = i + 1;
    }
    assert(lines@.take(lines@.len() as int) =~= lines@);
    r
}

/// Pushes `text` as a new line.
fn push_line(lines: &mut Vec<String>, text: &str)
    ensures
        lines_view(final(lines)@) == lines_view(old(lines)@).push(text@),
{
    lines.push(String::from_str(text));
    assert(lines_view(lines@) =~= lines_view(old(lines)@).push(text@));
}

/// Builds the lines of the index: the title, the about page if present, then
/// one section per subdirectory of the root in name order.
pub fn summary_lines_of(root: &SourceRoot) -> (lines: Vec<String>)
    ensures
        lines_view(lines@) == summary_lines(*root),
{
    let mut lines: Vec<String> = Vec::new();
    proof {
        reveal_strlit("");
        assert(""@ =~= Seq::<char>::empty());
        assert(lines_view(lines@) =~= Seq::<Seq<char>>::empty());
    }
    push_line(&mut lines, "# Summary");
    push_line(&mut lines, "");
    if root.has_about_me {
        push_line(&mut lines, "- [about me](./aboutMe.md)");
        push_line(&mut lines, "");
    }
    assert(lines_view(lines@) =~= head_lines(root.has_about_me));
    let list = &root.entries;
    let order = sort_order_of(list);
    let ghost ord = sort_order(list@);
    proof {
        lemma_sort_order_bounds(list@, list@.len() as int);
        assert(order@.len() == ord.len());
    }
    let n = order.len();
    let mut k: usize = 0;
    while k < n
        invariant
            n == order@.len(),
            n == list@.len(),
            list == &root.entries,
            ord == sort_order(list@),
            order@.map_values(|x: usize| x as int) == ord,
            forall|q: int| 0 <= q < n ==> 0 <= #[trigger] ord[q] < n,
            k <= n,
            lines_view(lines@) == head_lines(root.has_about_me) + sections_upto(list@, ord, k as int),
        decreases n - k,
    {
        let j = order[k];
        assert(ord[k as int] == j as int);
        let e = &list[j];
        let ghost before = lines_view(lines@);
        match &e.kind {
            EntryKind::Dir { contents, .. } => {
                let mut heading = String::from_str("# ");
                let cap = capitalize_first(e.name.as_str());
                heading.append(cap.as_str());
                push_line(&mut lines, heading.as_str());
                push_line(&mut lines, "");
                let ghost top = lines_view(lines@);
                match contents {
                    Some(c) => {
                        let ghost mid = lines_view(lines@);
                        let mut body = process_directory(c, &e.name, &String::new());
                        let ghost added = lines_view(body@);
                        lines.append(&mut body);
                        assert(lines_view(lines@) =~= mid + added);
                    },
                    None => {},
                }
                let ghost body = lines_view(lines@).subrange(top.len() as int, lines@.len() as int);
                assert(lines_view(lines@) =~= top + body);
                push_line(&mut lines, "");
                proof {
                    reveal_strlit("");
                    assert(""@ =~= Seq::<char>::empty());
                    assert(top =~= before + seq!["# "@ + capitalized(e.name@), Seq::<char>::empty()]);
                }
                assert(lines_view(lines@) =~= before + section_lines(*e));
            },
            EntryKind::File => {},
        }
        k = k + 1;
    }
    lines
}

/// Generates the text of the index of `root`.
pub fn generate_summary(root: &SourceRoot) -> (r: String)
    ensures
        r@ == summary_text(*root),
{
    let lines = summary_lines_of(root);
    join_lines(&lines)
}

} // verus!
