//! The documentation tree as read from disk, and the walk that turns one
//! directory of it into navigation lines.

use vstd::prelude::*;
use crate::order::{sort_order, sort_order_of, lemma_sort_order_bounds};
use crate::text::{ends_with, display_name_of, normalized, same_text, has_suffix,
    get_display_name, normalize_separators};

verus! {

/// What an entry of a directory is.
pub enum EntryKind {
    /// A regular file.
    File,
    /// A directory: whether it holds an index page (`README.md`), and its
    /// listing, or `None` where it could not be listed.
    Dir { has_index: bool, contents: Option<Vec<Entry>> },
}

/// One entry of a directory listing.
pub struct Entry {
    pub name: String,
    pub kind: EntryKind,
}

/// The path of entry `name` inside the directory at `dir`.
pub open spec fn child_path(dir: Seq<char>, name: Seq<char>) -> Seq<char> {
    dir + "/"@ + name
}

/// The line of a subdirectory: a link to its index page, or a bare label.
pub open spec fn dir_line(indent: Seq<char>, name: Seq<char>, path: Seq<char>, has_index: bool) -> Seq<char> {
    if has_index {
        indent + "- ["@ + name + "](./"@ + normalized(child_path(path, "README.md"@)) + ")"@
    } else {
        indent + "- ["@ + name + "]"@
    }
}

/// The line of a page, linked under its label.
pub open spec fn page_line(indent: Seq<char>, label: Seq<char>, path: Seq<char>) -> Seq<char> {
    indent + "- ["@ + label + "](./"@ + normalized(path) + ")"@
}

/// A file that gets a line of its own: a markdown page that is neither the
/// generated index nor an index page, and that has a label.
pub open spec fn is_listed_page(e: Entry) -> bool {
    &&& e.kind is File
    &&& ends_with(e.name@, ".md"@)
    &&& e.name@ != "SUMMARY.md"@
    &&& e.name@ != "README.md"@
    &&& display_name_of(e.name@) is Some
}

/// The lines that the walk of the directory listed by `v`, found at `path`,
/// emits at `indent`: all subdirectories, each followed by its own lines,
/// then all pages, each group in name order.
pub open spec fn walk(v: Vec<Entry>, path: Seq<char>, indent: Seq<char>) -> Seq<Seq<char>>
    decreases v, sort_order(v@).len() + 1,
{
    let order = sort_order(v@);
    dir_lines_upto(v, order, order.len() as int, path, indent)
        + page_lines_upto(v@, order, order.len() as int, path, indent)
}

/// The lines of the subdirectories among the first `k` entries of `order`.
pub open spec fn dir_lines_upto(v: Vec<Entry>, order: Seq<int>, k: int, path: Seq<char>, indent: Seq<char>) -> Seq<Seq<char>>
    decreases v, k,
{
    if k <= 0 {
        Seq::empty()
    } else {
        let before = dir_lines_upto(v, order, k - 1, path, indent);
        let j = order[k - 1];
        if 0 <= j < v.len() {
            let e = v[j];
            match e.kind {
                EntryKind::Dir { has_index, contents } => {
                    let sub = child_path(path, e.name@);
                    let own = seq![dir_line(indent, e.name@, sub, has_index)];
                    match contents {
                        Some(c) => before + own + walk(c, sub, indent + "  "@),
                        None => before + own,
                    }
                },
                EntryKind::File => before,
            }
        } else {
            before
        }
    }
}

/// The lines of the listed pages among the first `k` entries of `order`.
pub open spec fn page_lines_upto(s: Seq<Entry>, order: Seq<int>, k: int, path: Seq<char>, indent: Seq<char>) -> Seq<Seq<char>>
    decreases k,
{
    if k <= 0 {
        Seq::empty()
    } else {
        page_lines_upto(s, order, k - 1, path, indent) + page_lines_of(s[order[k - 1]], path, indent)
    }
}

/// The line that entry `e` of the directory at `path` gets among the pages:
/// one if it is a listed page, none otherwise.
pub open spec fn page_lines_of(e: Entry, path: Seq<char>, indent: Seq<char>) -> Seq<Seq<char>> {
    if is_listed_page(e) {
        seq![page_line(indent, display_name_of(e.name@)->0, child_path(path, e.name@))]
    } else {
        Seq::empty()
    }
}

/// The characters of each line.
pub open spec fn lines_view(v: Seq<String>) -> Seq<Seq<char>> {
    v.map_values(|l: String| l@)
}

/// The path of entry `name` inside the directory at `dir`.
fn make_child_path(dir: &str, name: &str) -> (r: String)
    ensures
        r@ == child_path(dir@, name@),
{
    let mut r = String::from_str(dir);
    r.append("/");
    r.append(name);
    r
}

/// The navigation line of a subdirectory.
fn make_dir_line(indent: &str, name: &str, path: &str, has_index: bool) -> (r: String)
    ensures
        r@ == dir_line(indent@, name@, path@, has_index),
{
    let mut r = String::from_str(indent);
    r.append("- [");
    r.append(name);
    if has_index {
        let index = make_child_path(path, "README.md");
        let link = normalize_separators(index.as_str());
        r.append("](./");
        r.append(link.as_str());
        r.append(")");
    } else {
        r.append("]");
    }
    r
}

/// The navigation line of a page.
fn make_page_line(indent: &str, label: &str, path: &str) -> (r: String)
    ensures
        r@ == page_line(indent@, label@, path@),
{
    let link = normalize_separators(path);
    let mut r = String::from_str(indent);
    r.append("- [");
    r.append(label);
    r.append("](./");
    r.append(link.as_str());
    r.append(")");
    r
}

/// Emits the navigation lines of the directory listed by `list`, found at
/// `path` (relative to the source root), with every line starting with
/// `indent`: first each subdirectory in name order, followed at once by the
/// lines of its own contents one level deeper, then each page in name order.
/// A subdirectory that could not be listed contributes its own line only.
pub fn process_directory(list: &Vec<Entry>, path: &String, indent: &String) -> (lines: Vec<String>)
    ensures
        lines_view(lines@) == walk(*list, path@, indent@),
    decreases list,
{
    let order = sort_order_of(list);
    let ghost ord = sort_order(list@);
    proof {
        lemma_sort_order_bounds(list@, list@.len() as int);
        assert(order@.len() == ord.len());
    }
    let n = order.len();
    let mut lines: Vec<String> = Vec::new();
    let mut k: usize = 0;
    while k < n
        invariant
            n == order@.len(),
            n == list@.len(),
            ord == sort_order(list@),
            order@.map_values(|x: usize| x as int) == ord,
            forall|q: int| 0 <= q < n ==> 0 <= #[trigger] ord[q] < n,
            k <= n,
            lines_view(lines@) == dir_lines_upto(*list, ord, k as int, path@, indent@),
        decreases n - k,
    {
        let j = order[k];
        assert(ord[k as int] == j as int);
        let e = &list[j];
        let ghost before = lines_view(lines@);
        match &e.kind {
            EntryKind::Dir { has_index, contents } => {
                let sub = make_child_path(path.as_str(), e.name.as_str());
                let line = make_dir_line(indent.as_str(), e.name.as_str(), sub.as_str(), *has_index);
                lines.push(line);
                assert(lines_view(lines@) =~= before.push(line@));
                match contents {
                    Some(c) => {
                        let mut inner = indent.clone();
                        inner.append("  ");
                        let ghost mid = lines_view(lines@);
                        let mut sublines = process_directory(c, &sub, &inner);
                        let ghost added = lines_view(sublines@);
                        lines.append(&mut sublines);
                        assert(lines_view(lines@) =~= mid + added);
                    },
                    None => {},
                }
            },
            EntryKind::File => {},
        }
        k = k + 1;
    }
    let mut pages: Vec<String> = Vec::new();
    let mut k: usize = 0;
    while k < n
        invariant
            n == order@.len(),
            n == list@.len(),
            ord == sort_order(list@),
            order@.map_values(|x: usize| x as int) == ord,
            forall|q: int| 0 <= q < n ==> 0 <= #[trigger] ord[q] < n,
            k <= n,
            lines_view(pages@) == page_lines_upto(list@, ord, k as int, path@, indent@),
        decreases n - k,
    {
        let j = order[k];
        assert(ord[k as int] == j as int);
        let e = &list[j];
        let ghost before = lines_view(pages@);
        proof {
            reveal_strlit(".md");
            reveal_strlit("SUMMARY.md");
            reveal_strlit("README.md");
        }
        if let EntryKind::File = e.kind {
            let name = e.name.as_str();
            if has_suffix(name, ".md") && !same_text(name, "SUMMARY.md") && !same_text(name, "README.md") {
                if let Some(label) = get_display_name(name) {
                    let p = make_child_path(path.as_str(), name);
                    let line = make_page_line(indent.as_str(), label.as_str(), p.as_str());
                    pages.push(line);
                    assert(lines_view(pages@) =~= before.push(line@));
                }
            }
        }
        k = k + 1;
    }
    let ghost dirs = lines_view(lines@);
    let ghost files = lines_view(pages@);
    lines.append(&mut pages);
    assert(lines_view(lines@) =~= dirs + files);
    lines
}

} // verus!
