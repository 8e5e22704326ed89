//! Laws of the generator: what holds of its output for every tree.

use vstd::prelude::*;
use crate::order::{lex_lt, insert_index, sort_order, sort_order_upto, sorted_by_name,
    lemma_sort_order_bounds, lemma_sort_order_sorted};
use crate::tree::{Entry, walk, dir_lines_upto, page_lines_upto, page_lines_of,
    dir_line, is_listed_page, child_path};
use crate::text::normalized;
use crate::summary::{SourceRoot, summary_text, summary_lines, sections_upto, section_lines};

verus! {

proof fn lemma_insert_index_same(s: Seq<Entry>, t: Seq<Entry>, i: int, order: Seq<int>)
    requires
        s[i] == t[i],
        forall|k: int| 0 <= k < order.len() ==> s[#[trigger] order[k]] == t[order[k]],
    ensures
        insert_index(s, i, order) == insert_index(t, i, order),
    decreases order.len(),
{
    if order.len() > 0 {
        let rest = order.drop_first();
        assert forall|k: int| 0 <= k < rest.len() implies s[#[trigger] rest[k]] == t[rest[k]] by {
            assert(rest[k] == order[k + 1]);
        }
        assert(s[order[0]] == t[order[0]]);
        lemma_insert_index_same(s, t, i, rest);
    }
}

/// Sorting the first `n` entries looks at those entries only.
proof fn lemma_sort_order_prefix(s: Seq<Entry>, t: Seq<Entry>, n: int)
    requires
        0 <= n <= s.len(),
        n <= t.len(),
        forall|k: int| 0 <= k < n ==> s[k] == t[k],
    ensures
        sort_order_upto(s, n) == sort_order_upto(t, n),
    decreases n,
{
    if n > 0 {
        lemma_sort_order_prefix(s, t, n - 1);
        lemma_sort_order_bounds(s, n - 1);
        let o = sort_order_upto(s, n - 1);
        assert forall|k: int| 0 <= k < o.len() implies s[#[trigger] o[k]] == t[o[k]] by {}
        lemma_insert_index_same(s, t, n - 1, o);
    }
}

/// Inserting an index places it at one position and keeps the others in order.
proof fn lemma_insert_index_split(s: Seq<Entry>, i: int, order: Seq<int>) -> (p: int)
    ensures
        0 <= p <= order.len(),
        insert_index(s, i, order) == order.take(p) + seq![i] + order.skip(p),
    decreases order.len(),
{
    if order.len() == 0 {
        assert(order.take(0) + seq![i] + order.skip(0) =~= seq![i]);
        0
    } else if lex_lt(s[i].name@, s[order[0]].name@) {
        assert(order.take(0) + seq![i] + order.skip(0) =~= seq![i] + order);
        0
    } else {
        let rest = order.drop_first();
        let p = lemma_insert_index_split(s, i, rest);
        assert(seq![order[0]] + (rest.take(p) + seq![i] + rest.skip(p))
            =~= order.take(p + 1) + seq![i] + order.skip(p + 1));
        p + 1
    }
}

/// The order of a listing with one entry added at its end: the old order
/// with the new index placed at some position.
proof fn lemma_sort_order_push(s: Seq<Entry>, e: Entry) -> (p: int)
    ensures
        0 <= p <= s.len(),
        sort_order(s.push(e)) == sort_order(s).take(p) + seq![s.len() as int] + sort_order(s).skip(p),
{
    let t = s.push(e);
    let n = s.len() as int;
    lemma_sort_order_prefix(s, t, n);
    lemma_sort_order_bounds(s, n);
    lemma_insert_index_split(t, n, sort_order_upto(t, n))
}

proof fn lemma_dir_lines_skip(v: Vec<Entry>, w: Vec<Entry>, order: Seq<int>, p: int, k: int,
    path: Seq<char>, indent: Seq<char>)
    requires
        w@.len() == v@.len() + 1,
        forall|j: int| 0 <= j < v@.len() ==> w@[j] == v@[j],
        w@[v@.len() as int].kind is File,
        forall|q: int| 0 <= q < order.len() ==> 0 <= #[trigger] order[q] < v@.len(),
        0 <= p <= order.len(),
        0 <= k <= order.len() + 1,
    ensures
        dir_lines_upto(w, order.take(p) + seq![v@.len() as int] + order.skip(p), k, path, indent)
            == dir_lines_upto(v, order, if k <= p { k } else { k - 1 }, path, indent),
    decreases k,
{
    let o2 = order.take(p) + seq![v@.len() as int] + order.skip(p);
    if k > 0 {
        lemma_dir_lines_skip(v, w, order, p, k - 1, path, indent);
        if k - 1 < p {
            assert(o2[k - 1] == order[k - 1]);
        } else if k - 1 > p {
            assert(o2[k - 1] == order[k - 2]);
        }
    }
}

proof fn lemma_page_lines_skip(s: Seq<Entry>, e: Entry, order: Seq<int>, p: int, k: int,
    path: Seq<char>, indent: Seq<char>)
    requires
        !is_listed_page(e),
        forall|q: int| 0 <= q < order.len() ==> 0 <= #[trigger] order[q] < s.len(),
        0 <= p <= order.len(),
        0 <= k <= order.len() + 1,
    ensures
        page_lines_upto(s.push(e), order.take(p) + seq![s.len() as int] + order.skip(p), k, path, indent)
            == page_lines_upto(s, order, if k <= p { k } else { k - 1 }, path, indent),
    decreases k,
{
    let o2 = order.take(p) + seq![s.len() as int] + order.skip(p);
    if k > 0 {
        lemma_page_lines_skip(s, e, order, p, k - 1, path, indent);
        if k - 1 < p {
            assert(o2[k - 1] == order[k - 1]);
        } else if k - 1 > p {
            assert(o2[k - 1] == order[k - 2]);
        } else {
            let before = page_lines_upto(s.push(e), o2, k - 1, path, indent);
            assert(before + page_lines_of(e, path, indent) =~= before);
        }
    }
}

proof fn lemma_sections_skip(s: Seq<Entry>, e: Entry, order: Seq<int>, p: int, k: int)
    requires
        e.kind is File,
        forall|q: int| 0 <= q < order.len() ==> 0 <= #[trigger] order[q] < s.len(),
        0 <= p <= order.len(),
        0 <= k <= order.len() + 1,
    ensures
        sections_upto(s.push(e), order.take(p) + seq![s.len() as int] + order.skip(p), k)
            == sections_upto(s, order, if k <= p { k } else { k - 1 }),
    decreases k,
{
    let o2 = order.take(p) + seq![s.len() as int] + order.skip(p);
    if k > 0 {
        lemma_sections_skip(s, e, order, p, k - 1);
        if k - 1 < p {
            assert(o2[k - 1] == order[k - 1]);
        } else if k - 1 > p {
            assert(o2[k - 1] == order[k - 2]);
        } else {
            let before = sections_upto(s.push(e), o2, k - 1);
            assert(before + section_lines(e) =~= before);
        }
    }
}

/// A file that gets no line of its own changes nothing when it is added to a
/// directory: the walk of that directory emits the same lines.
pub proof fn lemma_unlisted_file_changes_nothing(v: Vec<Entry>, w: Vec<Entry>, path: Seq<char>,
    indent: Seq<char>)
    requires
        w@.len() == v@.len() + 1,
        w@.take(v@.len() as int) == v@,
        w@.last().kind is File,
        !is_listed_page(w@.last()),
    ensures
        walk(w, path, indent) == walk(v, path, indent),
{
    let e = w@.last();
    assert(w@ =~= v@.push(e));
    let n = v@.len() as int;
    let p = lemma_sort_order_push(v@, e);
    lemma_sort_order_bounds(v@, n);
    let order = sort_order(v@);
    assert forall|j: int| 0 <= j < n implies w@[j] == v@[j] by {
        assert(w@.take(n)[j] == w@[j]);
    }
    lemma_dir_lines_skip(v, w, order, p, n + 1, path, indent);
    lemma_page_lines_skip(v@, e, order, p, n + 1, path, indent);
}

/// The generated index `SUMMARY.md` never gets a line: adding it to any
/// directory leaves the walk of that directory as it was.
pub proof fn lemma_summary_file_never_listed(v: Vec<Entry>, w: Vec<Entry>, path: Seq<char>,
    indent: Seq<char>)
    requires
        w@.len() == v@.len() + 1,
        w@.take(v@.len() as int) == v@,
        w@.last().kind is File,
        w@.last().name@ == "SUMMARY.md"@,
    ensures
        walk(w, path, indent) == walk(v, path, indent),
{
    lemma_unlisted_file_changes_nothing(v, w, path, indent);
}

/// Running the generator again gives the same text: the index that the first
/// run wrote into the source root is a plain file there, and a plain file of
/// the root adds no line.
pub proof fn lemma_rerun_gives_same_text(first: SourceRoot, second: SourceRoot)
    requires
        second.has_about_me == first.has_about_me,
        second.entries@.len() == first.entries@.len() + 1,
        second.entries@.take(first.entries@.len() as int) == first.entries@,
        second.entries@.last().kind is File,
        second.entries@.last().name@ == "SUMMARY.md"@,
    ensures
        summary_text(second) == summary_text(first),
{
    let s = first.entries@;
    let e = second.entries@.last();
    assert(second.entries@ =~= s.push(e));
    let n = s.len() as int;
    let p = lemma_sort_order_push(s, e);
    lemma_sort_order_bounds(s, n);
    lemma_sections_skip(s, e, sort_order(s), p, n + 1);
    assert(summary_lines(second) == summary_lines(first));
}

/// Entries of a directory are emitted in name order, and all subdirectories,
/// each with its whole contents, come before all pages of that directory: in
/// the order the walk uses, no entry's name comes before that of an entry
/// listed earlier.
pub proof fn lemma_walk_order_is_sorted(v: Vec<Entry>, path: Seq<char>, indent: Seq<char>)
    ensures
        sorted_by_name(v@, sort_order(v@)),
        sort_order(v@).len() == v@.len(),
        walk(v, path, indent) == dir_lines_upto(v, sort_order(v@), v@.len() as int, path, indent)
            + page_lines_upto(v@, sort_order(v@), v@.len() as int, path, indent),
{
    lemma_sort_order_sorted(v@, v@.len() as int);
    lemma_sort_order_bounds(v@, v@.len() as int);
}

/// An index page never gets a line of its own among the pages; the line of
/// its directory links to it instead.
pub proof fn lemma_index_page_not_listed(e: Entry, path: Seq<char>, indent: Seq<char>, dir_name: Seq<char>)
    requires
        e.name@ == "README.md"@,
    ensures
        page_lines_of(e, path, indent) == Seq::<Seq<char>>::empty(),
        dir_line(indent, dir_name, path, true) == indent + "- ["@ + dir_name + "](./"@
            + normalized(child_path(path, e.name@)) + ")"@,
{
}

/// A subdirectory without an index page gets a bare label, with no link.
pub proof fn lemma_no_index_label_only(indent: Seq<char>, name: Seq<char>, path: Seq<char>)
    ensures
        dir_line(indent, name, path, false) == indent + "- ["@ + name + "]"@,
{
}

} // verus!
