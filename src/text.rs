//! Character-level helpers on names and paths.

use vstd::prelude::*;

verus! {

/// `s` ends with the characters of `suffix`.
pub open spec fn ends_with(s: Seq<char>, suffix: Seq<char>) -> bool {
    suffix.len() <= s.len() && s.subrange(s.len() - suffix.len(), s.len() as int) == suffix
}

/// `s` with a trailing `.md` taken off, if it has one.
pub open spec fn strip_md(s: Seq<char>) -> Seq<char> {
    if ends_with(s, ".md"@) {
        s.subrange(0, s.len() - 3)
    } else {
        s
    }
}

/// The label of a page: its name without `.md`, or none for an index page.
pub open spec fn display_name_of(s: Seq<char>) -> Option<Seq<char>> {
    if strip_md(s) == "README"@ {
        None
    } else {
        Some(strip_md(s))
    }
}

/// Whether two strings hold the same characters.
pub fn same_text(a: &str, b: &str) -> (r: bool)
    ensures
        r == (a@ == b@),
{
    let la = a.unicode_len();
    let lb = b.unicode_len();
    if la != lb {
        return false;
    }
    let mut i: usize = 0;
    while i < la
        invariant
            la == a@.len(),
            lb == b@.len(),
            la == lb,
            i <= la,
            a@.subrange(0, i as int) == b@.subrange(0, i as int),
        decreases la - i,
    {
        if a.get_char(i) != b.get_char(i) {
            assert(a@[i as int] != b@[i as int]);
            return false;
        }
        assert(a@.subrange(0, i + 1) =~= a@.subrange(0, i as int).push(a@[i as int]));
        assert(b@.subrange(0, i + 1) =~= b@.subrange(0, i as int).push(b@[i as int]));
        i = i + 1;
    }
    assert(a@ =~= a@.subrange(0, la as int));
    assert(b@ =~= b@.subrange(0, lb as int));
    true
}

/// Whether `s` ends with `suffix`.
pub fn has_suffix(s: &str, suffix: &str) -> (r: bool)
    ensures
        r == ends_with(s@, suffix@),
{
    let ls = s.unicode_len();
    let lt = suffix.unicode_len();
    if lt > ls {
        return false;
    }
    let tail = s.substring_char(ls - lt, ls);
    same_text(tail, suffix)
}

/// Returns the display label of a file name: the name with a trailing `.md`
/// removed, or `None` when what remains is `README`.
pub fn get_display_name(filename: &str) -> (r: Option<String>)
    ensures
        r matches Some(n) ==> display_name_of(filename@) == Some(n@),
        r is None ==> display_name_of(filename@) is None,
{
    proof {
        reveal_strlit(".md");
    }
    let l = filename.unicode_len();
    let name: &str = if has_suffix(filename, ".md") {
        filename.substring_char(0, l - 3)
    } else {
        filename
    };
    if same_text(name, "README") {
        None
    } else {
        Some(String::from_str(name))
    }
}

/// `s` with each backslash turned into a forward slash.
pub open spec fn normalized(s: Seq<char>) -> Seq<char> {
    s.map_values(|c: char| if c == '\\' { '/' } else { c })
}

/// Copies `s`, writing every path separator as `/`.
pub fn normalize_separators(s: &str) -> (r: String)
    ensures
        r@ == normalized(s@),
{
    let n = s.unicode_len();
    let mut out = String::new();
    let mut start: usize = 0;
    let mut i: usize = 0;
    while i < n
        invariant
            n == s@.len(),
            start <= i <= n,
            out@ + s@.subrange(start as int, i as int) == normalized(s@.subrange(0, i as int)),
            forall|k: int| start <= k < i ==> s@[k] != '\\',
        decreases n - i,
    {
        let c = s.get_char(i);
        if c == '\\' {
            let seg = s.substring_char(start, i);
            let ghost before = out@;
            out.append(seg);
            out.append("/");
            proof {
                reveal_strlit("/");
                assert("/"@ =~= seq!['/']);
            }
            assert(out@ =~= (before + s@.subrange(start as int, i as int)).push('/'));
            assert(normalized(s@.subrange(0, i + 1)) =~= normalized(s@.subrange(0, i as int)).push('/'));
            i = i + 1;
            start = i;
            assert(s@.subrange(start as int, i as int) =~= Seq::<char>::empty());
            assert(out@ + s@.subrange(start as int, i as int) =~= out@);
        } else {
            assert(normalized(s@.subrange(0, i + 1)) =~= normalized(s@.subrange(0, i as int)).push(c));
            assert(s@.subrange(start as int, i + 1) =~= s@.subrange(start as int, i as int).push(c));
            i = i + 1;
        }
    }
    let seg = s.substring_char(start, n);
    out.append(seg);
    assert(s@.subrange(0, n as int) =~= s@);
    out
}

} // verus!
