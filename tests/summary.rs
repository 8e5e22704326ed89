use summary_index::order::{name_lt, sort_order_of};
use summary_index::summary::{capitalize_first, generate_summary, join_lines, summary_lines_of, SourceRoot};
use summary_index::text::{get_display_name, has_suffix, normalize_separators, same_text};
use summary_index::tree::{process_directory, Entry, EntryKind};

fn file(name: &str) -> Entry {
    Entry { name: name.to_string(), kind: EntryKind::File }
}

fn dir(name: &str, has_index: bool, contents: Vec<Entry>) -> Entry {
    Entry { name: name.to_string(), kind: EntryKind::Dir { has_index, contents: Some(contents) } }
}

fn unreadable_dir(name: &str, has_index: bool) -> Entry {
    Entry { name: name.to_string(), kind: EntryKind::Dir { has_index, contents: None } }
}

fn root(has_about_me: bool, entries: Vec<Entry>) -> SourceRoot {
    SourceRoot { has_about_me, entries }
}

fn blog_root() -> SourceRoot {
    root(
        false,
        vec![dir(
            "Blog",
            true,
            vec![file("README.md"), file("post-a.md"), dir("sub", true, vec![file("README.md")])],
        )],
    )
}

#[test]
fn empty_source_gives_title_only() {
    assert_eq!(generate_summary(&root(false, vec![])), "# Summary\n\n");
}

#[test]
fn about_page_comes_first() {
    let r = root(true, vec![dir("notes", false, vec![file("a.md")])]);
    let text = generate_summary(&r);
    assert!(text.starts_with("# Summary\n\n- [about me](./aboutMe.md)\n\n"));
    assert_eq!(text, "# Summary\n\n- [about me](./aboutMe.md)\n\n# Notes\n\n- [a](./notes/a.md)\n\n");
}

#[test]
fn about_page_alone() {
    assert_eq!(generate_summary(&root(true, vec![])), "# Summary\n\n- [about me](./aboutMe.md)\n\n");
}

#[test]
fn blog_section_example() {
    // The section root's own index page is not linked; its subdirectory's is.
    let text = generate_summary(&blog_root());
    assert_eq!(
        text,
        "# Summary\n\n# Blog\n\n- [sub](./Blog/sub/README.md)\n- [post-a](./Blog/post-a.md)\n\n"
    );
}

#[test]
fn rerun_gives_same_text() {
    let first = generate_summary(&blog_root());
    let second = generate_summary(&blog_root());
    assert_eq!(first, second);
    let mut with_index = blog_root();
    with_index.entries.push(file("SUMMARY.md"));
    assert_eq!(generate_summary(&with_index), first);
}

#[test]
fn summary_file_never_listed() {
    let list = vec![file("SUMMARY.md"), file("page.md"), dir("d", false, vec![file("SUMMARY.md")])];
    let lines = process_directory(&list, &"sec".to_string(), &String::new());
    assert_eq!(lines, vec!["- [d]".to_string(), "- [page](./sec/page.md)".to_string()]);
}

#[test]
fn index_page_not_listed_but_linked() {
    let list = vec![dir("guide", true, vec![file("README.md"), file("intro.md")])];
    let lines = process_directory(&list, &"sec".to_string(), &String::new());
    assert_eq!(
        lines,
        vec!["- [guide](./sec/guide/README.md)".to_string(), "  - [intro](./sec/guide/intro.md)".to_string()]
    );
}

#[test]
fn index_page_at_section_root_skipped() {
    let r = root(false, vec![dir("docs", true, vec![file("README.md")])]);
    assert_eq!(generate_summary(&r), "# Summary\n\n# Docs\n\n\n");
}

#[test]
fn subdirectory_without_index_is_label_only() {
    let list = vec![dir("drafts", false, vec![file("idea.md")])];
    let lines = process_directory(&list, &"sec".to_string(), &String::new());
    assert_eq!(lines, vec!["- [drafts]".to_string(), "  - [idea](./sec/drafts/idea.md)".to_string()]);
    assert!(!lines[0].contains('('));
}

#[test]
fn subdirectories_precede_files_each_sorted() {
    let list = vec![
        file("b.md"),
        dir("zeta", false, vec![]),
        file("a.md"),
        dir("Alpha", false, vec![file("x.md")]),
        file("B.md"),
    ];
    let lines = process_directory(&list, &"s".to_string(), &String::new());
    assert_eq!(
        lines,
        vec![
            "- [Alpha]".to_string(),
            "  - [x](./s/Alpha/x.md)".to_string(),
            "- [zeta]".to_string(),
            "- [B](./s/B.md)".to_string(),
            "- [a](./s/a.md)".to_string(),
            "- [b](./s/b.md)".to_string(),
        ]
    );
}

#[test]
fn sections_sorted_by_name() {
    let r = root(false, vec![dir("b", false, vec![]), file("top.md"), dir("A", false, vec![])]);
    assert_eq!(generate_summary(&r), "# Summary\n\n# A\n\n\n# B\n\n\n");
}

#[test]
fn indentation_follows_depth() {
    let list = vec![dir("a", true, vec![dir("b", false, vec![dir("c", false, vec![file("deep.md")])])])];
    let lines = process_directory(&list, &"s".to_string(), &String::new());
    assert_eq!(
        lines,
        vec![
            "- [a](./s/a/README.md)".to_string(),
            "  - [b]".to_string(),
            "    - [c]".to_string(),
            "      - [deep](./s/a/b/c/deep.md)".to_string(),
        ]
    );
}

#[test]
fn unreadable_subdirectory_contributes_its_line_only() {
    let list = vec![unreadable_dir("locked", true), file("ok.md")];
    let lines = process_directory(&list, &"s".to_string(), &String::new());
    assert_eq!(lines, vec!["- [locked](./s/locked/README.md)".to_string(), "- [ok](./s/ok.md)".to_string()]);
}

#[test]
fn unreadable_section_has_heading_only() {
    let r = root(false, vec![unreadable_dir("secret", false)]);
    assert_eq!(generate_summary(&r), "# Summary\n\n# Secret\n\n\n");
}

#[test]
fn non_markdown_files_ignored() {
    let list = vec![file("image.png"), file("notes.txt"), file("md"), file("page.md")];
    let lines = process_directory(&list, &"s".to_string(), &String::new());
    assert_eq!(lines, vec!["- [page](./s/page.md)".to_string()]);
}

#[test]
fn backslashes_in_paths_become_slashes() {
    let list = vec![file("a\\b.md")];
    let lines = process_directory(&list, &"s".to_string(), &String::new());
    assert_eq!(lines, vec!["- [a\\b](./s/a/b.md)".to_string()]);
    assert_eq!(normalize_separators("x\\y\\z"), "x/y/z");
    assert_eq!(normalize_separators("plain"), "plain");
}

#[test]
fn display_names() {
    assert_eq!(get_display_name("post.md"), Some("post".to_string()));
    assert_eq!(get_display_name("README.md"), None);
    assert_eq!(get_display_name("README"), None);
    assert_eq!(get_display_name("notes.txt"), Some("notes.txt".to_string()));
    assert_eq!(get_display_name(".md"), Some(String::new()));
    assert_eq!(get_display_name("a.md.md"), Some("a.md".to_string()));
}

#[test]
fn capitalize_first_letter() {
    assert_eq!(capitalize_first("blog"), "Blog");
    assert_eq!(capitalize_first("Blog"), "Blog");
    assert_eq!(capitalize_first(""), "");
    assert_eq!(capitalize_first("éclair"), "Éclair");
    assert_eq!(capitalize_first("ßx"), "SSx");
    assert_eq!(capitalize_first("1st"), "1st");
}

#[test]
fn name_order_is_by_character() {
    assert!(name_lt("B", "a"));
    assert!(name_lt("a", "ab"));
    assert!(!name_lt("ab", "a"));
    assert!(!name_lt("a", "a"));
    assert!(name_lt("", "a"));
    assert!(name_lt("z", "é"));
}

#[test]
fn sort_order_of_listing() {
    let list = vec![file("c.md"), file("a.md"), file("b.md")];
    assert_eq!(sort_order_of(&list), vec![1, 2, 0]);
    assert_eq!(sort_order_of(&vec![]), Vec::<usize>::new());
}

#[test]
fn text_helpers() {
    assert!(same_text("abc", "abc"));
    assert!(!same_text("abc", "abd"));
    assert!(!same_text("abc", "ab"));
    assert!(has_suffix("x.md", ".md"));
    assert!(!has_suffix("md", ".md"));
    assert!(has_suffix("", ""));
}

#[test]
fn lines_joined_with_newlines() {
    assert_eq!(join_lines(&vec!["a".to_string(), String::new(), "b".to_string()]), "a\n\nb\n");
    assert_eq!(join_lines(&vec![]), "");
    let lines = summary_lines_of(&root(true, vec![]));
    assert_eq!(lines, vec!["# Summary", "", "- [about me](./aboutMe.md)", ""]);
}
