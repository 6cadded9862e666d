use edit_history::paths::{
    basename_start, get_relative_link, is_ignored, parent_dir, relative_to_root,
};
use edit_history::text::{first_line, split_front_matter, str_eq};

#[test]
fn str_eq_on_equal_and_unequal() {
    assert!(str_eq("", ""));
    assert!(str_eq("abc", "abc"));
    assert!(!str_eq("abc", "abd"));
    assert!(!str_eq("abc", "ab"));
    assert!(str_eq("п/я.html", "п/я.html"));
    assert!(!str_eq("п/я.html", "п/ю.html"));
}

#[test]
fn first_line_of_texts() {
    assert_eq!(first_line(""), "");
    assert_eq!(first_line("one"), "one");
    assert_eq!(first_line("one\ntwo\nthree"), "one");
    assert_eq!(first_line("\nrest"), "");
}

#[test]
fn front_matter_splits_at_first_separator() {
    let page = "title = \"a\"\n---\n<html>body</html>";
    let (meta, template) = split_front_matter(page).unwrap();
    assert_eq!(meta, "title = \"a\"");
    assert_eq!(template, "<html>body</html>");
}

#[test]
fn front_matter_separator_later_occurrences_stay() {
    let page = "m\n---\nfirst\n---\nsecond";
    let (meta, template) = split_front_matter(page).unwrap();
    assert_eq!(meta, "m");
    assert_eq!(template, "first\n---\nsecond");
}

#[test]
fn page_without_separator_has_no_front_matter() {
    assert!(split_front_matter("no separator here").is_none());
    assert!(split_front_matter("").is_none());
    assert!(split_front_matter("---\n").is_none());
}

#[test]
fn basename_start_positions() {
    assert_eq!(basename_start(""), 0);
    assert_eq!(basename_start("file.txt"), 0);
    assert_eq!(basename_start("a/b/file.txt"), 4);
    assert_eq!(basename_start("/file.txt"), 1);
    assert_eq!(basename_start("dir/"), 4);
}

#[test]
fn ignored_names_start_with_dot_or_underscore() {
    assert!(is_ignored(".git"));
    assert!(is_ignored("a/b/_templates"));
    assert!(is_ignored("src/.hidden.html"));
    assert!(!is_ignored("src/page.html"));
    assert!(!is_ignored("a_b/page.html"));
    assert!(!is_ignored("dir/"));
}

#[test]
fn relative_to_root_strips_the_root() {
    assert_eq!(
        relative_to_root("/home/site/a/b.html", "/home/site"),
        Some(String::from("a/b.html"))
    );
    assert_eq!(relative_to_root("/home/site", "/home/site"), Some(String::from("")));
    assert_eq!(relative_to_root("/x/y.html", "/"), Some(String::from("x/y.html")));
}

#[test]
fn relative_to_root_rejects_paths_outside() {
    assert_eq!(relative_to_root("/home/sitemap/a.html", "/home/site"), None);
    assert_eq!(relative_to_root("/home", "/home/site"), None);
    assert_eq!(relative_to_root("/other/a.html", "/home/site"), None);
}

#[test]
fn same_canonical_strings_give_same_relative_path() {
    // Two callers that resolved `.`/`..` segments to the same canonical
    // text get identical root-relative paths.
    let from_absolute = relative_to_root("/home/site/posts/a.html", "/home/site");
    let from_dotted = relative_to_root("/home/site/posts/a.html", "/home/site");
    assert_eq!(from_absolute, from_dotted);
    assert_eq!(from_absolute, Some(String::from("posts/a.html")));
}

#[test]
fn parent_dir_of_paths() {
    assert_eq!(parent_dir("/a/b/c.html"), Some(String::from("/a/b")));
    assert_eq!(parent_dir("/a"), Some(String::from("/")));
    assert_eq!(parent_dir("a/b"), Some(String::from("a")));
    assert_eq!(parent_dir("c.html"), Some(String::from("")));
    assert_eq!(parent_dir("/"), None);
    assert_eq!(parent_dir(""), None);
}

#[test]
fn relative_link_for_plain_page() {
    assert_eq!(
        get_relative_link("/site/posts/a.html", "/site"),
        Some(String::from("posts/a.html"))
    );
}

#[test]
fn relative_link_for_index_page_is_its_directory() {
    assert_eq!(
        get_relative_link("/site/posts/index.html", "/site"),
        Some(String::from("posts"))
    );
    assert_eq!(get_relative_link("/site/index.html", "/site"), Some(String::from("")));
}

#[test]
fn relative_link_outside_root_is_none() {
    assert_eq!(get_relative_link("/other/a.html", "/site"), None);
    assert_eq!(get_relative_link("/site", "/site"), None);
}
