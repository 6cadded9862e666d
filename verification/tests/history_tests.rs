use edit_history::history::{
    changed_in_record, collect_history, earliest_time, get_file_history, latest_time, make_edit,
    sort_edits, CommitRecord, Edit,
};

fn rec(paths: &[&str], datetime: Option<i64>, message: &str) -> CommitRecord {
    CommitRecord {
        changed_paths: paths.iter().map(|p| String::from(*p)).collect(),
        datetime,
        message: String::from(message),
    }
}

fn edit(datetime: Option<i64>, summary: &str, message: &str) -> Edit {
    Edit {
        datetime,
        summary: String::from(summary),
        message: String::from(message),
    }
}

#[test]
fn three_commit_scenario_target_file() {
    // Walk order is newest first; the result must still be oldest first.
    let commits = vec![
        rec(&["b.txt"], Some(300), "add b"),
        rec(&["a.txt"], Some(200), "edit a\n\nmore detail"),
        rec(&["a.txt"], Some(100), "add a"),
    ];
    let history = collect_history(&commits, "a.txt");
    assert_eq!(history.len(), 2);
    assert_eq!(history[0].datetime, Some(100));
    assert_eq!(history[0].summary, "add a");
    assert_eq!(history[1].datetime, Some(200));
    assert_eq!(history[1].summary, "edit a");
    assert_eq!(history[1].message, "edit a\n\nmore detail");
}

#[test]
fn three_commit_scenario_other_file() {
    let commits = vec![
        rec(&["b.txt"], Some(300), "add b"),
        rec(&["a.txt"], Some(200), "edit a"),
        rec(&["a.txt"], Some(100), "add a"),
    ];
    let history = collect_history(&commits, "b.txt");
    assert_eq!(history.len(), 1);
    assert_eq!(history[0].datetime, Some(300));
    assert_eq!(history[0].summary, "add b");
    assert_eq!(history[0].message, "add b");
}

#[test]
fn untouched_path_gives_empty_history() {
    let commits = vec![
        rec(&["b.txt"], Some(300), "add b"),
        rec(&["a.txt"], Some(100), "add a"),
    ];
    let history = collect_history(&commits, "c.txt");
    assert!(history.is_empty());
}

#[test]
fn no_commits_gives_empty_history() {
    let commits: Vec<CommitRecord> = Vec::new();
    let history = collect_history(&commits, "a.txt");
    assert!(history.is_empty());
}

#[test]
fn root_commit_file_appears_exactly_once() {
    let commits = vec![
        rec(&["other.md"], Some(900), "later work"),
        rec(&["first.md", "second.md"], Some(50), "initial import"),
    ];
    let history = collect_history(&commits, "first.md");
    assert_eq!(history.len(), 1);
    assert_eq!(history[0].datetime, Some(50));
    assert_eq!(history[0].summary, "initial import");
}

#[test]
fn commit_with_many_changes_yields_one_record() {
    let mut paths: Vec<String> = Vec::new();
    for i in 0..200 {
        paths.push(format!("unrelated/{}.txt", i));
    }
    paths.push(String::from("target.txt"));
    for i in 200..400 {
        paths.push(format!("more/{}.txt", i));
    }
    let commits = vec![CommitRecord {
        changed_paths: paths,
        datetime: Some(7),
        message: String::from("big sweep"),
    }];
    let history = collect_history(&commits, "target.txt");
    assert_eq!(history.len(), 1);
    assert_eq!(history[0].summary, "big sweep");
}

#[test]
fn history_is_sorted_even_for_shuffled_times() {
    let commits = vec![
        rec(&["x"], Some(5), "five"),
        rec(&["x"], Some(1), "one"),
        rec(&["x"], None, "timeless"),
        rec(&["x"], Some(3), "three"),
        rec(&["x"], Some(1), "one again"),
    ];
    let history = collect_history(&commits, "x");
    assert_eq!(history.len(), 5);
    assert_eq!(history[0].datetime, None);
    assert_eq!(history[1].datetime, Some(1));
    assert_eq!(history[2].datetime, Some(1));
    assert_eq!(history[3].datetime, Some(3));
    assert_eq!(history[4].datetime, Some(5));
}

#[test]
fn changed_in_record_finds_exact_match_only() {
    let c = rec(&["dir/a.txt", "dir/b.txt"], Some(1), "m");
    assert!(changed_in_record(&c, "dir/a.txt"));
    assert!(changed_in_record(&c, "dir/b.txt"));
    assert!(!changed_in_record(&c, "a.txt"));
    assert!(!changed_in_record(&c, "dir/a"));
    assert!(!changed_in_record(&c, "dir/a.txt "));
}

#[test]
fn renamed_paths_are_distinct_events() {
    // A rename shows up as a deletion under the old location and an
    // addition under the new one, each visible only under its own path.
    let commits = vec![
        rec(&["old.md", "new.md"], Some(20), "rename old to new"),
        rec(&["old.md"], Some(10), "add old"),
    ];
    let old_history = collect_history(&commits, "old.md");
    let new_history = collect_history(&commits, "new.md");
    assert_eq!(old_history.len(), 2);
    assert_eq!(new_history.len(), 1);
    assert_eq!(new_history[0].summary, "rename old to new");
}

#[test]
fn merge_that_matches_its_first_parent_adds_no_record() {
    // A commit's changed locations are its diff against its first parent
    // alone. A merge whose tree equals its first parent's tree — the
    // change arrived through the second parent — contributes nothing, so
    // no record appears for it.
    let commits = vec![
        rec(&[], Some(40), "merge branch"),
        rec(&["f.txt"], Some(30), "change f on branch"),
        rec(&["f.txt"], Some(10), "add f"),
    ];
    let history = collect_history(&commits, "f.txt");
    assert_eq!(history.len(), 2);
    assert_eq!(history[0].summary, "add f");
    assert_eq!(history[1].summary, "change f on branch");
}

#[test]
fn make_edit_takes_first_line_as_summary() {
    let e = make_edit(Some(42), "title line\nbody line one\nbody line two");
    assert_eq!(e.datetime, Some(42));
    assert_eq!(e.summary, "title line");
    assert_eq!(e.message, "title line\nbody line one\nbody line two");
}

#[test]
fn make_edit_of_empty_message() {
    let e = make_edit(None, "");
    assert_eq!(e.datetime, None);
    assert_eq!(e.summary, "");
    assert_eq!(e.message, "");
}

#[test]
fn make_edit_without_line_break() {
    let e = make_edit(Some(0), "just a title");
    assert_eq!(e.summary, "just a title");
    assert_eq!(e.message, "just a title");
}

#[test]
fn make_edit_with_leading_line_break() {
    let e = make_edit(Some(0), "\nbody");
    assert_eq!(e.summary, "");
    assert_eq!(e.message, "\nbody");
}

#[test]
fn sort_edits_orders_by_time_and_keeps_all() {
    let edits = vec![
        edit(Some(9), "c", "c"),
        edit(None, "n", "n"),
        edit(Some(-3), "a", "a"),
        edit(Some(4), "b", "b"),
    ];
    let sorted = sort_edits(edits);
    assert_eq!(sorted.len(), 4);
    assert_eq!(sorted[0].summary, "n");
    assert_eq!(sorted[1].summary, "a");
    assert_eq!(sorted[2].summary, "b");
    assert_eq!(sorted[3].summary, "c");
}

#[test]
fn earliest_and_latest_of_empty_list() {
    let edits: Vec<Edit> = Vec::new();
    assert_eq!(earliest_time(&edits), None);
    assert_eq!(latest_time(&edits), None);
}

#[test]
fn earliest_and_latest_ignore_absent_times() {
    let edits = vec![
        edit(None, "n", "n"),
        edit(Some(12), "b", "b"),
        edit(Some(-4), "a", "a"),
        edit(Some(30), "c", "c"),
    ];
    assert_eq!(earliest_time(&edits), Some(-4));
    assert_eq!(latest_time(&edits), Some(30));
}

#[test]
fn earliest_and_latest_of_only_absent_times() {
    let edits = vec![edit(None, "n", "n"), edit(None, "m", "m")];
    assert_eq!(earliest_time(&edits), None);
    assert_eq!(latest_time(&edits), None);
}

#[test]
fn extraction_for_root_path_is_none() {
    assert!(get_file_history("/").is_none());
}

#[test]
fn extraction_for_empty_path_is_none() {
    assert!(get_file_history("").is_none());
}

#[test]
fn extraction_outside_any_repository_is_none() {
    assert!(get_file_history("no_such_dir_zz/no_such_file_zz.html").is_none());
}
