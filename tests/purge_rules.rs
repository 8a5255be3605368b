use purge::cli::{apply_option, reports_progress, reports_removals, usage_line, Directive};
use purge::erase::{guard_plan, guard_rename, plan_erase, rename_chain, Rename};
use purge::error::ErrorKind;
use purge::path::{join, split};
use purge::purge::{order_children, plan_entry, precedes, EntryAttributes, EntryKind, TaskKind, Walk};
use purge::shred::{chunk_lengths, pass_bytes, plan_shred, PASSES, SHRED_BUFFER_MAX};

fn names(v: &[&str]) -> Vec<String> {
    v.iter().map(|s| s.to_string()).collect()
}

fn file(hardlinks: u64) -> EntryAttributes {
    EntryAttributes { kind: EntryKind::File, len: 10, readonly: false, hardlinks }
}

#[test]
fn split_takes_parent_and_leaf() {
    let (dir, leaf) = split("a/b").unwrap();
    assert_eq!(dir, Some("a".to_string()));
    assert_eq!(leaf, "b");
    let (dir, leaf) = split("secret").unwrap();
    assert_eq!(dir, Some(String::new()));
    assert_eq!(leaf, "secret");
    let (dir, leaf) = split("/tmp/x/").unwrap();
    assert_eq!(dir, Some("/tmp".to_string()));
    assert_eq!(leaf, "x");
}

#[test]
fn split_refuses_paths_without_leaf() {
    for p in ["", "/", "..", "a/.."] {
        let e = split(p).unwrap_err();
        assert_eq!(e.kind, ErrorKind::PathFormat);
        assert_eq!(e.path, p);
    }
}

#[test]
fn join_puts_name_in_directory() {
    assert_eq!(join(&None, "x"), "x");
    assert_eq!(join(&Some(String::new()), "0"), "0");
    assert_eq!(join(&Some("a/b".to_string()), "00"), "a/b/00");
    assert_eq!(join(&Some("/".to_string()), "0"), "/0");
}

#[test]
fn chain_shrinks_to_single_zero() {
    assert_eq!(rename_chain("abc"), names(&["000", "00", "0"]));
    assert_eq!(rename_chain("000"), names(&["00", "0"]));
    assert_eq!(rename_chain("0"), Vec::<String>::new());
    // byte length, not character count
    assert_eq!(rename_chain("é"), names(&["00", "0"]));
}

#[test]
fn one_char_leaf_is_renamed_once() {
    assert_eq!(rename_chain("a"), names(&["0"]));
    let plan = plan_erase("d/a").unwrap();
    assert_eq!(plan.renames.len(), 1);
    assert_eq!(plan.renames[0].from, "d/a");
    assert_eq!(plan.renames[0].to, "d/0");
    assert_eq!(plan.target, "d/0");
}

#[test]
fn secret_file_is_purged_without_residue() {
    let entry = plan_entry(&file(1));
    assert!(entry.shred);
    assert!(!entry.descend);
    let plan = plan_erase("secret").unwrap();
    let steps: Vec<(String, String)> =
        plan.renames.iter().map(|r| (r.from.clone(), r.to.clone())).collect();
    let expected: Vec<(String, String)> = [
        ("secret", "000000"),
        ("000000", "00000"),
        ("00000", "0000"),
        ("0000", "000"),
        ("000", "00"),
        ("00", "0"),
    ]
    .iter()
    .map(|(a, b)| (a.to_string(), b.to_string()))
    .collect();
    assert_eq!(steps, expected);
    assert_eq!(plan.target, "0");
    let shred = plan_shred("secret", 10).unwrap();
    assert_eq!(shred.chunks, vec![10]);
    assert_eq!(shred.passes.len(), 4);
    assert_eq!(shred.passes[3], 0);
}

#[test]
fn already_zero_leaf_skips_first_rename() {
    let plan = plan_erase("dir/000").unwrap();
    assert_eq!(plan.renames.len(), 2);
    assert_eq!(plan.renames[0].from, "dir/000");
    assert_eq!(plan.renames[0].to, "dir/00");
    assert_eq!(plan.renames[1].to, "dir/0");
    let plan = plan_erase("dir/0").unwrap();
    assert!(plan.renames.is_empty());
    assert_eq!(plan.target, "dir/0");
}

#[test]
fn erase_plan_refuses_bad_path() {
    let e = plan_erase("/").err().unwrap();
    assert_eq!(e.kind, ErrorKind::PathFormat);
    assert_eq!(e.path, "/");
}

#[test]
fn collision_is_refused() {
    let step = Rename { from: "d/ab".to_string(), to: "d/00".to_string() };
    let e = guard_rename(&step, true).unwrap_err();
    assert_eq!(e.kind, ErrorKind::AlreadyExists);
    assert_eq!(e.path, "d/00");
    assert!(guard_rename(&step, false).is_ok());
}

#[test]
fn children_zero_names_first() {
    let sorted = order_children(names(&["b", "00", "a", "0"]));
    assert_eq!(sorted, names(&["0", "00", "a", "b"]));
    let sorted = order_children(names(&["x0", "10", "000", "ab", "a"]));
    assert_eq!(sorted, names(&["000", "10", "a", "ab", "x0"]));
    assert!(order_children(Vec::new()).is_empty());
}

#[test]
fn precedes_orders_groups_then_names() {
    assert!(precedes("0", "00"));
    assert!(!precedes("00", "0"));
    assert!(precedes("00", "a"));
    assert!(!precedes("a", "0"));
    assert!(precedes("a", "b"));
    assert!(!precedes("a", "a"));
}

#[test]
fn shared_file_is_erased_not_shredded() {
    let entry = plan_entry(&file(2));
    assert!(!entry.shred);
    assert!(!entry.descend);
}

#[test]
fn empty_directory_is_erased_without_shred() {
    let dir = EntryAttributes { kind: EntryKind::Dir, len: 0, readonly: false, hardlinks: 1 };
    let entry = plan_entry(&dir);
    assert!(entry.descend);
    assert!(!entry.shred);
    assert!(order_children(Vec::new()).is_empty());
}

#[test]
fn symlink_and_readonly() {
    let link = EntryAttributes { kind: EntryKind::Symlink, len: 4, readonly: true, hardlinks: 1 };
    let entry = plan_entry(&link);
    assert!(!entry.shred);
    assert!(!entry.descend);
    assert!(entry.clear_readonly);
}

#[test]
fn chunks_cover_large_files() {
    let m = SHRED_BUFFER_MAX;
    assert_eq!(chunk_lengths(0), Vec::<usize>::new());
    assert_eq!(chunk_lengths(5), vec![5]);
    assert_eq!(chunk_lengths(m as u64), vec![m]);
    assert_eq!(chunk_lengths(2 * m as u64 + 7), vec![m, m, 7]);
    assert_eq!(m, 262_144);
}

#[test]
fn passes_end_with_zero() {
    assert_eq!(pass_bytes(7, 8, 9), vec![7, 8, 9, 0]);
    let plan = plan_shred("f", 3 * SHRED_BUFFER_MAX as u64 + 1).unwrap();
    assert_eq!(plan.passes.len(), PASSES);
    assert_eq!(plan.passes[PASSES - 1], 0);
    assert_eq!(plan.chunks.iter().sum::<usize>(), 3 * SHRED_BUFFER_MAX + 1);
}

#[test]
fn options_and_usage() {
    assert_eq!(usage_line("purge"), "Usage: purge [-h] [-v[v]] path [path ...]");
    assert_eq!(apply_option(0, 'v'), Directive::Verbosity(1));
    assert_eq!(apply_option(1, 'v'), Directive::Verbosity(2));
    assert_eq!(apply_option(2, 'v'), Directive::Verbosity(2));
    assert_eq!(apply_option(1, 'h'), Directive::Help);
    assert!(!reports_removals(0));
    assert!(reports_removals(1));
    assert!(!reports_progress(1));
    assert!(reports_progress(2));
}

fn kinds_until_done(walk: &mut Walk) -> Vec<(TaskKind, String)> {
    let mut out = Vec::new();
    while let Some(t) = walk.next_task() {
        out.push((t.kind, t.path));
    }
    out
}

#[test]
fn walk_empty_directory() {
    let mut walk = Walk::new("d");
    let t = walk.next_task().unwrap();
    assert_eq!((t.kind, t.path.as_str()), (TaskKind::Inspect, "d"));
    let dir = EntryAttributes { kind: EntryKind::Dir, len: 0, readonly: false, hardlinks: 2 };
    walk.on_attributes("d", &dir);
    let t = walk.next_task().unwrap();
    assert_eq!((t.kind, t.path.as_str()), (TaskKind::List, "d"));
    walk.on_children("d", Vec::new());
    assert_eq!(kinds_until_done(&mut walk), vec![(TaskKind::Erase, "d".to_string())]);
}

#[test]
fn walk_shared_file_only_erases() {
    let mut walk = Walk::new("f");
    walk.next_task().unwrap();
    walk.on_attributes("f", &file(2));
    assert_eq!(kinds_until_done(&mut walk), vec![(TaskKind::Erase, "f".to_string())]);
}

#[test]
fn walk_readonly_single_file() {
    let mut walk = Walk::new("secret");
    walk.next_task().unwrap();
    let attrs = EntryAttributes { kind: EntryKind::File, len: 10, readonly: true, hardlinks: 1 };
    walk.on_attributes("secret", &attrs);
    assert_eq!(
        kinds_until_done(&mut walk),
        vec![
            (TaskKind::ClearReadonly, "secret".to_string()),
            (TaskKind::Shred, "secret".to_string()),
            (TaskKind::Erase, "secret".to_string()),
        ]
    );
}

#[test]
fn walk_visits_children_before_erasing_directory() {
    let mut walk = Walk::new("top");
    walk.next_task().unwrap();
    let dir = EntryAttributes { kind: EntryKind::Dir, len: 0, readonly: false, hardlinks: 3 };
    walk.on_attributes("top", &dir);
    walk.next_task().unwrap();
    walk.on_children("top", names(&["b", "a", "00"]));
    let t = walk.next_task().unwrap();
    assert_eq!((t.kind, t.path.as_str()), (TaskKind::Inspect, "top/00"));
    walk.on_attributes("top/00", &file(1));
    assert_eq!(
        kinds_until_done(&mut walk),
        vec![
            (TaskKind::Shred, "top/00".to_string()),
            (TaskKind::Erase, "top/00".to_string()),
            (TaskKind::Inspect, "top/a".to_string()),
            (TaskKind::Inspect, "top/b".to_string()),
            (TaskKind::Erase, "top".to_string()),
        ]
    );
}

#[test]
fn collision_anywhere_refuses_whole_plan() {
    let plan = plan_erase("d/ab").unwrap();
    assert_eq!(plan.renames.len(), 2);
    assert!(guard_plan(&plan, &vec![false, false]).is_ok());
    let e = guard_plan(&plan, &vec![false, true]).unwrap_err();
    assert_eq!(e.kind, ErrorKind::AlreadyExists);
    assert_eq!(e.path, "d/0");
    let e = guard_plan(&plan, &vec![true, true]).unwrap_err();
    assert_eq!(e.path, "d/00");
}
