use preduce::queue::{QueueEntry, ReductionQueue};
use preduce::stats::{display_name, Stats};
use preduce::test_case::Potential;

fn entry(id: u64, size: u64, priority: u64) -> QueueEntry {
    QueueEntry { potential: Potential { id, size }, reducer: id, priority }
}

#[test]
fn queue_serves_highest_priority_then_insertion_order() {
    let mut q = ReductionQueue::with_capacity(4);
    assert!(q.is_empty());
    q.insert(entry(1, 5, 3));
    q.insert(entry(2, 5, 7));
    q.insert(entry(3, 5, 3));
    q.insert(entry(4, 5, 7));
    assert_eq!(q.len(), 4);
    let out: Vec<u64> = q.drain(3).iter().map(|e| e.potential.id).collect();
    assert_eq!(out, vec![2, 4, 1]);
    let rest: Vec<u64> = q.drain(1).iter().map(|e| e.potential.id).collect();
    assert_eq!(rest, vec![3]);
    assert!(q.is_empty());
}

#[test]
fn queue_prune_keeps_order() {
    let mut q = ReductionQueue::with_capacity(4);
    q.insert(entry(1, 9, 1));
    q.insert(entry(2, 3, 2));
    q.insert(entry(3, 5, 3));
    q.insert(entry(4, 4, 0));
    let removed: Vec<u64> = q.remove_not_below(5).iter().map(|e| e.potential.id).collect();
    assert_eq!(removed, vec![3, 1]);
    let kept: Vec<u64> = q.drain(2).iter().map(|e| e.potential.id).collect();
    assert_eq!(kept, vec![2, 4]);
}

#[test]
fn queue_clear_returns_everything() {
    let mut q = ReductionQueue::with_capacity(2);
    q.insert(entry(1, 9, 1));
    let all = q.clear();
    assert_eq!(all.len(), 1);
    assert_eq!(q.len(), 0);
    assert_eq!(q.drain(0).len(), 0);
}

#[test]
fn stats_count_per_provenance() {
    let mut s = Stats::new();
    s.new_smallest(9, "a");
    s.new_smallest(7, "b");
    s.is_not_smaller("a");
    s.judged_not_interesting("c");
    s.judged_not_interesting("c");
    s.finished_merging(5, 5);
    s.finished_merging(4, 5);
    assert_eq!(s.final_size(), 7);
    assert_eq!(s.len(), 4);
    let rows: Vec<(String, (u64, u64, u64))> =
        (0..s.len()).map(|i| (s.row_name(i), s.row_counts(i))).collect();
    assert_eq!(
        rows,
        vec![
            ("a".to_string(), (1, 1, 0)),
            ("b".to_string(), (1, 0, 0)),
            ("c".to_string(), (0, 0, 2)),
            ("merge".to_string(), (0, 0, 1)),
        ]
    );
}

#[test]
fn histogram_order_descending() {
    let mut s = Stats::new();
    s.judged_not_interesting("x");
    s.new_smallest(3, "b");
    s.judged_not_interesting("a");
    s.new_smallest(2, "c");
    s.is_not_smaller("c");
    s.judged_not_interesting("z");
    let names: Vec<String> = s.histogram_order().iter().map(|&i| s.row_name(i)).collect();
    assert_eq!(names, vec!["c", "b", "z", "x", "a"]);
}

#[test]
fn stats_start_empty() {
    let s = Stats::new();
    assert_eq!(s.final_size(), 0);
    assert_eq!(s.len(), 0);
    assert!(s.histogram_order().is_empty());
}

#[test]
fn display_name_takes_last_component() {
    assert_eq!(display_name("reducers/lines.py"), "lines.py");
    assert_eq!(display_name("plain"), "plain");
    assert_eq!(display_name("dir/"), "");
    let long: String = std::iter::repeat('x').take(60).collect();
    let path = format!("a/{}", long);
    assert_eq!(display_name(&path).len(), 50);
    assert_eq!(display_name(&format!("ab{}", "y".repeat(50))), "y".repeat(50));
}

#[test]
fn final_size_is_the_logged_final_size() {
    let mut s = Stats::new();
    s.judged_not_interesting("a");
    s.final_reduced_size(10);
    assert_eq!(s.final_size(), 10);
    s.new_smallest(4, "a");
    s.final_reduced_size(4);
    assert_eq!(s.final_size(), 4);
    assert_eq!(s.row_counts(0), (1, 0, 1));
}
