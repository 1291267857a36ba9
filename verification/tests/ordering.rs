use file_explorer::debounce::{Debouncer, AFTER_TICK_WAIT_MS, IDLE_WAIT_MS};
use file_explorer::session::SortMode;
use file_explorer::sorting::{order_by_key_desc, order_by_name, sort_key, sort_order, SortKey};

fn strings(v: &[&str]) -> Vec<String> {
    v.iter().map(|s| s.to_string()).collect()
}

#[test]
fn larger_keys_first_ties_keep_their_order() {
    assert_eq!(order_by_key_desc(&vec![3, 9, 3, 1]), vec![1, 0, 2, 3]);
    assert_eq!(order_by_key_desc(&vec![5, 5, 5]), vec![0, 1, 2]);
    assert!(order_by_key_desc(&vec![]).is_empty());
}

#[test]
fn names_sort_without_case_and_stably() {
    assert_eq!(order_by_name(&strings(&["b", "A", "a", "B"])), vec![1, 2, 0, 3]);
    assert_eq!(order_by_name(&strings(&["src/z", "src", "Src/a"])), vec![1, 2, 0]);
    assert_eq!(order_by_name(&strings(&["b", "ab", "a"])), vec![2, 1, 0]);
}

#[test]
fn a_burst_gives_one_tick_after_the_window() {
    let mut d = Debouncer::new(400);
    assert_eq!(d.wait(1000), (false, IDLE_WAIT_MS));
    d.event(1000);
    assert_eq!(d.wait(1100), (false, 300));
    d.event(1150);
    assert!(!d.timeout(1500));
    assert!(d.timeout(1550));
    assert_eq!(d.pending, None);
    assert!(!d.timeout(5000));
    assert_eq!(d.wait(5000), (false, IDLE_WAIT_MS));
}

#[test]
fn a_wait_after_the_window_ticks_at_once() {
    let mut d = Debouncer::new(400);
    d.event(0);
    assert_eq!(d.wait(500), (true, AFTER_TICK_WAIT_MS));
    assert_eq!(d.wait(600), (false, IDLE_WAIT_MS));
    d.event(700);
    assert_eq!(d.wait(650), (false, 400));
}

#[test]
fn a_burst_of_events_gives_one_tick_after_the_quiet_window() {
    let mut d = Debouncer::new(400);
    let mut ticks = 0;
    for t in [0u64, 100, 200] {
        d.event(t);
        if d.timeout(t + 50) {
            ticks += 1;
        }
    }
    assert_eq!(ticks, 0);
    assert!(!d.timeout(599));
    assert!(d.timeout(600));
    assert!(!d.timeout(1000));
    assert_eq!(d.wait(2000), (false, 60000));
}

#[test]
fn each_sort_mode_orders_by_its_key() {
    let names: Vec<String> = ["b", "A", "c"].iter().map(|s| s.to_string()).collect();
    let keys = vec![5u64, 9, 5];
    assert_eq!(sort_order(SortMode::Relevance, &names, &keys), None);
    assert_eq!(sort_order(SortMode::Name, &names, &keys), Some(vec![1, 0, 2]));
    assert_eq!(sort_order(SortMode::Size, &names, &keys), Some(vec![1, 0, 2]));
    assert_eq!(sort_key(SortMode::Size), Some(SortKey::Size));
    assert_eq!(sort_key(SortMode::Modified), Some(SortKey::Modified));
    assert_eq!(sort_key(SortMode::Name), None);
}
