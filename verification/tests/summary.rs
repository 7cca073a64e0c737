use ollama_shepherd::ollama::Usage;
use ollama_shepherd::order::sort_larger_first;
use ollama_shepherd::summary::{aggregate_models, all_windows, checked_aggregate_models};

fn pairs(list: &[(&str, u64)]) -> Vec<(String, u64)> {
    list.iter().map(|p| (p.0.to_string(), p.1)).collect()
}

fn usage(windows: &[(&str, u64)], models: &[(&str, u64)]) -> Usage {
    Usage { windows: pairs(windows), models: pairs(models), ..Usage::default() }
}

#[test]
fn requests_are_added_up_by_model() {
    let usages = vec![
        usage(&[], &[("a", 1), ("b", 5), ("a", 2)]),
        usage(&[], &[("c", 9), ("a", 4)]),
    ];
    assert_eq!(aggregate_models(&usages), pairs(&[("c", 9), ("a", 7), ("b", 5)]));
    assert!(aggregate_models(&vec![]).is_empty());
    let all: u64 = aggregate_models(&usages).iter().map(|p| p.1).sum();
    assert_eq!(all, 21);
}

#[test]
fn totals_that_do_not_fit() {
    let usages = vec![usage(&[], &[("a", u64::MAX)]), usage(&[], &[("b", 1), ("a", 1)])];
    assert!(checked_aggregate_models(&usages).is_none());
    let usages = vec![usage(&[], &[("a", u64::MAX)]), usage(&[], &[("b", u64::MAX), ("a", 0)])];
    assert_eq!(checked_aggregate_models(&usages).unwrap().len(), 2);
}

#[test]
fn windows_of_all_usages() {
    let usages = vec![
        usage(&[("Session", 0), ("Yearly", 0), ("Weekly", 1)], &[]),
        usage(&[("Weekly", 2), ("Daily", 0), ("Monthly", 3)], &[]),
    ];
    assert_eq!(all_windows(&usages), ["Monthly", "Weekly", "Session", "Daily", "Yearly"]);
    assert!(all_windows(&vec![]).is_empty());
}

#[test]
fn sorting_keeps_ties_in_place() {
    let mut v = pairs(&[("a", 1), ("b", 3), ("c", 1), ("d", 3), ("e", 2)]);
    sort_larger_first(&mut v);
    assert_eq!(v, pairs(&[("b", 3), ("d", 3), ("e", 2), ("a", 1), ("c", 1)]));
}
