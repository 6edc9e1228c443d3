use stateful_filter::filtered_hint;
use stateful_filter::FilterWithExt;
use std::collections::HashSet;

#[test]
fn filter_with_predicate() {
    let v = vec![0, 1, 2, 3, 4, 5];
    let v = v
        .into_iter()
        .filter_with(Vec::new(), |mut s: Vec<i32>, i: &i32| {
            assert_eq!(s.len() as i32, *i);
            if s.contains(i) {
                (s, false)
            } else {
                s.push(*i);
                (s, true)
            }
        })
        .collect_vec();
    assert_eq!(v, vec![0, 1, 2, 3, 4, 5]);
}

#[test]
fn filter_with_does_not_take_ownership() {
    let v = vec![0, 1, 3, 2, 8, 14];
    let v2 = v
        .iter()
        .filter_with(0, |sum: i32, i: &&i32| {
            let b = sum < **i;
            (sum + **i, b)
        })
        .collect_vec();
    assert_eq!(v2, vec![&1, &3, &8]);

    let v3 = v
        .iter()
        .filter_with(0, |sum: i32, i: &&i32| {
            let b = sum <= **i; // <=, not <
            (sum + **i, b)
        })
        .collect_vec();
    assert_eq!(v3, vec![&0, &1, &3, &8, &14]);
}

#[test]
fn unique_by_filter_with() {
    let v = vec![1, 2, 3, 2, 1, 4, 3];
    let v = v
        .into_iter()
        .filter_with(HashSet::new(), |mut s: HashSet<i32>, i: &i32| {
            if s.contains(i) {
                (s, false)
            } else {
                s.insert(*i);
                (s, true)
            }
        })
        .collect_vec();
    assert_eq!(v, vec![1, 2, 3, 4]);
}

#[test]
fn filter_map_with_predicate() {
    let v = vec![0, 1, 2, 3, 4, 5];
    let v = v
        .into_iter()
        .filter_map_with(Vec::new(), |mut s: Vec<i32>, i: i32| {
            assert_eq!(s.len() as i32, i);
            if s.contains(&i) {
                (s, None)
            } else {
                s.push(i);
                (s, Some(i * i))
            }
        })
        .collect_vec();
    assert_eq!(v, vec![0, 1, 4, 9, 16, 25]);
}

#[test]
fn unique_map_by_filter_with() {
    let v = vec![1, 2, 3, 2, 1, 4, 3];
    let v = v
        .into_iter()
        .filter_map_with(HashSet::new(), |mut s: HashSet<i32>, i: i32| {
            if s.contains(&i) {
                (s, None)
            } else {
                s.insert(i);
                (s, Some((i * i).to_string()))
            }
        })
        .collect_vec();
    assert_eq!(
        v,
        vec![
            "1".to_string(),
            "4".to_string(),
            "9".to_string(),
            "16".to_string()
        ]
    );
}

#[test]
fn state_counts_every_item_examined() {
    // The state is the number of items seen so far, rejected ones included.
    let v = vec![10, 11, 12, 13, 14, 15, 16];
    let out = v
        .into_iter()
        .filter_with(0usize, |seen: usize, i: &i32| {
            assert_eq!(seen as i32, *i - 10);
            (seen + 1, *i % 3 == 0)
        })
        .collect_vec();
    assert_eq!(out, vec![12, 15]);
}

#[test]
fn filter_map_state_counts_every_item_examined() {
    let v = vec![5, 6, 7, 8];
    let out = v
        .into_iter()
        .filter_map_with(0i32, |seen: i32, i: i32| {
            assert_eq!(seen, i - 5);
            let y = if i % 2 == 0 { Some(i * 10 + seen) } else { None };
            (seen + 1, y)
        })
        .collect_vec();
    assert_eq!(out, vec![61, 83]);
}

#[test]
fn output_matches_a_replay_of_the_predicate() {
    // Keep an item when it exceeds the running maximum.
    let v = vec![3, 1, 4, 1, 5, 9, 2, 6, 5, 3, 5];
    let out = v
        .clone()
        .into_iter()
        .filter_with(i32::MIN, |best: i32, i: &i32| {
            if *i > best {
                (*i, true)
            } else {
                (best, false)
            }
        })
        .collect_vec();
    let mut expected = Vec::new();
    let mut best = i32::MIN;
    for i in v {
        if i > best {
            best = i;
            expected.push(i);
        }
    }
    assert_eq!(out, expected);
    assert_eq!(out, vec![3, 4, 5, 9]);
}

#[test]
fn next_yields_one_accepted_item_at_a_time() {
    let v = vec![1, 2, 3, 4, 5, 6];
    let mut it = v.into_iter().filter_with(0, |sum: i32, i: &i32| {
        let s = sum + *i;
        (s, s % 2 == 0)
    });
    // running sums: 1 3 6 10 15 21
    assert_eq!(it.next(), Some(3));
    assert_eq!(it.next(), Some(4));
    assert_eq!(it.next(), None);
}

#[test]
fn exhaustion_is_permanent() {
    let v = vec![1, 2, 3];
    let mut it = v.into_iter().filter_with((), |s: (), i: &i32| (s, *i == 2));
    assert_eq!(it.next(), Some(2));
    assert_eq!(it.next(), None);
    assert_eq!(it.next(), None);
    assert_eq!(it.next(), None);

    let w = vec![1, 2, 3];
    let mut m = w
        .into_iter()
        .filter_map_with((), |s: (), i: i32| (s, if i == 1 { Some(i) } else { None }));
    assert_eq!(m.next(), Some(1));
    assert_eq!(m.next(), None);
    assert_eq!(m.next(), None);
}

#[test]
fn empty_source_yields_nothing() {
    let v: Vec<i32> = Vec::new();
    let out = v
        .into_iter()
        .filter_with(0, |s: i32, _i: &i32| (s, true))
        .collect_vec();
    assert!(out.is_empty());
    let w: Vec<i32> = Vec::new();
    let mut m = w
        .into_iter()
        .filter_map_with(0, |s: i32, i: i32| (s, Some(i)));
    assert_eq!(m.next(), None);
}

#[test]
fn rejecting_everything_yields_nothing() {
    let out = vec![1, 2, 3]
        .into_iter()
        .filter_with(0, |s: i32, _i: &i32| (s + 1, false))
        .collect_vec();
    assert!(out.is_empty());
    let out2 = vec![1, 2, 3]
        .into_iter()
        .filter_map_with(0, |s: i32, _i: i32| (s + 1, None::<i32>))
        .collect_vec();
    assert!(out2.is_empty());
}

#[test]
fn size_hint_keeps_the_upper_bound_only() {
    let it = vec![1, 2, 3].into_iter().filter_with(0, |s: i32, _i: &i32| (s, true));
    assert_eq!(it.size_hint(), (0, Some(3)));
    let m = vec![1, 2, 3, 4, 5]
        .into_iter()
        .filter_map_with(0, |s: i32, i: i32| (s, Some(i)));
    assert_eq!(m.size_hint(), (0, Some(5)));
}

#[test]
fn filtered_hint_drops_the_lower_bound() {
    assert_eq!(filtered_hint((4, Some(9))), (0, Some(9)));
    assert_eq!(filtered_hint((7, None)), (0, None));
    assert_eq!(filtered_hint((0, Some(0))), (0, Some(0)));
}
