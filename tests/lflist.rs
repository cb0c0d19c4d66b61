use nulloc::{List, ObjectList, WordList};

const PAGE_SIZE: usize = 4096;

#[test]
fn general() {
    let mut list = WordList::with_capacity(128);
    let page_size = PAGE_SIZE;
    for i in 2..page_size {
        list.push(i);
    }
    for i in (2..page_size).rev() {
        assert_eq!(list.pop(), Some(i));
    }
    for _ in 2..page_size {
        assert_eq!(list.pop(), None);
    }
    list.push(32);
    list.push(25);
    assert_eq!(list.count(), 2);
    assert_eq!(list.drop_out_all(), Some(vec![32, 25]));
    assert_eq!(list.count(), 0);
}

#[test]
fn concrete_scenario_capacity_four() {
    let mut list: List<()> = List::new(4);
    for tag in 10..15 {
        list.push(tag, ());
    }
    assert_eq!(list.count(), 5);
    for tag in (10..15).rev() {
        assert_eq!(list.pop(), Some((tag, ())));
    }
    assert_eq!(list.pop(), None);
    assert_eq!(list.count(), 0);
}

#[test]
fn lifo_within_one_page() {
    let mut list: List<u32> = List::new(8);
    let pushed = [(7usize, 70u32), (3, 30), (9, 90), (2, 20)];
    for &(tag, payload) in pushed.iter() {
        list.push(tag, payload);
    }
    for &(tag, payload) in pushed.iter().rev() {
        assert_eq!(list.pop(), Some((tag, payload)));
    }
    assert_eq!(list.pop(), None);
}

#[test]
fn overflow_to_a_second_page() {
    let cap = 3;
    let mut list: List<u64> = List::new(cap);
    for i in 0..(cap + 1) {
        list.push(100 + i, i as u64 * 11);
    }
    assert_eq!(list.count(), cap + 1);
    for i in (0..(cap + 1)).rev() {
        assert_eq!(list.pop(), Some((100 + i, i as u64 * 11)));
    }
    assert_eq!(list.pop(), None);
}

#[test]
fn drain_order_is_newest_page_first() {
    let mut list: List<()> = List::new(2);
    for tag in 2..7 {
        list.push(tag, ());
    }
    let drained = list.drop_out_all().unwrap();
    let tags: Vec<usize> = drained.iter().map(|p| p.0).collect();
    assert_eq!(tags, vec![6, 4, 5, 2, 3]);
    assert_eq!(list.count(), 0);
}

#[test]
fn drain_leaves_the_list_empty() {
    let mut list: List<u8> = List::new(4);
    for tag in 2..20 {
        list.push(tag, tag as u8);
    }
    let drained = list.drop_out_all().unwrap();
    assert_eq!(drained.len(), 18);
    assert_eq!(list.count(), 0);
    assert_eq!(list.pop(), None);
    assert_eq!(list.drop_out_all(), None);
    list.push(5, 50);
    assert_eq!(list.pop(), Some((5, 50)));
}

#[test]
fn drain_of_empty_list_is_none() {
    let mut list: List<()> = List::new(4);
    assert_eq!(list.drop_out_all(), None);
    assert_eq!(list.count(), 0);
}

#[test]
fn no_lost_updates_by_pop_and_by_drain() {
    let mut a: List<()> = List::new(5);
    let mut b: List<()> = List::new(5);
    let tags: Vec<usize> = (0..37).map(|i| 1000 + 7 * i).collect();
    for &t in tags.iter() {
        a.push(t, ());
        b.exclusive_push(t, ());
    }
    let mut popped = Vec::new();
    while let Some((t, ())) = a.pop() {
        popped.push(t);
    }
    popped.sort();
    assert_eq!(popped, tags);
    let mut drained: Vec<usize> = b.drop_out_all().unwrap().iter().map(|p| p.0).collect();
    drained.sort();
    assert_eq!(drained, tags);
}

#[test]
fn splice_moves_everything_on_top() {
    let mut a: List<()> = List::new(2);
    let mut b: List<()> = List::new(3);
    for t in [10, 11, 12] {
        a.push(t, ());
    }
    for t in [20, 21] {
        b.push(t, ());
    }
    let total = a.count() + b.count();
    a.prepend_with(&mut b);
    assert_eq!(a.count(), total);
    assert_eq!(b.count(), 0);
    assert_eq!(b.pop(), None);
    for t in [21, 20, 12, 11, 10] {
        assert_eq!(a.pop(), Some((t, ())));
    }
    assert_eq!(a.pop(), None);
    b.push(30, ());
    assert_eq!(b.pop(), Some((30, ())));
}

#[test]
fn splice_of_empty_list_changes_nothing() {
    let mut a: List<()> = List::new(2);
    let mut b: List<()> = List::new(2);
    a.push(4, ());
    a.prepend_with(&mut b);
    assert_eq!(a.count(), 1);
    assert_eq!(b.count(), 0);
    assert_eq!(a.pop(), Some((4, ())));
}

#[test]
fn many_items_drained_once_each() {
    let producers = 4;
    let mut list = WordList::with_capacity(128);
    for p in 0..producers {
        for i in 0..1000 {
            list.push(p * 1000 + i);
        }
    }
    assert_eq!(list.count(), producers * 1000);
    let mut drained = list.drop_out_all().unwrap();
    assert_eq!(drained.len(), producers * 1000);
    drained.sort();
    drained.dedup();
    assert_eq!(drained, (0..producers * 1000).collect::<Vec<usize>>());
    assert_eq!(list.count(), 0);
}

#[test]
fn word_list_keeps_reserved_values() {
    let mut list = WordList::new();
    list.push(0);
    list.push(1);
    list.exclusive_push(2);
    assert_eq!(list.count(), 3);
    assert_eq!(list.pop(), Some(2));
    assert_eq!(list.pop(), Some(1));
    assert_eq!(list.pop(), Some(0));
    assert_eq!(list.pop(), None);
}

#[test]
fn word_list_splice() {
    let mut a = WordList::with_capacity(2);
    let mut b = WordList::with_capacity(2);
    a.push(1);
    b.push(2);
    b.push(3);
    a.prepend_with(&mut b);
    assert_eq!(a.count(), 3);
    assert_eq!(b.count(), 0);
    assert_eq!(a.drop_out_all(), Some(vec![2, 3, 1]));
    assert_eq!(a.drop_out_all(), None);
}

#[test]
fn object_list_round_trip() {
    let mut list: ObjectList<String> = ObjectList::with_capacity(2);
    for s in ["a", "b", "c"] {
        list.push(s.to_string());
    }
    list.exclusive_push("d".to_string());
    assert_eq!(list.count(), 4);
    assert_eq!(list.pop(0), Some("d".to_string()));
    assert_eq!(
        list.drop_out_all(),
        Some(vec!["c".to_string(), "a".to_string(), "b".to_string()])
    );
    assert_eq!(list.pop(0), None);
    assert_eq!(list.drop_out_all(), None);
}

#[test]
fn object_list_splice() {
    let mut a: ObjectList<u32> = ObjectList::new();
    let mut b: ObjectList<u32> = ObjectList::new();
    a.push(1);
    b.push(2);
    a.prepend_with(&mut b);
    assert_eq!(a.count(), 2);
    assert_eq!(b.count(), 0);
    assert_eq!(a.pop(0), Some(2));
    assert_eq!(a.pop(0), Some(1));
}
