use pairing_heap::Node;
use pairing_heap::PairingHeap;

#[test]
fn returns_the_first_value_from_the_heap() {
    let mut heap = PairingHeap::min();
    let numbers = vec![4, 3, 1, 2, 5, 7, 6];
    numbers.iter().for_each(|n| {
        let _ = &mut heap.push(*n);
    });
    assert_eq!(heap.pop(), Some(1));
}

#[test]
fn removes_the_first_value_from_heap() {
    let mut heap = PairingHeap::min();
    let numbers = vec![4, 3, 1, 2, 5, 7, 6];
    numbers.iter().for_each(|n| {
        let _ = &mut heap.push(*n);
    });
    let _ = heap.pop();
    assert_eq!(heap.top(), Some(2));
}

#[test]
fn pop_returns_none_if_the_heap_is_empty() {
    let mut heap = PairingHeap::min();
    assert_eq!(heap.pop(), None);
}

#[test]
fn returns_all_elements_from_smallest_to_largest_in_a_min_heap() {
    let mut heap = PairingHeap::min();
    let numbers = vec![4, 3, 1, 2, 5, 7, 6];
    numbers.iter().for_each(|n| {
        let _ = &mut heap.push(*n);
    });
    assert_eq!(heap.pop(), Some(1));
    assert_eq!(heap.pop(), Some(2));
    assert_eq!(heap.pop(), Some(3));
    assert_eq!(heap.pop(), Some(4));
    assert_eq!(heap.pop(), Some(5));
    assert_eq!(heap.pop(), Some(6));
    assert_eq!(heap.pop(), Some(7));
    assert_eq!(heap.pop(), None);
}

#[test]
fn returns_all_elements_from_largest_to_smallest_in_a_max_heap() {
    let mut heap = PairingHeap::max();
    let numbers = vec![4, 3, 1, 2, 5, 7, 6];
    numbers.iter().for_each(|n| {
        let _ = &mut heap.push(*n);
    });
    assert_eq!(heap.pop(), Some(7));
    assert_eq!(heap.pop(), Some(6));
    assert_eq!(heap.pop(), Some(5));
    assert_eq!(heap.pop(), Some(4));
    assert_eq!(heap.pop(), Some(3));
    assert_eq!(heap.pop(), Some(2));
    assert_eq!(heap.pop(), Some(1));
    assert_eq!(heap.pop(), None);
}

#[test]
fn adds_a_value_to_the_heap() {
    let mut heap = PairingHeap::min();
    let value = 1;
    heap.push(value);
    assert_eq!(heap.top(), Some(value));
}

#[test]
fn adds_a_higher_item_to_the_heap_behind_a_lower_in_a_min_heap() {
    let mut heap = PairingHeap::min();
    let lower = 1;
    let higher = 2;
    heap.push(lower);
    heap.push(higher);
    assert_eq!(heap.top(), Some(lower));
}

#[test]
fn adds_a_higher_item_to_the_heap_before_a_lower_in_a_max_heap() {
    let mut heap = PairingHeap::min();
    let lower = 1;
    let higher = 2;
    heap.push(higher);
    heap.push(lower);
    assert_eq!(heap.top(), Some(lower));
}

#[test]
fn adds_a_lower_item_to_the_heap_before_a_higher_in_a_min_heap() {
    let mut heap = PairingHeap::min();
    let lower = 1;
    let higher = 2;
    heap.push(higher);
    heap.push(lower);
    assert_eq!(heap.top(), Some(lower));
}

#[test]
fn adds_a_lower_item_to_the_heap_behind_a_higher_in_a_max_heap() {
    let mut heap = PairingHeap::max();
    let lower = 1;
    let higher = 2;
    heap.push(higher);
    heap.push(lower);
    assert_eq!(heap.top(), Some(higher));
}

#[test]
fn returns_none_if_the_list_is_empty() {
    let mut heap = PairingHeap::min();
    assert_eq!(heap.pop(), None);
}

#[test]
fn returns_the_first_value_in_a_heap() {
    let mut heap = PairingHeap::min();
    let numbers = vec![4, 3, 1, 2, 5, 7, 6];
    numbers.iter().for_each(|n| {
        let _ = &mut heap.push(*n);
    });
    assert_eq!(heap.top(), Some(1));
}

#[test]
fn top_returns_none_if_the_heap_is_empty() {
    let heap = PairingHeap::min();
    assert_eq!(heap.top(), None);
}

#[test]
fn returns_the_correct_size_of_a_heap_after_adding_elements() {
    let mut heap = PairingHeap::min();
    let numbers = vec![4, 3, 1, 2, 5, 7, 6];
    numbers.iter().for_each(|n| {
        let _ = &mut heap.push(*n);
    });
    assert_eq!(heap.len(), numbers.len());
}

#[test]
fn returns_the_correct_size_of_a_heap_after_removing_an_element() {
    let mut heap = PairingHeap::min();
    let numbers = vec![4, 3, 1, 2, 5, 7, 6];
    numbers.iter().for_each(|n| {
        let _ = &mut heap.push(*n);
    });
    let _ = heap.pop();
    let _ = heap.pop();
    assert_eq!(heap.len(), numbers.len() - 2);
}

#[test]
fn min_heap_pops_sorted_ascending_with_duplicates_and_negatives() {
    let mut heap = PairingHeap::min();
    for n in [5, -3, 5, 0, -3, 9, 1] {
        heap.push(n);
    }
    let mut popped = Vec::new();
    while let Some(v) = heap.pop() {
        popped.push(v);
    }
    assert_eq!(popped, vec![-3, -3, 0, 1, 5, 5, 9]);
}

#[test]
fn max_heap_pops_sorted_descending_with_duplicates() {
    let mut heap = PairingHeap::max();
    for n in [2, 8, 2, 8, 5] {
        heap.push(n);
    }
    let mut popped = Vec::new();
    while let Some(v) = heap.pop() {
        popped.push(v);
    }
    assert_eq!(popped, vec![8, 8, 5, 2, 2]);
}

#[test]
fn len_tracks_pushes_and_pops() {
    let mut heap = PairingHeap::min();
    for n in [10, 20, 30, 40, 50] {
        heap.push(n);
    }
    assert_eq!(heap.len(), 5);
    let _ = heap.pop();
    let _ = heap.pop();
    assert_eq!(heap.len(), 3);
    heap.push(60);
    assert_eq!(heap.len(), 4);
    for _ in 0..4 {
        assert!(heap.pop().is_some());
    }
    assert_eq!(heap.len(), 0);
    assert_eq!(heap.pop(), None);
    assert_eq!(heap.top(), None);
}

#[test]
fn popping_an_empty_heap_is_idempotent() {
    let mut heap = PairingHeap::max();
    heap.push(1);
    assert_eq!(heap.pop(), Some(1));
    for _ in 0..3 {
        assert_eq!(heap.pop(), None);
        assert_eq!(heap.len(), 0);
    }
}

#[test]
fn top_is_stable_without_intervening_operations() {
    let mut heap = PairingHeap::min();
    for n in [3, 1, 2] {
        heap.push(n);
    }
    assert_eq!(heap.top(), Some(1));
    assert_eq!(heap.top(), Some(1));
    assert_eq!(heap.top(), Some(1));
    assert_eq!(heap.len(), 3);
}

#[test]
fn min_heap_peeks_and_pops_two_elements() {
    let mut heap = PairingHeap::min();
    heap.push(1);
    heap.push(2);
    assert_eq!(heap.top(), Some(1));
    assert_eq!(heap.pop(), Some(1));
    assert_eq!(heap.top(), Some(2));
    assert_eq!(heap.len(), 1);
}

#[test]
fn fresh_heaps_of_either_kind_are_empty() {
    let mut min_heap = PairingHeap::min();
    assert_eq!(min_heap.pop(), None);
    assert_eq!(min_heap.top(), None);
    assert_eq!(min_heap.len(), 0);

    let mut max_heap = PairingHeap::max();
    assert_eq!(max_heap.pop(), None);
    assert_eq!(max_heap.top(), None);
    assert_eq!(max_heap.len(), 0);
}

#[test]
fn node_accessors_report_what_was_set() {
    let mut node = Node::new(7);
    assert_eq!(node.value(), 7);
    node.set_left(Some(Box::new(Node::new(8))));
    node.set_next(Some(Box::new(Node::new(9))));
    assert_eq!(node.value(), 7);
    let next = node.next();
    assert_eq!(next.map(|n| n.value()), Some(9));

    let mut other = Node::new(7);
    other.set_left(Some(Box::new(Node::new(8))));
    let left = other.left();
    assert_eq!(left.map(|n| n.value()), Some(8));
}
