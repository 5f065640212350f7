use binary_heap::Heap;

#[test]
fn it_works() {
    let numbers = vec![23, 43, 53, 11, 10, 34, 77];
    let mut heap = Heap::max_heap();

    for i in numbers {
        heap.push(i);
    }

    assert_eq!(Some(77), heap.pop());
    assert_eq!(Some(53), heap.pop());
    assert_eq!(Some(43), heap.pop());
    assert_eq!(Some(34), heap.pop());
    assert_eq!(Some(23), heap.pop());
    assert_eq!(Some(11), heap.pop());
    assert_eq!(Some(10), heap.pop());
    assert_eq!(None, heap.pop());

    let numbers = vec![23, 43, 53, 11, 10, 34, 77];
    let mut heap = Heap::min_heap();

    for i in numbers {
        heap.push(i);
    }

    assert_eq!(Some(10), heap.pop());
    assert_eq!(Some(11), heap.pop());
    assert_eq!(Some(23), heap.pop());
    assert_eq!(Some(34), heap.pop());
    assert_eq!(Some(43), heap.pop());
    assert_eq!(Some(53), heap.pop());
    assert_eq!(Some(77), heap.pop());
    assert_eq!(None, heap.pop());
}

#[test]
fn max_heap_round_trip() {
    let mut heap = Heap::max_heap();
    for i in [23, 43, 53, 11, 10, 34, 77] {
        heap.push(i);
    }
    let mut out = Vec::new();
    while let Some(x) = heap.pop() {
        out.push(x);
    }
    assert_eq!(out, vec![77, 53, 43, 34, 23, 11, 10]);
    assert_eq!(heap.pop(), None);
}

#[test]
fn min_heap_round_trip() {
    let mut heap = Heap::min_heap();
    for i in [23, 43, 53, 11, 10, 34, 77] {
        heap.push(i);
    }
    let mut out = Vec::new();
    while let Some(x) = heap.pop() {
        out.push(x);
    }
    assert_eq!(out, vec![10, 11, 23, 34, 43, 53, 77]);
    assert_eq!(heap.pop(), None);
}

#[test]
fn new_heaps_are_empty() {
    let min: Heap<u8> = Heap::min_heap();
    let max: Heap<u8> = Heap::max_heap();
    assert_eq!(min.len(), 0);
    assert_eq!(max.len(), 0);
}

#[test]
fn single_element() {
    let mut min = Heap::min_heap();
    min.push(42u64);
    assert_eq!(min.len(), 1);
    assert_eq!(min.pop(), Some(42));
    assert_eq!(min.len(), 0);
    assert_eq!(min.pop(), None);

    let mut max = Heap::max_heap();
    max.push(-7i64);
    assert_eq!(max.pop(), Some(-7));
    assert_eq!(max.pop(), None);
}

#[test]
fn duplicate_elements() {
    let mut min = Heap::min_heap();
    let mut max = Heap::max_heap();
    for _ in 0..3 {
        min.push(5);
        max.push(5);
    }
    for _ in 0..3 {
        assert_eq!(min.pop(), Some(5));
        assert_eq!(max.pop(), Some(5));
    }
    assert_eq!(min.pop(), None);
    assert_eq!(max.pop(), None);
}

#[test]
fn duplicates_among_others() {
    let mut heap = Heap::min_heap();
    for i in [4, 1, 4, 1, 3, 4, 1] {
        heap.push(i);
    }
    let mut out = Vec::new();
    while let Some(x) = heap.pop() {
        out.push(x);
    }
    assert_eq!(out, vec![1, 1, 1, 3, 4, 4, 4]);
}

#[test]
fn empty_pop_changes_nothing() {
    let mut heap: Heap<i32> = Heap::max_heap();
    assert_eq!(heap.pop(), None);
    assert_eq!(heap.len(), 0);
    heap.push(9);
    assert_eq!(heap.len(), 1);
    assert_eq!(heap.pop(), Some(9));
}

#[test]
fn repeated_empty_pops() {
    let mut heap: Heap<i32> = Heap::min_heap();
    for _ in 0..10 {
        assert_eq!(heap.pop(), None);
        assert_eq!(heap.len(), 0);
    }
    heap.push(1);
    assert_eq!(heap.pop(), Some(1));
    for _ in 0..10 {
        assert_eq!(heap.pop(), None);
        assert_eq!(heap.len(), 0);
    }
}

#[test]
fn len_counts_pushes_less_successful_pops() {
    let mut heap = Heap::max_heap();
    let mut expected = 0usize;
    assert_eq!(heap.len(), expected);
    for round in 0..20u32 {
        for k in 0..(round % 4) {
            heap.push(round * 7 + k);
            expected += 1;
            assert_eq!(heap.len(), expected);
        }
        for _ in 0..(round % 3) {
            if heap.pop().is_some() {
                expected -= 1;
            }
            assert_eq!(heap.len(), expected);
        }
    }
    while heap.pop().is_some() {
        expected -= 1;
        assert_eq!(heap.len(), expected);
    }
    assert_eq!(expected, 0);
    assert_eq!(heap.pop(), None);
    assert_eq!(heap.len(), 0);
}

#[test]
fn two_elements_need_one_exchange() {
    let mut min = Heap::min_heap();
    min.push(2);
    min.push(1);
    assert_eq!(min.pop(), Some(1));
    assert_eq!(min.pop(), Some(2));

    let mut max = Heap::max_heap();
    max.push(1);
    max.push(2);
    assert_eq!(max.pop(), Some(2));
    assert_eq!(max.pop(), Some(1));
}

#[test]
fn only_a_left_child_at_the_end() {
    // After the first extraction four elements remain, so the descent from the root
    // ends at a node whose left child is the last position.
    let mut heap = Heap::max_heap();
    for i in [50, 40, 30, 20, 10] {
        heap.push(i);
    }
    assert_eq!(heap.pop(), Some(50));
    assert_eq!(heap.pop(), Some(40));
    assert_eq!(heap.pop(), Some(30));
    assert_eq!(heap.pop(), Some(20));
    assert_eq!(heap.pop(), Some(10));
    assert_eq!(heap.pop(), None);
}

#[test]
fn ascending_and_descending_input() {
    let mut up = Heap::max_heap();
    let mut down = Heap::min_heap();
    for i in 0..100 {
        up.push(i);
        down.push(99 - i);
    }
    for i in 0..100 {
        assert_eq!(up.pop(), Some(99 - i));
        assert_eq!(down.pop(), Some(i));
    }
    assert_eq!(up.pop(), None);
    assert_eq!(down.pop(), None);
}

fn scrambled(n: u64) -> Vec<u64> {
    let mut state = 0x9e3779b97f4a7c15u64;
    let mut out = Vec::new();
    for _ in 0..n {
        state = state.wrapping_mul(6364136223846793005).wrapping_add(1442695040888963407);
        out.push((state >> 33) % 1000);
    }
    out
}

#[test]
fn extraction_sorts_scrambled_input() {
    let input = scrambled(2000);

    let mut ascending = input.clone();
    ascending.sort();
    let mut min = Heap::min_heap();
    for x in input.iter() {
        min.push(*x);
    }
    assert_eq!(min.len(), input.len());
    let mut out = Vec::new();
    while let Some(x) = min.pop() {
        out.push(x);
    }
    assert_eq!(out, ascending);

    let mut descending = ascending.clone();
    descending.reverse();
    let mut max = Heap::max_heap();
    for x in input.iter() {
        max.push(*x);
    }
    let mut out = Vec::new();
    while let Some(x) = max.pop() {
        out.push(x);
    }
    assert_eq!(out, descending);
}

#[test]
fn interleaved_pushes_and_pops() {
    let mut heap = Heap::min_heap();
    let mut shadow: Vec<u64> = Vec::new();
    for (step, x) in scrambled(500).into_iter().enumerate() {
        heap.push(x);
        shadow.push(x);
        if step % 3 == 2 {
            shadow.sort();
            let least = shadow.remove(0);
            assert_eq!(heap.pop(), Some(least));
        }
        assert_eq!(heap.len(), shadow.len());
    }
    shadow.sort();
    for least in shadow {
        assert_eq!(heap.pop(), Some(least));
    }
    assert_eq!(heap.pop(), None);
}

#[test]
fn returns_the_root_not_the_leaf_that_replaces_it() {
    let mut heap = Heap::max_heap();
    heap.push(1);
    heap.push(3);
    heap.push(2);
    assert_eq!(heap.pop(), Some(3));
    assert_eq!(heap.len(), 2);
    assert_eq!(heap.pop(), Some(2));
    assert_eq!(heap.pop(), Some(1));
}

#[test]
fn owned_elements() {
    let mut heap = Heap::min_heap();
    for word in ["pear", "apple", "quince", "fig", "apple"] {
        heap.push(String::from(word));
    }
    let mut out = Vec::new();
    while let Some(word) = heap.pop() {
        out.push(word);
    }
    assert_eq!(out, vec!["apple", "apple", "fig", "pear", "quince"]);
}

#[test]
fn tuples_order_by_first_then_second() {
    let mut heap = Heap::max_heap();
    for pair in [(1, 'b'), (2, 'a'), (1, 'c'), (2, 'z'), (0, 'q')] {
        heap.push(pair);
    }
    assert_eq!(heap.pop(), Some((2, 'z')));
    assert_eq!(heap.pop(), Some((2, 'a')));
    assert_eq!(heap.pop(), Some((1, 'c')));
    assert_eq!(heap.pop(), Some((1, 'b')));
    assert_eq!(heap.pop(), Some((0, 'q')));
    assert_eq!(heap.pop(), None);
}
