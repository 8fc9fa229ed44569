use data_structure::heap::{heap_build, heap_sort, Heap};
use rand::seq::SliceRandom;
use rand::thread_rng;
use std::cmp::Ordering;

/// An item that is ordered by its key alone; the tag tells equal keys apart.
#[derive(Debug, Clone, Copy)]
struct Keyed {
    key: i32,
    tag: char,
}

impl PartialEq for Keyed {
    fn eq(&self, other: &Self) -> bool {
        self.key == other.key
    }
}

impl PartialOrd for Keyed {
    fn partial_cmp(&self, other: &Self) -> Option<Ordering> {
        self.key.partial_cmp(&other.key)
    }
}

fn keyed(key: i32, tag: char) -> Keyed {
    Keyed { key, tag }
}

fn tags(items: &[Keyed]) -> Vec<char> {
    let mut out = Vec::new();
    for item in items {
        out.push(item.tag);
    }
    out
}

fn is_min_heap(items: &[i32]) -> bool {
    let mut i = 1;
    while i < items.len() {
        if items[i] < items[(i - 1) / 2] {
            return false;
        }
        i += 1;
    }
    true
}

fn drain(heap: &mut Heap<i32>) -> Vec<i32> {
    let mut out = Vec::new();
    while let Some(v) = heap.pop() {
        out.push(v);
    }
    out
}

#[test]
fn test_heap_sort() {
    let mut vec = vec![1, 2, 3, 4, 5, 6, 7, 8, 9];
    let origin = vec.clone();

    let mut rng = thread_rng();

    vec.shuffle(&mut rng);

    println!("{:?}", vec);

    heap_sort(vec.as_mut_slice());

    println!("{:?}", vec);
    assert_eq!(vec, origin);
}

#[test]
fn test_heap() {
    let mut vec = vec![1, 2, 3, 4, 5, 6, 7, 8, 9];
    let origin = vec.clone();

    let mut rng = thread_rng();

    vec.shuffle(&mut rng);

    println!("{:?}", vec);

    let mut heap = Heap::from_vec(vec);
    for index in 0..origin.len() {
        if let Some(v) = heap.pop() {
            assert_eq!(v, origin[index]);
        } else {
            panic!("heap ");
        }
    }
    assert!(heap.pop().is_none());
}

#[test]
fn heap_sort_of_five() {
    let mut v = vec![5, 3, 1, 4, 2];
    heap_sort(v.as_mut_slice());
    assert_eq!(v, vec![1, 2, 3, 4, 5]);
}

#[test]
fn heap_sort_of_nothing_and_of_one() {
    let mut none: Vec<i32> = Vec::new();
    heap_sort(none.as_mut_slice());
    assert_eq!(none, Vec::<i32>::new());

    let mut one = vec![42];
    heap_sort(one.as_mut_slice());
    assert_eq!(one, vec![42]);
}

#[test]
fn heap_sort_of_two() {
    let mut v = vec![2, 1];
    heap_sort(v.as_mut_slice());
    assert_eq!(v, vec![1, 2]);
}

#[test]
fn heap_sort_keeps_every_item() {
    let mut v = vec![3, 1, 3, 2, 1, 3, 0, 2];
    heap_sort(v.as_mut_slice());
    assert_eq!(v, vec![0, 1, 1, 2, 2, 3, 3, 3]);
}

#[test]
fn heap_sort_of_descending_input() {
    let mut v = vec![9, 8, 7, 6, 5, 4, 3, 2, 1, 0];
    heap_sort(v.as_mut_slice());
    assert_eq!(v, vec![0, 1, 2, 3, 4, 5, 6, 7, 8, 9]);
}

#[test]
fn heap_sort_of_sorted_input_changes_nothing() {
    let mut v = vec![-4, -1, 0, 0, 3, 8, 8, 12];
    let before = v.clone();
    heap_sort(v.as_mut_slice());
    assert_eq!(v, before);
    heap_sort(v.as_mut_slice());
    assert_eq!(v, before);
}

#[test]
fn heap_sort_of_floats() {
    let mut v = vec![2.5, -1.0, 7.25, 0.0, 2.5];
    heap_sort(v.as_mut_slice());
    assert_eq!(v, vec![-1.0, 0.0, 2.5, 2.5, 7.25]);
}

#[test]
fn heap_sort_of_strings() {
    let mut v = vec!["pear", "apple", "fig", "plum"];
    heap_sort(v.as_mut_slice());
    assert_eq!(v, vec!["apple", "fig", "pear", "plum"]);
}

#[test]
fn heap_sort_may_reorder_equal_keys() {
    let mut v = vec![keyed(1, 'a'), keyed(1, 'b'), keyed(1, 'c')];
    heap_sort(v.as_mut_slice());
    assert_eq!(tags(&v), vec!['a', 'c', 'b']);
}

#[test]
fn heap_build_layout() {
    let mut v = vec![9, 1, 4, 2, 8, 3, 7, 5, 6];
    heap_build(v.as_mut_slice());
    assert_eq!(v, vec![1, 2, 3, 5, 8, 4, 7, 9, 6]);
    assert!(is_min_heap(&v));
}

#[test]
fn heap_build_of_nothing_and_of_one() {
    let mut none: Vec<i32> = Vec::new();
    heap_build(none.as_mut_slice());
    assert!(none.is_empty());

    let mut one = vec![7];
    heap_build(one.as_mut_slice());
    assert_eq!(one, vec![7]);
}

#[test]
fn sift_down_keeps_left_child_on_a_tie() {
    let mut v = vec![keyed(2, 'a'), keyed(1, 'b'), keyed(1, 'c')];
    heap_build(v.as_mut_slice());
    assert_eq!(tags(&v), vec!['b', 'a', 'c']);
}

#[test]
fn sift_down_takes_right_child_when_strictly_less() {
    let mut v = vec![keyed(3, 'a'), keyed(2, 'b'), keyed(1, 'c')];
    heap_build(v.as_mut_slice());
    assert_eq!(tags(&v), vec!['c', 'b', 'a']);
}

#[test]
fn new_heap_is_empty() {
    let mut heap: Heap<i32> = Heap::new();
    assert!(heap.peek().is_none());
    assert!(heap.pop().is_none());
    assert_eq!(heap.to_vec(), Vec::<i32>::new());
}

#[test]
fn push_then_pop_on_empty_heap() {
    let mut heap = Heap::new();
    heap.push(37);
    assert_eq!(heap.peek(), Some(&37));
    assert_eq!(heap.pop(), Some(37));
    assert_eq!(heap.pop(), None);
    assert_eq!(heap.peek(), None);
}

#[test]
fn from_vec_then_pop_nine_times() {
    let mut heap = Heap::from_vec(vec![9, 1, 4, 2, 8, 3, 7, 5, 6]);
    assert_eq!(drain(&mut heap), vec![1, 2, 3, 4, 5, 6, 7, 8, 9]);
    assert_eq!(heap.pop(), None);
}

#[test]
fn from_vec_and_to_vec_keep_heap_order() {
    let heap = Heap::from_vec(vec![9, 1, 4, 2, 8, 3, 7, 5, 6]);
    assert_eq!(heap.to_vec(), vec![1, 2, 3, 5, 8, 4, 7, 9, 6]);
}

#[test]
fn push_sifts_up() {
    let mut heap = Heap::from_vec(vec![1, 3, 2]);
    heap.push(0);
    assert_eq!(heap.peek(), Some(&0));
    assert_eq!(heap.to_vec(), vec![0, 1, 2, 3]);
}

#[test]
fn push_stops_at_a_parent_that_is_not_greater() {
    let mut heap = Heap::from_vec(vec![keyed(1, 'a'), keyed(2, 'b')]);
    heap.push(keyed(1, 'c'));
    heap.push(keyed(2, 'd'));
    assert_eq!(tags(&heap.to_vec()), vec!['a', 'b', 'c', 'd']);
}

#[test]
fn pop_sifts_down() {
    let mut heap = Heap::from_vec(vec![9, 1, 4, 2, 8, 3, 7, 5, 6]);
    assert_eq!(heap.pop(), Some(1));
    assert_eq!(heap.peek(), Some(&2));
    assert_eq!(heap.to_vec(), vec![2, 5, 3, 6, 8, 4, 7, 9]);
}

#[test]
fn pop_of_two_leaves_one() {
    let mut heap = Heap::from_vec(vec![2, 1]);
    assert_eq!(heap.pop(), Some(1));
    assert_eq!(heap.to_vec(), vec![2]);
}

#[test]
fn heap_property_holds_between_operations() {
    let mut heap = Heap::new();
    let input = [13, 4, 8, 4, 21, 0, 7, 7, 15, 2, 9];
    let mut held = 0;
    for x in input {
        heap.push(x);
        held += 1;
        let layout = heap.to_vec();
        assert_eq!(layout.len(), held);
        assert!(is_min_heap(&layout));
        heap = Heap::from_vec(layout);
    }
    while held > 0 {
        assert!(heap.pop().is_some());
        held -= 1;
        let layout = heap.to_vec();
        assert_eq!(layout.len(), held);
        assert!(is_min_heap(&layout));
        heap = Heap::from_vec(layout);
    }
}

#[test]
fn pops_come_in_ascending_order_with_duplicates() {
    let mut heap = Heap::new();
    for x in [5, 1, 5, 3, 1, 4, 3, 5] {
        heap.push(x);
    }
    assert_eq!(drain(&mut heap), vec![1, 1, 3, 3, 4, 5, 5, 5]);
}

#[test]
fn peek_leaves_the_heap_as_it_is() {
    let heap = Heap::from_vec(vec![4, 2, 6]);
    assert_eq!(heap.peek(), Some(&2));
    assert_eq!(heap.peek(), Some(&2));
    assert_eq!(heap.to_vec(), vec![2, 4, 6]);
}
