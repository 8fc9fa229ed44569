use data_structure::slist::{SList, Slist};
use std::fmt::Display;
use std::ops::AddAssign;

#[derive(PartialEq, Debug)]
struct MyInt(i32);

impl Display for MyInt {
    fn fmt(&self, f: &mut std::fmt::Formatter<'_>) -> std::fmt::Result {
        f.write_str(&format!("MyInt({})", self.0))
    }
}

impl AddAssign for MyInt {
    fn add_assign(&mut self, rhs: Self) {
        self.0 += rhs.0;
    }
}

impl AddAssign<i32> for MyInt {
    fn add_assign(&mut self, rhs: i32) {
        self.0 += rhs;
    }
}

impl Drop for MyInt {
    fn drop(&mut self) {
        println!("Drop MyInt({})", self.0);
    }
}

fn build_slist(n: usize) -> Slist<MyInt> {
    let mut s = Slist::new();
    for i in 0..n {
        s.push_tail(MyInt(i as i32));
    }
    s
}

fn contents(list: &mut Slist<i32>) -> Vec<i32> {
    let mut out = Vec::new();
    let mut it = list.iter();
    while let Some(v) = it.next() {
        out.push(*v);
    }
    out
}

#[test]
fn test_slist() {
    let mut slist = Slist::new();
    for i in 4..7 {
        slist.push_head(i);
    }

    slist.pop_tail();
    println!("after pop tail");
    {
        let mut it = slist.iter();
        while let Some(val) = it.next() {
            println!("val = {val}");
        }
    }

    slist.reset();
    for i in 4..7 {
        slist.push_tail(i);
    }
    {
        {
            let mut it = slist.iter();
            while let Some(i) = it.next() {
                println!("iter {i}");
            }
        }
        assert_eq!(slist.pop_head(), Some(4));
        assert_eq!(slist.pop_tail(), Some(6));
        assert_eq!(slist.pop_tail(), Some(5));
        assert_eq!(slist.pop_tail(), None);
        assert_eq!(slist.pop_head(), None);
    }
}

#[test]
fn test_iter() {
    let mut slist = Slist::new();
    for i in 0..10 {
        slist.push_tail(MyInt(i));
    }
    {
        let mut it = slist.iter();
        while let Some(it) = it.next() {
            println!("iter = {}", it);
        }
    }

    {
        let mut it = slist.iter();
        for i in 0..10 {
            assert_eq!(it.next(), Some(&MyInt(i)));
        }
        assert_eq!(it.next(), None);
    }
}

#[test]
fn test_iter_mut() {
    let mut slist = Slist::new();
    for i in 0..10 {
        slist.push_tail(MyInt(i));
    }
    {
        let mut it = slist.iter();
        while let Some(it) = it.next() {
            println!("iter = {}", it);
        }
    }
    println!("+ 1");
    {
        let mut pass = slist.iter_mut();
        while let Some(it) = pass.next() {
            *it += 1;
        }
    }
    {
        let mut it = slist.iter();
        while let Some(it) = it.next() {
            println!("iter = {}", it);
        }
    }
}

#[test]
fn test_first() {
    let mut s = build_slist(3);
    assert_eq!(s.first(), Some(&mut MyInt(0)));
    assert_eq!(s.last(), Some(&mut MyInt(2)));

    *s.first().unwrap() = MyInt(11);
    *s.last().unwrap() = MyInt(17);
    assert_eq!(s.first(), Some(&mut MyInt(11)));
    assert_eq!(s.last(), Some(&mut MyInt(17)));

    {
        let mut it = s.iter();
        assert_eq!(it.next(), Some(&MyInt(11)));
        assert_eq!(it.next(), Some(&MyInt(1)));
        assert_eq!(it.next(), Some(&MyInt(17)));
        assert_eq!(it.next(), None);
    }
}

#[test]
fn new_list_is_empty() {
    let mut list: Slist<i32> = Slist::new();
    assert!(list.empty());
    assert_eq!(list.size(), 0);
    assert_eq!(list.pop_head(), None);
    assert_eq!(list.pop_tail(), None);
    assert_eq!(list.first(), None);
    assert_eq!(list.last(), None);
    assert_eq!(contents(&mut list), Vec::<i32>::new());
    assert!(list.iter_mut().next().is_none());
}

#[test]
fn push_head_visits_last_pushed_first() {
    let mut list = Slist::new();
    for x in [4, 5, 6] {
        list.push_head(x);
    }
    assert_eq!(contents(&mut list), vec![6, 5, 4]);
    assert_eq!(list.pop_tail(), Some(4));
    assert_eq!(contents(&mut list), vec![6, 5]);
    assert_eq!(list.size(), 2);
}

#[test]
fn push_tail_visits_first_pushed_first() {
    let mut list = Slist::new();
    let pushed = vec![8, -2, 8, 0, 31, 5, 5];
    for x in &pushed {
        list.push_tail(*x);
    }
    assert_eq!(contents(&mut list), pushed);
    assert_eq!(list.size(), 7);
}

#[test]
fn push_head_then_pop_head_round_trips() {
    let mut list = Slist::new();
    list.push_head(73);
    assert!(!list.empty());
    assert_eq!(list.size(), 1);
    assert_eq!(list.pop_head(), Some(73));
    assert!(list.empty());
    assert_eq!(list.size(), 0);
}

#[test]
fn push_tail_then_pop_tail_round_trips() {
    let mut list = Slist::new();
    list.push_tail(1);
    list.push_tail(2);
    list.push_tail(99);
    assert_eq!(list.pop_tail(), Some(99));
    assert_eq!(contents(&mut list), vec![1, 2]);
}

#[test]
fn pop_tail_of_one_clears_the_list() {
    let mut list = Slist::new();
    list.push_head(5);
    assert_eq!(list.pop_tail(), Some(5));
    assert!(list.empty());
    assert_eq!(list.size(), 0);
    assert_eq!(list.pop_tail(), None);
    list.push_tail(6);
    assert_eq!(contents(&mut list), vec![6]);
}

#[test]
fn size_is_pushes_less_pops() {
    let mut list = Slist::new();
    assert_eq!(list.pop_head(), None);
    assert_eq!(list.size(), 0);
    list.push_head(1);
    list.push_tail(2);
    list.push_head(3);
    assert_eq!(list.size(), 3);
    assert_eq!(list.pop_tail(), Some(2));
    assert_eq!(list.size(), 2);
    assert_eq!(list.pop_head(), Some(3));
    assert_eq!(list.pop_head(), Some(1));
    assert_eq!(list.size(), 0);
    assert_eq!(list.pop_tail(), None);
    assert_eq!(list.pop_head(), None);
    assert_eq!(list.size(), 0);
    assert!(list.empty());
    list.push_tail(4);
    assert_eq!(list.size(), 1);
    assert!(!list.empty());
}

#[test]
fn pops_at_both_ends() {
    let mut list = Slist::new();
    for x in 1..6 {
        list.push_tail(x);
    }
    assert_eq!(list.pop_head(), Some(1));
    assert_eq!(list.pop_tail(), Some(5));
    assert_eq!(contents(&mut list), vec![2, 3, 4]);
}

#[test]
fn reset_empties_the_list() {
    let mut list = Slist::new();
    for x in 0..5 {
        list.push_tail(x);
    }
    list.reset();
    assert!(list.empty());
    assert_eq!(list.size(), 0);
    assert_eq!(contents(&mut list), Vec::<i32>::new());
    assert_eq!(list.pop_head(), None);
    list.reset();
    assert!(list.empty());
    list.push_head(9);
    assert_eq!(contents(&mut list), vec![9]);
    assert_eq!(list.size(), 1);
}

#[test]
fn reset_releases_a_long_chain() {
    let mut list = Slist::new();
    for x in 0..200_000 {
        list.push_head(x);
    }
    assert_eq!(list.size(), 200_000);
    list.reset();
    assert!(list.empty());
}

#[test]
fn dropping_a_long_chain_needs_no_deep_recursion() {
    let mut list = Slist::new();
    for x in 0..1_000_000 {
        list.push_head(x);
    }
    assert_eq!(list.size(), 1_000_000);
    drop(list);
}

#[test]
fn first_and_last_of_one_are_the_same_item() {
    let mut list = Slist::new();
    list.push_tail(3);
    assert_eq!(list.first(), Some(&mut 3));
    assert_eq!(list.last(), Some(&mut 3));
    *list.last().unwrap() = 4;
    assert_eq!(list.first(), Some(&mut 4));
    assert_eq!(list.size(), 1);
}

#[test]
fn first_and_last_overwrite_in_place() {
    let mut list = Slist::new();
    for x in [1, 2, 3, 4] {
        list.push_tail(x);
    }
    *list.first().unwrap() += 10;
    *list.last().unwrap() += 20;
    assert_eq!(contents(&mut list), vec![11, 2, 3, 24]);
    assert_eq!(list.size(), 4);
}

#[test]
fn iter_mut_adds_a_constant_to_each() {
    let mut list = Slist::new();
    for x in [3, 1, 4, 1, 5] {
        list.push_tail(x);
    }
    {
        let mut pass = list.iter_mut();
        while let Some(x) = pass.next() {
            *x += 7;
        }
        assert!(pass.next().is_none());
    }
    assert_eq!(contents(&mut list), vec![10, 8, 11, 8, 12]);
    assert_eq!(list.size(), 5);
    assert_eq!(list.pop_tail(), Some(12));
    assert_eq!(list.pop_head(), Some(10));
}

#[test]
fn iter_mut_may_stop_early() {
    let mut list = Slist::new();
    for x in [1, 2, 3] {
        list.push_tail(x);
    }
    {
        let mut pass = list.iter_mut();
        *pass.next().unwrap() = 0;
    }
    assert_eq!(contents(&mut list), vec![0, 2, 3]);
}

#[test]
fn iter_ends_and_stays_ended() {
    let mut list = Slist::new();
    list.push_tail('x');
    let mut it = list.iter();
    assert_eq!(it.next(), Some(&'x'));
    assert_eq!(it.next(), None);
    assert_eq!(it.next(), None);
}

#[test]
fn a_fresh_iter_starts_at_the_head_again() {
    let mut list = Slist::new();
    for x in [1, 2] {
        list.push_tail(x);
    }
    assert_eq!(contents(&mut list), vec![1, 2]);
    assert_eq!(contents(&mut list), vec![1, 2]);
}
