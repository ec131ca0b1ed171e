use kernel_core::variable_queue::{Head, Link};

fn arena(slots: usize) -> Vec<Link> {
    let mut links = Vec::new();
    for _ in 0..slots {
        links.push(Link::new());
    }
    links
}

#[test]
fn new_queue_is_empty() {
    let head = Head::new();
    let links = arena(3);
    assert_eq!(head.front_ptr(), None);
    assert_eq!(head.tail_ptr(), None);
    assert_eq!(head.iter(&links), Vec::<usize>::new());
    assert!(!links[0].in_queue());
    assert_eq!(links[0].next_ptr(), None);
    assert_eq!(links[0].prev_ptr(), None);
}

#[test]
fn insert_tail_keeps_insertion_order() {
    let mut head = Head::new();
    let mut links = arena(5);
    assert_eq!(head.insert_tail(&mut links, 3), 3);
    head.insert_tail(&mut links, 1);
    head.insert_tail(&mut links, 4);
    assert_eq!(head.iter(&links), vec![3, 1, 4]);
    assert_eq!(head.front_ptr(), Some(3));
    assert_eq!(head.tail_ptr(), Some(4));
    assert_eq!(links[3].prev_ptr(), None);
    assert_eq!(links[3].next_ptr(), Some(1));
    assert_eq!(links[1].prev_ptr(), Some(3));
    assert_eq!(links[1].next_ptr(), Some(4));
    assert_eq!(links[4].prev_ptr(), Some(1));
    assert_eq!(links[4].next_ptr(), None);
}

#[test]
fn insert_front_puts_the_element_first() {
    let mut head = Head::new();
    let mut links = arena(4);
    head.insert_front(&mut links, 2);
    head.insert_front(&mut links, 0);
    head.insert_front(&mut links, 3);
    assert_eq!(head.iter(&links), vec![3, 0, 2]);
    assert_eq!(head.front_ptr(), Some(3));
    assert_eq!(head.tail_ptr(), Some(2));
    assert_eq!(links[2].prev_ptr(), Some(0));
}

#[test]
fn insert_after_and_before_place_beside_the_pivot() {
    let mut head = Head::new();
    let mut links = arena(6);
    head.insert_tail(&mut links, 0);
    head.insert_tail(&mut links, 1);
    head.insert_after(&mut links, 0, 2);
    assert_eq!(head.iter(&links), vec![0, 2, 1]);
    head.insert_after(&mut links, 1, 3);
    assert_eq!(head.iter(&links), vec![0, 2, 1, 3]);
    assert_eq!(head.tail_ptr(), Some(3));
    head.insert_before(&mut links, 0, 4);
    assert_eq!(head.iter(&links), vec![4, 0, 2, 1, 3]);
    assert_eq!(head.front_ptr(), Some(4));
    head.insert_before(&mut links, 1, 5);
    assert_eq!(head.iter(&links), vec![4, 0, 2, 5, 1, 3]);
}

#[test]
fn insertion_is_a_no_op_for_a_queued_element() {
    let mut head = Head::new();
    let mut links = arena(3);
    head.insert_tail(&mut links, 0);
    head.insert_tail(&mut links, 1);
    head.insert_tail(&mut links, 0);
    head.insert_front(&mut links, 1);
    head.insert_after(&mut links, 0, 1);
    head.insert_before(&mut links, 0, 1);
    assert_eq!(head.iter(&links), vec![0, 1]);
}

#[test]
fn insertion_beside_an_unqueued_pivot_is_a_no_op() {
    let mut head = Head::new();
    let mut links = arena(3);
    head.insert_tail(&mut links, 0);
    head.insert_after(&mut links, 1, 2);
    head.insert_before(&mut links, 1, 2);
    assert_eq!(head.iter(&links), vec![0]);
    assert!(!links[2].in_queue());
}

#[test]
fn remove_unlinks_front_middle_and_back() {
    let mut head = Head::new();
    let mut links = arena(5);
    for elem in 0..5 {
        head.insert_tail(&mut links, elem);
    }
    head.remove(&mut links, 2);
    assert_eq!(head.iter(&links), vec![0, 1, 3, 4]);
    head.remove(&mut links, 0);
    assert_eq!(head.iter(&links), vec![1, 3, 4]);
    assert_eq!(head.front_ptr(), Some(1));
    assert_eq!(links[1].prev_ptr(), None);
    head.remove(&mut links, 4);
    assert_eq!(head.iter(&links), vec![1, 3]);
    assert_eq!(head.tail_ptr(), Some(3));
    assert_eq!(links[3].next_ptr(), None);
    head.remove(&mut links, 1);
    head.remove(&mut links, 3);
    assert_eq!(head.iter(&links), Vec::<usize>::new());
    assert_eq!(head.front_ptr(), None);
    assert_eq!(head.tail_ptr(), None);
}

#[test]
fn removal_is_a_no_op_for_an_unqueued_element() {
    let mut head = Head::new();
    let mut links = arena(3);
    head.insert_tail(&mut links, 0);
    head.insert_tail(&mut links, 1);
    head.remove(&mut links, 2);
    head.remove(&mut links, 1);
    head.remove(&mut links, 1);
    assert_eq!(head.iter(&links), vec![0]);
}

#[test]
fn removed_element_keeps_its_stale_neighbours() {
    let mut head = Head::new();
    let mut links = arena(3);
    for elem in 0..3 {
        head.insert_tail(&mut links, elem);
    }
    head.remove(&mut links, 1);
    assert!(!links[1].in_queue());
    assert_eq!(links[1].next_ptr(), Some(2));
    assert_eq!(links[1].prev_ptr(), Some(0));
}

#[test]
fn insert_tail_then_remove_restores_the_queue() {
    let mut head = Head::new();
    let mut links = arena(4);
    head.insert_tail(&mut links, 2);
    head.insert_tail(&mut links, 0);
    let before = head.iter(&links);
    head.insert_tail(&mut links, 3);
    head.remove(&mut links, 3);
    assert_eq!(head.iter(&links), before);
    assert_eq!(head.front_ptr(), Some(2));
    assert_eq!(head.tail_ptr(), Some(0));
    assert_eq!(links[0].next_ptr(), None);
}

#[test]
fn membership_matches_the_in_queue_flag() {
    let mut head = Head::new();
    let mut links = arena(6);
    head.insert_tail(&mut links, 5);
    head.insert_tail(&mut links, 1);
    head.insert_front(&mut links, 3);
    head.remove(&mut links, 1);
    let order = head.iter(&links);
    for elem in 0..6 {
        assert_eq!(order.contains(&elem), links[elem].in_queue());
    }
}

#[test]
fn iteration_visits_every_element_once() {
    let mut head = Head::new();
    let mut links = arena(8);
    for elem in [7, 2, 5, 0, 3] {
        head.insert_tail(&mut links, elem);
    }
    let order = head.iter(&links);
    assert_eq!(order, vec![7, 2, 5, 0, 3]);
    let mut seen = order.clone();
    seen.sort();
    seen.dedup();
    assert_eq!(seen.len(), order.len());
}

#[test]
fn front_and_tail_look_elements_up() {
    let mut head = Head::new();
    let mut links = arena(3);
    let names = vec!["a", "b", "c"];
    assert_eq!(head.front(&names), None);
    assert_eq!(head.tail(&names), None);
    head.insert_tail(&mut links, 1);
    head.insert_tail(&mut links, 2);
    assert_eq!(head.front(&names), Some(&"b"));
    assert_eq!(head.tail(&names), Some(&"c"));
    assert_eq!(links[1].next(&names), Some(&"c"));
    assert_eq!(links[2].prev(&names), Some(&"b"));
    assert_eq!(links[1].prev(&names), None);
}

#[test]
fn two_queues_share_an_arena() {
    let mut odd = Head::new();
    let mut even = Head::new();
    let mut links = arena(6);
    for elem in 0..6 {
        if elem % 2 == 0 {
            even.insert_tail(&mut links, elem);
        } else {
            odd.insert_tail(&mut links, elem);
        }
    }
    even.remove(&mut links, 2);
    assert_eq!(odd.iter(&links), vec![1, 3, 5]);
    assert_eq!(even.iter(&links), vec![0, 4]);
    odd.insert_tail(&mut links, 0);
    assert_eq!(odd.iter(&links), vec![1, 3, 5]);
}
