use typf::edge::{Edge, EdgeList};
use typf::fixed::F26Dot6;

fn fi(v: i32) -> F26Dot6 {
    F26Dot6::from_int(v)
}

fn vertical(x: i32, y0: i32, y1: i32) -> Edge {
    Edge::new(fi(x), fi(y0), fi(x), fi(y1)).unwrap()
}

#[test]
fn edge_test_edge_new_vertical() {
    let e = Edge::new(fi(10), fi(5), fi(10), fi(15)).unwrap();
    assert_eq!(e.x, fi(10));
    assert_eq!(e.x_increment, F26Dot6::zero());
    assert_eq!(e.direction, 1);
    assert_eq!(e.y_min, 5);
    assert_eq!(e.y_max, 14);
}

#[test]
fn edge_test_edge_new_horizontal_returns_none() {
    let e = Edge::new(fi(10), fi(5), fi(20), fi(5));
    assert!(e.is_none());
}

#[test]
fn edge_test_edge_new_diagonal() {
    let e = Edge::new(fi(0), fi(0), fi(10), fi(10)).unwrap();
    assert_eq!(e.x, fi(0));
    assert_eq!(e.direction, 1);
    assert_eq!(e.y_min, 0);
    assert_eq!(e.y_max, 9);
    assert_eq!(e.x_increment.raw(), 64);
}

#[test]
fn edge_test_edge_new_swaps_if_downward() {
    let e = Edge::new(fi(20), fi(15), fi(10), fi(5)).unwrap();
    assert_eq!(e.x, fi(10));
    assert_eq!(e.y_min, 5);
    assert_eq!(e.y_max, 14);
    assert_eq!(e.direction, -1);
}

#[test]
fn edge_test_edge_step() {
    let mut e = Edge::new(fi(0), fi(0), fi(10), fi(10)).unwrap();
    assert_eq!(e.x.to_int(), 0);
    e.step();
    assert_eq!(e.x.to_int(), 1);
    e.step();
    assert_eq!(e.x.to_int(), 2);
}

#[test]
fn edge_test_edge_is_active() {
    let e = Edge::new(fi(0), fi(5), fi(10), fi(15)).unwrap();
    assert!(e.is_active(5));
    assert!(e.is_active(10));
    assert!(e.is_active(14));
    assert!(!e.is_active(15));
}

#[test]
fn edge_test_edgelist_new() {
    let list = EdgeList::new();
    assert!(list.is_empty());
    assert_eq!(list.len(), 0);
}

#[test]
fn edge_test_edgelist_push() {
    let mut list = EdgeList::new();
    list.push(vertical(10, 0, 10));
    assert_eq!(list.len(), 1);
    assert!(!list.is_empty());
}

#[test]
fn edge_test_edgelist_insert_sorted() {
    let mut list = EdgeList::new();
    list.insert_sorted(Edge::new(fi(20), F26Dot6::zero(), fi(20), fi(10)).unwrap());
    list.insert_sorted(Edge::new(fi(10), F26Dot6::zero(), fi(10), fi(10)).unwrap());
    list.insert_sorted(Edge::new(fi(15), F26Dot6::zero(), fi(15), fi(10)).unwrap());
    assert_eq!(list.len(), 3);
    assert_eq!(list.as_slice()[0].x.to_int(), 10);
    assert_eq!(list.as_slice()[1].x.to_int(), 15);
    assert_eq!(list.as_slice()[2].x.to_int(), 20);
}

#[test]
fn edge_test_edgelist_sort_by_x() {
    let mut list = EdgeList::new();
    list.push(Edge::new(fi(20), F26Dot6::zero(), fi(20), fi(10)).unwrap());
    list.push(Edge::new(fi(10), F26Dot6::zero(), fi(10), fi(10)).unwrap());
    list.sort_by_x();
    assert_eq!(list.as_slice()[0].x.to_int(), 10);
    assert_eq!(list.as_slice()[1].x.to_int(), 20);
}

#[test]
fn edge_test_edgelist_remove_inactive() {
    let mut list = EdgeList::new();
    list.push(Edge::new(fi(10), F26Dot6::zero(), fi(10), fi(5)).unwrap());
    list.push(Edge::new(fi(20), F26Dot6::zero(), fi(20), fi(10)).unwrap());
    assert_eq!(list.len(), 2);
    list.remove_inactive(6);
    assert_eq!(list.len(), 1);
    assert_eq!(list.as_slice()[0].x.to_int(), 20);
}

#[test]
fn edge_test_edgelist_step_all() {
    let mut list = EdgeList::new();
    list.push(Edge::new(fi(0), fi(0), fi(10), fi(10)).unwrap());
    list.push(Edge::new(fi(0), fi(0), fi(20), fi(10)).unwrap());
    assert_eq!(list.as_slice()[0].x.to_int(), 0);
    assert_eq!(list.as_slice()[1].x.to_int(), 0);
    list.step_all();
    assert_eq!(list.as_slice()[0].x.to_int(), 1);
    assert_eq!(list.as_slice()[1].x.to_int(), 2);
}

#[test]
fn edge_test_edgelist_clear() {
    let mut list = EdgeList::new();
    list.push(Edge::new(fi(10), F26Dot6::zero(), fi(10), fi(10)).unwrap());
    assert!(!list.is_empty());
    list.clear();
    assert!(list.is_empty());
}

#[test]
fn edge_test_edgelist_extend() {
    let mut list1 = EdgeList::new();
    let mut list2 = EdgeList::new();
    list1.push(Edge::new(fi(10), F26Dot6::zero(), fi(10), fi(10)).unwrap());
    list2.push(Edge::new(fi(20), F26Dot6::zero(), fi(20), fi(10)).unwrap());
    list1.extend(&list2);
    assert_eq!(list1.len(), 2);
}

#[test]
fn edge_test_edge_fractional_slope() {
    let e = Edge::new(fi(0), fi(0), fi(5), fi(10)).unwrap();
    assert_eq!(e.x_increment.raw(), 32);
    let mut x = e.x;
    x = x + e.x_increment;
    x = x + e.x_increment;
    assert_eq!(x.to_int(), 1);
}

#[test]
fn edge_test_edge_negative_slope() {
    let e = Edge::new(fi(10), fi(0), fi(0), fi(10)).unwrap();
    assert_eq!(e.x_increment.raw(), -64);
    let mut test_e = e;
    assert_eq!(test_e.x.to_int(), 10);
    test_e.step();
    assert_eq!(test_e.x.to_int(), 9);
}

#[test]
fn edge_test_edgelist_with_capacity() {
    let list = EdgeList::with_capacity(100);
    assert_eq!(list.len(), 0);
    assert!(list.capacity() >= 100);
}

#[test]
fn edge_test_edge_winding_direction() {
    let e_up = Edge::new(fi(0), fi(0), fi(10), fi(10)).unwrap();
    assert_eq!(e_up.direction, 1);
    let e_down = Edge::new(fi(10), fi(10), fi(0), fi(0)).unwrap();
    assert_eq!(e_down.direction, -1);
}

#[test]
fn edge_test_edgelist_iter() {
    let mut list = EdgeList::new();
    list.push(Edge::new(fi(10), F26Dot6::zero(), fi(10), fi(10)).unwrap());
    let count = list.iter().count();
    assert_eq!(count, 1);
}

#[test]
fn edge_test_edgelist_iter_mut() {
    let mut list = EdgeList::new();
    list.push(Edge::new(fi(10), F26Dot6::zero(), fi(10), fi(10)).unwrap());
    for edge in list.iter_mut() {
        edge.step();
    }
    assert_eq!(list.as_slice()[0].x.to_int(), 10);
}

#[test]
fn edge_pixel_center_rounding() {
    // y from 0.5 to 2.5 pixels: the first row is ceil(0.5) = 1 and the last
    // is ceil(2.5) - 1 = 2.
    let e = Edge::new(fi(0), F26Dot6::from_raw(32), fi(0), F26Dot6::from_raw(160)).unwrap();
    assert_eq!(e.y_min, 1);
    assert_eq!(e.y_max, 2);
}

#[test]
fn edge_sub_row_edge_is_dropped() {
    // From 0.25 to 0.75 pixels: no row is covered.
    let e = Edge::new(fi(0), F26Dot6::from_raw(16), fi(5), F26Dot6::from_raw(48));
    assert!(e.is_none());
}

#[test]
fn edgelist_insert_sorted_keeps_order_with_equal_keys() {
    let mut list = EdgeList::new();
    list.insert_sorted(vertical(10, 0, 5));
    list.insert_sorted(vertical(10, 0, 8));
    list.insert_sorted(vertical(5, 0, 3));
    let xs: Vec<i32> = list.as_slice().iter().map(|e| e.x.to_int()).collect();
    assert_eq!(xs, vec![5, 10, 10]);
}

#[test]
fn edgelist_sort_is_stable() {
    let mut list = EdgeList::new();
    list.push(vertical(10, 0, 5));
    list.push(vertical(3, 0, 7));
    list.push(vertical(10, 0, 9));
    list.sort_by_x();
    let rows: Vec<(i32, i32)> = list.as_slice().iter().map(|e| (e.x.to_int(), e.y_max)).collect();
    assert_eq!(rows, vec![(3, 6), (10, 4), (10, 8)]);
}

#[test]
fn edgelist_remove_inactive_keeps_relative_order() {
    let mut list = EdgeList::new();
    list.push(vertical(1, 0, 10));
    list.push(vertical(2, 0, 3));
    list.push(vertical(3, 0, 10));
    list.remove_inactive(5);
    let xs: Vec<i32> = list.as_slice().iter().map(|e| e.x.to_int()).collect();
    assert_eq!(xs, vec![1, 3]);
}
