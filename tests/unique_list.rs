use obj_terminal_viewer::unique_list::{compare_bytes, search_list, SearchResult, UniqueList};
use std::cmp::Ordering;

#[derive(Debug, PartialEq, Clone)]
struct Point3 {
    x: f32,
    y: f32,
    z: f32,
}

/// The point's coordinates as little-endian bytes, x first.
fn identifying_bytes(point: &Point3) -> Vec<u8> {
    let mut bytes = Vec::new();
    bytes.extend_from_slice(&point.x.to_le_bytes());
    bytes.extend_from_slice(&point.y.to_le_bytes());
    bytes.extend_from_slice(&point.z.to_le_bytes());
    bytes
}

#[test]
fn test_unique_list() {
    let mut unique_list: UniqueList<Point3> = UniqueList::new();
    let points = vec![
        Point3 { x: 0.5, y: -0.3, z: 31.2 },
        Point3 { x: 2.5, y: 0.8, z: 1.6 },
        Point3 { x: -1.5, y: -4.3, z: 11.2 },
        Point3 { x: 3.5, y: -0.1, z: 1.9 },
        Point3 { x: -0.5, y: 4.4, z: 9.2 },
        Point3 { x: -0.5, y: 4.4, z: 9.2 },
        Point3 { x: 5.5, y: -1.7, z: -11.2 },
        Point3 { x: 5.5, y: -1.7, z: -11.2 },
    ];
    let duplicate_count = 2;
    for point in points.clone() {
        let key = identifying_bytes(&point);
        unique_list.add_if_unique(point, key);
    }
    assert_eq!(unique_list.items().len(), points.len() - duplicate_count);
    for index in 0..points.len() {
        let point_from_unique_list = unique_list.get_item(index);
        let original_point = &points[index];
        assert_eq!(point_from_unique_list, original_point);
    }
}

#[test]
fn unique_list_keeps_items_in_key_order() {
    let mut list: UniqueList<&str> = UniqueList::new();
    list.add_if_unique("c", vec![3]);
    list.add_if_unique("a", vec![1]);
    list.add_if_unique("b", vec![2]);
    list.add_if_unique("a again", vec![1]);
    assert_eq!(list.items(), &vec!["a", "b", "c"]);
    assert_eq!(list.added_count(), 4);
    assert_eq!(list.stored_index(0), 2);
    assert_eq!(list.stored_index(1), 0);
    assert_eq!(list.stored_index(2), 1);
    assert_eq!(list.stored_index(3), 0);
    assert_eq!(*list.get_item(3), "a");
}

#[test]
fn search_in_empty_list() {
    let list: Vec<Vec<u8>> = vec![];
    assert!(matches!(search_list(&list, &vec![5]), SearchResult::AddAt(0)));
}

#[test]
fn search_finds_equal_item() {
    let list: Vec<Vec<u8>> = vec![vec![1], vec![2, 0], vec![2, 1], vec![4], vec![7, 7]];
    for (i, item) in list.iter().enumerate() {
        match search_list(&list, item) {
            SearchResult::IsAt(at) => assert_eq!(at, i),
            SearchResult::AddAt(_) => panic!("item {i} not found"),
        }
    }
}

#[test]
fn search_reports_insert_position() {
    let list: Vec<Vec<u8>> = vec![vec![1], vec![2, 0], vec![2, 1], vec![4], vec![7, 7]];
    assert!(matches!(search_list(&list, &vec![0]), SearchResult::AddAt(0)));
    assert!(matches!(search_list(&list, &vec![2]), SearchResult::AddAt(1)));
    assert!(matches!(search_list(&list, &vec![2, 0, 9]), SearchResult::AddAt(2)));
    assert!(matches!(search_list(&list, &vec![3]), SearchResult::AddAt(3)));
    assert!(matches!(search_list(&list, &vec![7]), SearchResult::AddAt(4)));
    assert!(matches!(search_list(&list, &vec![9]), SearchResult::AddAt(5)));
    assert_eq!(search_list(&list, &vec![9]).index(), 5);
    assert_eq!(search_list(&list, &vec![4]).index(), 3);
}

#[test]
fn bytes_compare_lexicographically() {
    assert_eq!(compare_bytes(&vec![1, 2], &vec![1, 3]), Ordering::Less);
    assert_eq!(compare_bytes(&vec![1, 2], &vec![1, 2]), Ordering::Equal);
    assert_eq!(compare_bytes(&vec![1, 2, 0], &vec![1, 2]), Ordering::Greater);
    assert_eq!(compare_bytes(&vec![], &vec![0]), Ordering::Less);
    assert_eq!(compare_bytes(&vec![200], &vec![3, 4]), Ordering::Greater);
}
