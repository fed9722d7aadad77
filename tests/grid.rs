use obj_terminal_viewer::buffer::Buffer;
use obj_terminal_viewer::terminal_output::{add_info_line_to_char_buffer, changed_cells, CellChange};

#[test]
fn buffer_get_and_set_in_range() {
    let mut buffer = Buffer::new(3, 2, 0u32);
    assert_eq!(buffer.values, vec![0; 6]);
    assert_eq!(buffer.set(2, 1, 7), Ok(()));
    assert_eq!(buffer.get(2, 1), Some(7));
    assert_eq!(buffer.values[5], 7);
    assert_eq!(buffer.set(0, 1, 4), Ok(()));
    assert_eq!(buffer.values[3], 4);
    assert_eq!(buffer.get(0, 0), Some(0));
}

#[test]
fn buffer_out_of_range_is_reported() {
    let mut buffer = Buffer::new(3, 2, 1u8);
    assert_eq!(buffer.get(3, 0), None);
    assert_eq!(buffer.get(0, 2), None);
    assert!(buffer.set(3, 0, 9).is_err());
    assert!(buffer.set(1, 5, 9).is_err());
    assert_eq!(buffer.values, vec![1; 6]);
    let empty = Buffer::new(0, 4, 1u8);
    assert_eq!(empty.get(0, 0), None);
}

#[test]
fn info_line_fills_the_bottom_row() {
    let mut buffer = Buffer::new(4, 2, b'x');
    add_info_line_to_char_buffer(&mut buffer, "ab");
    assert_eq!(buffer.values, b"xxxxab  ".to_vec());
    add_info_line_to_char_buffer(&mut buffer, "abcdef");
    assert_eq!(buffer.values, b"xxxxabcd".to_vec());
}

#[test]
fn changed_cells_lists_differences_in_order() {
    let prev = Buffer::new(3, 2, b' ');
    let mut cur = Buffer::new(3, 2, b' ');
    cur.set(1, 0, b'#').unwrap();
    cur.set(2, 1, b'@').unwrap();
    let changes = changed_cells(&cur, &prev);
    assert_eq!(
        changes,
        vec![
            CellChange { character: b'#', row: 0, column: 1 },
            CellChange { character: b'@', row: 1, column: 2 },
        ]
    );
    assert!(changed_cells(&cur, &cur.clone()).is_empty());
}
