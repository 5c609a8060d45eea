use htop_win::cursor::ListCursor;

fn zero_height_cursor() -> ListCursor {
    ListCursor { selected_index: 0, scroll_offset: 0, visible_height: 0, len: 10 }
}

#[test]
fn zero_visible_height_select_down_keeps_scroll_offset_in_bounds() {
    let mut cursor = zero_height_cursor();
    for step in 1..=12 {
        cursor.select_down();
        assert_eq!(cursor.selected_index, step.min(9), "selection should stop at the last row");
        assert!(cursor.scroll_offset < cursor.len);
    }
    cursor.page_down();
    assert!(cursor.scroll_offset < cursor.len);
    cursor.select_last();
    assert!(cursor.scroll_offset < cursor.len);
}

#[test]
fn non_zero_viewport_scrolling_is_unchanged() {
    let mut cursor = zero_height_cursor();
    cursor.visible_height = 3;
    for _ in 0..9 {
        cursor.select_down();
    }
    assert_eq!(cursor.selected_index, 9);
    assert_eq!(cursor.scroll_offset, 7);
    for _ in 0..9 {
        cursor.select_up();
    }
    assert_eq!(cursor.scroll_offset, 0);
}

#[test]
fn shrinking_list_clamps_selection_and_stale_offsets() {
    let mut cursor = ListCursor { selected_index: 40, scroll_offset: 50, visible_height: 0, len: 100 };
    cursor.set_len(10);
    assert_eq!(cursor.selected_index, 9);
    assert!(cursor.scroll_offset < 10);
    cursor.set_visible_height(4);
    assert!(cursor.scroll_offset <= 9 && 9 < cursor.scroll_offset + 4);
    cursor.page_up();
    assert_eq!(cursor.selected_index, 6);
    cursor.select_first();
    assert_eq!((cursor.selected_index, cursor.scroll_offset), (0, 0));
    cursor.set_len(0);
    assert_eq!((cursor.selected_index, cursor.scroll_offset), (0, 0));
}

#[test]
fn list_update_with_same_length_keeps_a_placed_cursor() {
    let mut cursor = ListCursor { selected_index: 7, scroll_offset: 5, visible_height: 4, len: 20 };
    cursor.set_len(20);
    assert_eq!(cursor, ListCursor { selected_index: 7, scroll_offset: 5, visible_height: 4, len: 20 });
    cursor.set_len(8);
    assert_eq!(cursor, ListCursor { selected_index: 7, scroll_offset: 4, visible_height: 4, len: 8 });
    cursor.set_len(0);
    assert_eq!((cursor.selected_index, cursor.scroll_offset), (0, 0));
}
