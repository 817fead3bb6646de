use slate::editor::conceal::{ConcealState, LineRefresh};

fn upd(line: i32, cursor: Option<(usize, usize)>) -> LineRefresh {
    LineRefresh::Update { line, cursor }
}

#[test]
fn conceal_state_follows_cursor() {
    let mut st = ConcealState::new(0, 3);
    assert!(st.is_enabled());
    assert_eq!(st.sync_all(3, 0, 0, 0), vec![upd(0, Some((0, 0))), upd(1, None), upd(2, None)]);

    // Same line, new offset: only that line.
    assert_eq!(st.on_cursor_moved(2, 0, 2, None), vec![upd(0, Some((2, 2)))]);
    // Nothing moved: nothing to do.
    assert_eq!(st.on_cursor_moved(2, 0, 2, None), vec![]);
    // Another line: the old line loses the cursor, the new one gets it.
    assert_eq!(
        st.on_cursor_moved(10, 1, 3, Some((1, 1, 1, 4))),
        vec![upd(0, None), upd(1, Some((1, 4)))]
    );
    // A selection over several lines counts as the caret.
    assert_eq!(st.on_cursor_moved(12, 1, 5, Some((0, 2, 1, 5))), vec![upd(1, Some((5, 5)))]);
    assert_eq!(st.last_line, 1);
    assert_eq!(st.last_cursor_pos, 12);
}

#[test]
fn conceal_state_content_changes() {
    let mut st = ConcealState::new(0, 2);
    assert_eq!(st.on_content_changed(2, 1, 0, 1, None), vec![upd(0, Some((1, 1)))]);
    assert_eq!(
        st.on_content_changed(3, 5, 1, 0, None),
        vec![upd(0, None), upd(1, Some((0, 0))), upd(2, None)]
    );
    assert_eq!(st.last_line_count, 3);
}

#[test]
fn conceal_state_toggling() {
    let mut st = ConcealState::new(0, 2);
    assert_eq!(
        st.set_enabled(false, 2, 0, 0, 0),
        vec![LineRefresh::Clear { line: 0 }, LineRefresh::Clear { line: 1 }]
    );
    assert!(!st.is_enabled());
    assert_eq!(st.on_cursor_moved(5, 1, 0, None), vec![]);
    assert_eq!(st.on_content_changed(9, 5, 1, 0, None), vec![]);
    assert_eq!(st.sync_all(2, 0, 0, 0), vec![]);
    assert_eq!(st.set_enabled(true, 2, 3, 1, 3), vec![upd(0, None), upd(1, Some((3, 3)))]);
}
