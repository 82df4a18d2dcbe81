use zedit::buffer::Buffer;
use zedit::undo::{CursorState, GroupContext, Operation, UndoStack};

fn cursor(line: usize, col: usize) -> CursorState {
    CursorState {
        line,
        col,
        desired_col: col,
    }
}

#[test]
fn test_undo_single_insert() {
    let mut buf = Buffer::new();
    let mut stack = UndoStack::new();

    let before = cursor(0, 0);
    buf.insert(0, "hello");
    stack.record(
        Operation::Insert {
            pos: 0,
            text: "hello".to_string(),
        },
        before,
        GroupContext::Paste,
    );

    let after = cursor(0, 5);
    let restored = stack.undo(&mut buf, after);
    assert!(restored.is_some());
    assert_eq!(buf.text(), "");
}

#[test]
fn test_undo_single_delete() {
    let mut buf = Buffer::new();
    buf.insert(0, "hello");
    let mut stack = UndoStack::new();

    let before = cursor(0, 5);
    buf.delete(0, 5);
    stack.record(
        Operation::Delete {
            pos: 0,
            text: "hello".to_string(),
        },
        before,
        GroupContext::Other,
    );

    let after = cursor(0, 0);
    let restored = stack.undo(&mut buf, after);
    assert!(restored.is_some());
    assert_eq!(buf.text(), "hello");
}

#[test]
fn test_redo() {
    let mut buf = Buffer::new();
    let mut stack = UndoStack::new();

    let before = cursor(0, 0);
    buf.insert(0, "hello");
    stack.record(
        Operation::Insert {
            pos: 0,
            text: "hello".to_string(),
        },
        before,
        GroupContext::Paste,
    );

    let after = cursor(0, 5);
    stack.undo(&mut buf, after);
    assert_eq!(buf.text(), "");

    let restored = stack.redo(&mut buf);
    assert!(restored.is_some());
    assert_eq!(buf.text(), "hello");
    assert_eq!(restored.unwrap().col, 5);
}

#[test]
fn test_redo_cleared_on_edit() {
    let mut buf = Buffer::new();
    let mut stack = UndoStack::new();

    let before = cursor(0, 0);
    buf.insert(0, "hello");
    stack.record(
        Operation::Insert {
            pos: 0,
            text: "hello".to_string(),
        },
        before,
        GroupContext::Paste,
    );

    let after = cursor(0, 5);
    stack.undo(&mut buf, after);
    assert_eq!(buf.text(), "");

    // New edit should clear redo
    buf.insert(0, "world");
    stack.record(
        Operation::Insert {
            pos: 0,
            text: "world".to_string(),
        },
        cursor(0, 0),
        GroupContext::Paste,
    );

    let result = stack.redo(&mut buf);
    assert!(result.is_none());
}

#[test]
fn test_grouping_same_context() {
    let mut buf = Buffer::new();
    let mut stack = UndoStack::new();

    // Type 'h', 'e', 'l', 'l', 'o' rapidly (same context, no timeout)
    for (i, ch) in "hello".chars().enumerate() {
        let before = cursor(0, i);
        buf.insert(i, &ch.to_string());
        stack.record(
            Operation::Insert {
                pos: i,
                text: ch.to_string(),
            },
            before,
            GroupContext::Typing,
        );
    }

    // All should be one group — single undo removes all
    let after = cursor(0, 5);
    let restored = stack.undo(&mut buf, after);
    assert!(restored.is_some());
    assert_eq!(buf.text(), "");
}

#[test]
fn test_grouping_different_context() {
    let mut buf = Buffer::new();
    let mut stack = UndoStack::new();

    let before = cursor(0, 0);
    buf.insert(0, "h");
    stack.record(
        Operation::Insert {
            pos: 0,
            text: "h".to_string(),
        },
        before,
        GroupContext::Typing,
    );
    buf.insert(1, "i");
    stack.record(
        Operation::Insert {
            pos: 1,
            text: "i".to_string(),
        },
        cursor(0, 1),
        GroupContext::Typing,
    );

    buf.insert(2, "world");
    stack.record(
        Operation::Insert {
            pos: 2,
            text: "world".to_string(),
        },
        cursor(0, 2),
        GroupContext::Paste,
    );

    let after = cursor(0, 7);
    let restored = stack.undo(&mut buf, after);
    assert!(restored.is_some());
    assert_eq!(buf.text(), "hi");

    let restored2 = stack.undo(&mut buf, cursor(0, 2));
    assert!(restored2.is_some());
    assert_eq!(buf.text(), "");
}

#[test]
fn test_cursor_restoration() {
    let mut buf = Buffer::new();
    let mut stack = UndoStack::new();

    let before = cursor(0, 0);
    buf.insert(0, "hello");
    stack.record(
        Operation::Insert {
            pos: 0,
            text: "hello".to_string(),
        },
        before,
        GroupContext::Paste,
    );

    let after = cursor(0, 5);
    let restored = stack.undo(&mut buf, after).unwrap();
    assert_eq!(restored.line, 0);
    assert_eq!(restored.col, 0);
}

#[test]
fn test_saved_position() {
    let mut buf = Buffer::new();
    let mut stack = UndoStack::new();

    assert!(stack.is_at_saved());

    buf.insert(0, "hello");
    stack.record(
        Operation::Insert {
            pos: 0,
            text: "hello".to_string(),
        },
        cursor(0, 0),
        GroupContext::Paste,
    );
    stack.mark_saved(cursor(0, 5));
    assert!(stack.is_at_saved());

    buf.insert(5, " world");
    stack.record(
        Operation::Insert {
            pos: 5,
            text: " world".to_string(),
        },
        cursor(0, 5),
        GroupContext::Paste,
    );
    assert!(!stack.is_at_saved());

    stack.undo(&mut buf, cursor(0, 11));
    assert!(stack.is_at_saved());
}

// ---------------------------------------------------------------------------

#[test]
fn undo_then_redo_restores_mixed_group() {
    let mut buf = Buffer::new();
    buf.insert(0, "abcdef");
    let mut stack = UndoStack::new();
    let now = std::time::Instant::now();
    // A deletion and an insertion typed within one group.
    buf.delete(1, 2);
    stack.record_at(
        Operation::Delete {
            pos: 1,
            text: "bc".to_string(),
        },
        cursor(0, 3),
        GroupContext::Deleting,
        true,
        now,
    );
    buf.insert(1, "XYZ");
    stack.record_at(
        Operation::Insert {
            pos: 1,
            text: "XYZ".to_string(),
        },
        cursor(0, 1),
        GroupContext::Deleting,
        false,
        now,
    );
    assert_eq!(buf.text(), "aXYZdef");
    let c = stack.undo(&mut buf, cursor(0, 4));
    assert_eq!(c, Some(cursor(0, 3)));
    assert_eq!(buf.text(), "abcdef");
    let c = stack.redo(&mut buf);
    assert_eq!(c, Some(cursor(0, 4)));
    assert_eq!(buf.text(), "aXYZdef");
}

#[test]
fn timeout_splits_typing_group() {
    let mut buf = Buffer::new();
    let mut stack = UndoStack::new();
    let now = std::time::Instant::now();
    buf.insert(0, "a");
    stack.record_at(Operation::Insert { pos: 0, text: "a".to_string() }, cursor(0, 0), GroupContext::Typing, true, now);
    buf.insert(1, "b");
    // The pause reached the timeout: "b" starts a group of its own.
    stack.record_at(Operation::Insert { pos: 1, text: "b".to_string() }, cursor(0, 1), GroupContext::Typing, true, now);
    stack.undo(&mut buf, cursor(0, 2));
    assert_eq!(buf.text(), "a");
    stack.undo(&mut buf, cursor(0, 1));
    assert_eq!(buf.text(), "");
}

#[test]
fn undo_on_empty_history_is_none() {
    let mut buf = Buffer::new();
    buf.insert(0, "x");
    let mut stack = UndoStack::new();
    assert_eq!(stack.undo(&mut buf, cursor(0, 0)), None);
    assert_eq!(stack.redo(&mut buf), None);
    assert_eq!(buf.text(), "x");
}

#[test]
fn history_keeps_at_most_max_groups() {
    let mut buf = Buffer::new();
    let mut stack = UndoStack::new();
    let now = std::time::Instant::now();
    for i in 0..105usize {
        buf.insert(i, "x");
        stack.record_at(Operation::Insert { pos: i, text: "x".to_string() }, cursor(0, i), GroupContext::Other, true, now);
    }
    let mut undone = 0;
    while stack.undo(&mut buf, cursor(0, 0)).is_some() {
        undone += 1;
    }
    assert_eq!(undone, 100);
    assert_eq!(buf.text(), "xxxxx");
}

#[test]
fn utf8_insert_delete_round_trip() {
    let mut buf = Buffer::new();
    let mut stack = UndoStack::new();
    buf.insert(0, "héllo");
    stack.record(Operation::Insert { pos: 0, text: "héllo".to_string() }, cursor(0, 0), GroupContext::Paste);
    buf.delete(1, 2);
    stack.record(Operation::Delete { pos: 1, text: "é".to_string() }, cursor(0, 2), GroupContext::Other);
    assert_eq!(buf.text(), "hllo");
    stack.undo(&mut buf, cursor(0, 1));
    assert_eq!(buf.text(), "héllo");
    stack.undo(&mut buf, cursor(0, 1));
    assert_eq!(buf.text(), "");
}
