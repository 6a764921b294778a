use udp_chat::render::{draw_history, draw_sized, repaint, DrawOp, RenderError};

fn history(entries: &[&str]) -> Vec<String> {
    entries.iter().map(|e| String::from(*e)).collect()
}

fn print(text: &str) -> DrawOp {
    DrawOp::Print(String::from(text))
}

fn prologue() -> Vec<DrawOp> {
    vec![
        DrawOp::HideCursor,
        DrawOp::SavePosition,
        DrawOp::MoveUp(1),
        DrawOp::ClearCurrentLine,
        DrawOp::ClearFromCursorUp,
        DrawOp::MoveTo(0, 0),
    ]
}

/// The texts printed in the transcript region: before the cursor is restored
/// for the first time.
fn printed_entries(ops: &[DrawOp]) -> Vec<String> {
    let mut texts = Vec::new();
    for op in ops {
        match op {
            DrawOp::RestorePosition => break,
            DrawOp::Print(text) => texts.push(text.clone()),
            _ => {}
        }
    }
    texts
}

#[test]
fn repaint_without_message_draws_the_history_only() {
    let ops = repaint(&history(&["one", "two"]), None, 24);
    let mut expected = prologue();
    expected.extend(vec![
        print("one"),
        DrawOp::MoveToNextLine(1),
        print("two"),
        DrawOp::MoveToNextLine(1),
        DrawOp::RestorePosition,
        DrawOp::MoveUp(1),
        DrawOp::RestorePosition,
        DrawOp::ShowCursor,
    ]);
    assert_eq!(ops, expected);
}

#[test]
fn repaint_of_an_empty_history() {
    let ops = repaint(&[], None, 24);
    let mut expected = prologue();
    expected.extend(vec![
        DrawOp::RestorePosition,
        DrawOp::MoveUp(1),
        DrawOp::RestorePosition,
        DrawOp::ShowCursor,
    ]);
    assert_eq!(ops, expected);
}

#[test]
fn status_lines_are_trimmed_and_drawn_from_the_last_up() {
    let ops = repaint(
        &history(&["one"]),
        Some(String::from("  127.0.0.1:9001\n\t127.0.0.1:9002  \n")),
        24,
    );
    let mut expected = prologue();
    expected.extend(vec![
        print("one"),
        DrawOp::MoveToNextLine(1),
        DrawOp::RestorePosition,
        DrawOp::MoveUp(1),
        print("127.0.0.1:9002"),
        DrawOp::MoveToPreviousLine(1),
        print("127.0.0.1:9001"),
        DrawOp::MoveToPreviousLine(1),
        DrawOp::RestorePosition,
        DrawOp::ShowCursor,
    ]);
    assert_eq!(ops, expected);
}

#[test]
fn empty_status_message_has_no_lines() {
    let with_empty = repaint(&history(&["one", "two", "three"]), Some(String::new()), 3);
    let without = repaint(&history(&["one", "two", "three"]), None, 3);
    assert_eq!(with_empty, without);
    assert_eq!(printed_entries(&without), vec!["two", "three"]);
}

#[test]
fn only_the_newest_entries_that_fit_are_drawn() {
    let entries = history(&["e0", "e1", "e2", "e3", "e4", "e5"]);
    assert_eq!(printed_entries(&repaint(&entries, None, 4)), vec!["e3", "e4", "e5"]);
    assert_eq!(printed_entries(&repaint(&entries, None, 7)), vec![
        "e0", "e1", "e2", "e3", "e4", "e5"
    ]);
    assert_eq!(printed_entries(&repaint(&entries, None, 100)).len(), 6);
    assert_eq!(printed_entries(&repaint(&entries, None, 2)), vec!["e5"]);
    assert!(printed_entries(&repaint(&entries, None, 1)).is_empty());
    assert!(printed_entries(&repaint(&entries, None, 0)).is_empty());
}

#[test]
fn status_lines_take_rows_from_the_history() {
    let entries = history(&["e0", "e1", "e2", "e3", "e4", "e5"]);
    let one = Some(String::from("usage"));
    let two = Some(String::from("a\nb\n"));
    assert_eq!(printed_entries(&repaint(&entries, one.clone(), 5)), vec!["e3", "e4", "e5"]);
    assert_eq!(printed_entries(&repaint(&entries, two.clone(), 5)), vec!["e4", "e5"]);
    assert!(printed_entries(&repaint(&entries, two.clone(), 3)).is_empty());
    assert!(printed_entries(&repaint(&entries, two.clone(), 2)).is_empty());
    assert!(printed_entries(&repaint(&entries, two, 0)).is_empty());
}

#[test]
fn window_holds_at_most_height_less_status_less_one_entries() {
    let entries = history(&["a", "b", "c", "d", "e", "f", "g", "h"]);
    let messages = [None, Some("s1"), Some("s1\ns2"), Some("s1\ns2\ns3")];
    for height in 0u16..12 {
        for message in messages {
            let status = message.map_or(0, |m| m.lines().count());
            let limit = (height as usize).saturating_sub(status + 1);
            let shown = printed_entries(&repaint(&entries, message.map(String::from), height));
            assert_eq!(shown.len(), limit.min(entries.len()));
            let newest: Vec<String> = entries[entries.len() - shown.len()..].to_vec();
            assert_eq!(shown, newest);
        }
    }
}

#[test]
fn entry_with_line_breaks_takes_a_row_for_each_line() {
    let entries = history(&["old", "first\nsecond\tpeer", "new"]);
    let ops = repaint(&entries, None, 4);
    let mut expected = prologue();
    expected.extend(vec![
        print("first"),
        DrawOp::MoveToNextLine(1),
        print("second\tpeer"),
        DrawOp::MoveToNextLine(1),
        print("new"),
        DrawOp::MoveToNextLine(1),
        DrawOp::RestorePosition,
        DrawOp::MoveUp(1),
        DrawOp::RestorePosition,
        DrawOp::ShowCursor,
    ]);
    assert_eq!(ops, expected);
    assert_eq!(printed_entries(&repaint(&entries, None, 3)), vec!["new"]);
    assert_eq!(printed_entries(&repaint(&entries, None, 5)), vec![
        "old",
        "first",
        "second\tpeer",
        "new"
    ]);
}

#[test]
fn entry_without_lines_takes_one_empty_row() {
    let ops = repaint(&history(&["a", "", "b"]), None, 3);
    let mut expected = prologue();
    expected.extend(vec![
        DrawOp::MoveToNextLine(1),
        print("b"),
        DrawOp::MoveToNextLine(1),
        DrawOp::RestorePosition,
        DrawOp::MoveUp(1),
        DrawOp::RestorePosition,
        DrawOp::ShowCursor,
    ]);
    assert_eq!(ops, expected);
}

#[test]
fn draw_history_asks_the_terminal() {
    let entries = history(&["one", "two"]);
    match draw_history(&entries, Some(String::from("status"))) {
        Ok(ops) => {
            let matches_some_height =
                (0..=u16::MAX).any(|h| repaint(&entries, Some(String::from("status")), h) == ops);
            assert!(matches_some_height);
        }
        Err(e) => assert_eq!(e, RenderError::SizeUnavailable),
    }
}

#[test]
fn draw_sized_repaints_for_the_rows_that_the_terminal_told() {
    let entries = history(&["e0", "e1", "e2", "e3"]);
    for rows in [0u16, 1, 2, 3, 4, 5, 24] {
        for columns in [0u16, 1, 80] {
            assert_eq!(
                draw_sized(&entries, Some(String::from("status")), Ok((columns, rows))),
                Ok(repaint(&entries, Some(String::from("status")), rows))
            );
            assert_eq!(
                draw_sized(&entries, None, Ok((columns, rows))),
                Ok(repaint(&entries, None, rows))
            );
        }
    }
    assert_eq!(
        printed_entries(&draw_sized(&entries, None, Ok((80, 3))).unwrap()),
        vec!["e2", "e3"]
    );
}

#[test]
fn draw_sized_fails_where_the_terminal_told_no_size() {
    let refused = || std::io::Error::new(std::io::ErrorKind::Other, "no terminal");
    assert_eq!(
        draw_sized(&history(&["one"]), None, Err(refused())),
        Err(RenderError::SizeUnavailable)
    );
    assert_eq!(
        draw_sized(&[], Some(String::from("status")), Err(refused())),
        Err(RenderError::SizeUnavailable)
    );
}
