//! The repaint of the transcript: which entries fit above the input line, and
//! the terminal instructions that draw them and the status message.

use crate::text::{
    from_chars, lines_chars, lines_of, rows_view, texts_view, to_chars, trim_chars, trimmed,
};
use vstd::prelude::*;

verus! {

/// One instruction to the terminal.
#[derive(Debug, PartialEq, Eq)]
pub enum DrawOp {
    /// Hide the cursor.
    HideCursor,
    /// Remember where the cursor is.
    SavePosition,
    /// Move the cursor up by so many rows.
    MoveUp(u16),
    /// Clear the row of the cursor.
    ClearCurrentLine,
    /// Clear from the cursor up to the top of the screen.
    ClearFromCursorUp,
    /// Move the cursor to a column and a row, counted from zero.
    MoveTo(u16, u16),
    /// Write a text at the cursor.
    Print(String),
    /// Move the cursor to the start of the row so many rows below.
    MoveToNextLine(u16),
    /// Move the cursor back to where it was remembered.
    RestorePosition,
    /// Move the cursor to the start of the row so many rows above.
    MoveToPreviousLine(u16),
    /// Show the cursor again.
    ShowCursor,
}

/// What a `DrawOp` says, with its text as a sequence of characters.
pub enum Draw {
    HideCursor,
    SavePosition,
    MoveUp(u16),
    ClearCurrentLine,
    ClearFromCursorUp,
    MoveTo(u16, u16),
    Print(Seq<char>),
    MoveToNextLine(u16),
    RestorePosition,
    MoveToPreviousLine(u16),
    ShowCursor,
}

impl View for DrawOp {
    type V = Draw;

    open spec fn view(&self) -> Draw {
        match self {
            DrawOp::HideCursor => Draw::HideCursor,
            DrawOp::SavePosition => Draw::SavePosition,
            DrawOp::MoveUp(n) => Draw::MoveUp(*n),
            DrawOp::ClearCurrentLine => Draw::ClearCurrentLine,
            DrawOp::ClearFromCursorUp => Draw::ClearFromCursorUp,
            DrawOp::MoveTo(column, row) => Draw::MoveTo(*column, *row),
            DrawOp::Print(text) => Draw::Print(text@),
            DrawOp::MoveToNextLine(n) => Draw::MoveToNextLine(*n),
            DrawOp::RestorePosition => Draw::RestorePosition,
            DrawOp::MoveToPreviousLine(n) => Draw::MoveToPreviousLine(*n),
            DrawOp::ShowCursor => Draw::ShowCursor,
        }
    }
}

/// The views of the instructions in `ops`, in order.
pub open spec fn ops_view(ops: Seq<DrawOp>) -> Seq<Draw> {
    ops.map_values(|op: DrawOp| op@)
}

/// The rows that an entry takes on the screen: one for each of its lines, and
/// one where it has no line.
pub open spec fn entry_rows(entry: Seq<char>) -> nat {
    if lines_of(entry).len() == 0 {
        1
    } else {
        lines_of(entry).len()
    }
}

/// How many of the last entries of `history` are shown in `budget` rows: as
/// many as fit, counted from the newest back.
pub open spec fn shown(history: Seq<Seq<char>>, budget: nat) -> nat
    decreases history.len(),
{
    if history.len() == 0 {
        0
    } else {
        let rows = entry_rows(history.last());
        if rows <= budget {
            1 + shown(history.drop_last(), (budget - rows) as nat)
        } else {
            0
        }
    }
}

/// The rows that the entries of `history` take together.
pub open spec fn total_rows(history: Seq<Seq<char>>) -> nat
    decreases history.len(),
{
    if history.len() == 0 {
        0
    } else {
        total_rows(history.drop_last()) + entry_rows(history.last())
    }
}

/// The lines of the status message, none where there is no message.
pub open spec fn status_lines(message: Option<Seq<char>>) -> Seq<Seq<char>> {
    match message {
        Some(m) => lines_of(m),
        None => Seq::empty(),
    }
}

/// The text of a message that may be missing.
pub open spec fn option_text(message: Option<String>) -> Option<Seq<char>> {
    match message {
        Some(m) => Some(m@),
        None => None,
    }
}

/// The rows left for the transcript on a terminal `height` rows high, above
/// `status` rows of status message and the input line.
pub open spec fn budget(height: u16, status: nat) -> nat {
    if height > status {
        (height - status - 1) as nat
    } else {
        0
    }
}

/// The entries that a repaint shows: the newest of `history` that fit, oldest
/// first.
pub open spec fn visible(history: Seq<Seq<char>>, message: Option<Seq<char>>, height: u16) -> Seq<
    Seq<char>,
> {
    let n = shown(history, budget(height, status_lines(message).len()));
    history.skip(history.len() - n)
}

/// Each line written on a row of its own.
pub open spec fn draw_lines(lines: Seq<Seq<char>>) -> Seq<Draw>
    decreases lines.len(),
{
    if lines.len() == 0 {
        Seq::empty()
    } else {
        draw_lines(lines.drop_last()) + seq![Draw::Print(lines.last()), Draw::MoveToNextLine(1)]
    }
}

/// One entry: its lines on a row each, or an empty row where it has no line.
pub open spec fn draw_entry(entry: Seq<char>) -> Seq<Draw> {
    if lines_of(entry).len() == 0 {
        seq![Draw::MoveToNextLine(1)]
    } else {
        draw_lines(lines_of(entry))
    }
}

/// The entries one below the other, the first one first.
pub open spec fn draw_entries(entries: Seq<Seq<char>>) -> Seq<Draw>
    decreases entries.len(),
{
    if entries.len() == 0 {
        Seq::empty()
    } else {
        draw_entries(entries.drop_last()) + draw_entry(entries.last())
    }
}

/// The lines of the status message from the last one up, each without the
/// whitespace around it, the cursor going up a row after each.
pub open spec fn draw_status(lines: Seq<Seq<char>>) -> Seq<Draw>
    decreases lines.len(),
{
    if lines.len() == 0 {
        Seq::empty()
    } else {
        seq![Draw::Print(trimmed(lines.last())), Draw::MoveToPreviousLine(1)] + draw_status(
            lines.drop_last(),
        )
    }
}

/// The instructions that open a repaint: the cursor is hidden and remembered,
/// the screen above the input line is cleared, and the cursor goes to the top.
pub open spec fn prologue() -> Seq<Draw> {
    seq![
        Draw::HideCursor,
        Draw::SavePosition,
        Draw::MoveUp(1),
        Draw::ClearCurrentLine,
        Draw::ClearFromCursorUp,
        Draw::MoveTo(0, 0),
    ]
}

/// The whole repaint on a terminal `height` rows high: the visible entries from
/// the top, then the status message above the input line, and the cursor back
/// on the input line and shown.
pub open spec fn repaint_ops(
    history: Seq<Seq<char>>,
    message: Option<Seq<char>>,
    height: u16,
) -> Seq<Draw> {
    prologue() + draw_entries(visible(history, message, height)) + seq![
        Draw::RestorePosition,
        Draw::MoveUp(1),
    ] + draw_status(status_lines(message)) + seq![Draw::RestorePosition, Draw::ShowCursor]
}

/// The entries counted by `shown` are no more than there are entries and rows,
/// they fit into the rows, and one entry more would not fit.
pub proof fn lemma_shown(history: Seq<Seq<char>>, rows: nat)
    ensures
        shown(history, rows) <= history.len(),
        shown(history, rows) <= rows,
        total_rows(history.skip(history.len() - shown(history, rows))) <= rows,
        shown(history, rows) < history.len() ==> total_rows(
            history.skip(history.len() - shown(history, rows) - 1),
        ) > rows,
    decreases history.len(),
{
    let len = history.len() as int;
    if len == 0 {
        assert(history.skip(0) =~= history);
    } else {
        let needed = entry_rows(history.last());
        let older = history.drop_last();
        if needed <= rows {
            let left = (rows - needed) as nat;
            lemma_shown(older, left);
            let n = shown(older, left) as int;
            let tail = history.skip(len - n - 1);
            assert(tail.drop_last() =~= older.skip(len - 1 - n));
            assert(tail.last() == history.last());
            if n + 1 < len {
                let longer = history.skip(len - n - 2);
                assert(longer.drop_last() =~= older.skip(len - 1 - n - 1));
                assert(longer.last() == history.last());
            }
        } else {
            assert(history.skip(len).len() == 0);
            let one = history.skip(len - 1);
            assert(one.drop_last().len() == 0);
            assert(one.last() == history.last());
            assert(total_rows(one) == total_rows(one.drop_last()) + needed);
        }
    }
}

/// A repaint on a terminal `height` rows high, with a status message of so many
/// lines, shows at most `height` less those lines less one entries. They are the
/// newest entries of the history, in its order; they fit into those rows, and
/// the next older entry would not fit with them.
pub proof fn law_visible_window(history: Seq<Seq<char>>, message: Option<Seq<char>>, height: u16)
    ensures
        visible(history, message, height).len() <= history.len(),
        visible(history, message, height).len() <= budget(height, status_lines(message).len()),
        budget(height, status_lines(message).len()) == if height >= status_lines(message).len()
            + 1 {
            height - status_lines(message).len() - 1
        } else {
            0
        },
        forall|i: int|
            0 <= i < visible(history, message, height).len() ==> visible(
                history,
                message,
                height,
            )[i] == history[history.len() - visible(history, message, height).len() + i],
        total_rows(visible(history, message, height)) <= budget(
            height,
            status_lines(message).len(),
        ),
        visible(history, message, height).len() < history.len() ==> total_rows(
            history.skip(history.len() - visible(history, message, height).len() - 1),
        ) > budget(height, status_lines(message).len()),
{
    lemma_shown(history, budget(height, status_lines(message).len()));
}

/// Why a repaint could not be computed.
#[derive(Clone, Copy, Debug, PartialEq, Eq, Structural)]
pub enum RenderError {
    /// The terminal did not tell its size.
    SizeUnavailable,
}

/// Declares `std::io::Error`, the error with which the terminal refuses to
/// tell its size, as a type of which nothing is known.
#[verifier::external_type_specification]
#[verifier::external_body]
pub struct ExIoError(std::io::Error);

/// Calls `crossterm::terminal::size`, which asks the terminal for its columns
/// and rows. The answer depends on the terminal, so nothing is claimed of it.
#[verifier::external_body]
pub(crate) fn terminal_size() -> (size: Result<(u16, u16), std::io::Error>) {
    crossterm::terminal::size()
}

/// Appends `op` to `out`.
fn emit(out: &mut Vec<DrawOp>, op: DrawOp)
    ensures
        ops_view(final(out)@) == ops_view(old(out)@).push(op@),
{
    out.push(op);
    assert(ops_view(out@) =~= ops_view(old(out)@).push(op@));
}

/// Appends the instructions that write `lines` on a row each.
fn emit_lines(out: &mut Vec<DrawOp>, lines: &Vec<Vec<char>>)
    ensures
        ops_view(final(out)@) == ops_view(old(out)@) + draw_lines(rows_view(lines@)),
{
    let ghost all = rows_view(lines@);
    let mut i: usize = 0;
    proof {
        assert(all.take(0) =~= Seq::<Seq<char>>::empty());
        assert(ops_view(out@) =~= ops_view(old(out)@) + draw_lines(all.take(0)));
    }
    while i < lines.len()
        invariant
            i <= lines@.len(),
            all == rows_view(lines@),
            ops_view(out@) == ops_view(old(out)@) + draw_lines(all.take(i as int)),
        decreases lines@.len() - i,
    {
        let ghost before = ops_view(out@);
        emit(out, DrawOp::Print(from_chars(lines[i].as_slice())));
        emit(out, DrawOp::MoveToNextLine(1));
        proof {
            assert(all.take(i + 1).drop_last() =~= all.take(i as int));
            assert(all.take(i + 1).last() == lines@[i as int]@);
            assert(ops_view(out@) =~= before + seq![
                Draw::Print(lines@[i as int]@),
                Draw::MoveToNextLine(1),
            ]);
            assert(ops_view(out@) =~= ops_view(old(out)@) + draw_lines(all.take(i + 1)));
        }
        i += 1;
    }
    proof {
        assert(all.take(lines@.len() as int) =~= all);
    }
}

/// Appends the instructions that write one entry.
fn emit_entry(out: &mut Vec<DrawOp>, entry: &str)
    ensures
        ops_view(final(out)@) == ops_view(old(out)@) + draw_entry(entry@),
{
    let lines = lines_chars(to_chars(entry).as_slice());
    if lines.len() == 0 {
        emit(out, DrawOp::MoveToNextLine(1));
        assert(ops_view(out@) =~= ops_view(old(out)@) + draw_entry(entry@));
    } else {
        emit_lines(out, &lines);
    }
}

/// Appends the instructions that write the status lines, the last one first.
fn emit_status(out: &mut Vec<DrawOp>, lines: &Vec<Vec<char>>)
    ensures
        ops_view(final(out)@) == ops_view(old(out)@) + draw_status(rows_view(lines@)),
{
    let ghost all = rows_view(lines@);
    let mut i: usize = lines.len();
    proof {
        assert(all.take(i as int) =~= all);
        assert(ops_view(out@) + draw_status(all) =~= ops_view(old(out)@) + draw_status(all));
    }
    while i > 0
        invariant
            i <= lines@.len(),
            all == rows_view(lines@),
            ops_view(out@) + draw_status(all.take(i as int)) == ops_view(old(out)@) + draw_status(
                all,
            ),
        decreases i,
    {
        let ghost before = ops_view(out@);
        let inner = trim_chars(lines[i - 1].as_slice());
        emit(out, DrawOp::Print(from_chars(inner.as_slice())));
        emit(out, DrawOp::MoveToPreviousLine(1));
        proof {
            let step = seq![Draw::Print(trimmed(lines@[i - 1]@)), Draw::MoveToPreviousLine(1)];
            assert(all.take(i as int).drop_last() =~= all.take(i - 1));
            assert(all.take(i as int).last() == lines@[i - 1]@);
            assert(draw_status(all.take(i as int)) == step + draw_status(all.take(i - 1)));
            assert(ops_view(out@) =~= before + step);
            assert(ops_view(out@) + draw_status(all.take(i - 1)) =~= before + draw_status(
                all.take(i as int),
            ));
        }
        i -= 1;
    }
    proof {
        assert(all.take(0) =~= Seq::<Seq<char>>::empty());
        assert(ops_view(out@) + draw_status(all.take(0)) =~= ops_view(out@));
    }
}

/// The rows that `entry` takes on the screen.
fn count_rows(entry: &str) -> (rows: usize)
    ensures
        rows == entry_rows(entry@),
{
    let lines = lines_chars(to_chars(entry).as_slice());
    assert(rows_view(lines@).len() == lines@.len());
    if lines.len() == 0 {
        1
    } else {
        lines.len()
    }
}

/// The position in `history` of the first entry that a repaint shows in
/// `rows` rows.
fn first_shown(history: &[String], rows: usize) -> (start: usize)
    ensures
        start <= history@.len(),
        history@.len() - start == shown(texts_view(history@), rows as nat),
{
    let ghost all = texts_view(history@);
    let mut start: usize = history.len();
    let mut left: usize = rows;
    proof {
        assert(all.take(start as int) =~= all);
    }
    while start > 0
        invariant
            start <= history@.len(),
            all == texts_view(history@),
            shown(all, rows as nat) == (history@.len() - start) + shown(
                all.take(start as int),
                left as nat,
            ),
        decreases start,
    {
        let needed: usize = count_rows(history[start - 1].as_str());
        proof {
            assert(all.take(start as int).last() == history@[start - 1]@);
            assert(all.take(start as int).drop_last() =~= all.take(start - 1));
        }
        if needed > left {
            return start;
        }
        left -= needed;
        start -= 1;
    }
    proof {
        assert(all.take(0).len() == 0);
    }
    start
}

/// The instructions that repaint the screen of a terminal `height` rows high:
/// the newest entries of `history` that fit above the status message and the
/// input line, then the status message, its lines trimmed, directly above the
/// input line.
pub fn repaint(history: &[String], message: Option<String>, height: u16) -> (ops: Vec<DrawOp>)
    ensures
        ops_view(ops@) == repaint_ops(texts_view(history@), option_text(message), height),
{
    let status: Vec<Vec<char>> = match &message {
        Some(m) => lines_chars(to_chars(m.as_str()).as_slice()),
        None => Vec::new(),
    };
    let ghost all = texts_view(history@);
    proof {
        assert(rows_view(status@) =~= status_lines(option_text(message)));
        assert(rows_view(status@).len() == status@.len());
    }
    let height: usize = height as usize;
    let rows: usize = if height > status.len() {
        height - status.len() - 1
    } else {
        0
    };
    let start: usize = first_shown(history, rows);
    let mut ops: Vec<DrawOp> = Vec::new();
    emit(&mut ops, DrawOp::HideCursor);
    emit(&mut ops, DrawOp::SavePosition);
    emit(&mut ops, DrawOp::MoveUp(1));
    emit(&mut ops, DrawOp::ClearCurrentLine);
    emit(&mut ops, DrawOp::ClearFromCursorUp);
    emit(&mut ops, DrawOp::MoveTo(0, 0));
    let mut i: usize = start;
    proof {
        assert(ops_view(ops@) =~= prologue());
        assert(all.subrange(start as int, i as int) =~= Seq::<Seq<char>>::empty());
        assert(ops_view(ops@) =~= prologue() + draw_entries(all.subrange(start as int, i as int)));
    }
    while i < history.len()
        invariant
            start <= i <= history@.len(),
            all == texts_view(history@),
            ops_view(ops@) == prologue() + draw_entries(all.subrange(start as int, i as int)),
        decreases history@.len() - i,
    {
        emit_entry(&mut ops, history[i].as_str());
        proof {
            let next = all.subrange(start as int, i + 1);
            assert(next.drop_last() =~= all.subrange(start as int, i as int));
            assert(next.last() == history@[i as int]@);
            assert(ops_view(ops@) =~= prologue() + draw_entries(next));
        }
        i += 1;
    }
    proof {
        assert(all.subrange(start as int, history@.len() as int) =~= visible(
            all,
            option_text(message),
            height as u16,
        ));
    }
    emit(&mut ops, DrawOp::RestorePosition);
    emit(&mut ops, DrawOp::MoveUp(1));
    emit_status(&mut ops, &status);
    emit(&mut ops, DrawOp::RestorePosition);
    emit(&mut ops, DrawOp::ShowCursor);
    proof {
        assert(ops_view(ops@) =~= repaint_ops(all, option_text(message), height as u16));
    }
    ops
}

/// The instructions that repaint the screen of the terminal as it is now: its
/// height is asked for anew at each call.
pub fn draw_history(history: &[String], message: Option<String>) -> (drawn: Result<
    Vec<DrawOp>,
    RenderError,
>)
    ensures
        match drawn {
            Ok(ops) => exists|height: u16|
                ops_view(ops@) == repaint_ops(
                    texts_view(history@),
                    option_text(message),
                    height,
                ),
            Err(e) => e == RenderError::SizeUnavailable,
        },
{
    draw_sized(history, message, terminal_size())
}

/// The repaint for what the terminal answered when it was asked for its size.
/// Where it told its columns and rows, the instructions repaint a screen of
/// that many rows; where it refused, there is no repaint and the error is
/// `SizeUnavailable`.
pub fn draw_sized(
    history: &[String],
    message: Option<String>,
    size: Result<(u16, u16), std::io::Error>,
) -> (drawn: Result<Vec<DrawOp>, RenderError>)
    ensures
        match size {
            Ok(columns_rows) => drawn is Ok && ops_view(drawn->Ok_0@) == repaint_ops(
                texts_view(history@),
                option_text(message),
                columns_rows.1,
            ),
            Err(_) => drawn is Err && drawn->Err_0 == RenderError::SizeUnavailable,
        },
{
    match size {
        Ok(columns_rows) => Ok(repaint(history, message, columns_rows.1)),
        Err(_) => Err(RenderError::SizeUnavailable),
    }
}

} // verus!
