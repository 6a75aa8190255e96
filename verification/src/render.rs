//! Laying out a ranked table as a frame of text lines of bounded height.
//!
//! A frame is redrawn in place: its lines are written one below the other,
//! and the cursor is then moved back up by as many rows as lines were written,
//! so that the next frame overwrites this one.

use vstd::prelude::*;
use vstd::string::StringExecFns;
use crate::aggregate::Group;
use crate::aggregate::GroupSummary;
use crate::rank::RankedTable;
use crate::rank::Table;
use crate::rank::TotalRow;
use crate::text::decimal;
use crate::text::decimal_text;
use crate::text::left_justified;
use crate::text::push_left_justified;
use crate::text::push_right_justified;
use crate::text::right_justified;
use crate::text::usage_text;
use crate::text::usage_to_text;
use crate::usage::Usage;

verus! {

/// Width of the column of names.
pub const NAME_WIDTH: usize = 40;

/// Width of the column of CPU usage.
pub const CPU_WIDTH: usize = 8;

/// Width of the column of process counts.
pub const COUNT_WIDTH: usize = 7;

/// The largest distance that one cursor movement can cover.
pub const LONGEST_MOVE: u16 = 0xffff;

/// One line of the table: the name at the left of its column, the usage and
/// the count at the right of theirs, a space between the columns.
pub open spec fn line_text(name: Seq<char>, cpu: Seq<char>, count: Seq<char>) -> Seq<char> {
    left_justified(name, NAME_WIDTH as nat).push(' ') + right_justified(
        cpu,
        CPU_WIDTH as nat,
    ).push(' ') + right_justified(count, COUNT_WIDTH as nat)
}

/// The width of a line in which every text fits its column.
pub const LINE_WIDTH: usize = 57;

/// The line above the rows, which names the columns.
pub open spec fn header_text() -> Seq<char> {
    line_text("Process"@, "CPU"@, "# proc"@)
}

/// The line of one group.
pub open spec fn row_text(group: Group) -> Seq<char> {
    line_text(group.name, usage_text(group.cpu), decimal(group.processes))
}

/// The line of the sums, which is called `Total`.
pub open spec fn total_text(cpu: Usage, processes: nat) -> Seq<char> {
    line_text("Total"@, usage_text(cpu), decimal(processes))
}

/// How many of `available` group rows are shown where `visible_rows` rows can
/// be seen: the last visible row is kept for the sums.
pub open spec fn shown_rows(available: nat, visible_rows: nat) -> nat {
    if visible_rows == 0 {
        0
    } else if available < visible_rows - 1 {
        available
    } else {
        (visible_rows - 1) as nat
    }
}

/// The lines of a frame: the header, then the first rows of the table as far
/// as they are shown, then the line of the sums over all rows of the table,
/// shown or not.
pub open spec fn frame_lines(table: Table, visible_rows: nat) -> Seq<Seq<char>> {
    let shown = table.rows.take(shown_rows(table.rows.len(), visible_rows) as int);
    seq![header_text()] + shown.map_values(|group: Group| row_text(group)) + seq![
        total_text(table.total_cpu, table.total_processes),
    ]
}

/// The lines as one text, a line feed at the end of each, so that the
/// cursor stands below the last line once the text is written.
pub open spec fn text_of_lines(lines: Seq<Seq<char>>) -> Seq<char>
    decreases lines.len(),
{
    if lines.len() == 0 {
        Seq::empty()
    } else {
        text_of_lines(lines.drop_last()) + lines.last().push('\n')
    }
}

/// The test for being a line feed.
pub open spec fn is_line_feed() -> spec_fn(char) -> bool {
    |ch: char| ch == '\n'
}

/// How many rows the cursor moves down while a text is written: the number
/// of line feeds in it.
pub open spec fn rows_down(text: Seq<char>) -> nat {
    text.filter(is_line_feed()).len()
}

/// The sum of a sequence of cursor movements.
pub open spec fn distance(moves: Seq<u16>) -> nat
    decreases moves.len(),
{
    if moves.len() == 0 {
        0
    } else {
        distance(moves.drop_last()) + moves.last() as nat
    }
}

/// Texts that fit their columns stand aligned: the line has the same width
/// whatever the texts are, the name begins at the left edge, the usage ends
/// where its column ends, and the count ends where the line ends.
pub proof fn lemma_columns_aligned(name: Seq<char>, cpu: Seq<char>, count: Seq<char>)
    requires
        name.len() <= NAME_WIDTH,
        cpu.len() <= CPU_WIDTH,
        count.len() <= COUNT_WIDTH,
    ensures
        line_text(name, cpu, count).len() == LINE_WIDTH,
        line_text(name, cpu, count).subrange(0, name.len() as int) == name,
        line_text(name, cpu, count).subrange(
            NAME_WIDTH + 1 + CPU_WIDTH - cpu.len(),
            NAME_WIDTH + 1 + CPU_WIDTH,
        ) == cpu,
        line_text(name, cpu, count).subrange(LINE_WIDTH - count.len(), LINE_WIDTH as int) == count,
{
}

/// Writing the lines of a frame moves the cursor down by one row for each
/// line, as long as no line holds a line feed of its own. Moving it back up
/// by the number of lines then brings it to where the frame began.
pub proof fn lemma_text_moves_down_by_lines(lines: Seq<Seq<char>>)
    requires
        forall|i: int| 0 <= i < lines.len() ==> rows_down(#[trigger] lines[i]) == 0,
    ensures
        rows_down(text_of_lines(lines)) == lines.len(),
    decreases lines.len(),
{
    if lines.len() == 0 {
        Seq::<char>::empty().lemma_filter_len(is_line_feed());
    } else {
        let front = lines.drop_last();
        lemma_text_moves_down_by_lines(front);
        Seq::filter_distributes_over_add(
            text_of_lines(front),
            lines.last().push('\n'),
            is_line_feed(),
        );
        lines.last().lemma_filter_push('\n', is_line_feed());
    }
}

/// What the renderer keeps from one frame to the next.
#[derive(Clone, Copy, Debug, PartialEq, Eq, Structural)]
pub struct FrameState {
    /// How many lines the last frame had.
    pub lines: usize,
}

/// One line of the table.
pub fn format_line(name: &str, cpu: &str, count: &str) -> (line: String)
    ensures
        line@ == line_text(name@, cpu@, count@),
{
    let mut line = String::new();
    push_left_justified(&mut line, name, NAME_WIDTH);
    line.push(' ');
    push_right_justified(&mut line, cpu, CPU_WIDTH);
    line.push(' ');
    push_right_justified(&mut line, count, COUNT_WIDTH);
    line
}

/// The line above the rows.
pub fn format_header() -> (line: String)
    ensures
        line@ == header_text(),
{
    format_line("Process", "CPU", "# proc")
}

/// The line of one group.
pub fn format_row(group: &GroupSummary) -> (line: String)
    ensures
        line@ == row_text(group@),
{
    let cpu = usage_to_text(group.cpu);
    let count = decimal_text(group.processes as u128);
    format_line(group.name.as_str(), cpu.as_str(), count.as_str())
}

/// The line of the sums.
pub fn format_total(total: &TotalRow) -> (line: String)
    ensures
        line@ == total_text(total.cpu@, total.processes as nat),
{
    let cpu = usage_to_text(total.cpu);
    let count = decimal_text(total.processes);
    format_line("Total", cpu.as_str(), count.as_str())
}

impl FrameState {
    /// The state before any frame.
    pub fn new() -> (state: FrameState)
        ensures
            state.lines == 0,
    {
        FrameState { lines: 0 }
    }

    /// The cursor movements that take the cursor back up over the lines of
    /// the last frame: none of them is zero, and together they cover exactly
    /// as many lines as the frame had.
    pub fn rewind(&self) -> (moves: Vec<u16>)
        ensures
            distance(moves@) == self.lines,
            forall|i: int| 0 <= i < moves.len() ==> moves[i] > 0,
            forall|i: int| 0 <= i < moves.len() - 1 ==> moves[i] == LONGEST_MOVE,
    {
        let mut moves: Vec<u16> = Vec::new();
        let mut left = self.lines;
        while left > LONGEST_MOVE as usize
            invariant
                left <= self.lines,
                distance(moves@) + left == self.lines,
                forall|i: int| 0 <= i < moves.len() ==> moves[i] == LONGEST_MOVE,
            decreases left,
        {
            let ghost before = moves@;
            moves.push(LONGEST_MOVE);
            assert(moves@.drop_last() =~= before);
            left = left - LONGEST_MOVE as usize;
        }
        if left > 0 {
            let ghost before = moves@;
            moves.push(left as u16);
            assert(moves@.drop_last() =~= before);
        }
        moves
    }
}

/// Lays the table out as the lines of one frame, for a terminal on which
/// `visible_rows` rows can be seen, and notes in `state` how many lines the
/// frame has.
///
/// The frame has the header, then the rows of the table from the first as far
/// as they are shown, then the line of the sums. The last visible row is kept
/// for the sums; the rows that are not shown still count in them.
pub fn render(table: &RankedTable, visible_rows: usize, state: &mut FrameState) -> (lines: Vec<
    String,
>)
    ensures
        lines.deep_view() == frame_lines(table@, visible_rows as nat),
        lines.len() == shown_rows(table@.rows.len(), visible_rows as nat) + 2,
        lines[0]@ == header_text(),
        forall|i: int|
            0 <= i < lines.len() - 2 ==> (#[trigger] lines[i + 1])@ == row_text(table@.rows[i]),
        lines[lines.len() - 1]@ == total_text(table@.total_cpu, table@.total_processes),
        final(state).lines == lines.len(),
{
    let limit = if visible_rows == 0 {
        0
    } else {
        visible_rows - 1
    };
    let shown = if table.rows.len() < limit {
        table.rows.len()
    } else {
        limit
    };
    let ghost rows = table@.rows.take(shown as int);
    let mut lines: Vec<String> = Vec::new();
    lines.push(format_header());
    for i in 0..shown
        invariant
            shown <= table.rows.len(),
            rows == table@.rows.take(shown as int),
            lines.deep_view() == seq![header_text()] + rows.take(i as int).map_values(
                |group: Group| row_text(group),
            ),
    {
        let ghost before = lines.deep_view();
        lines.push(format_row(&table.rows[i]));
        assert(lines.deep_view() =~= before.push(row_text(rows[i as int])));
    }
    let ghost before = lines.deep_view();
    lines.push(format_total(&table.total));
    proof {
        assert(lines.deep_view() =~= before.push(
            total_text(table@.total_cpu, table@.total_processes),
        ));
        assert(lines.deep_view()[0] == lines[0]@);
        assert forall|i: int| 0 <= i < lines.len() - 2 implies (#[trigger] lines[i + 1])@
            == row_text(table@.rows[i]) by {
            assert(lines.deep_view()[i + 1] == lines[i + 1]@);
        }
    }
    state.lines = lines.len();
    lines
}

/// The lines of a frame as one text, a line feed at the end of each.
pub fn frame_text(lines: &Vec<String>) -> (text: String)
    ensures
        text@ == text_of_lines(lines.deep_view()),
{
    let ghost all = lines.deep_view();
    let mut text = String::new();
    for i in 0..lines.len()
        invariant
            all == lines.deep_view(),
            text@ == text_of_lines(all.take(i as int)),
    {
        proof {
            assert(all.take(i + 1).drop_last() =~= all.take(i as int));
        }
        text.append(lines[i].as_str());
        text.push('\n');
    }
    assert(all.take(lines.len() as int) =~= all);
    text
}

} // verus!
