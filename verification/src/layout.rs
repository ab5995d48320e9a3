//! Word wrap: how a row of words is laid out in lines of bounded width and
//! word count, and whether those lines fit the terminal.

use crate::text::{decimal, faint_off, faint_on, push_decimal, Text};
use vstd::prelude::*;
use vstd::string::*;

verus! {

/// No line is laid out for a terminal narrower than this.
pub const MIN_LINE_WIDTH: usize = 50;

/// The most words that the game puts on a line.
pub const MAX_WORDS_PER_LINE: usize = 10;

/// Lines kept free above and below the text.
pub const MARGIN_LINES: usize = 2;

/// Wrapping under way: the lines that are closed, the words of the line
/// that is still open, and the width that this line has reached.
pub struct WrapState {
    pub closed: Seq<Seq<Seq<char>>>,
    pub open: Seq<Seq<char>>,
    pub width: int,
}

/// The width that a line of `words` takes: every word and one separator
/// after each.
pub open spec fn line_width(words: Seq<Seq<char>>) -> int
    decreases words.len(),
{
    if words.len() == 0 {
        0
    } else {
        line_width(words.drop_last()) + words.last().len() + 1
    }
}

/// Wrapping word by word: a word joins the open line where the line has
/// fewer than `max_words` words and stays within `max_width` with it; else
/// the open line is closed and the word starts the next one.
pub open spec fn wrap_state(words: Seq<Seq<char>>, max_width: int, max_words: int) -> WrapState
    decreases words.len(),
{
    if words.len() == 0 {
        WrapState { closed: Seq::empty(), open: Seq::empty(), width: 0 }
    } else {
        let before = wrap_state(words.drop_last(), max_width, max_words);
        let word = words.last();
        if before.open.len() < max_words && before.width + word.len() + 1 <= max_width {
            WrapState {
                closed: before.closed,
                open: before.open.push(word),
                width: before.width + word.len() + 1,
            }
        } else {
            WrapState {
                closed: before.closed.push(before.open),
                open: seq![word],
                width: word.len() as int + 1,
            }
        }
    }
}

/// The lines that `words` wrap into, each as its words.
pub open spec fn wrap(words: Seq<Seq<char>>, max_width: int, max_words: int) -> Seq<
    Seq<Seq<char>>,
> {
    let state = wrap_state(words, max_width, max_words);
    state.closed.push(state.open)
}

/// The words with one space between each two.
pub open spec fn joined(words: Seq<Seq<char>>) -> Seq<char>
    decreases words.len(),
{
    if words.len() == 0 {
        Seq::empty()
    } else if words.len() == 1 {
        words[0]
    } else {
        joined(words.drop_last()) + seq![' '] + words.last()
    }
}

/// What a line shows: its words with spaces between them, and one more
/// space at the end of every line but the last.
pub open spec fn line_text(words: Seq<Seq<char>>, last: bool) -> Seq<char> {
    if last {
        joined(words)
    } else {
        joined(words) + seq![' ']
    }
}

/// The width of the widest word, its separator included; 0 without words.
pub open spec fn widest(words: Seq<Seq<char>>) -> int
    decreases words.len(),
{
    if words.len() == 0 {
        0
    } else {
        let rest = widest(words.drop_last());
        if words.last().len() + 1 > rest {
            words.last().len() as int + 1
        } else {
            rest
        }
    }
}

/// The width within which the game wraps: two fifths of the terminal's.
pub open spec fn wrap_width(terminal_width: u16) -> int {
    terminal_width * 2 / 5
}

/// The lines that the game lays `words` out in on a terminal of this width.
pub open spec fn game_lines(words: Seq<Seq<char>>, terminal_width: u16) -> Seq<Seq<Seq<char>>> {
    wrap(words, wrap_width(terminal_width), MAX_WORDS_PER_LINE as int)
}

/// The rows that the text needs: its lines, the lines reserved at the
/// bottom, and the margin.
pub open spec fn rows_needed(words: Seq<Seq<char>>, terminal_width: u16, reserved: int) -> int {
    game_lines(words, terminal_width).len() + reserved + MARGIN_LINES
}

/// The columns that the text needs: room for the widest word and one more,
/// and no fewer than `MIN_LINE_WIDTH`.
pub open spec fn columns_needed(words: Seq<Seq<char>>) -> int {
    if widest(words) + 1 > MIN_LINE_WIDTH {
        widest(words) + 1
    } else {
        MIN_LINE_WIDTH as int
    }
}

/// The row of line `line_no` among `line_count` lines that stand around the
/// middle of a terminal of this height.
pub open spec fn middle_row_of(terminal_height: u16, line_no: int, line_count: int) -> int {
    terminal_height / 2 + line_no - line_count / 2
}

/// The row of line `line_no` among `line_count` lines that stand at the
/// bottom of a terminal of this height, above its last row.
pub open spec fn bottom_row_of(terminal_height: u16, line_no: int, line_count: int) -> int {
    terminal_height - 1 + line_no - line_count
}

/// A row of the terminal: rows are counted from 1.
pub open spec fn is_row(row: int) -> bool {
    1 <= row <= u16::MAX
}

/// The row for a line around the middle of the terminal, where there is
/// one.
pub fn middle_row(terminal_height: u16, line_no: usize, line_count: usize) -> (row: Option<u16>)
    ensures
        row is Some <==> is_row(middle_row_of(terminal_height, line_no as int, line_count as int)),
        row matches Some(r) ==> r == middle_row_of(
            terminal_height,
            line_no as int,
            line_count as int,
        ),
{
    let row: i128 = (terminal_height / 2) as i128 + line_no as i128 - (line_count / 2) as i128;
    if 1 <= row && row <= 0xffff {
        Some(row as u16)
    } else {
        None
    }
}

/// The row for a line at the bottom of the terminal, where there is one.
pub fn bottom_row(terminal_height: u16, line_no: usize, line_count: usize) -> (row: Option<u16>)
    ensures
        row is Some <==> is_row(bottom_row_of(terminal_height, line_no as int, line_count as int)),
        row matches Some(r) ==> r == bottom_row_of(
            terminal_height,
            line_no as int,
            line_count as int,
        ),
{
    let row: i128 = terminal_height as i128 - 1 + line_no as i128 - line_count as i128;
    if 1 <= row && row <= 0xffff {
        Some(row as u16)
    } else {
        None
    }
}

/// `text` shows `content`, faint.
pub open spec fn shows_faint(text: Text, content: Seq<char>) -> bool {
    text.plain() == content && text.raw() == faint_on() + content + faint_off()
}

/// Why a text cannot be laid out: the terminal is too small for it.
#[derive(Clone, Copy, Debug, PartialEq, Eq, Structural)]
pub enum LayoutError {
    /// The text needs more rows than the terminal has.
    HeightTooShort { required: u128, available: u16 },
    /// The text needs more columns than the terminal has.
    WidthTooLow { required: u128, available: u16 },
}

impl LayoutError {
    /// What the message says: what the game requires, and what it got.
    pub open spec fn message_text(self) -> Seq<char> {
        match self {
            LayoutError::HeightTooShort { required, available } =>
                "Terminal height is too short! Game requires at least "@ + decimal(
                    required as nat,
                ) + " lines, got "@ + decimal(available as nat) + " lines"@,
            LayoutError::WidthTooLow { required, available } =>
                "Terminal width is too low! Game requires at least "@ + decimal(required as nat)
                    + " columns, got "@ + decimal(available as nat) + " columns"@,
        }
    }

    /// The message for the user.
    pub fn message(&self) -> (msg: String)
        ensures
            msg@ == self.message_text(),
    {
        match self {
            LayoutError::HeightTooShort { required, available } => {
                let mut msg = String::from_str(
                    "Terminal height is too short! Game requires at least ",
                );
                push_decimal(&mut msg, *required);
                msg.append(" lines, got ");
                push_decimal(&mut msg, *available as u128);
                msg.append(" lines");
                msg
            },
            LayoutError::WidthTooLow { required, available } => {
                let mut msg = String::from_str(
                    "Terminal width is too low! Game requires at least ",
                );
                push_decimal(&mut msg, *required);
                msg.append(" columns, got ");
                push_decimal(&mut msg, *available as u128);
                msg.append(" columns");
                msg
            },
        }
    }
}

/// A line keeps both bounds: no more than `max_words` words, and no wider
/// than `max_width`.
pub open spec fn line_within(line: Seq<Seq<char>>, max_width: int, max_words: int) -> bool {
    line.len() <= max_words && line_width(line) <= max_width
}

/// While wrapping, the closed lines and the open one hold the words so far,
/// in order; the width kept is that of the open line; and every line keeps
/// both bounds or is a single word.
pub proof fn lemma_wrap_state(words: Seq<Seq<char>>, max_width: int, max_words: int)
    requires
        0 <= max_width,
        0 <= max_words,
    ensures
        wrap_state(words, max_width, max_words).closed.flatten() + wrap_state(
            words,
            max_width,
            max_words,
        ).open == words,
        wrap_state(words, max_width, max_words).width == line_width(
            wrap_state(words, max_width, max_words).open,
        ),
        wrap_state(words, max_width, max_words).closed.len() <= words.len(),
        forall|i: int|
            0 <= i < wrap(words, max_width, max_words).len() ==> {
                let line = #[trigger] wrap(words, max_width, max_words)[i];
                line_within(line, max_width, max_words) || line.len() == 1
            },
    decreases words.len(),
{
    broadcast use Seq::lemma_flatten_push;

    let state = wrap_state(words, max_width, max_words);
    if words.len() == 0 {
        assert(state.closed.flatten() + state.open =~= words);
    } else {
        let shorter = words.drop_last();
        let word = words.last();
        let before = wrap_state(shorter, max_width, max_words);
        lemma_wrap_state(shorter, max_width, max_words);
        assert(words =~= shorter.push(word));
        let lines_before = wrap(shorter, max_width, max_words);
        let lines = wrap(words, max_width, max_words);
        if before.open.len() < max_words && before.width + word.len() + 1 <= max_width {
            assert(state.open.drop_last() =~= before.open);
            assert(state.closed.flatten() + state.open =~= words);
            assert forall|i: int| 0 <= i < lines.len() implies {
                let line = #[trigger] lines[i];
                line_within(line, max_width, max_words) || line.len() == 1
            } by {
                if i < state.closed.len() {
                    assert(lines[i] == lines_before[i]);
                }
            }
        } else {
            assert(state.closed.flatten() =~= before.closed.flatten() + before.open);
            assert(state.closed.flatten() + state.open =~= words);
            assert(state.open.drop_last() =~= Seq::<Seq<char>>::empty());
            assert(line_width(state.open.drop_last()) == 0);
            assert forall|i: int| 0 <= i < lines.len() implies {
                let line = #[trigger] lines[i];
                line_within(line, max_width, max_words) || line.len() == 1
            } by {
                if i < state.closed.len() {
                    assert(lines[i] == lines_before[i]);
                }
            }
        }
    }
}

/// The lines of a wrap, one after the other, are the words that were
/// wrapped, in their order.
pub proof fn lemma_wrap_keeps_words(words: Seq<Seq<char>>, max_width: int, max_words: int)
    requires
        0 <= max_width,
        0 <= max_words,
    ensures
        wrap(words, max_width, max_words).flatten() == words,
{
    broadcast use Seq::lemma_flatten_push;

    lemma_wrap_state(words, max_width, max_words);
}

/// Where a line may hold a word at all and every word fits the width with
/// its separator, every line of a wrap has a word and keeps both bounds.
pub proof fn lemma_wrap_within_bounds(words: Seq<Seq<char>>, max_width: int, max_words: int)
    requires
        1 <= max_words,
        words.len() > 0,
        forall|j: int| 0 <= j < words.len() ==> (#[trigger] words[j]).len() + 1 <= max_width,
    ensures
        forall|i: int|
            0 <= i < wrap(words, max_width, max_words).len() ==> {
                let line = #[trigger] wrap(words, max_width, max_words)[i];
                line.len() >= 1 && line_within(line, max_width, max_words)
            },
    decreases words.len(),
{
    let state = wrap_state(words, max_width, max_words);
    let shorter = words.drop_last();
    let word = words.last();
    let before = wrap_state(shorter, max_width, max_words);
    let lines = wrap(words, max_width, max_words);
    let lines_before = wrap(shorter, max_width, max_words);
    lemma_wrap_state(words, max_width, max_words);
    assert(word.len() + 1 <= max_width);
    if shorter.len() == 0 {
        assert(state.open =~= seq![word]);
        assert(state.open.drop_last() =~= Seq::<Seq<char>>::empty());
        assert(line_width(state.open.drop_last()) == 0);
        assert(state.closed =~= Seq::<Seq<Seq<char>>>::empty());
    } else {
        assert forall|j: int| 0 <= j < shorter.len() implies (#[trigger] shorter[j]).len() + 1
            <= max_width by {
            assert(shorter[j] == words[j]);
        }
        lemma_wrap_within_bounds(shorter, max_width, max_words);
        assert(lines_before[lines_before.len() - 1] == before.open);
        assert forall|i: int| 0 <= i < lines.len() implies {
            let line = #[trigger] lines[i];
            line.len() >= 1 && line_within(line, max_width, max_words)
        } by {
            if i < before.closed.len() {
                assert(lines[i] == lines_before[i]);
            } else if i < state.closed.len() {
                assert(lines[i] == before.open);
            } else {
                assert(lines[i] == state.open);
                if !(before.open.len() < max_words && before.width + word.len() + 1
                    <= max_width) {
                    assert(state.open.drop_last() =~= Seq::<Seq<char>>::empty());
                    assert(line_width(state.open.drop_last()) == 0);
                }
            }
        }
    }
}

/// Wraps `words` into lines of at most `max_words_per_line` words and at
/// most `max_width` characters, a separator after each word counted. A word
/// that fits no line stands alone on one.
pub fn wrap_words(words: &Vec<String>, max_width: u16, max_words_per_line: usize) -> (lines: Vec<
    Vec<String>,
>)
    ensures
        lines.deep_view() == wrap(
            words.deep_view(),
            max_width as int,
            max_words_per_line as int,
        ),
        lines.deep_view().flatten() == words.deep_view(),
        forall|i: int|
            0 <= i < lines.len() ==> {
                let line = #[trigger] lines.deep_view()[i];
                line_within(line, max_width as int, max_words_per_line as int) || line.len() == 1
            },
{
    proof {
        lemma_wrap_state(words.deep_view(), max_width as int, max_words_per_line as int);
        lemma_wrap_keeps_words(words.deep_view(), max_width as int, max_words_per_line as int);
    }
    let mut lines: Vec<Vec<String>> = Vec::new();
    let mut line: Vec<String> = Vec::new();
    let mut current_len: u128 = 0;
    let mut i: usize = 0;
    assert(lines.deep_view() =~= Seq::<Seq<Seq<char>>>::empty());
    assert(line.deep_view() =~= Seq::<Seq<char>>::empty());
    while i < words.len()
        invariant
            i <= words.len(),
            current_len <= usize::MAX + 1,
            lines.deep_view() == wrap_state(
                words.deep_view().take(i as int),
                max_width as int,
                max_words_per_line as int,
            ).closed,
            line.deep_view() == wrap_state(
                words.deep_view().take(i as int),
                max_width as int,
                max_words_per_line as int,
            ).open,
            current_len == wrap_state(
                words.deep_view().take(i as int),
                max_width as int,
                max_words_per_line as int,
            ).width,
        decreases words.len() - i,
    {
        let ghost closed = lines.deep_view();
        let ghost open = line.deep_view();
        proof {
            assert(words.deep_view().take(i + 1).drop_last() == words.deep_view().take(i as int));
            assert(words.deep_view().take(i + 1).last() == words[i as int]@);
        }
        let len = words[i].as_str().unicode_len();
        let new_len: u128 = current_len + len as u128 + 1;
        if line.len() < max_words_per_line && new_len <= max_width as u128 {
            line.push(words[i].clone());
            current_len = new_len;
            assert(line.deep_view() =~= open.push(words[i as int]@));
        } else {
            lines.push(line);
            line = Vec::new();
            line.push(words[i].clone());
            current_len = len as u128 + 1;
            assert(lines.deep_view() =~= closed.push(open));
            assert(line.deep_view() =~= seq![words[i as int]@]);
        }
        i += 1;
    }
    let ghost closed = lines.deep_view();
    let ghost open = line.deep_view();
    lines.push(line);
    proof {
        assert(words.deep_view().take(i as int) == words.deep_view());
        assert(lines.deep_view() =~= closed.push(open));
    }
    lines
}

/// The words of a line as one string, a space between each two.
pub fn join_words(words: &Vec<String>) -> (line: String)
    ensures
        line@ == joined(words.deep_view()),
{
    let mut line = String::new();
    let mut i: usize = 0;
    assert(words.deep_view().take(0) =~= Seq::<Seq<char>>::empty());
    while i < words.len()
        invariant
            i <= words.len(),
            line@ == joined(words.deep_view().take(i as int)),
        decreases words.len() - i,
    {
        proof {
            assert(words.deep_view().take(i + 1).drop_last() == words.deep_view().take(i as int));
            assert(words.deep_view().take(i + 1).last() == words[i as int]@);
        }
        if i > 0 {
            line.push(' ');
        }
        line.append(words[i].as_str());
        i += 1;
        assert(line@ =~= joined(words.deep_view().take(i as int)));
    }
    proof {
        assert(words.deep_view().take(i as int) == words.deep_view());
    }
    line
}

/// The lines as the game shows them before anything is typed: faint, the
/// words of each with spaces between them, and a space at the end of every
/// line but the last.
pub fn line_texts(lines: &Vec<Vec<String>>) -> (texts: Vec<Text>)
    ensures
        texts.len() == lines.len(),
        forall|i: int|
            0 <= i < lines.len() ==> shows_faint(
                #[trigger] texts[i],
                line_text(lines.deep_view()[i], i + 1 == lines.len()),
            ),
{
    let mut texts: Vec<Text> = Vec::new();
    let mut i: usize = 0;
    while i < lines.len()
        invariant
            i <= lines.len(),
            texts.len() == i,
            forall|j: int|
                0 <= j < i ==> shows_faint(
                    #[trigger] texts[j],
                    line_text(lines.deep_view()[j], j + 1 == lines.len()),
                ),
        decreases lines.len() - i,
    {
        let mut content = join_words(&lines[i]);
        if i + 1 < lines.len() {
            content.push(' ');
        }
        assert(content@ =~= line_text(lines.deep_view()[i as int], i + 1 == lines.len()));
        texts.push(Text::new(content).with_faint());
        i += 1;
    }
    texts
}

/// The width of the widest word, its separator included.
pub fn widest_word(words: &Vec<String>) -> (width: u128)
    ensures
        width == widest(words.deep_view()),
        width <= usize::MAX + 1,
{
    let mut width: u128 = 0;
    let mut i: usize = 0;
    assert(words.deep_view().take(0) =~= Seq::<Seq<char>>::empty());
    while i < words.len()
        invariant
            i <= words.len(),
            width == widest(words.deep_view().take(i as int)),
            width <= usize::MAX + 1,
        decreases words.len() - i,
    {
        proof {
            assert(words.deep_view().take(i + 1).drop_last() == words.deep_view().take(i as int));
            assert(words.deep_view().take(i + 1).last() == words[i as int]@);
        }
        let len = words[i].as_str().unicode_len() as u128 + 1;
        if len > width {
            width = len;
        }
        i += 1;
    }
    proof {
        assert(words.deep_view().take(i as int) == words.deep_view());
    }
    width
}

/// Lays `words` out for a terminal of the given size, with `reserved_lines`
/// lines kept for other text at the bottom: the lines to show, or why the
/// terminal is too small. The height is looked at first, and the lines are
/// wrapped before either is.
pub fn layout_words(
    words: &Vec<String>,
    terminal_width: u16,
    terminal_height: u16,
    reserved_lines: usize,
) -> (laid: Result<Vec<Text>, LayoutError>)
    ensures
        match laid {
            Ok(texts) => {
                &&& rows_needed(words.deep_view(), terminal_width, reserved_lines as int)
                    <= terminal_height
                &&& columns_needed(words.deep_view()) <= terminal_width
                &&& texts.len() == game_lines(words.deep_view(), terminal_width).len()
                &&& forall|i: int|
                    0 <= i < texts.len() ==> shows_faint(
                        #[trigger] texts[i],
                        line_text(
                            game_lines(words.deep_view(), terminal_width)[i],
                            i + 1 == texts.len(),
                        ),
                    )
            },
            Err(LayoutError::HeightTooShort { required, available }) => {
                &&& required == rows_needed(
                    words.deep_view(),
                    terminal_width,
                    reserved_lines as int,
                )
                &&& available == terminal_height
                &&& required > available
            },
            Err(LayoutError::WidthTooLow { required, available }) => {
                &&& rows_needed(words.deep_view(), terminal_width, reserved_lines as int)
                    <= terminal_height
                &&& required == columns_needed(words.deep_view())
                &&& available == terminal_width
                &&& required > available
            },
        },
{
    let max_width: u16 = (terminal_width as u32 * 2 / 5) as u16;
    let lines = wrap_words(words, max_width, MAX_WORDS_PER_LINE);
    let rows: u128 = lines.len() as u128 + reserved_lines as u128 + MARGIN_LINES as u128;
    let widest = widest_word(words) + 1;
    let columns: u128 = if widest > MIN_LINE_WIDTH as u128 {
        widest
    } else {
        MIN_LINE_WIDTH as u128
    };
    if rows > terminal_height as u128 {
        Err(LayoutError::HeightTooShort { required: rows, available: terminal_height })
    } else if columns > terminal_width as u128 {
        Err(LayoutError::WidthTooLow { required: columns, available: terminal_width })
    } else {
        Ok(line_texts(&lines))
    }
}

} // verus!
