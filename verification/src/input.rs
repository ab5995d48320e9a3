//! The keystroke state machine of one run: what each key does to the typed
//! text, the counters and the cursor, and what has to be drawn for it.

use crate::cursor::{
    cells_before, lemma_advanced, lemma_cells_before_prefix, lemma_index_in_range,
    lemma_retreated, lines_valid, CursorPos, LinePos,
};
use crate::results::{compared, count_matches, tally, GameResults};
use crate::text::{
    chars_of, faint_off, faint_on, fg_on, fg_reset, flat_text, lemma_length_fits, style_reset,
    underline_on, HasLength, Text, TextColor,
};
use vstd::prelude::*;

verus! {

/// A key press, as the terminal reports it.
#[derive(Clone, Copy, Debug, PartialEq, Eq, Structural)]
pub enum Key {
    Char(char),
    Ctrl(char),
    Backspace,
    Other,
}

/// Where a run stands.
#[derive(Clone, Copy, Debug, PartialEq, Eq, Structural)]
pub enum RunState {
    /// More keys are to be typed.
    Running,
    /// The last character was typed.
    Finished,
    /// The user gave up.
    Aborted,
    /// The user asked for a new text.
    RestartRequested,
}

/// How a character of the text is shown.
#[derive(Clone, Copy, Debug, PartialEq, Eq, Structural)]
pub enum Paint {
    /// Not typed yet: faint.
    Untyped,
    /// Typed as it stands: light green.
    Correct,
    /// Typed wrongly: red and underlined.
    Incorrect,
}

/// One thing to do on the terminal.
#[derive(Debug, PartialEq, Eq)]
pub enum Render {
    /// Write the fragment where the terminal's cursor is.
    Write(Text),
    /// Put the terminal's cursor at this row and column.
    MoveTo(u16, u16),
    /// Send what was written so far.
    Flush,
}

/// What a `Render` says, with the fragment as the characters it counts and
/// the characters it sends.
pub enum RenderView {
    Write { plain: Seq<char>, raw: Seq<char> },
    MoveTo { row: u16, column: u16 },
    Flush,
}

impl View for Render {
    type V = RenderView;

    open spec fn view(&self) -> RenderView {
        match self {
            Render::Write(t) => RenderView::Write { plain: t.plain(), raw: t.raw() },
            Render::MoveTo(row, column) => RenderView::MoveTo { row: *row, column: *column },
            Render::Flush => RenderView::Flush,
        }
    }
}

/// What a list of `Render`s says, one by one.
pub open spec fn render_views(actions: Seq<Render>) -> Seq<RenderView> {
    Seq::new(actions.len(), |i: int| actions[i]@)
}

/// The characters sent to show `ch` in the way `paint` names.
pub open spec fn painted_raw(ch: char, paint: Paint) -> Seq<char> {
    match paint {
        Paint::Untyped => faint_on() + seq![ch] + faint_off(),
        Paint::Correct => fg_on(TextColor::LightGreen) + seq![ch] + fg_reset(),
        Paint::Incorrect => fg_on(TextColor::Red) + (underline_on() + seq![ch] + style_reset())
            + fg_reset(),
    }
}

/// Writing `ch` in the way `paint` names.
pub open spec fn painted(ch: char, paint: Paint) -> RenderView {
    RenderView::Write { plain: seq![ch], raw: painted_raw(ch, paint) }
}

/// Moving the terminal's cursor to where `cursor` stands.
pub open spec fn moved_to(cursor: CursorPos) -> RenderView {
    RenderView::MoveTo { row: cursor.position().0, column: cursor.position().1 }
}

/// The fragment that shows `ch` in the way `paint` names.
pub fn paint_char(ch: char, paint: Paint) -> (action: Render)
    ensures
        action@ == painted(ch, paint),
{
    let text = Text::from_char(ch);
    match paint {
        Paint::Untyped => Render::Write(text.with_faint()),
        Paint::Correct => Render::Write(text.with_color(TextColor::LightGreen)),
        Paint::Incorrect => Render::Write(text.with_underline().with_color(TextColor::Red)),
    }
}

/// A counter one higher, as long as the machine can count that far.
pub open spec fn bump(n: usize) -> usize {
    if n < usize::MAX {
        (n + 1) as usize
    } else {
        n
    }
}

/// How much of `typed` stays when the last word is deleted: the longest
/// start of it that is empty or ends in a space.
pub open spec fn word_start(typed: Seq<char>) -> int
    decreases typed.len(),
{
    if typed.len() == 0 || typed.last() == ' ' {
        typed.len() as int
    } else {
        word_start(typed.drop_last())
    }
}

/// The cursor after `k` steps back.
pub open spec fn retreated_by(cursor: CursorPos, k: nat) -> CursorPos
    decreases k,
{
    if k == 0 {
        cursor
    } else {
        retreated_by(cursor, (k - 1) as nat).retreated()
    }
}

/// What is drawn to take back the last `k` of `len` typed characters, the
/// last one first: for each, the cursor moves back onto it, the character of
/// the text is written as not typed yet, and the cursor is put back onto it.
pub open spec fn erase_echo(cursor: CursorPos, target: Seq<char>, len: int, k: nat) -> Seq<
    RenderView,
>
    decreases k,
{
    if k == 0 {
        Seq::empty()
    } else {
        let back = retreated_by(cursor, k);
        erase_echo(cursor, target, len, (k - 1) as nat) + seq![
            moved_to(back),
            painted(target[len - k], Paint::Untyped),
            moved_to(back),
        ]
    }
}

/// The state of a run, as plain values.
pub struct ProcessorView {
    /// The text to type.
    pub target: Seq<char>,
    /// What stands typed.
    pub typed: Seq<char>,
    /// How many characters were typed and compared, over the whole run.
    pub chars_typed: usize,
    /// How many of them were wrong when typed.
    pub errors: usize,
    pub cursor: CursorPos,
    pub state: RunState,
}

impl ProcessorView {
    /// The cursor stands on the character that is typed next (on the last
    /// one once the run is finished), and the run is finished exactly when
    /// as many characters stand typed as the text has.
    pub open spec fn valid(self) -> bool {
        &&& self.cursor.wf()
        &&& self.cursor.total() == self.target.len()
        &&& self.typed.len() <= self.target.len()
        &&& self.state == RunState::Finished <==> self.typed.len() == self.target.len()
        &&& self.cursor.index() == if self.state == RunState::Finished {
            self.typed.len() - 1
        } else {
            self.typed.len() as int
        }
        &&& self.errors <= self.chars_typed
    }

    /// How many typed characters a key takes back: one for backspace, the
    /// last word for ctrl-w, none for any other key.
    pub open spec fn erased_by(self, key: Key) -> nat {
        match key {
            Key::Backspace => if self.typed.len() > 0 {
                1
            } else {
                0
            },
            Key::Ctrl(c) => if c == 'w' {
                (self.typed.len() - word_start(self.typed)) as nat
            } else {
                0
            },
            _ => 0,
        }
    }

    /// The typed character `c` brings the typed text to the length of the
    /// target.
    pub open spec fn finishes(self, c: char) -> bool {
        self.typed.len() + 1 >= self.target.len()
    }

    /// The state after a key.
    pub open spec fn after(self, key: Key) -> ProcessorView {
        if self.state != RunState::Running {
            self
        } else {
            match key {
                Key::Ctrl(c) => if c == 'c' {
                    ProcessorView { state: RunState::Aborted, ..self }
                } else if c == 'r' {
                    ProcessorView { state: RunState::RestartRequested, ..self }
                } else {
                    self.erased(self.erased_by(key))
                },
                Key::Char(c) => if self.finishes(c) {
                    ProcessorView { typed: self.typed.push(c), state: RunState::Finished, ..self }
                } else {
                    ProcessorView {
                        typed: self.typed.push(c),
                        chars_typed: bump(self.chars_typed),
                        errors: if self.target[self.typed.len() as int] == c {
                            self.errors
                        } else {
                            bump(self.errors)
                        },
                        cursor: self.cursor.advanced(),
                        ..self
                    }
                },
                _ => self.erased(self.erased_by(key)),
            }
        }
    }

    /// The state with the last `k` typed characters taken back.
    pub open spec fn erased(self, k: nat) -> ProcessorView {
        ProcessorView {
            typed: self.typed.take(self.typed.len() - k),
            cursor: retreated_by(self.cursor, k),
            ..self
        }
    }

    /// What is to be drawn for a key, in order.
    pub open spec fn echo(self, key: Key) -> Seq<RenderView> {
        if self.state != RunState::Running {
            Seq::empty()
        } else {
            match key {
                Key::Ctrl(c) => if c == 'c' || c == 'r' {
                    Seq::empty()
                } else {
                    self.erase_echo(self.erased_by(key))
                },
                Key::Char(c) => if self.finishes(c) {
                    Seq::empty()
                } else if self.target[self.typed.len() as int] == c {
                    seq![
                        painted(c, Paint::Correct),
                        moved_to(self.cursor.advanced()),
                        RenderView::Flush,
                    ]
                } else {
                    seq![
                        painted(self.target[self.typed.len() as int], Paint::Incorrect),
                        moved_to(self.cursor.advanced()),
                        RenderView::Flush,
                    ]
                },
                _ => self.erase_echo(self.erased_by(key)),
            }
        }
    }

    /// What is drawn to take back the last `k` typed characters and send it.
    pub open spec fn erase_echo(self, k: nat) -> Seq<RenderView> {
        erase_echo(self.cursor, self.target, self.typed.len() as int, k).push(RenderView::Flush)
    }

    /// The state after a row of keys.
    pub open spec fn after_all(self, keys: Seq<Key>) -> ProcessorView
        decreases keys.len(),
    {
        if keys.len() == 0 {
            self
        } else {
            self.after_all(keys.drop_last()).after(keys.last())
        }
    }
}

/// Where a line of text stands once it is drawn from `origin`, a row and
/// the column of the line's first character.
pub open spec fn line_position(line: Text, origin: (u16, u16)) -> LinePos {
    LinePos { y: origin.0, x: origin.1, length: line.spec_length() as u16 }
}

/// Where the lines stand, each drawn from its origin.
pub open spec fn line_positions(lines: Seq<Text>, origins: Seq<(u16, u16)>) -> Seq<LinePos> {
    Seq::new(lines.len(), |i: int| line_position(lines[i], origins[i]))
}

/// A line can be typed over from `origin`: it has a character, and its
/// length and the column of its last character are each a `u16`.
pub open spec fn line_fits(line: Text, origin: (u16, u16)) -> bool {
    1 <= line.spec_length() <= u16::MAX && origin.1 + line.spec_length() - 1 <= u16::MAX
}

/// The lines can be typed over: there is one, and each has an origin from
/// which it fits.
pub open spec fn placeable(lines: Seq<Text>, origins: Seq<(u16, u16)>) -> bool {
    &&& lines.len() == origins.len()
    &&& lines.len() > 0
    &&& forall|i: int| 0 <= i < lines.len() ==> line_fits(#[trigger] lines[i], origins[i])
}

/// One run of the typing test: the text, what stands typed, the counters
/// and the cursor.
pub struct InputProcessor {
    target: Vec<char>,
    input: Vec<char>,
    num_chars_typed: usize,
    num_errors: usize,
    cursor: CursorPos,
    state: RunState,
}

impl View for InputProcessor {
    type V = ProcessorView;

    closed spec fn view(&self) -> ProcessorView {
        ProcessorView {
            target: self.target@,
            typed: self.input@,
            chars_typed: self.num_chars_typed,
            errors: self.num_errors,
            cursor: self.cursor,
            state: self.state,
        }
    }
}

impl InputProcessor {
    /// The run is in a state that keys lead to.
    pub open spec fn wf(&self) -> bool {
        self@.valid()
    }

    /// A run over `lines`, each drawn from the row and column in `origins`,
    /// with nothing typed yet and the cursor on the first character. There is
    /// none where the lines cannot be typed over.
    pub fn new(lines: &Vec<Text>, origins: &Vec<(u16, u16)>) -> (made: Option<InputProcessor>)
        ensures
            made is Some <==> placeable(lines@, origins@),
            made matches Some(p) ==> {
                &&& p.wf()
                &&& p@.target == flat_text(lines@)
                &&& p@.typed == Seq::<char>::empty()
                &&& p@.chars_typed == 0
                &&& p@.errors == 0
                &&& p@.cursor.lines@ == line_positions(lines@, origins@)
                &&& p@.cursor.at_start()
                &&& p@.state == RunState::Running
            },
    {
        if lines.len() == 0 || lines.len() != origins.len() {
            return None;
        }
        let mut target: Vec<char> = Vec::new();
        let mut positions: Vec<LinePos> = Vec::new();
        let mut i: usize = 0;
        while i < lines.len()
            invariant
                i <= lines.len(),
                lines.len() == origins.len(),
                target@ == flat_text(lines@.take(i as int)),
                positions@ == line_positions(lines@.take(i as int), origins@.take(i as int)),
                lines_valid(positions@),
                cells_before(positions@, i as int) == target@.len(),
                forall|j: int| 0 <= j < i ==> line_fits(#[trigger] lines[j], origins[j]),
            decreases lines.len() - i,
        {
            let line = &lines[i];
            proof {
                lemma_length_fits(line);
            }
            let n = line.length();
            let mut chars = chars_of(line.text().as_str());
            let (y, x) = origins[i];
            if n == 0 || n > 0xffff || n - 1 > (u16::MAX - x) as usize {
                return None;
            }
            let ghost before = positions@;
            positions.push(LinePos { x, y, length: n as u16 });
            target.append(&mut chars);
            proof {
                assert(lines@.take(i + 1).drop_last() == lines@.take(i as int));
                assert(positions@ =~= line_positions(
                    lines@.take(i + 1),
                    origins@.take(i + 1),
                ));
                lemma_cells_before_prefix(before, positions@, i as int);
            }
            i += 1;
        }
        proof {
            assert(lines@.take(i as int) == lines@);
            assert(origins@.take(i as int) == origins@);
        }
        let cursor = CursorPos::new(positions);
        proof {
            lemma_index_in_range(cursor);
        }
        Some(
            InputProcessor {
                target,
                input: Vec::new(),
                num_chars_typed: 0,
                num_errors: 0,
                cursor,
                state: RunState::Running,
            },
        )
    }

    /// Where the run stands.
    pub fn state(&self) -> (state: RunState)
        ensures
            state == self@.state,
    {
        self.state
    }

    /// Row and column at which the terminal's cursor belongs.
    pub fn cur_pos(&self) -> (pos: (u16, u16))
        requires
            self.wf(),
        ensures
            pos == self@.cursor.position(),
    {
        self.cursor.cur_pos()
    }

    /// The line that the cursor is on.
    pub fn current_line(&self) -> (line: usize)
        ensures
            line == self@.cursor.cur_line,
    {
        self.cursor.cur_line
    }

    /// Takes back the last `count` typed characters, and adds to `actions`
    /// what is to be drawn for it.
    fn erase(&mut self, count: usize, actions: &mut Vec<Render>)
        requires
            old(self).wf(),
            old(self)@.state == RunState::Running,
            count <= old(self)@.typed.len(),
        ensures
            final(self).wf(),
            final(self)@ == old(self)@.erased(count as nat),
            render_views(final(actions)@) == render_views(old(actions)@) + erase_echo(
                old(self)@.cursor,
                old(self)@.target,
                old(self)@.typed.len() as int,
                count as nat,
            ),
    {
        let ghost start = self@;
        let ghost drawn = render_views(actions@);
        let mut k: usize = 0;
        while k < count
            invariant
                k <= count,
                count <= start.typed.len(),
                start == old(self)@,
                start.valid(),
                start.state == RunState::Running,
                self@.target == start.target,
                self@.chars_typed == start.chars_typed,
                self@.errors == start.errors,
                self@.state == start.state,
                self@.typed == start.typed.take(start.typed.len() - k),
                self@.cursor == retreated_by(start.cursor, k as nat),
                self@.cursor.wf(),
                self@.cursor.lines == start.cursor.lines,
                self@.cursor.index() == start.typed.len() - k,
                render_views(actions@) == drawn + erase_echo(
                    start.cursor,
                    start.target,
                    start.typed.len() as int,
                    k as nat,
                ),
            decreases count - k,
        {
            let ghost shown = render_views(actions@);
            proof {
                lemma_retreated(self.cursor);
                lemma_index_in_range(self.cursor);
            }
            self.input.pop();
            let (row, column) = self.cursor.prev();
            actions.push(Render::MoveTo(row, column));
            actions.push(paint_char(self.target[self.input.len()], Paint::Untyped));
            let (row, column) = self.cursor.cur_pos();
            actions.push(Render::MoveTo(row, column));
            k += 1;
            proof {
                let back = retreated_by(start.cursor, k as nat);
                assert(self@.typed =~= start.typed.take(start.typed.len() - k));
                assert(render_views(actions@) =~= shown + seq![
                    moved_to(back),
                    painted(start.target[start.typed.len() - k], Paint::Untyped),
                    moved_to(back),
                ]);
            }
        }
        proof {
            assert(self@.typed.len() < self@.target.len());
        }
    }

    /// How many typed characters ctrl-w takes back.
    fn last_word_len(&self) -> (count: usize)
        ensures
            count == self@.typed.len() - word_start(self@.typed),
            count <= self@.typed.len(),
    {
        let mut keep = self.input.len();
        assert(self.input@.take(keep as int) == self.input@);
        while keep > 0 && self.input[keep - 1] != ' '
            invariant
                keep <= self.input.len(),
                word_start(self.input@.take(keep as int)) == word_start(self.input@),
            decreases keep,
        {
            proof {
                assert(self.input@.take(keep as int).drop_last() == self.input@.take(keep - 1));
            }
            keep -= 1;
        }
        self.input.len() - keep
    }

    /// Takes one key: changes the typed text, the counters and the cursor as
    /// the key asks, and returns where the run stands then, with what is to
    /// be drawn, in order. A run that is no longer running takes no key.
    pub fn handle_key(&mut self, key: Key) -> (outcome: (RunState, Vec<Render>))
        requires
            old(self).wf(),
        ensures
            final(self).wf(),
            final(self)@ == old(self)@.after(key),
            outcome.0 == final(self)@.state,
            render_views(outcome.1@) == old(self)@.echo(key),
            final(self)@.chars_typed >= old(self)@.chars_typed,
            final(self)@.errors >= old(self)@.errors,
            old(self)@.state == RunState::Running ==> (outcome.0 == RunState::Finished <==> key is Char
                && old(self)@.typed.len() + 1 == old(self)@.target.len()),
            outcome.0 == RunState::Finished <==> final(self)@.typed.len() == old(self)@.target.len(),
    {
        proof {
            lemma_counters_never_fall(self@, key);
            if self@.state == RunState::Running {
                lemma_finish_boundary(self@, key);
            }
        }
        let mut actions: Vec<Render> = Vec::new();
        assert(render_views(actions@) =~= Seq::<RenderView>::empty());
        match self.state {
            RunState::Running => {},
            _ => {
                return (self.state, actions);
            },
        }
        match key {
            Key::Ctrl(c) => {
                if c == 'c' {
                    self.state = RunState::Aborted;
                    return (RunState::Aborted, actions);
                } else if c == 'r' {
                    self.state = RunState::RestartRequested;
                    return (RunState::RestartRequested, actions);
                } else if c == 'w' {
                    let count = self.last_word_len();
                    self.erase(count, &mut actions);
                } else {
                    self.erase(0, &mut actions);
                }
            },
            Key::Char(c) => {
                let at = self.input.len();
                self.input.push(c);
                if self.input.len() >= self.target.len() {
                    self.state = RunState::Finished;
                    return (RunState::Finished, actions);
                }
                if self.num_chars_typed < usize::MAX {
                    self.num_chars_typed += 1;
                }
                let expected = self.target[at];
                if expected == c {
                    actions.push(paint_char(c, Paint::Correct));
                } else {
                    actions.push(paint_char(expected, Paint::Incorrect));
                    if self.num_errors < usize::MAX {
                        self.num_errors += 1;
                    }
                }
                proof {
                    lemma_advanced(self.cursor);
                    lemma_index_in_range(self.cursor);
                }
                let (row, column) = self.cursor.next();
                actions.push(Render::MoveTo(row, column));
                actions.push(Render::Flush);
                assert(render_views(actions@) =~= old(self)@.echo(key));
                return (RunState::Running, actions);
            },
            Key::Backspace => {
                let count: usize = if self.input.len() > 0 {
                    1
                } else {
                    0
                };
                self.erase(count, &mut actions);
            },
            Key::Other => {
                self.erase(0, &mut actions);
            },
        }
        let ghost erased = render_views(actions@);
        actions.push(Render::Flush);
        assert(render_views(actions@) =~= erased.push(RenderView::Flush));
        (RunState::Running, actions)
    }

    /// The record of the run as it stands: the counters, and what stands
    /// typed compared with the text.
    pub fn results(&self, total_words: usize, started_at: u64, ended_at: u64) -> (r: GameResults)
        ensures
            r.total_words == total_words,
            r.total_chars_typed == self@.chars_typed,
            r.total_chars_in_text == self@.typed.len(),
            r.total_char_errors == self@.errors,
            r.final_chars_typed_correctly == count_matches(
                self@.typed,
                self@.target,
                compared(self@.typed, self@.target),
            ),
            r.final_chars_typed_correctly + r.final_uncorrected_errors == compared(
                self@.typed,
                self@.target,
            ),
            r.started_at == started_at,
            r.ended_at == ended_at,
            r.final_uncorrected_errors == 0 <==> forall|i: int|
                0 <= i < compared(self@.typed, self@.target) ==> self@.typed[i] == self@.target[i],
            self.wf() && self@.state == RunState::Finished ==> r.complete(),
    {
        proof {
            if self.wf() {
                lemma_index_in_range(self.cursor);
            }
        }
        let (correct, wrong) = tally(&self.input, &self.target);
        GameResults {
            total_words,
            total_chars_typed: self.num_chars_typed,
            total_chars_in_text: self.input.len(),
            total_char_errors: self.num_errors,
            final_chars_typed_correctly: correct,
            final_uncorrected_errors: wrong,
            started_at,
            ended_at,
        }
    }
}

/// Stepping back `k` times from a valid cursor leaves a valid cursor over
/// the same lines, `k` characters earlier or on the first character.
pub proof fn lemma_retreated_by(cursor: CursorPos, k: nat)
    requires
        cursor.wf(),
    ensures
        retreated_by(cursor, k).wf(),
        retreated_by(cursor, k).lines == cursor.lines,
        retreated_by(cursor, k).index() == if k <= cursor.index() {
            cursor.index() - k
        } else {
            0
        },
    decreases k,
{
    lemma_index_in_range(cursor);
    if k > 0 {
        let before = retreated_by(cursor, (k - 1) as nat);
        lemma_retreated_by(cursor, (k - 1) as nat);
        lemma_retreated(before);
        lemma_index_in_range(before);
    }
}

/// Deleting the last word keeps a start of what was typed.
pub proof fn lemma_word_start_in_range(typed: Seq<char>)
    ensures
        0 <= word_start(typed) <= typed.len(),
    decreases typed.len(),
{
    if typed.len() > 0 && typed.last() != ' ' {
        lemma_word_start_in_range(typed.drop_last());
    }
}

/// Whatever the key, a run that is in order stays in order: the cursor
/// stays on the character to type next, and the run is finished exactly when
/// as many characters stand typed as the text has.
pub proof fn lemma_after_valid(v: ProcessorView, key: Key)
    requires
        v.valid(),
    ensures
        v.after(key).valid(),
        v.after(key).target == v.target,
{
    if v.state == RunState::Running {
        lemma_index_in_range(v.cursor);
        lemma_advanced(v.cursor);
        lemma_word_start_in_range(v.typed);
        lemma_retreated_by(v.cursor, v.erased_by(key));
    }
}

/// No key lowers a counter: neither the characters typed nor the mistakes
/// made ever go down, not on backspace and not when a word is deleted.
pub proof fn lemma_counters_never_fall(v: ProcessorView, key: Key)
    ensures
        v.after(key).chars_typed >= v.chars_typed,
        v.after(key).errors >= v.errors,
{
}

/// Over any row of keys the counters end no lower than they began.
pub proof fn lemma_counters_monotonic(v: ProcessorView, keys: Seq<Key>)
    ensures
        v.after_all(keys).chars_typed >= v.chars_typed,
        v.after_all(keys).errors >= v.errors,
    decreases keys.len(),
{
    if keys.len() > 0 {
        lemma_counters_monotonic(v, keys.drop_last());
        lemma_counters_never_fall(v.after_all(keys.drop_last()), keys.last());
    }
}

/// A run is finished by the character key that brings the typed text to the
/// length of the target, and by nothing else; until then fewer characters
/// stand typed than the text has. The key that finishes the run is not
/// counted and not compared.
pub proof fn lemma_finish_boundary(v: ProcessorView, key: Key)
    requires
        v.valid(),
        v.state == RunState::Running,
    ensures
        v.typed.len() < v.target.len(),
        v.after(key).state == RunState::Finished <==> key is Char && v.typed.len() + 1
            == v.target.len(),
        v.after(key).state == RunState::Finished ==> {
            &&& v.after(key).typed == v.typed.push(key->Char_0)
            &&& v.after(key).chars_typed == v.chars_typed
            &&& v.after(key).errors == v.errors
            &&& v.after(key).cursor == v.cursor
        },
{
}

} // verus!
