//! The overlay: a modal text-entry state machine.
//!
//! While an overlay is active it receives every key event. It collects the
//! text that the user types (a command line, a file name), keeps the cursor at
//! the display column where that text ends, and reports when the interaction
//! is finished.

use vstd::prelude::*;

use crate::keyboard::Key;
use crate::width::{advance, advanced, cell_width, display_width, lemma_text_width_push, retreat,
    retreated, text_width};

verus! {

/// What the overlay reports after a key event.
#[derive(Clone, Debug, PartialEq, Eq)]
pub enum OverlayEvent {
    /// The interaction is over: with the entered text where it was confirmed,
    /// with nothing where it was cancelled.
    Finished(Option<String>),
    /// The overlay stays open and awaits further keys.
    Continue,
}

/// The mathematical content of an [`OverlayEvent`].
#[verifier::ext_equal]
pub enum OverlayEventView {
    Finished(Option<Seq<char>>),
    Continue,
}

impl View for OverlayEvent {
    type V = OverlayEventView;

    open spec fn view(&self) -> OverlayEventView {
        match self {
            OverlayEvent::Finished(Some(text)) => OverlayEventView::Finished(Some(text@)),
            OverlayEvent::Finished(None) => OverlayEventView::Finished(None),
            OverlayEvent::Continue => OverlayEventView::Continue,
        }
    }
}

/// Which kind of prompt a command asks the editor to open.
#[derive(Clone, Copy, Debug, PartialEq, Eq, Structural)]
pub enum OverlayType {
    Prompt,
    SelectFile,
}

/// One character to be written at one position of the screen.
#[derive(Clone, Copy, Debug, PartialEq, Eq, Structural)]
pub struct Cell {
    pub column: usize,
    pub row: usize,
    pub ch: char,
}

/// The mathematical content of an [`InputLine`].
#[verifier::ext_equal]
pub struct InputLineView {
    /// The fixed label shown before the text.
    pub prefix: &'static str,
    /// The text entered so far.
    pub data: Seq<char>,
    /// The display column, counted from where the text starts, at which the
    /// text ends.
    pub cursor_x: nat,
}

impl InputLineView {
    /// A line with the label `prefix` and no text.
    pub open spec fn empty(prefix: &'static str) -> InputLineView {
        InputLineView { prefix, data: Seq::empty(), cursor_x: 0 }
    }

    /// The cursor column is the sum of the display widths of the text.
    pub open spec fn wf(self) -> bool {
        self.cursor_x == text_width(self.data)
    }

    /// `key` can be taken: if it appends a character, the cursor column after
    /// it is still a `usize`.
    pub open spec fn accepts(self, key: Key) -> bool {
        key matches Key::Char(c) ==> self.cursor_x + cell_width(c) <= usize::MAX
    }

    /// What one key event does to the line, and what is reported.
    pub open spec fn step(self, key: Key) -> (InputLineView, OverlayEventView) {
        match key {
            Key::Esc => (self, OverlayEventView::Finished(None)),
            Key::Enter => (self, OverlayEventView::Finished(Some(self.data))),
            Key::Backspace => if self.data.len() > 0 {
                (
                    InputLineView {
                        prefix: self.prefix,
                        data: self.data.drop_last(),
                        cursor_x: retreated(self.cursor_x, crate::width::char_width(self.data.last())),
                    },
                    OverlayEventView::Continue,
                )
            } else {
                (self, OverlayEventView::Continue)
            },
            Key::Char(c) => (
                InputLineView {
                    prefix: self.prefix,
                    data: self.data.push(c),
                    cursor_x: advanced(self.cursor_x, crate::width::char_width(c)),
                },
                OverlayEventView::Continue,
            ),
            _ => (self, OverlayEventView::Continue),
        }
    }

    /// The line after the key events `keys`, one after the other.
    pub open spec fn run(self, keys: Seq<Key>) -> InputLineView
        decreases keys.len(),
    {
        if keys.len() == 0 {
            self
        } else {
            self.run(keys.drop_last()).step(keys.last()).0
        }
    }

    /// The column at which the text starts: the length of the label in bytes,
    /// which for a label of ASCII characters is the number of its characters.
    pub open spec fn offset(self) -> nat {
        self.prefix.len() as nat
    }

    /// The line fits on a screen row: the column of every character of the
    /// text is a `usize`.
    pub open spec fn drawable(self) -> bool {
        self.offset() + self.data.len() <= usize::MAX
    }

    /// The cells that show the line on the screen row `row`: the label, one
    /// character per column from column 0, then the text, one character per
    /// column from the column `offset()`.
    pub open spec fn frame(self, row: usize) -> Seq<Cell> {
        cells_from(self.prefix@, 0, row) + cells_from(self.data, self.offset(), row)
    }
}

/// The cell that shows the character `i` of `text` on the screen row `row`,
/// where the first character of `text` stands at the column `start`.
pub open spec fn cell_at(text: Seq<char>, start: nat, row: usize, i: int) -> Cell {
    Cell { column: (start + i) as usize, row, ch: text[i] }
}

/// The characters of `text` on the screen row `row`, one per column, the first
/// of them at the column `start`.
pub open spec fn cells_from(text: Seq<char>, start: nat, row: usize) -> Seq<Cell> {
    Seq::new(text.len(), |i: int| cell_at(text, start, row, i))
}

/// The cells of the first `n + 1` characters of `text` are the cells of its
/// first `n` characters followed by the cell of the character `n`.
proof fn lemma_cells_from_next(text: Seq<char>, start: nat, row: usize, n: int)
    requires
        0 <= n < text.len(),
    ensures
        cells_from(text.take(n + 1), start, row) == cells_from(text.take(n), start, row).push(
            cell_at(text, start, row, n),
        ),
{
    let longer = cells_from(text.take(n + 1), start, row);
    let shorter = cells_from(text.take(n), start, row);
    let grown = shorter.push(cell_at(text, start, row, n));
    assert forall|i: int| 0 <= i < n + 1 implies longer[i] == grown[i] by {
        assert(text.take(n + 1)[i] == text[i]);
        if i < n {
            assert(text.take(n)[i] == text[i]);
        }
    }
    assert(longer =~= grown);
}

/// The text being entered in an overlay, with its label and its cursor.
#[derive(Debug)]
pub struct InputLine {
    cursor_x: usize,
    data: String,
    prefix: &'static str,
}

impl View for InputLine {
    type V = InputLineView;

    closed spec fn view(&self) -> InputLineView {
        InputLineView { prefix: self.prefix, data: self.data@, cursor_x: self.cursor_x as nat }
    }
}

impl InputLine {
    #[verifier::type_invariant]
    spec fn inv(&self) -> bool {
        self@.wf()
    }

    /// An empty line with the label `prefix`.
    pub fn new(prefix: &'static str) -> (line: InputLine)
        ensures
            line@ == InputLineView::empty(prefix),
    {
        InputLine { cursor_x: 0, data: String::new(), prefix }
    }

    /// The display column at which the text ends.
    pub fn cursor_x(&self) -> (column: usize)
        ensures
            column == self@.cursor_x,
            self@.wf(),
    {
        proof {
            use_type_invariant(self);
        }
        self.cursor_x
    }

    /// The text entered so far.
    pub fn data(&self) -> (text: &str)
        ensures
            text@ == self@.data,
    {
        self.data.as_str()
    }

    /// The label shown before the text.
    pub fn prefix(&self) -> (label: &'static str)
        ensures
            label == self@.prefix,
    {
        self.prefix
    }

    /// The cells that show the line on the screen row `row`.
    fn frame(&self, row: usize) -> (cells: Vec<Cell>)
        requires
            self@.drawable(),
        ensures
            cells@ == self@.frame(row),
    {
        let mut cells: Vec<Cell> = Vec::new();
        for ch in it: self.prefix.chars()
            invariant
                it.seq() == self.prefix@,
                cells@ =~= cells_from(self.prefix@.take(it.index() as int), 0, row),
        {
            proof {
                lemma_cells_from_next(self.prefix@, 0, row, it.index() as int);
            }
            let column = cells.len();
            cells.push(Cell { column, row, ch });
        }
        assert(self.prefix@.take(self.prefix@.len() as int) =~= self.prefix@);
        let ghost label = cells@;
        let shown = cells.len();
        let offset = self.prefix.len();
        for ch in it: self.data.as_str().chars()
            invariant
                it.seq() == self.data@,
                self@.drawable(),
                offset == self@.offset(),
                shown == label.len(),
                cells@ =~= label + cells_from(
                    self.data@.take(it.index() as int),
                    offset as nat,
                    row,
                ),
        {
            proof {
                lemma_cells_from_next(self.data@, offset as nat, row, it.index() as int);
            }
            let column = offset + (cells.len() - shown);
            cells.push(Cell { column, row, ch });
        }
        assert(self.data@.take(self.data@.len() as int) =~= self.data@);
        cells
    }

    /// Whether `key` can be taken (see [`InputLineView::accepts`]).
    fn accepts_key(&self, key: Key) -> (ok: bool)
        ensures
            ok == self@.accepts(key),
    {
        match key {
            Key::Char(c) => advance(self.cursor_x, display_width(c)).is_some(),
            _ => true,
        }
    }

    /// Takes one key event and gives the line after it and what is reported.
    fn step(self, key: Key) -> (out: (InputLine, OverlayEvent))
        requires
            self@.accepts(key),
        ensures
            (out.0@, out.1@) == self@.step(key),
            out.0@.wf(),
    {
        proof {
            use_type_invariant(&self);
        }
        let InputLine { cursor_x, mut data, prefix } = self;
        match key {
            Key::Esc => (InputLine { cursor_x, data, prefix }, OverlayEvent::Finished(None)),
            Key::Enter => {
                let text = data.clone();
                (InputLine { cursor_x, data, prefix }, OverlayEvent::Finished(Some(text)))
            },
            Key::Backspace => {
                let ghost before = data@;
                match data.pop() {
                    Some(c) => {
                        proof {
                            assert(before =~= data@.push(c));
                            lemma_text_width_push(data@, c);
                        }
                        let cursor_x = retreat(cursor_x, display_width(c));
                        (InputLine { cursor_x, data, prefix }, OverlayEvent::Continue)
                    },
                    None => (InputLine { cursor_x, data, prefix }, OverlayEvent::Continue),
                }
            },
            Key::Char(c) => {
                proof {
                    lemma_text_width_push(data@, c);
                }
                match advance(cursor_x, display_width(c)) {
                    Some(next) => {
                        data.push(c);
                        (InputLine { cursor_x: next, data, prefix }, OverlayEvent::Continue)
                    },
                    None => (InputLine { cursor_x, data, prefix }, OverlayEvent::Continue),
                }
            },
            _ => (InputLine { cursor_x, data, prefix }, OverlayEvent::Continue),
        }
    }
}

/// The mathematical content of an [`Overlay`].
#[verifier::ext_equal]
pub enum OverlayView {
    Prompt(InputLineView),
    SavePrompt(InputLineView),
    SelectFile(InputLineView),
    Inactive,
}

impl OverlayView {
    /// The line of an active overlay.
    pub open spec fn line(self) -> Option<InputLineView> {
        match self {
            OverlayView::Prompt(line) => Some(line),
            OverlayView::SavePrompt(line) => Some(line),
            OverlayView::SelectFile(line) => Some(line),
            OverlayView::Inactive => None,
        }
    }

    /// The same kind of overlay with `line` in place of its line.
    pub open spec fn with_line(self, line: InputLineView) -> OverlayView {
        match self {
            OverlayView::Prompt(_) => OverlayView::Prompt(line),
            OverlayView::SavePrompt(_) => OverlayView::SavePrompt(line),
            OverlayView::SelectFile(_) => OverlayView::SelectFile(line),
            OverlayView::Inactive => OverlayView::Inactive,
        }
    }

    /// The cursor column of an active overlay is the sum of the display
    /// widths of its text.
    pub open spec fn wf(self) -> bool {
        self.line() matches Some(line) ==> line.wf()
    }

    /// `key` can be taken (see [`InputLineView::accepts`]). An inactive
    /// overlay takes every key.
    pub open spec fn accepts(self, key: Key) -> bool {
        self.line() matches Some(line) ==> line.accepts(key)
    }

    /// An active overlay fits on a screen row (see [`InputLineView::drawable`]).
    pub open spec fn drawable(self) -> bool {
        self.line() matches Some(line) ==> line.drawable()
    }

    /// The cells that show an active overlay on the screen row `row`.
    pub open spec fn frame(self, row: usize) -> Option<Seq<Cell>> {
        match self.line() {
            Some(line) => Some(line.frame(row)),
            None => None,
        }
    }

    /// What one key event does to the overlay, and what is reported. The three
    /// active kinds treat keys alike; an inactive overlay ignores them.
    pub open spec fn step(self, key: Key) -> (OverlayView, OverlayEventView) {
        match self.line() {
            Some(line) => (self.with_line(line.step(key).0), line.step(key).1),
            None => (self, OverlayEventView::Continue),
        }
    }
}

/// An interface for user interaction: a prompt, a file selection, anything
/// that asks the user for text.
#[derive(Debug)]
pub enum Overlay {
    Prompt(InputLine),
    SavePrompt(InputLine),
    SelectFile(InputLine),
    /// No interaction is going on.
    Inactive,
}

impl View for Overlay {
    type V = OverlayView;

    open spec fn view(&self) -> OverlayView {
        match self {
            Overlay::Prompt(line) => OverlayView::Prompt(line@),
            Overlay::SavePrompt(line) => OverlayView::SavePrompt(line@),
            Overlay::SelectFile(line) => OverlayView::SelectFile(line@),
            Overlay::Inactive => OverlayView::Inactive,
        }
    }
}

impl Overlay {
    /// Takes one key event and gives the overlay after it and what is
    /// reported.
    fn step(self, key: Key) -> (out: (Overlay, OverlayEvent))
        requires
            self@.accepts(key),
        ensures
            (out.0@, out.1@) == self@.step(key),
            out.0@.wf(),
    {
        match self {
            Overlay::Prompt(line) => {
                let (line, event) = line.step(key);
                (Overlay::Prompt(line), event)
            },
            Overlay::SavePrompt(line) => {
                let (line, event) = line.step(key);
                (Overlay::SavePrompt(line), event)
            },
            Overlay::SelectFile(line) => {
                let (line, event) = line.step(key);
                (Overlay::SelectFile(line), event)
            },
            Overlay::Inactive => (Overlay::Inactive, OverlayEvent::Continue),
        }
    }

    /// Whether `key` can be taken (see [`OverlayView::accepts`]).
    pub fn accepts_key(&self, key: Key) -> (ok: bool)
        ensures
            ok == self@.accepts(key),
    {
        match self {
            Overlay::Prompt(line) => line.accepts_key(key),
            Overlay::SavePrompt(line) => line.accepts_key(key),
            Overlay::SelectFile(line) => line.accepts_key(key),
            Overlay::Inactive => true,
        }
    }

    /// Handles one key event.
    ///
    /// `Esc` cancels and `Enter` confirms with a copy of the text; both leave
    /// the overlay as it is, for the caller to tear down. `Backspace` removes
    /// the last character and moves the cursor left by its display width. A
    /// character is appended and moves the cursor right by its display width.
    /// Any other key does nothing.
    pub fn handle_key_event(&mut self, key: Key) -> (event: OverlayEvent)
        requires
            old(self)@.accepts(key),
        ensures
            (final(self)@, event@) == old(self)@.step(key),
            final(self)@.wf(),
            key is Esc && old(self)@.line() is Some ==> event@ == OverlayEventView::Finished(None),
    {
        let mut taken = Overlay::Inactive;
        core::mem::swap(self, &mut taken);
        let (next, event) = taken.step(key);
        *self = next;
        event
    }

    /// Handles one key event where it can be taken, and reports `None` and
    /// leaves the overlay as it is where it cannot.
    pub fn try_handle_key_event(&mut self, key: Key) -> (event: Option<OverlayEvent>)
        ensures
            old(self)@.accepts(key) ==> event is Some && (final(self)@, event->0@) == old(
                self,
            )@.step(key),
            !old(self)@.accepts(key) ==> event is None && final(self)@ == old(self)@,
    {
        if self.accepts_key(key) {
            Some(self.handle_key_event(key))
        } else {
            None
        }
    }

    /// The line of an active overlay.
    pub fn line(&self) -> (line: Option<&InputLine>)
        ensures
            match line {
                Some(line) => self@.line() == Some(line@),
                None => self@.line() is None,
            },
    {
        match self {
            Overlay::Prompt(line) => Some(line),
            Overlay::SavePrompt(line) => Some(line),
            Overlay::SelectFile(line) => Some(line),
            Overlay::Inactive => None,
        }
    }

    /// What to write on the screen to show the overlay: the label followed by
    /// the text, on the bottommost row of a window of `window_height` rows.
    /// Nothing is to be written for an inactive overlay.
    pub fn draw(&self, window_height: usize) -> (cells: Option<Vec<Cell>>)
        requires
            self@.line() is Some ==> window_height >= 1,
            self@.drawable(),
        ensures
            match cells {
                Some(cells) => self@.frame((window_height - 1) as usize) == Some(cells@),
                None => self@.line() is None,
            },
    {
        match self.line() {
            Some(line) => Some(line.frame(window_height - 1)),
            None => None,
        }
    }

    /// Where to place the cursor: at the column where the text ends, on the
    /// bottommost row of a window of `window_height` rows. It is not to be
    /// placed for an inactive overlay.
    pub fn draw_cursor(&self, window_height: usize) -> (position: Option<(usize, usize)>)
        requires
            self@.line() is Some ==> window_height >= 1,
        ensures
            match position {
                Some((column, row)) => self@.line() matches Some(line) && column
                    == line.cursor_x && row == window_height - 1,
                None => self@.line() is None,
            },
    {
        match self.line() {
            Some(line) => Some((line.cursor_x(), window_height - 1)),
            None => None,
        }
    }
}

/// Typing a character moves the cursor right by the display width of the
/// character, and `Backspace` right after moves it back by as much: the line
/// is as it was before the two keys.
pub proof fn lemma_char_then_backspace(line: InputLineView, c: char)
    ensures
        line.step(Key::Char(c)).0.cursor_x == line.cursor_x + cell_width(c),
        line.step(Key::Char(c)).0.step(Key::Backspace).0 == line,
{
    let typed = line.step(Key::Char(c)).0;
    assert(typed.data.drop_last() =~= line.data);
    assert(typed.step(Key::Backspace).0 =~= line);
}

/// A key event keeps the cursor at the sum of the display widths of the text.
/// `Backspace` then moves the cursor left by exactly the display width of the
/// character it removes, and never to the left of column 0.
pub proof fn lemma_step_keeps_width(line: InputLineView, key: Key)
    requires
        line.wf(),
    ensures
        line.step(key).0.wf(),
        key is Backspace && line.data.len() > 0 ==> cell_width(line.data.last()) <= line.cursor_x
            && line.step(key).0.cursor_x == line.cursor_x - cell_width(line.data.last()),
{
    match key {
        Key::Char(c) => {
            lemma_text_width_push(line.data, c);
        },
        _ => {},
    }
}

/// Whatever keys are typed into an empty line, the cursor is at the sum of
/// the display widths of the text entered.
pub proof fn lemma_run_keeps_width(prefix: &'static str, keys: Seq<Key>)
    ensures
        InputLineView::empty(prefix).run(keys).wf(),
    decreases keys.len(),
{
    if keys.len() > 0 {
        lemma_run_keeps_width(prefix, keys.drop_last());
        lemma_step_keeps_width(InputLineView::empty(prefix).run(keys.drop_last()), keys.last());
    }
}

} // verus!
