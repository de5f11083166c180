//! What the terminal shows: the screen's size, the lines of output laid out on it with
//! their highlighted runs, the header, the screenshot buffer, and what a terminal event
//! means. Drawing and reading the terminal are done outside.
use vstd::prelude::*;

use crate::config::DiffMode;
use crate::diff::{ChangeSet, ChangedPosition};
use crate::text::{chars_of, len_utf8, lines_of, lines_view, push_char, spec_len_utf8, spec_lines, string_of};

verus! {

/// Input event types
#[derive(Debug, Clone, Copy, PartialEq, Eq, Structural)]
pub enum InputEvent {
    /// Quit the program
    Quit,
    /// Force immediate refresh
    Refresh,
    /// Take a screenshot
    Screenshot,
    /// Terminal was resized
    Resize,
    /// No event (timeout), or one that means nothing here
    Idle,
}

/// Key modifier bits, as the terminal library numbers them.
pub const MOD_SHIFT: u8 = 0b0000_0001;
pub const MOD_CONTROL: u8 = 0b0000_0010;

/// A terminal event, as plain values.
#[derive(Debug, Clone, Copy, PartialEq, Eq, Structural)]
pub enum TermEvent {
    /// A key; `ch` is the character for a character key, `None` for any other key;
    /// `modifiers` holds the modifier bits.
    Key { ch: Option<char>, modifiers: u8 },
    /// The terminal was resized.
    Resize,
    /// Anything else (mouse, focus, paste).
    Other,
}

/// The meaning of a terminal event: `q` (no modifier) and Ctrl-C quit, space refreshes
/// (whatever the modifiers), `s` (no modifier) takes a screenshot, a resize is a resize,
/// and anything else means nothing.
pub open spec fn spec_input_event(ev: TermEvent) -> InputEvent {
    match ev {
        TermEvent::Key { ch, modifiers } => if ch == Some('q') && modifiers == 0 {
            InputEvent::Quit
        } else if ch == Some('c') && modifiers == MOD_CONTROL {
            InputEvent::Quit
        } else if ch == Some(' ') {
            InputEvent::Refresh
        } else if ch == Some('s') && modifiers == 0 {
            InputEvent::Screenshot
        } else {
            InputEvent::Idle
        },
        TermEvent::Resize => InputEvent::Resize,
        TermEvent::Other => InputEvent::Idle,
    }
}

/// What a terminal event means to the watch loop.
pub fn input_event(ev: TermEvent) -> (r: InputEvent)
    ensures
        r == spec_input_event(ev),
{
    match ev {
        TermEvent::Key { ch, modifiers } => {
            match ch {
                Some(c) => {
                    if c == 'q' && modifiers == 0 {
                        InputEvent::Quit
                    } else if c == 'c' && modifiers == MOD_CONTROL {
                        InputEvent::Quit
                    } else if c == ' ' {
                        InputEvent::Refresh
                    } else if c == 's' && modifiers == 0 {
                        InputEvent::Screenshot
                    } else {
                        InputEvent::Idle
                    }
                },
                None => InputEvent::Idle,
            }
        },
        TermEvent::Resize => InputEvent::Resize,
        TermEvent::Other => InputEvent::Idle,
    }
}

/// Whether the event is a key press (what ends the wait after `--errexit`).
pub fn is_key(ev: TermEvent) -> (r: bool)
    ensures
        r == (ev is Key),
{
    match ev {
        TermEvent::Key { .. } => true,
        _ => false,
    }
}

/// The display's state, as plain values.
pub struct DisplayState {
    pub width: u16,
    pub height: u16,
    pub screenshot_counter: u32,
    /// The lines last shown, as they were shown.
    pub screen_buffer: Seq<Seq<char>>,
}

/// Terminal display state
pub struct Display {
    /// Terminal width
    width: u16,
    /// Terminal height
    height: u16,
    /// Screenshot counter
    screenshot_counter: u32,
    /// The lines last shown, for screenshots
    screen_buffer: Vec<Vec<char>>,
}

impl View for Display {
    type V = DisplayState;

    closed spec fn view(&self) -> DisplayState {
        DisplayState {
            width: self.width,
            height: self.height,
            screenshot_counter: self.screenshot_counter,
            screen_buffer: lines_view(self.screen_buffer@),
        }
    }
}

impl Display {
    /// A display for a terminal of the given size, with nothing shown yet.
    pub fn new(width: u16, height: u16) -> (d: Display)
        ensures
            d@.width == width,
            d@.height == height,
            d@.screenshot_counter == 0,
            d@.screen_buffer.len() == 0,
    {
        Display { width, height, screenshot_counter: 0, screen_buffer: Vec::new() }
    }

    /// Record the terminal's current size; returns whether it changed.
    pub fn update_size(&mut self, new_width: u16, new_height: u16) -> (changed: bool)
        ensures
            changed == (new_width != old(self)@.width || new_height != old(self)@.height),
            final(self)@ == (DisplayState {
                width: new_width,
                height: new_height,
                ..old(self)@
            }),
    {
        let changed = new_width != self.width || new_height != self.height;
        self.width = new_width;
        self.height = new_height;
        changed
    }

    /// How many screenshots have been taken.
    pub fn screenshot_count(&self) -> (r: u32)
        ensures
            r == self@.screenshot_counter,
    {
        self.screenshot_counter
    }

    /// Get terminal dimensions
    pub fn size(&self) -> (r: (u16, u16))
        ensures
            r == (self@.width, self@.height),
    {
        (self.width, self.height)
    }
}


// ---------------------------------------------------------------------------
// Byte lengths and truncation.
// ---------------------------------------------------------------------------

/// The number of bytes `s` takes in UTF-8 (what `str::len` returns).
pub open spec fn utf8_len(s: Seq<char>) -> nat
    decreases s.len(),
{
    if s.len() == 0 {
        0
    } else {
        utf8_len(s.drop_last()) + spec_len_utf8(s.last())
    }
}

/// `k` is the number of leading characters of `s` that fit in `w` bytes: they take at
/// most `w` bytes and one more character would not fit.
pub open spec fn is_fit(s: Seq<char>, w: int, k: int) -> bool {
    &&& 0 <= k <= s.len()
    &&& utf8_len(s.take(k)) <= w
    &&& k < s.len() ==> utf8_len(s.take(k + 1)) > w
}

/// The longest prefix of `s` that fits in `w` bytes: a cut at the last character
/// boundary within `w` bytes, never inside a character.
pub open spec fn byte_fit(s: Seq<char>, w: int) -> Seq<char> {
    s.take(choose|k: int| is_fit(s, w, k))
}

/// A line as shown: with wrapping, or when it fits in `width` bytes, as it is; else cut
/// to the longest prefix that fits in `width` bytes.
pub open spec fn shown_line(line: Seq<char>, wrap: bool, width: int) -> Seq<char> {
    if wrap || utf8_len(line) <= width {
        line
    } else {
        byte_fit(line, width)
    }
}

/// Each further character adds at least one byte.
proof fn lemma_utf8_len_take_monotone(s: Seq<char>, i: int, j: int)
    requires
        0 <= i <= j <= s.len(),
    ensures
        utf8_len(s.take(i)) + (j - i) <= utf8_len(s.take(j)),
    decreases j - i,
{
    if i < j {
        lemma_utf8_len_take_monotone(s, i, j - 1);
        assert(s.take(j).drop_last() == s.take(j - 1));
    }
}

/// The number of leading characters of `line` that fit in `w` bytes, and their byte length.
fn fit_prefix(line: &Vec<char>, w: usize) -> (r: (usize, usize))
    ensures
        is_fit(line@, w as int, r.0 as int),
        r.1 == utf8_len(line@.take(r.0 as int)),
{
    let mut k: usize = 0;
    let mut bytes: usize = 0;
    while k < line.len() && len_utf8(line[k]) <= w - bytes
        invariant
            k <= line.len(),
            bytes == utf8_len(line@.take(k as int)),
            bytes <= w,
        decreases line.len() - k,
    {
        assert(line@.take(k + 1).drop_last() == line@.take(k as int));
        bytes = bytes + len_utf8(line[k]);
        k = k + 1;
    }
    if k < line.len() {
        assert(line@.take(k + 1).drop_last() == line@.take(k as int));
    }
    (k, bytes)
}

/// What the prefix that fits in `w` bytes says about the line.
proof fn lemma_fit_prefix(line: Seq<char>, w: int, k: int)
    requires
        is_fit(line, w, k),
    ensures
        (utf8_len(line) <= w) == (k == line.len()),
        byte_fit(line, w) == line.take(k),
{
    assert(line.take(line.len() as int) == line);
    if k < line.len() {
        lemma_utf8_len_take_monotone(line, k + 1, line.len() as int);
    }
    let kstar = choose|j: int| is_fit(line, w, j);
    assert(is_fit(line, w, kstar));
    if k < kstar {
        lemma_utf8_len_take_monotone(line, k + 1, kstar);
    } else if kstar < k {
        lemma_utf8_len_take_monotone(line, kstar + 1, k);
    }
}

/// The first `k` characters.
fn prefix_chars(line: &Vec<char>, k: usize) -> (r: Vec<char>)
    requires
        k <= line.len(),
    ensures
        r@ == line@.take(k as int),
{
    let mut r: Vec<char> = Vec::new();
    let mut i: usize = 0;
    while i < k
        invariant
            i <= k <= line.len(),
            r@ == line@.take(i as int),
        decreases k - i,
    {
        r.push(line[i]);
        i = i + 1;
        assert(r@ =~= line@.take(i as int));
    }
    r
}

/// The line as shown, see `shown_line`.
fn shown_line_exec(line: &Vec<char>, wrap: bool, width: u16) -> (r: Vec<char>)
    ensures
        r@ == shown_line(line@, wrap, width as int),
{
    if wrap {
        return prefix_chars(line, line.len());
    }
    let (k, _) = fit_prefix(line, width as usize);
    proof {
        lemma_fit_prefix(line@, width as int, k as int);
        assert(line@.take(line@.len() as int) == line@);
    }
    prefix_chars(line, k)
}

// ---------------------------------------------------------------------------
// Highlighted runs.
// ---------------------------------------------------------------------------

/// A stretch of a shown line, drawn in reverse video when `highlighted`.
#[derive(Debug)]
pub struct Run {
    pub text: String,
    pub highlighted: bool,
}

/// The text of the runs, one after the other.
pub open spec fn runs_text(runs: Seq<Run>) -> Seq<char>
    decreases runs.len(),
{
    if runs.len() == 0 {
        Seq::empty()
    } else {
        runs_text(runs.drop_last()) + runs.last().text@
    }
}

/// For each character of the runs' text, whether it is highlighted.
pub open spec fn runs_marks(runs: Seq<Run>) -> Seq<bool>
    decreases runs.len(),
{
    if runs.len() == 0 {
        Seq::empty()
    } else {
        runs_marks(runs.drop_last()) + Seq::new(
            runs.last().text@.len(),
            |k: int| runs.last().highlighted,
        )
    }
}

/// No run is empty and two neighbouring runs differ in highlighting.
pub open spec fn runs_maximal(runs: Seq<Run>) -> bool {
    &&& forall|i: int| 0 <= i < runs.len() ==> (#[trigger] runs[i]).text@.len() > 0
    &&& forall|i: int|
        0 <= i < runs.len() - 1 ==> (#[trigger] runs[i]).highlighted != runs[i + 1].highlighted
}

/// Whether each character of shown line `idx` is highlighted: highlighting is on and its
/// position changed.
pub open spec fn line_marks(
    text: Seq<char>,
    idx: int,
    changes: Set<ChangedPosition>,
    highlight: bool,
) -> Seq<bool> {
    Seq::new(
        text.len(),
        |k: int| highlight && changes.contains(ChangedPosition { line: idx as usize, col: k as usize }),
    )
}

proof fn lemma_runs_push(runs: Seq<Run>, r: Run)
    ensures
        runs_text(runs.push(r)) == runs_text(runs) + r.text@,
        runs_marks(runs.push(r)) == runs_marks(runs) + Seq::new(
            r.text@.len(),
            |k: int| r.highlighted,
        ),
{
    assert(runs.push(r).drop_last() == runs);
}

/// Split a shown line into maximal runs by highlighting.
fn line_runs(text: &Vec<char>, idx: usize, changes: &ChangeSet, highlight: bool) -> (runs: Vec<Run>)
    ensures
        runs_text(runs@) == text@,
        runs_marks(runs@) == line_marks(text@, idx as int, changes@, highlight),
        runs_maximal(runs@),
{
    let ghost marks = line_marks(text@, idx as int, changes@, highlight);
    let mut runs: Vec<Run> = Vec::new();
    let mut cur = String::new();
    let mut cur_flag = false;
    let mut k: usize = 0;
    while k < text.len()
        invariant
            k <= text.len(),
            marks == line_marks(text@, idx as int, changes@, highlight),
            runs_text(runs@) + cur@ == text@.take(k as int),
            runs_marks(runs@) + Seq::new(cur@.len(), |j: int| cur_flag) == marks.take(k as int),
            runs_maximal(runs@),
            k > 0 ==> cur@.len() > 0,
            cur@.len() > 0 && runs@.len() > 0 ==> runs@.last().highlighted != cur_flag,
        decreases text.len() - k,
    {
        let c = text[k];
        let f = highlight && changes.contains(&ChangedPosition { line: idx, col: k });
        assert(f == marks[k as int]);
        assert(text@.take(k + 1) == text@.take(k as int).push(c));
        assert(marks.take(k + 1) == marks.take(k as int).push(f));
        if cur.as_str().is_empty() || f == cur_flag {
            let ghost old_cur = cur@;
            push_char(&mut cur, c);
            cur_flag = f;
            assert(runs_text(runs@) + cur@ =~= text@.take(k + 1));
            assert(Seq::new(cur@.len(), |j: int| cur_flag) =~= Seq::new(
                old_cur.len(),
                |j: int| cur_flag,
            ).push(f));
            assert(runs_marks(runs@) + Seq::new(cur@.len(), |j: int| cur_flag) =~= marks.take(
                k + 1,
            ));
        } else {
            let ghost old_runs = runs@;
            let finished = Run { text: cur, highlighted: cur_flag };
            proof {
                lemma_runs_push(old_runs, finished);
            }
            runs.push(finished);
            cur = String::new();
            push_char(&mut cur, c);
            cur_flag = f;
            assert(runs_text(runs@) + cur@ =~= text@.take(k + 1));
            assert(runs_marks(runs@) + Seq::new(cur@.len(), |j: int| cur_flag) =~= marks.take(
                k + 1,
            ));
            assert(runs_maximal(runs@)) by {
                assert forall|i: int| 0 <= i < runs@.len() - 1 implies (
                #[trigger] runs@[i]).highlighted != runs@[i + 1].highlighted by {
                    if i < old_runs.len() - 1 {
                        assert(old_runs[i].highlighted != old_runs[i + 1].highlighted);
                    }
                }
            }
        }
        k = k + 1;
    }
    assert(text@.take(text.len() as int) == text@);
    assert(marks.take(text.len() as int) == marks);
    if !cur.as_str().is_empty() {
        let ghost old_runs = runs@;
        let finished = Run { text: cur, highlighted: cur_flag };
        proof {
            lemma_runs_push(old_runs, finished);
        }
        runs.push(finished);
        assert(runs_maximal(runs@)) by {
            assert forall|i: int| 0 <= i < runs@.len() - 1 implies (
            #[trigger] runs@[i]).highlighted != runs@[i + 1].highlighted by {
                if i < old_runs.len() - 1 {
                    assert(old_runs[i].highlighted != old_runs[i + 1].highlighted);
                }
            }
        }
    } else {
        assert(Seq::new(cur@.len(), |j: int| cur_flag) =~= Seq::<bool>::empty());
        assert(runs_text(runs@) + cur@ =~= runs_text(runs@));
        assert(runs_marks(runs@) + Seq::new(cur@.len(), |j: int| cur_flag) =~= runs_marks(runs@));
    }
    runs
}


// ---------------------------------------------------------------------------
// Laying out the output.
// ---------------------------------------------------------------------------

/// One line of output to draw at `row`, as runs of highlighted and plain text.
#[derive(Debug)]
pub struct OutputLine {
    pub row: u16,
    pub runs: Vec<Run>,
}

/// How many lines of output are shown: as many as fit below row `start_line`.
pub open spec fn shown_count(n_lines: int, height: u16, start_line: u16) -> int {
    let available = if height >= start_line {
        height - start_line
    } else {
        0
    };
    if n_lines < available {
        n_lines
    } else {
        available
    }
}

/// Highlighting is drawn: a highlighting mode is on and there is something to highlight.
pub open spec fn spec_highlight(diff_mode: DiffMode, changes: Set<ChangedPosition>) -> bool {
    diff_mode != DiffMode::Disabled && changes != Set::<ChangedPosition>::empty()
}

/// The layout of one shown line: drawn at row `start_line + idx`, its text the shown
/// line, its characters highlighted where their position changed, in maximal runs.
pub open spec fn laid_out(
    l: OutputLine,
    idx: int,
    line: Seq<char>,
    start_line: u16,
    changes: Set<ChangedPosition>,
    highlight: bool,
) -> bool {
    &&& l.row == start_line + idx
    &&& runs_text(l.runs@) == line
    &&& runs_marks(l.runs@) == line_marks(line, idx, changes, highlight)
    &&& runs_maximal(l.runs@)
}

impl Display {
    /// Lay out the command output below row `start_line`: the lines that fit, each cut to
    /// the width (at a character boundary) when not wrapping, with changed characters highlighted when a highlighting
    /// mode is on and something changed. The lines shown are kept for screenshots.
    pub fn layout_output(
        &mut self,
        output: &str,
        wrap: bool,
        diff_mode: DiffMode,
        changes: &ChangeSet,
        start_line: u16,
    ) -> (out: Vec<OutputLine>)
        ensures
            ({
                let ls = spec_lines(output@);
                let n = shown_count(ls.len() as int, old(self)@.height, start_line);
                let highlight = spec_highlight(diff_mode, changes@);
                &&& out@.len() == n
                &&& forall|i: int|
                    0 <= i < n ==> laid_out(
                        #[trigger] out@[i],
                        i,
                        shown_line(ls[i], wrap, old(self)@.width as int),
                        start_line,
                        changes@,
                        highlight,
                    )
                &&& final(self)@ == (DisplayState {
                    screen_buffer: Seq::new(
                        n as nat,
                        |i: int| shown_line(ls[i], wrap, old(self)@.width as int),
                    ),
                    ..old(self)@
                })
            }),
    {
        let highlight = match diff_mode {
            DiffMode::Disabled => false,
            _ => !changes.is_empty(),
        };
        let lines = lines_of(output);
        let available: usize = if self.height >= start_line {
            (self.height - start_line) as usize
        } else {
            0
        };
        let n = if lines.len() < available {
            lines.len()
        } else {
            available
        };
        let ghost ls = spec_lines(output@);
        let ghost width = self@.width as int;
        let ghost shown = Seq::new(n as nat, |i: int| shown_line(ls[i], wrap, width));
        let mut buffer: Vec<Vec<char>> = Vec::new();
        let mut out: Vec<OutputLine> = Vec::new();
        let mut i: usize = 0;
        while i < n
            invariant
                i <= n <= lines.len(),
                n == shown_count(ls.len() as int, self@.height, start_line),
                ls == lines_view(lines@),
                ls == spec_lines(output@),
                width == self.width,
                shown == Seq::new(n as nat, |i: int| shown_line(ls[i], wrap, width)),
                highlight == spec_highlight(diff_mode, changes@),
                n <= self.height,
                n == 0 || start_line + n <= self.height,
                lines_view(buffer@) == shown.take(i as int),
                out@.len() == i,
                forall|j: int|
                    0 <= j < i ==> laid_out(
                        #[trigger] out@[j],
                        j,
                        shown[j],
                        start_line,
                        changes@,
                        highlight,
                    ),
            decreases n - i,
        {
            assert(ls[i as int] == lines@[i as int]@);
            let text = shown_line_exec(&lines[i], wrap, self.width);
            let runs = line_runs(&text, i, changes, highlight);
            let row = start_line + i as u16;
            let ghost shown_text = text@;
            let ghost before = lines_view(buffer@);
            out.push(OutputLine { row, runs });
            buffer.push(text);
            assert(lines_view(buffer@) =~= before.push(shown_text));
            assert(shown.take(i + 1) =~= shown.take(i as int).push(shown[i as int]));
            i = i + 1;
        }
        assert(shown.take(n as int) == shown);
        self.screen_buffer = buffer;
        out
    }
}


// ---------------------------------------------------------------------------
// The header.
// ---------------------------------------------------------------------------

/// The header's second line, shown when the command failed.
#[derive(Debug, Clone, Copy, PartialEq, Eq, Structural)]
pub enum Status {
    /// "Exit code: N"
    ExitCode(i32),
    /// "Command terminated by signal"
    Signal,
}

/// The header's status line: none after success, else the exit code, or the signal
/// when there is no exit code.
pub fn status_line(success: bool, exit_code: Option<i32>) -> (r: Option<Status>)
    ensures
        r == if success {
            None
        } else {
            match exit_code {
                Some(c) => Some(Status::ExitCode(c)),
                None => Some(Status::Signal),
            }
        },
{
    if success {
        None
    } else {
        match exit_code {
            Some(c) => Some(Status::ExitCode(c)),
            None => Some(Status::Signal),
        }
    }
}

/// The rows the header takes, with the blank row after it: none without a title, two
/// after success, three with a status line.
pub fn header_height(show_title: bool, success: bool) -> (r: u16)
    ensures
        r == if !show_title {
            0u16
        } else if success {
            2u16
        } else {
            3u16
        },
{
    if !show_title {
        0
    } else if success {
        2
    } else {
        3
    }
}

/// "Every {interval}: {command}"
pub open spec fn spec_header_left(interval: Seq<char>, command: Seq<char>) -> Seq<char> {
    seq!['E', 'v', 'e', 'r', 'y', ' '] + interval + seq![':', ' '] + command
}

/// The title's left part: "Every {interval}: {command}".
pub fn header_left(interval: &str, command: &str) -> (r: String)
    ensures
        r@ == spec_header_left(interval@, command@),
{
    let mut r = String::new();
    push_char(&mut r, 'E');
    push_char(&mut r, 'v');
    push_char(&mut r, 'e');
    push_char(&mut r, 'r');
    push_char(&mut r, 'y');
    push_char(&mut r, ' ');
    r.append(interval);
    push_char(&mut r, ':');
    push_char(&mut r, ' ');
    r.append(command);
    assert(r@ =~= spec_header_left(interval@, command@));
    r
}

pub open spec fn sat_sub(a: int, b: int) -> int {
    if a >= b {
        a - b
    } else {
        0
    }
}

/// The bytes left for the title's left part: the width less the time and two bytes.
pub open spec fn title_room(width: u16, time: Seq<char>) -> int {
    sat_sub(width as int, utf8_len(time) as int + 2)
}

/// The left part is longer than its room and is cut.
pub open spec fn title_cut(left: Seq<char>, width: u16, time: Seq<char>) -> bool {
    utf8_len(left) > title_room(width, time)
}

/// The left part as shown: when cut, its longest prefix within three bytes less than its
/// room, then "...".
pub open spec fn shown_left(left: Seq<char>, width: u16, time: Seq<char>) -> Seq<char> {
    if title_cut(left, width, time) {
        byte_fit(left, sat_sub(title_room(width, time), 3)) + seq!['.', '.', '.']
    } else {
        left
    }
}

/// The title can be laid out: the time's length plus two fits in 16 bits, and the shown
/// left part and the time fit in the width.
pub open spec fn title_fits(left: Seq<char>, width: u16, time: Seq<char>) -> bool {
    &&& utf8_len(time) + 2 <= u16::MAX
    &&& utf8_len(shown_left(left, width, time)) + utf8_len(time) <= width
}

/// The title line: the shown left part, then spaces (at least one) so that the time
/// ends at the right edge.
pub open spec fn spec_title(left: Seq<char>, width: u16, time: Seq<char>) -> Seq<char> {
    let pad = width - utf8_len(shown_left(left, width, time)) - utf8_len(time);
    let pad = if pad < 1 {
        1
    } else {
        pad
    };
    shown_left(left, width, time) + Seq::new(pad as nat, |i: int| ' ') + time
}

proof fn lemma_utf8_len_concat(a: Seq<char>, b: Seq<char>)
    ensures
        utf8_len(a + b) == utf8_len(a) + utf8_len(b),
    decreases b.len(),
{
    if b.len() == 0 {
        assert(a + b == a);
    } else {
        assert((a + b).drop_last() == a + b.drop_last());
        assert((a + b).last() == b.last());
        lemma_utf8_len_concat(a, b.drop_last());
    }
}

proof fn lemma_utf8_len_dots()
    ensures
        utf8_len(seq!['.', '.', '.']) == 3,
{
    assert(seq!['.', '.', '.'].drop_last() == seq!['.', '.']);
    assert(seq!['.', '.'].drop_last() == seq!['.']);
    assert(seq!['.'].drop_last() == Seq::<char>::empty());
    assert(utf8_len(Seq::<char>::empty()) == 0);
    assert(utf8_len(seq!['.']) == 1);
    assert(utf8_len(seq!['.', '.']) == 2);
}

/// The byte length of `v` where it is at most `cap`.
fn small_utf8_len(v: &Vec<char>, cap: u16) -> (r: Option<u16>)
    ensures
        r == if utf8_len(v@) <= cap {
            Some(utf8_len(v@) as u16)
        } else {
            None::<u16>
        },
{
    let (k, bytes) = fit_prefix(v, cap as usize);
    proof {
        lemma_fit_prefix(v@, cap as int, k as int);
        assert(v@.take(v@.len() as int) == v@);
    }
    if k == v.len() {
        Some(bytes as u16)
    } else {
        None
    }
}

/// The shown left part of the title and its byte length, given the time's byte length.
fn shown_left_exec(lv: &Vec<char>, width: u16, t: u16) -> (r: (Vec<char>, u16))
    requires
        t + 2 <= u16::MAX,
    ensures
        ({
            let tl = Seq::new(t as nat, |i: int| ' ');
            &&& r.0@ == shown_left(lv@, width, tl)
            &&& r.1 == utf8_len(r.0@)
        }),
{
    let ghost tl = Seq::new(t as nat, |i: int| ' ');
    proof {
        lemma_utf8_len_spaces(t as nat);
    }
    let room: u16 = if width >= t + 2 {
        width - t - 2
    } else {
        0
    };
    assert(room == title_room(width, tl));
    let (k, bytes) = fit_prefix(lv, room as usize);
    proof {
        lemma_fit_prefix(lv@, room as int, k as int);
    }
    if k == lv.len() {
        assert(lv@.take(lv@.len() as int) == lv@);
        let all = prefix_chars(lv, k);
        return (all, bytes as u16);
    }
    let cut_at: u16 = if room >= 3 {
        room - 3
    } else {
        0
    };
    let (k3, bytes3) = fit_prefix(lv, cut_at as usize);
    proof {
        lemma_fit_prefix(lv@, cut_at as int, k3 as int);
    }
    let mut p = prefix_chars(lv, k3);
    let ghost pre = p@;
    p.push('.');
    p.push('.');
    p.push('.');
    assert(p@ =~= pre + seq!['.', '.', '.']);
    proof {
        lemma_utf8_len_concat(pre, seq!['.', '.', '.']);
        lemma_utf8_len_dots();
    }
    (p, bytes3 as u16 + 3)
}

/// The shown left part does not depend on the time's characters, only on its length.
proof fn lemma_shown_left_time_len(left: Seq<char>, width: u16, t1: Seq<char>, t2: Seq<char>)
    requires
        utf8_len(t1) == utf8_len(t2),
    ensures
        shown_left(left, width, t1) == shown_left(left, width, t2),
{
}

/// Whether the title can be laid out (see `title_fits`).
pub fn can_title(left: &str, time: &str, width: u16) -> (r: bool)
    ensures
        r == title_fits(left@, width, time@),
{
    let tv = chars_of(time);
    let lv = chars_of(left);
    let t = match small_utf8_len(&tv, 65533) {
        Some(t) => t,
        None => {
            return false;
        },
    };
    let (_, shown_len) = shown_left_exec(&lv, width, t);
    proof {
        lemma_utf8_len_spaces(t as nat);
        lemma_shown_left_time_len(left@, width, Seq::new(t as nat, |i: int| ' '), time@);
    }
    shown_len as u32 + t as u32 <= width as u32
}

/// The title line (see `spec_title`).
pub fn title_line(left: &str, time: &str, width: u16) -> (r: String)
    requires
        title_fits(left@, width, time@),
    ensures
        r@ == spec_title(left@, width, time@),
{
    let tv = chars_of(time);
    let lv = chars_of(left);
    let t = match small_utf8_len(&tv, 65533) {
        Some(t) => t,
        None => 0,
    };
    let (shown, shown_len) = shown_left_exec(&lv, width, t);
    proof {
        lemma_utf8_len_spaces(t as nat);
        lemma_shown_left_time_len(left@, width, Seq::new(t as nat, |i: int| ' '), time@);
    }
    let mut r = string_of(&shown);
    let pad0: u16 = width - shown_len - t;
    let pad: u16 = if pad0 < 1 {
        1
    } else {
        pad0
    };
    let ghost before = r@;
    let mut i: u16 = 0;
    while i < pad
        invariant
            i <= pad,
            r@ == before + Seq::new(i as nat, |j: int| ' '),
        decreases pad - i,
    {
        push_char(&mut r, ' ');
        i = i + 1;
        assert(r@ =~= before + Seq::new(i as nat, |j: int| ' '));
    }
    r.append(time);
    assert(r@ =~= spec_title(left@, width, time@));
    r
}

// ---------------------------------------------------------------------------
// Screenshots.
// ---------------------------------------------------------------------------

impl Display {
    /// Count a screenshot and give its number and content: the lines last shown, joined
    /// by newlines.
    pub fn next_screenshot(&mut self) -> (r: (u32, String))
        requires
            old(self)@.screenshot_counter < u32::MAX,
        ensures
            r.0 == old(self)@.screenshot_counter + 1,
            r.1@ == crate::text::seq_join(old(self)@.screen_buffer, seq!['\n']),
            final(self)@ == (DisplayState { screenshot_counter: r.0, ..old(self)@ }),
    {
        self.screenshot_counter = self.screenshot_counter + 1;
        let ghost lines = lines_view(self.screen_buffer@);
        let mut content = String::new();
        let mut i: usize = 0;
        while i < self.screen_buffer.len()
            invariant
                i <= self.screen_buffer.len(),
                lines == lines_view(self.screen_buffer@),
                content@ == crate::text::seq_join(lines.take(i as int), seq!['\n']),
            decreases self.screen_buffer.len() - i,
        {
            assert(lines.take(i + 1).drop_last() == lines.take(i as int));
            if i > 0 {
                push_char(&mut content, '\n');
            }
            let line = string_of(&self.screen_buffer[i]);
            content.append(line.as_str());
            i = i + 1;
        }
        assert(lines.take(self.screen_buffer.len() as int) == lines);
        (self.screenshot_counter, content)
    }
}


/// A line shown without wrapping takes at most the width in bytes, and is a prefix of
/// the line.
pub proof fn law_shown_line_within_width(line: Seq<char>, width: u16)
    ensures
        utf8_len(shown_line(line, false, width as int)) <= width,
        shown_line(line, false, width as int).len() <= line.len(),
        shown_line(line, false, width as int) == line.take(
            shown_line(line, false, width as int).len() as int,
        ),
{
    if utf8_len(line) > width {
        lemma_fit_exists(line, width as int);
        let kstar = choose|j: int| is_fit(line, width as int, j);
        assert(is_fit(line, width as int, kstar));
    } else {
        assert(line.take(line.len() as int) == line);
    }
}

/// Some prefix of every line fits in any non-negative number of bytes.
proof fn lemma_fit_exists(line: Seq<char>, w: int)
    requires
        w >= 0,
    ensures
        exists|k: int| is_fit(line, w, k),
{
    // the empty prefix takes no byte; extend it while the next character fits
    assert(line.take(0) =~= Seq::<char>::empty());
    lemma_fit_exists_from(line, w, 0);
}

proof fn lemma_fit_exists_from(line: Seq<char>, w: int, k: int)
    requires
        0 <= k <= line.len(),
        utf8_len(line.take(k)) <= w,
    ensures
        exists|j: int| is_fit(line, w, j),
    decreases line.len() - k,
{
    if k == line.len() {
        assert(is_fit(line, w, k));
    } else if utf8_len(line.take(k + 1)) > w {
        assert(is_fit(line, w, k));
    } else {
        lemma_fit_exists_from(line, w, k + 1);
    }
}

proof fn lemma_utf8_len_spaces(n: nat)
    ensures
        utf8_len(Seq::new(n, |i: int| ' ')) == n,
    decreases n,
{
    if n > 0 {
        assert(Seq::new(n, |i: int| ' ').drop_last() =~= Seq::new((n - 1) as nat, |i: int| ' '));
        lemma_utf8_len_spaces((n - 1) as nat);
    }
}

/// The title puts the time at the right edge: it takes exactly the width in bytes,
/// unless not even one space fits between its parts.
pub proof fn law_title_right_aligned(left: Seq<char>, width: u16, time: Seq<char>)
    requires
        title_fits(left, width, time),
    ensures
        utf8_len(spec_title(left, width, time)) == if utf8_len(shown_left(left, width, time))
            + utf8_len(time) < width {
            width as int
        } else {
            (utf8_len(shown_left(left, width, time)) + utf8_len(time) + 1) as int
        },
{
    let sl = shown_left(left, width, time);
    let pad = width - utf8_len(sl) - utf8_len(time);
    let pad = if pad < 1 {
        1
    } else {
        pad
    };
    let spaces = Seq::new(pad as nat, |i: int| ' ');
    lemma_utf8_len_concat(sl, spaces);
    lemma_utf8_len_concat(sl + spaces, time);
    lemma_utf8_len_spaces(pad as nat);
}

/// A Space key means Refresh whatever its modifiers; `q` without modifiers and Ctrl-C mean
/// Quit; `s` without modifiers means Screenshot; a resize means Resize.
pub proof fn law_key_meanings(m: u8)
    ensures
        spec_input_event(TermEvent::Key { ch: Some(' '), modifiers: m }) == InputEvent::Refresh,
        spec_input_event(TermEvent::Key { ch: Some('q'), modifiers: 0 }) == InputEvent::Quit,
        spec_input_event(TermEvent::Key { ch: Some('c'), modifiers: 0b0000_0010 })
            == InputEvent::Quit,
        spec_input_event(TermEvent::Key { ch: Some('s'), modifiers: 0 }) == InputEvent::Screenshot,
        spec_input_event(TermEvent::Resize) == InputEvent::Resize,
{
}

/// In a laid-out line, a character is drawn highlighted exactly when a highlighting mode is
/// on (normal or permanent) and its position (line, column) is in the change set.
pub proof fn law_highlighted_exactly_the_changed_positions(
    l: OutputLine,
    idx: int,
    line: Seq<char>,
    start_line: u16,
    diff_mode: DiffMode,
    changes: Set<ChangedPosition>,
    k: int,
)
    requires
        laid_out(l, idx, line, start_line, changes, spec_highlight(diff_mode, changes)),
        0 <= k < line.len(),
    ensures
        runs_text(l.runs@)[k] == line[k],
        runs_marks(l.runs@)[k] == (diff_mode != DiffMode::Disabled && changes.contains(
            ChangedPosition { line: idx as usize, col: k as usize },
        )),
{
}

} // verus!
