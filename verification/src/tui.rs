//! The terminal client: its keys, its scrolling and its lines of status.
use crate::session::{find_id, position_of, slot_of, step_subtab, stepped, Phase};
use crate::text::{
    cat, chars_of, is_space, lines, lines_of, spaces, string_of, trim_start, trim_start_str, views,
};
use crate::wire::ApprovalResponseKind;
use vstd::prelude::*;
use vstd::string::*;

verus! {

// ------------------------------------------------------------------------ keys

/// What lies over the transcript and has the keyboard.
#[derive(Clone, Copy, Debug, PartialEq, Eq, Structural)]
pub enum Overlay {
    Nothing,
    Approval,
    Resume,
}

/// A key.
#[derive(Clone, Copy, Debug, PartialEq, Eq, Structural)]
pub enum Key {
    Char(char),
    Esc,
    Tab,
    Enter,
    Backspace,
    Delete,
    Left,
    Right,
    Home,
    End,
    PageUp,
    PageDown,
    Up,
    Down,
    Other,
}

/// The keys that are held with another.
#[derive(Clone, Copy, Debug, PartialEq, Eq, Structural)]
pub struct Modifiers {
    pub control: bool,
    /// Any key but control.
    pub others: bool,
}

/// A change of the line that is typed.
#[derive(Clone, Copy, Debug, PartialEq, Eq, Structural)]
pub enum EditOp {
    Backspace,
    Delete,
    Left,
    Right,
    Home,
    End,
    Insert(char),
}

/// What a key asks for.
#[derive(Clone, Copy, Debug, PartialEq, Eq, Structural)]
pub enum KeyAction {
    Nothing,
    Quit,
    OpenResumeMenu,
    CancelTurn,
    CycleSubtab,
    Submit,
    Edit(EditOp),
    Scroll(i32),
    /// Answer the approval, and take its overlay away.
    Answer(ApprovalResponseKind),
    CloseOverlay,
    ResumeDown,
    ResumeUp,
    ResumePick,
}

/// What a key asks for while nothing lies over the transcript.
pub open spec fn main_key(key: Key, mods: Modifiers, line_empty: bool) -> KeyAction {
    let none = !mods.control && !mods.others;
    match key {
        Key::Char(c) => if c == 'c' && mods.control {
            KeyAction::Quit
        } else if c == 'o' && mods.control && !mods.others {
            KeyAction::OpenResumeMenu
        } else if c == 'q' && none && line_empty {
            KeyAction::Quit
        } else {
            KeyAction::Edit(EditOp::Insert(c))
        },
        Key::Esc => KeyAction::CancelTurn,
        Key::Tab => KeyAction::CycleSubtab,
        Key::Enter => KeyAction::Submit,
        Key::PageUp => KeyAction::Scroll(-20i32),
        Key::PageDown => KeyAction::Scroll(20i32),
        Key::Backspace if none => KeyAction::Edit(EditOp::Backspace),
        Key::Delete if none => KeyAction::Edit(EditOp::Delete),
        Key::Left if none => KeyAction::Edit(EditOp::Left),
        Key::Right if none => KeyAction::Edit(EditOp::Right),
        Key::Home if none => KeyAction::Edit(EditOp::Home),
        Key::End if none => KeyAction::Edit(EditOp::End),
        _ => KeyAction::Nothing,
    }
}

/// What a key asks for while an approval waits.
pub open spec fn approval_key(key: Key) -> KeyAction {
    match key {
        Key::Char('1') => KeyAction::Answer(ApprovalResponseKind::Approve),
        Key::Char('2') => KeyAction::Answer(ApprovalResponseKind::ApproveForSession),
        Key::Char('3') => KeyAction::Answer(ApprovalResponseKind::Reject),
        Key::Esc => KeyAction::CloseOverlay,
        _ => KeyAction::Nothing,
    }
}

/// What a key asks for in the menu of past sessions.
pub open spec fn resume_key(key: Key) -> KeyAction {
    match key {
        Key::Esc => KeyAction::CloseOverlay,
        Key::Down => KeyAction::ResumeDown,
        Key::Up => KeyAction::ResumeUp,
        Key::Enter => KeyAction::ResumePick,
        _ => KeyAction::Nothing,
    }
}

/// What a key asks for. Letting a key go asks for nothing.
pub fn key_action(overlay: Overlay, key: Key, mods: Modifiers, released: bool, line_empty: bool) -> (res:
    KeyAction)
    ensures
        res == if released {
            KeyAction::Nothing
        } else {
            match overlay {
                Overlay::Approval => approval_key(key),
                Overlay::Resume => resume_key(key),
                Overlay::Nothing => main_key(key, mods, line_empty),
            }
        },
{
    if released {
        return KeyAction::Nothing;
    }
    match overlay {
        Overlay::Approval => match key {
            Key::Char(c) => if c == '1' {
                KeyAction::Answer(ApprovalResponseKind::Approve)
            } else if c == '2' {
                KeyAction::Answer(ApprovalResponseKind::ApproveForSession)
            } else if c == '3' {
                KeyAction::Answer(ApprovalResponseKind::Reject)
            } else {
                KeyAction::Nothing
            },
            Key::Esc => KeyAction::CloseOverlay,
            _ => KeyAction::Nothing,
        },
        Overlay::Resume => match key {
            Key::Esc => KeyAction::CloseOverlay,
            Key::Down => KeyAction::ResumeDown,
            Key::Up => KeyAction::ResumeUp,
            Key::Enter => KeyAction::ResumePick,
            _ => KeyAction::Nothing,
        },
        Overlay::Nothing => {
            let none: bool = !mods.control && !mods.others;
            match key {
                Key::Char(c) => if c == 'c' && mods.control {
                    KeyAction::Quit
                } else if c == 'o' && mods.control && !mods.others {
                    KeyAction::OpenResumeMenu
                } else if c == 'q' && none && line_empty {
                    KeyAction::Quit
                } else {
                    KeyAction::Edit(EditOp::Insert(c))
                },
                Key::Esc => KeyAction::CancelTurn,
                Key::Tab => KeyAction::CycleSubtab,
                Key::Enter => KeyAction::Submit,
                Key::PageUp => KeyAction::Scroll(-20),
                Key::PageDown => KeyAction::Scroll(20),
                Key::Backspace if none => KeyAction::Edit(EditOp::Backspace),
                Key::Delete if none => KeyAction::Edit(EditOp::Delete),
                Key::Left if none => KeyAction::Edit(EditOp::Left),
                Key::Right if none => KeyAction::Edit(EditOp::Right),
                Key::Home if none => KeyAction::Edit(EditOp::Home),
                Key::End if none => KeyAction::Edit(EditOp::End),
                _ => KeyAction::Nothing,
            }
        },
    }
}

/// How far one notch of the wheel scrolls.
pub fn wheel_delta(up: bool) -> (res: i32)
    ensures
        res == if up {
            -3i32
        } else {
            3i32
        },
{
    if up {
        -3
    } else {
        3
    }
}

// ------------------------------------------------------------------- scrolling

/// What of a transcript is on the screen.
pub struct Viewport {
    /// How many rows the transcript was wrapped into.
    pub rows: usize,
    /// The width they were wrapped at.
    pub width: u16,
    /// The version of the transcript they were made from.
    pub version: u64,
    /// The subagent they were made from; `None` for the main transcript.
    pub source: Option<usize>,
    /// Whether rows were made at all.
    pub made: bool,
    /// The row behind the last one on the screen. Where it is `rows`, the view is
    /// pinned to the live end.
    pub scroll_bottom: usize,
}

/// The larger of `n` and one.
pub open spec fn at_least_one(n: int) -> int {
    if n < 1 {
        1
    } else {
        n
    }
}

/// `x`, kept between `low` and `high`.
pub open spec fn kept_between(x: int, low: int, high: int) -> int {
    if x < low {
        low
    } else if x > high {
        high
    } else {
        x
    }
}

impl Viewport {
    /// The view does not reach beyond the rows.
    pub open spec fn wf(&self) -> bool {
        self.scroll_bottom <= at_least_one(self.rows as int)
    }

    /// Whether the view follows what is added at the end.
    pub open spec fn pinned(&self) -> bool {
        self.scroll_bottom >= self.rows
    }

    /// A view of nothing.
    pub fn new() -> (res: Viewport)
        ensures
            res.wf(),
            res.pinned(),
            res == (Viewport {
                rows: 0,
                width: 0,
                version: 0,
                source: None,
                made: false,
                scroll_bottom: 0,
            }),
    {
        Viewport { rows: 0, width: 0, version: 0, source: None, made: false, scroll_bottom: 0 }
    }

    /// Whether the rows have to be made anew: there are none yet, or their content,
    /// their width or their source has changed.
    pub fn needs_rebuild(&self, width: u16, version: u64, source: Option<usize>) -> (res: bool)
        ensures
            res == (!self.made || self.width != width || self.version != version || self.source
                != source),
    {
        let same_source: bool = match (self.source, source) {
            (Some(a), Some(b)) => a == b,
            (None, None) => true,
            _ => false,
        };
        !self.made || self.width != width || self.version != version || !same_source
    }

    /// Takes over the rows that were made anew. A pinned view follows the end;
    /// another keeps its distance from it.
    pub fn rebuilt(&mut self, rows: usize, width: u16, version: u64, source: Option<usize>)
        requires
            old(self).wf(),
        ensures
            final(self).wf(),
            final(self).rows == rows && final(self).width == width && final(self).version
                == version && final(self).source == source && final(self).made,
            view_rebuilt(*old(self), rows as int, *final(self)),
    {
        let scroll_bottom: usize = if self.scroll_bottom >= self.rows {
            rows
        } else {
            let from_end: usize = self.rows - self.scroll_bottom;
            if from_end < rows {
                rows - from_end
            } else {
                0
            }
        };
        self.rows = rows;
        self.width = width;
        self.version = version;
        self.source = source;
        self.made = true;
        self.scroll_bottom = scroll_bottom;
    }

    /// Moves the view, within the rows.
    pub fn scroll_by(&mut self, delta: i32)
        ensures
            *final(self) == (Viewport { scroll_bottom: final(self).scroll_bottom, ..*old(self) }),
            view_scrolled(*old(self), delta as int, *final(self)),
            final(self).wf(),
    {
        let top: usize = if self.rows < 1 {
            1
        } else {
            self.rows
        };
        let moved: usize = if delta < 0 {
            let up: usize = (-(delta as i64)) as usize;
            if self.scroll_bottom > up {
                self.scroll_bottom - up
            } else {
                1
            }
        } else {
            self.scroll_bottom.saturating_add(delta as usize)
        };
        self.scroll_bottom = if moved < 1 {
            1
        } else if moved > top {
            top
        } else {
            moved
        };
    }

    /// Forces the rows to be made anew.
    pub fn forget_source(&mut self)
        ensures
            *final(self) == (Viewport { made: false, ..*old(self) }),
    {
        self.made = false;
    }

    /// The rows that are on a screen of that height: the first of them, and the
    /// one behind the last.
    pub fn visible(&self, height: usize) -> (res: (usize, usize))
        ensures
            res.1 == (if self.scroll_bottom < self.rows {
                self.scroll_bottom
            } else {
                self.rows
            }),
            res.0 == (if res.1 > height {
                res.1 - height
            } else {
                0
            }),
            res.0 <= res.1 <= self.rows,
    {
        let bottom: usize = if self.scroll_bottom < self.rows {
            self.scroll_bottom
        } else {
            self.rows
        };
        let top: usize = if bottom > height {
            bottom - height
        } else {
            0
        };
        (top, bottom)
    }
}

/// A view that is pinned to the live end stays there as rows are added; one that
/// was scrolled up shows the same distance from the end.
pub proof fn law_scrolling_keeps_its_place(before: Viewport, rows: int, bottom: int)
    requires
        before.wf(),
        rows >= before.rows,
        bottom == (if before.pinned() {
            rows
        } else {
            let from_end = before.rows - before.scroll_bottom;
            if from_end < rows {
                rows - from_end
            } else {
                0
            }
        }),
    ensures
        before.pinned() ==> bottom == rows,
        !before.pinned() && before.scroll_bottom > 0 ==> rows - bottom == before.rows
            - before.scroll_bottom,
{
}

/// The subagent on view after another: main, each subagent, and round to main.
pub fn cycle_view(active: Option<&str>, ids: &[String]) -> (res: Option<String>)
    requires
        2 * ids@.len() + 1 <= usize::MAX,
    ensures
        ({
            let current = match active {
                Some(id) => position_of(ids@, id@, 0),
                None => None,
            };
            let next = stepped(slot_of(current), ids@.len() as int, true);
            res == if next == 0 {
                None
            } else {
                Some(ids@[next - 1])
            }
        }),
{
    let current: Option<usize> = match active {
        Some(id) => find_id(ids, id),
        None => None,
    };
    match step_subtab(current, ids.len(), true) {
        Some(index) => Some(ids[index].clone()),
        None => None,
    }
}

// ------------------------------------------------------ the menu of past sessions

/// The menu of past sessions.
pub struct ResumeMenu {
    pub ids: Vec<String>,
    pub cursor: usize,
    pub loading: bool,
}

impl ResumeMenu {
    /// A menu that is being filled. The entries of the last one stay until then.
    pub fn open(&mut self)
        ensures
            final(self).ids == old(self).ids,
            final(self).cursor == 0,
            final(self).loading,
    {
        self.cursor = 0;
        self.loading = true;
    }

    /// Takes over a listing, or the news that there is none.
    pub fn listed(&mut self, ids: Option<Vec<String>>)
        ensures
            !final(self).loading,
            final(self).cursor == old(self).cursor,
            match ids {
                Some(list) => final(self).ids == list,
                None => final(self).ids == old(self).ids,
            },
    {
        if let Some(list) = ids {
            self.ids = list;
        }
        self.loading = false;
    }

    /// Moves the cursor down, to the last entry at most.
    pub fn down(&mut self)
        ensures
            moved_down(*old(self), *final(self)),
    {
        let count: usize = self.ids.len();
        if count > 0 {
            self.cursor = if self.cursor < count - 1 {
                self.cursor + 1
            } else {
                count - 1
            };
        }
    }

    /// Moves the cursor up, to the first entry at most.
    pub fn up(&mut self)
        ensures
            moved_up(*old(self), *final(self)),
    {
        if self.cursor > 0 {
            self.cursor = self.cursor - 1;
        }
    }

    /// The arguments with which the session under the cursor is resumed.
    pub fn pick(&self) -> (res: Option<String>)
        ensures
            if self.cursor < self.ids@.len() {
                res matches Some(args) && args@ == "--session "@ + self.ids@[self.cursor as int]@
            } else {
                res is None
            },
    {
        if self.cursor < self.ids.len() {
            Some(cat("--session ", &self.ids[self.cursor]))
        } else {
            None
        }
    }
}

// ---------------------------------------------------------------------- layout

/// A rectangle of a screen.
#[derive(Clone, Copy, Debug, PartialEq, Eq, Structural)]
pub struct Rect {
    pub x: u16,
    pub y: u16,
    pub width: u16,
    pub height: u16,
}

/// The smaller of two numbers.
pub open spec fn smaller(a: int, b: int) -> int {
    if a < b {
        a
    } else {
        b
    }
}

/// A rectangle of that size in the middle of another, cut to fit into it.
pub fn centered_rect(outer: Rect, w: u16, h: u16) -> (res: Rect)
    requires
        outer.x + (outer.width - smaller(w as int, outer.width as int)) / 2 <= u16::MAX,
        outer.y + (outer.height - smaller(h as int, outer.height as int)) / 2 <= u16::MAX,
    ensures
        res.width == smaller(w as int, outer.width as int),
        res.height == smaller(h as int, outer.height as int),
        res.x == outer.x + (outer.width - res.width) / 2,
        res.y == outer.y + (outer.height - res.height) / 2,
        outer.x <= res.x && res.x + res.width <= outer.x + outer.width,
        outer.y <= res.y && res.y + res.height <= outer.y + outer.height,
{
    let width: u16 = if w < outer.width {
        w
    } else {
        outer.width
    };
    let height: u16 = if h < outer.height {
        h
    } else {
        outer.height
    };
    Rect {
        x: outer.x + (outer.width - width) / 2,
        y: outer.y + (outer.height - height) / 2,
        width,
        height,
    }
}

/// The size of the approval's overlay on a screen of that size.
pub fn approval_size(width: u16, height: u16) -> (res: (u16, u16))
    ensures
        res.0 == smaller(
            if width < 48 {
                40
            } else {
                width - 8
            },
            width as int,
        ),
        res.1 == smaller(
            if height < 15 {
                9
            } else {
                height - 6
            },
            height as int,
        ),
{
    let w: u16 = if width < 48 {
        40
    } else {
        width - 8
    };
    let h: u16 = if height < 15 {
        9
    } else {
        height - 6
    };
    (
        if w < width {
            w
        } else {
            width
        },
        if h < height {
            h
        } else {
            height
        },
    )
}

/// How long the client waits for something to happen, in milliseconds: not long
/// while something is shown to be moving.
pub fn wait_millis(phase: &Phase) -> (res: u64)
    ensures
        res == match *phase {
            Phase::Running | Phase::Initializing | Phase::Replaying => 120u64,
            _ => 3_600_000u64,
        },
{
    match phase {
        Phase::Running | Phase::Initializing | Phase::Replaying => 120,
        _ => 3_600_000,
    }
}

/// What the rule over the input says of the phase.
pub open spec fn phase_hint(phase: Phase) -> Seq<char> {
    match phase {
        Phase::Ready => ""@,
        Phase::Running => "working · Esc cancels · Enter steers"@,
        Phase::Initializing => "initializing"@,
        Phase::Replaying => "loading history"@,
        Phase::Failed(_) => "failed"@,
    }
}

/// What the rule over the input says: what is on view, and the phase.
pub fn input_label(phase: &Phase, subagent: Option<&str>) -> (res: String)
    ensures
        res@ == "input"@ + (match subagent {
            Some(title) => " · "@ + title@,
            None => ""@,
        }) + (if phase is Ready {
            ""@
        } else {
            " · "@ + phase_hint(*phase)
        }),
{
    let hint: &str = match phase {
        Phase::Ready => "",
        Phase::Running => "working · Esc cancels · Enter steers",
        Phase::Initializing => "initializing",
        Phase::Replaying => "loading history",
        Phase::Failed(_) => "failed",
    };
    let view: String = match subagent {
        Some(title) => cat(" · ", title),
        None => "".to_owned(),
    };
    let mut label: String = cat("input", &view);
    let end: String = if matches!(phase, Phase::Ready) {
        "".to_owned()
    } else {
        cat(" · ", hint)
    };
    label.append(&end);
    label
}

/// What the status line says of the phase.
pub open spec fn phase_status(phase: Phase) -> Seq<char> {
    match phase {
        Phase::Initializing => "· initializing"@,
        Phase::Replaying => "· loading history"@,
        Phase::Running => "▶ working"@,
        Phase::Ready => "ready"@,
        Phase::Failed(err) => "✗ "@ + (if lines(err@).len() > 0 {
            lines(err@)[0]
        } else {
            "failed"@
        }),
    }
}

/// The left end of the status line.
pub open spec fn status_left(phase: Phase, approval_pending: bool) -> Seq<char> {
    if approval_pending {
        phase_status(phase) + " · approval pending"@
    } else {
        phase_status(phase)
    }
}

/// The right end of the status line.
pub open spec fn status_right(
    model: Option<Seq<char>>,
    yolo: bool,
    context: Option<Seq<char>>,
) -> Seq<char> {
    let a = match model {
        Some(m) => m,
        None => seq![],
    };
    let b = if yolo {
        a + " · yolo"@
    } else {
        a
    };
    match context {
        Some(label) => b + " · "@ + label,
        None => b,
    }
}

/// `a` less `b`, but not below zero.
pub open spec fn less(a: int, b: int) -> int {
    if a > b {
        a - b
    } else {
        0
    }
}

/// A status line of that width: both ends stay visible, and the left one is cut
/// where they do not fit.
pub open spec fn status_text(left: Seq<char>, right: Seq<char>, width: int) -> Seq<char> {
    let budget = less(width, 4);
    let kept = less(budget, right.len() as int + 6);
    let shown = if left.len() + right.len() + 3 > budget {
        left.take(smaller(kept, left.len() as int)).push('…')
    } else {
        left
    };
    let gap = at_least_one(less(budget, (shown.len() + right.len()) as int));
    shown + spaces(gap) + trim_start(right)
}

fn write_spaces(n: usize) -> (res: String)
    ensures
        res@ == spaces(n as int),
{
    let mut res: String = String::new();
    let mut i: usize = 0;
    proof {
        assert(res@ =~= spaces(0));
    }
    while i < n
        invariant
            i <= n,
            res@ == spaces(i as int),
        decreases n - i,
    {
        res.push(' ');
        proof {
            assert(res@ =~= spaces(i + 1));
        }
        i += 1;
    }
    res
}

fn write_status_left(phase: &Phase, approval_pending: bool) -> (res: String)
    ensures
        res@ == status_left(*phase, approval_pending),
{
    let mut left: String = match phase {
        Phase::Initializing => "· initializing".to_owned(),
        Phase::Replaying => "· loading history".to_owned(),
        Phase::Running => "▶ working".to_owned(),
        Phase::Ready => "ready".to_owned(),
        Phase::Failed(err) => {
            let all: Vec<String> = lines_of(err);
            proof {
                assert(views(all@).len() == all@.len());
                if all@.len() > 0 {
                    assert(views(all@)[0] == all@[0]@);
                }
            }
            if all.len() > 0 {
                cat("✗ ", &all[0])
            } else {
                cat("✗ ", "failed")
            }
        },
    };
    if approval_pending {
        left.append(" · approval pending");
    }
    left
}

fn write_status_right(model: Option<&str>, yolo: bool, context: Option<&str>) -> (res: String)
    ensures
        res@ == status_right(str_view(model), yolo, str_view(context)),
{
    let mut right: String = match model {
        Some(m) => m.to_owned(),
        None => String::new(),
    };
    proof {
        if model is None {
            assert(right@ =~= seq![]);
        }
    }
    if yolo {
        right.append(" · yolo");
    }
    if let Some(label) = context {
        right.append(" · ");
        right.append(label);
    }
    right
}

/// An optional text by its characters.
pub open spec fn str_view(s: Option<&str>) -> Option<Seq<char>> {
    match s {
        Some(t) => Some(t@),
        None => None,
    }
}

/// The left end of a status line, cut where it does not fit beside a right end
/// of that length.
fn cut_left(left: String, right_len: usize, budget: usize) -> (res: String)
    ensures
        res@ == (if left@.len() + right_len + 3 > budget {
            left@.take(
                smaller(less(budget as int, right_len + 6), left@.len() as int),
            ).push('…')
        } else {
            left@
        }),
{
    let chars: Vec<char> = chars_of(&left);
    let room: usize = if budget > right_len {
        budget - right_len
    } else {
        0
    };
    if room >= 3 && chars.len() <= room - 3 {
        return left;
    }
    let kept: usize = if room > 6 {
        room - 6
    } else {
        0
    };
    let cut: usize = if kept < chars.len() {
        kept
    } else {
        chars.len()
    };
    let mut res: String = string_of(&chars, 0, cut);
    res.push('…');
    res
}

/// The status line.
pub fn status_line(
    phase: &Phase,
    approval_pending: bool,
    model: Option<&str>,
    yolo: bool,
    context: Option<&str>,
    width: u16,
) -> (res: String)
    ensures
        res@ == status_text(
            status_left(*phase, approval_pending),
            status_right(str_view(model), yolo, str_view(context)),
            width as int,
        ),
{
    let left: String = write_status_left(phase, approval_pending);
    let right: String = write_status_right(model, yolo, context);
    let budget: usize = if width > 4 {
        (width - 4) as usize
    } else {
        0
    };
    let right_len: usize = right.as_str().unicode_len();
    let shown: String = cut_left(left, right_len, budget);
    let shown_len: usize = shown.as_str().unicode_len();
    let gap: usize = if right_len < budget && shown_len < budget - right_len {
        budget - right_len - shown_len
    } else {
        1
    };
    let mut line: String = shown;
    line.append(&write_spaces(gap));
    line.append(&trim_start_str(&right));
    line
}

/// Where a view is once its rows were made anew.
pub open spec fn view_rebuilt(before: Viewport, rows: int, after: Viewport) -> bool {
    after.scroll_bottom == if before.pinned() {
        rows
    } else {
        let from_end = before.rows - before.scroll_bottom;
        if from_end < rows {
            rows - from_end
        } else {
            0
        }
    }
}

/// Where a view is once it was moved.
pub open spec fn view_scrolled(before: Viewport, delta: int, after: Viewport) -> bool {
    after.scroll_bottom == kept_between(
        before.scroll_bottom + delta,
        1,
        at_least_one(before.rows as int),
    )
}

/// A view at the end stays at the end of what is made anew, and another keeps its distance
/// from it; moving goes as far as asked for, and never beyond the rows.
pub proof fn law_where_a_view_is(
    before: Viewport,
    rows: int,
    rebuilt: Viewport,
    delta: int,
    scrolled: Viewport,
)
    requires
        before.wf(),
        rows >= 0,
        view_rebuilt(before, rows, rebuilt),
        view_scrolled(before, delta, scrolled),
    ensures
        before.scroll_bottom >= before.rows ==> rebuilt.scroll_bottom == rows,
        before.scroll_bottom < before.rows && before.rows - before.scroll_bottom < rows ==> rows
            - rebuilt.scroll_bottom == before.rows - before.scroll_bottom,
        scrolled.scroll_bottom >= 1,
        scrolled.scroll_bottom <= before.rows || scrolled.scroll_bottom == 1,
        1 <= before.scroll_bottom + delta <= before.rows ==> scrolled.scroll_bottom
            == before.scroll_bottom + delta,
        before.scroll_bottom + delta > before.rows && before.rows >= 1 ==> scrolled.scroll_bottom
            == before.rows,
{
}

/// What is on the screen ends where the view does and begins no more than a screen before
/// it.
pub proof fn law_what_is_on_the_screen(view: Viewport, height: usize, res: (usize, usize))
    requires
        call_ensures(Viewport::visible, (&view, height), res),
    ensures
        res.0 <= res.1 <= view.rows,
        res.1 - res.0 <= height,
        view.scroll_bottom <= view.rows ==> res.1 == view.scroll_bottom,
        view.scroll_bottom > view.rows ==> res.1 == view.rows,
        res.1 >= height ==> res.1 - res.0 == height,
        res.1 < height ==> res.0 == 0,
{
}

/// Rows are made anew exactly where there are none or their content, width or source has
/// changed.
pub proof fn law_when_rows_are_made_anew(
    view: Viewport,
    width: u16,
    version: u64,
    source: Option<usize>,
    res: bool,
)
    requires
        call_ensures(Viewport::needs_rebuild, (&view, width, version, source), res),
    ensures
        !res <==> view.made && view.width == width && view.version == version && view.source
            == source,
{
}

/// A key that is let go does nothing. Over the transcript `Ctrl-C` quits, as `q` does on an
/// empty line, `Esc` cancels, `Enter` submits and any other character is typed.
pub proof fn law_what_keys_do(
    overlay: Overlay,
    key: Key,
    mods: Modifiers,
    released: bool,
    line_empty: bool,
    res: KeyAction,
)
    requires
        call_ensures(key_action, (overlay, key, mods, released, line_empty), res),
    ensures
        released ==> res is Nothing,
        !released && overlay is Nothing ==> {
            &&& key == Key::Char('c') && mods.control ==> res is Quit
            &&& key == Key::Char('q') && !mods.control && !mods.others && line_empty ==> res is Quit
            &&& key == Key::Char('q') && !mods.control && !mods.others && !line_empty ==> res
                == KeyAction::Edit(EditOp::Insert('q'))
            &&& key == Key::Char('o') && mods.control && !mods.others ==> res is OpenResumeMenu
            &&& key matches Key::Char(c) ==> !mods.control && c != 'q' ==> res == KeyAction::Edit(
                EditOp::Insert(c),
            )
            &&& key is Esc ==> res is CancelTurn
            &&& key is Enter ==> res is Submit
            &&& key is Tab ==> res is CycleSubtab
            &&& key is PageUp ==> res == KeyAction::Scroll(-20i32)
            &&& key is PageDown ==> res == KeyAction::Scroll(20i32)
            &&& key is Backspace && !mods.control && !mods.others ==> res == KeyAction::Edit(
                EditOp::Backspace,
            )
            &&& key is Left && !mods.control && !mods.others ==> res == KeyAction::Edit(EditOp::Left)
            &&& key is Right && !mods.control && !mods.others ==> res == KeyAction::Edit(
                EditOp::Right,
            )
        },
        !released && overlay is Approval ==> {
            &&& key == Key::Char('1') ==> res == KeyAction::Answer(ApprovalResponseKind::Approve)
            &&& key == Key::Char('2') ==> res == KeyAction::Answer(
                ApprovalResponseKind::ApproveForSession,
            )
            &&& key == Key::Char('3') ==> res == KeyAction::Answer(ApprovalResponseKind::Reject)
            &&& key is Esc ==> res is CloseOverlay
            &&& res is Answer ==> key == Key::Char('1') || key == Key::Char('2') || key
                == Key::Char('3')
        },
        !released && overlay is Resume ==> {
            &&& key is Down ==> res is ResumeDown
            &&& key is Up ==> res is ResumeUp
            &&& key is Enter ==> res is ResumePick
            &&& key is Esc ==> res is CloseOverlay
        },
{
}

/// A session is resumed by the id under the cursor, where there is one.
pub proof fn law_which_session_is_resumed(menu: ResumeMenu, res: Option<String>)
    requires
        call_ensures(ResumeMenu::pick, (&menu,), res),
    ensures
        res is Some <==> menu.cursor < menu.ids@.len(),
        res matches Some(args) ==> args@ == "--session "@ + menu.ids@[menu.cursor as int]@,
{
}

/// A popup lies within what it lies over, no larger than asked for, and as far from one
/// side as from the other, to a column or row.
pub proof fn law_a_popup_is_centered(outer: Rect, w: u16, h: u16, res: Rect)
    requires
        call_ensures(centered_rect, (outer, w, h), res),
    ensures
        res.width <= w && res.width <= outer.width && (res.width == w || res.width == outer.width),
        res.height <= h && res.height <= outer.height && (res.height == h || res.height
            == outer.height),
        0 <= (outer.x + outer.width - (res.x + res.width)) - (res.x - outer.x) <= 1,
        0 <= (outer.y + outer.height - (res.y + res.height)) - (res.y - outer.y) <= 1,
{
}

/// How the cursor goes down the list.
pub open spec fn moved_down(before: ResumeMenu, after: ResumeMenu) -> bool {
    &&& after.ids == before.ids && after.loading == before.loading
    &&& after.cursor == (if before.ids@.len() == 0 {
        before.cursor as int
    } else if before.cursor + 1 < before.ids@.len() {
        before.cursor + 1
    } else {
        before.ids@.len() - 1
    })
}

/// How the cursor goes up the list.
pub open spec fn moved_up(before: ResumeMenu, after: ResumeMenu) -> bool {
    &&& after.ids == before.ids && after.loading == before.loading
    &&& after.cursor == (if before.cursor > 0 {
        before.cursor - 1
    } else {
        0
    })
}

/// The cursor goes one entry at a time and stays on the list: at its ends it stops,
/// and elsewhere a step up undoes a step down.
pub proof fn law_the_cursor_stays_on_the_list(
    before: ResumeMenu,
    below: ResumeMenu,
    above: ResumeMenu,
    back: ResumeMenu,
)
    requires
        before.cursor < before.ids@.len(),
        moved_down(before, below),
        moved_up(before, above),
        moved_up(below, back),
    ensures
        below.ids == before.ids && above.ids == before.ids,
        before.cursor + 1 == before.ids@.len() ==> below.cursor == before.cursor,
        before.cursor + 1 < before.ids@.len() ==> below.cursor > before.cursor && back == before,
        before.cursor == 0 ==> above.cursor == 0,
        before.cursor > 0 ==> above.cursor + 1 == before.cursor,
        below.cursor < before.ids@.len() && above.cursor < before.ids@.len(),
{
}

/// The window for an approval is never larger than the screen. On a screen that is
/// large enough it leaves a margin of four columns and three rows on each side, and
/// it is no smaller than 40 by 9 where that fits.
pub proof fn law_an_approval_fits_the_screen(width: u16, height: u16, res: (u16, u16))
    requires
        call_ensures(approval_size, (width, height), res),
    ensures
        res.0 <= width && res.1 <= height,
        width >= 40 ==> res.0 >= 40,
        height >= 9 ==> res.1 >= 9,
        width < 40 ==> res.0 == width,
        height < 9 ==> res.1 == height,
        width >= 48 ==> res.0 + 8 == width,
        height >= 15 ==> res.1 + 6 == height,
        40 <= width <= 48 ==> res.0 == 40,
        9 <= height <= 15 ==> res.1 == 9,
{
}

/// A status line that fits is as wide as the screen less its margin: the phase stands
/// at its left end, what the model is at its right end, and blanks between them.
pub proof fn law_a_status_line_fills_the_width(
    phase: Phase,
    pending: bool,
    model: &str,
    yolo: bool,
    context: Option<&str>,
    width: u16,
    res: String,
    left: Seq<char>,
    right: Seq<char>,
)
    requires
        call_ensures(status_line, (&phase, pending, Some(model), yolo, context, width), res),
        left == phase_status(phase) + (if pending {
            " · approval pending"@
        } else {
            Seq::<char>::empty()
        }),
        right == model@ + (if yolo {
            " · yolo"@
        } else {
            Seq::<char>::empty()
        }) + (match context {
            Some(label) => " · "@ + label@,
            None => Seq::<char>::empty(),
        }),
        model@.len() > 0 && !is_space(model@[0]),
        left.len() + right.len() + 3 + 4 <= width,
    ensures
        res@.len() + 4 == width,
        res@.take(left.len() as int) == left,
        res@.skip(res@.len() - right.len()) == right,
        forall|i: int| left.len() <= i < res@.len() - right.len() ==> #[trigger] res@[i] == ' ',
{
    assert(left =~= status_left(phase, pending));
    assert(right =~= status_right(str_view(Some(model)), yolo, str_view(context)));
    assert(right[0] == model@[0]);
    assert(trim_start(right) =~= right);
    assert(res@.take(left.len() as int) =~= left);
    assert(res@.skip(res@.len() - right.len()) =~= right);
}

} // verus!
