//! The keyboard: which keys ask for what, and what the program does about it.
use vstd::prelude::*;

use crate::app::{
    lone_text, selection_copied, selection_deleted, selection_edited, selection_grouped,
    selection_ungrouped, siblings_selected, App, AppView,
};
use crate::canvas::{CanvasView, Session};
use crate::edits::EditView;
use crate::geometry::Vec2;
use crate::grouping::can_copy_all;
use crate::model::{group_views, LayerId};
use crate::placement::Tool;
use crate::point_editing::points_deleted;
use crate::scalar::Scalar;
use crate::style::copy_vec;

verus! {

broadcast use group_views;

/// The keys that mean something.
#[derive(Clone, Copy, Debug, PartialEq, Eq, Structural)]
pub enum Key {
    A,
    C,
    D,
    E,
    G,
    H,
    K,
    L,
    M,
    N,
    O,
    P,
    R,
    S,
    T,
    V,
    W,
    X,
    Y,
    Z,
    Enter,
    Escape,
    Delete,
    Backspace,
    Right,
    Left,
    Down,
    Up,
}

/// A key that was typed, with what was held.
#[derive(Clone, Copy, Debug, PartialEq, Eq, Structural)]
pub struct Typed {
    pub key: Key,
    pub command: bool,
    pub ctrl: bool,
    pub shift: bool,
}

/// The keyboard in one frame.
#[derive(Debug, PartialEq)]
pub struct Keyboard {
    /// Whether some widget takes what is typed.
    pub focused: bool,
    pub shift: bool,
    pub command: bool,
    pub alt: bool,
    pub pressed: Vec<Key>,
    pub typed: Vec<Typed>,
}

/// The tool that a letter picks.
pub open spec fn tool_for(key: Key) -> Option<Tool> {
    match key {
        Key::V => Some(Tool::Select),
        Key::H => Some(Tool::Pan),
        Key::A => Some(Tool::Artboard),
        Key::R => Some(Tool::Rectangle),
        Key::O => Some(Tool::Oval),
        Key::L => Some(Tool::Line),
        Key::W => Some(Tool::Arrow),
        Key::S => Some(Tool::Star),
        Key::N => Some(Tool::Polygon),
        Key::T => Some(Tool::Text),
        Key::P => Some(Tool::Pen),
        Key::X => Some(Tool::Scissors),
        _ => None,
    }
}

/// The tool that a letter picks.
pub fn tool_shortcut(key: Key) -> (r: Option<Tool>)
    ensures
        r == tool_for(key),
{
    match key {
        Key::V => Some(Tool::Select),
        Key::H => Some(Tool::Pan),
        Key::A => Some(Tool::Artboard),
        Key::R => Some(Tool::Rectangle),
        Key::O => Some(Tool::Oval),
        Key::L => Some(Tool::Line),
        Key::W => Some(Tool::Arrow),
        Key::S => Some(Tool::Star),
        Key::N => Some(Tool::Polygon),
        Key::T => Some(Tool::Text),
        Key::P => Some(Tool::Pen),
        Key::X => Some(Tool::Scissors),
        _ => None,
    }
}

/// The tool after the first `k` keys that were typed: a bare letter picks one.
pub open spec fn tool_after(tool: Tool, typed: Seq<Typed>, k: nat) -> Tool
    decreases k,
{
    if k == 0 {
        tool
    } else {
        let before = tool_after(tool, typed, (k - 1) as nat);
        let t = typed[k - 1];
        if t.command || t.ctrl || t.shift {
            before
        } else {
            match tool_for(t.key) {
                Some(next) => next,
                None => before,
            }
        }
    }
}

/// What the keyboard asks for.
#[derive(Clone, Copy, Debug, PartialEq, Eq, Structural)]
pub enum Command {
    Undo,
    Redo,
    Save { as_new: bool },
    Group,
    Ungroup,
    Duplicate { below: bool },
    Copy,
    Paste { over: bool },
    SelectSiblings,
    ToggleMask,
    FlipHorizontal,
    FlipVertical,
    Export,
    Outline,
    ClearSelection,
    ToggleAspectLock,
    Nudge { dx: i32, dy: i32, resize: bool },
    Rename,
    Scale,
    Enter,
    Delete,
}

/// Some commands, and one more if a condition holds.
pub open spec fn asked(s: Seq<Command>, holds: bool, c: Command) -> Seq<Command> {
    if holds {
        s.push(c)
    } else {
        s
    }
}

fn push_when(holds: bool, c: Command, out: &mut Vec<Command>)
    ensures
        final(out)@ == asked(old(out)@, holds, c),
{
    if holds {
        out.push(c);
    }
}

/// What the keys for the document and for groups of layers ask for.
pub open spec fn document_commands(s: Seq<Command>, k: Keyboard) -> Seq<Command> {
    let down = |key: Key| k.pressed@.contains(key);
    let cmd = k.command;
    let free = !k.focused;
    let s1 = asked(s, down(Key::Z) && cmd && !k.shift, Command::Undo);
    let s2 = asked(s1, (down(Key::Z) && cmd && k.shift) || (down(Key::Y) && cmd), Command::Redo);
    let s3 = asked(s2, down(Key::S) && cmd, Command::Save { as_new: k.shift });
    let s4 = asked(s3, down(Key::G) && cmd && !k.shift, Command::Group);
    let s5 = asked(s4, down(Key::G) && cmd && k.shift, Command::Ungroup);
    let s6 = asked(s5, down(Key::D) && cmd, Command::Duplicate { below: k.shift });
    let s7 = asked(s6, free && down(Key::C) && cmd, Command::Copy);
    asked(s7, free && down(Key::V) && cmd, Command::Paste { over: k.shift })
}

/// What the keys for the selection ask for.
pub open spec fn selection_commands(s: Seq<Command>, k: Keyboard) -> Seq<Command> {
    let down = |key: Key| k.pressed@.contains(key);
    let cmd = k.command;
    let free = !k.focused;
    let s1 = asked(s, free && down(Key::A) && cmd, Command::SelectSiblings);
    let s2 = asked(s1, down(Key::M) && cmd && k.shift, Command::ToggleMask);
    let s3 = asked(s2, free && down(Key::H) && k.shift && !cmd, Command::FlipHorizontal);
    let s4 = asked(s3, free && down(Key::V) && k.shift && !cmd, Command::FlipVertical);
    let s5 = asked(s4, down(Key::E) && cmd, Command::Export);
    let s6 = asked(s5, free && down(Key::O) && cmd && k.alt, Command::Outline);
    let s7 = asked(s6, free && down(Key::Escape), Command::ClearSelection);
    asked(s7, free && down(Key::L) && cmd && k.alt, Command::ToggleAspectLock)
}

/// What the arrow keys and the last keys ask for.
pub open spec fn editing_commands(s: Seq<Command>, k: Keyboard) -> Seq<Command> {
    let down = |key: Key| k.pressed@.contains(key);
    let cmd = k.command;
    let free = !k.focused;
    let step: i32 = if k.shift {
        10
    } else {
        1
    };
    let back: i32 = if k.shift {
        -10i32
    } else {
        -1i32
    };
    let s1 = asked(s, free && down(Key::Right), Command::Nudge { dx: step, dy: 0, resize: cmd });
    let s2 = asked(s1, free && down(Key::Left), Command::Nudge { dx: back, dy: 0, resize: cmd });
    let s3 = asked(s2, free && down(Key::Down), Command::Nudge { dx: 0, dy: step, resize: cmd });
    let s4 = asked(s3, free && down(Key::Up), Command::Nudge { dx: 0, dy: back, resize: cmd });
    let s5 = asked(s4, free && down(Key::R) && cmd, Command::Rename);
    let s6 = asked(s5, free && down(Key::K) && !cmd && !k.shift && !k.alt, Command::Scale);
    let s7 = asked(s6, free && down(Key::Enter), Command::Enter);
    asked(s7, free && (down(Key::Delete) || down(Key::Backspace)), Command::Delete)
}

/// Everything that the keyboard asks for in one frame, in the order in which it is done.
pub open spec fn commands(k: Keyboard) -> Seq<Command> {
    editing_commands(selection_commands(document_commands(Seq::empty(), k), k), k)
}

impl Keyboard {
    /// Whether a key was pressed.
    pub fn down(&self, key: Key) -> (r: bool)
        ensures
            r == self.pressed@.contains(key),
    {
        let mut i: usize = 0;
        while i < self.pressed.len()
            invariant
                i <= self.pressed.len(),
                forall|j: int| 0 <= j < i ==> #[trigger] self.pressed@[j] != key,
            decreases self.pressed.len() - i,
        {
            if self.pressed[i] == key {
                assert(self.pressed@[i as int] == key);
                return true;
            }
            i += 1;
        }
        false
    }

    fn push_document_commands(&self, out: &mut Vec<Command>)
        ensures
            final(out)@ == document_commands(old(out)@, *self),
    {
        let cmd = self.command;
        let free = !self.focused;
        let z = self.down(Key::Z);
        let y = self.down(Key::Y);
        let g = self.down(Key::G);
        push_when(z && cmd && !self.shift, Command::Undo, out);
        push_when((z && cmd && self.shift) || (y && cmd), Command::Redo, out);
        push_when(self.down(Key::S) && cmd, Command::Save { as_new: self.shift }, out);
        push_when(g && cmd && !self.shift, Command::Group, out);
        push_when(g && cmd && self.shift, Command::Ungroup, out);
        push_when(self.down(Key::D) && cmd, Command::Duplicate { below: self.shift }, out);
        push_when(free && self.down(Key::C) && cmd, Command::Copy, out);
        push_when(free && self.down(Key::V) && cmd, Command::Paste { over: self.shift }, out);
    }

    fn push_selection_commands(&self, out: &mut Vec<Command>)
        ensures
            final(out)@ == selection_commands(old(out)@, *self),
    {
        let cmd = self.command;
        let free = !self.focused;
        push_when(free && self.down(Key::A) && cmd, Command::SelectSiblings, out);
        push_when(self.down(Key::M) && cmd && self.shift, Command::ToggleMask, out);
        push_when(
            free && self.down(Key::H) && self.shift && !cmd,
            Command::FlipHorizontal,
            out,
        );
        push_when(free && self.down(Key::V) && self.shift && !cmd, Command::FlipVertical, out);
        push_when(self.down(Key::E) && cmd, Command::Export, out);
        push_when(free && self.down(Key::O) && cmd && self.alt, Command::Outline, out);
        push_when(free && self.down(Key::Escape), Command::ClearSelection, out);
        push_when(free && self.down(Key::L) && cmd && self.alt, Command::ToggleAspectLock, out);
    }

    fn push_editing_commands(&self, out: &mut Vec<Command>)
        ensures
            final(out)@ == editing_commands(old(out)@, *self),
    {
        let cmd = self.command;
        let free = !self.focused;
        let step: i32 = if self.shift {
            10
        } else {
            1
        };
        let back: i32 = if self.shift {
            -10
        } else {
            -1
        };
        let right = free && self.down(Key::Right);
        let left = free && self.down(Key::Left);
        let down = free && self.down(Key::Down);
        let up = free && self.down(Key::Up);
        push_when(right, Command::Nudge { dx: step, dy: 0, resize: cmd }, out);
        push_when(left, Command::Nudge { dx: back, dy: 0, resize: cmd }, out);
        push_when(down, Command::Nudge { dx: 0, dy: step, resize: cmd }, out);
        push_when(up, Command::Nudge { dx: 0, dy: back, resize: cmd }, out);
        push_when(free && self.down(Key::R) && cmd, Command::Rename, out);
        push_when(
            free && self.down(Key::K) && !cmd && !self.shift && !self.alt,
            Command::Scale,
            out,
        );
        push_when(free && self.down(Key::Enter), Command::Enter, out);
        push_when(
            free && (self.down(Key::Delete) || self.down(Key::Backspace)),
            Command::Delete,
            out,
        );
    }

    /// Everything that the keyboard asks for in this frame, in the order in which it is done.
    pub fn handle_shortcuts(&self) -> (r: Vec<Command>)
        ensures
            r@ == commands(*self),
    {
        let mut out: Vec<Command> = Vec::new();
        assert(out@ =~= Seq::empty());
        self.push_document_commands(&mut out);
        self.push_selection_commands(&mut out);
        self.push_editing_commands(&mut out);
        out
    }
}

/// What the program needs from outside to do what the keyboard asks for.
#[derive(Clone, Copy, Debug, PartialEq, Eq, Structural)]
pub enum Request {
    Save { as_new: bool },
    Copy,
    /// A copy of one layer, whatever is selected.
    CopyOne(LayerId),
    Paste { over: bool },
    Flip { horizontal: bool },
    Flatten,
    Export,
    Outline,
    /// A new name for one layer.
    RenameOne(LayerId),
    /// New names for all selected layers.
    RenameAll,
}

/// What a command needs from outside.
pub open spec fn request<S>(s: Session<S>, c: Command) -> Option<Request> {
    match c {
        Command::Save { as_new } => Some(Request::Save { as_new }),
        Command::Copy => Some(Request::Copy),
        Command::Paste { over } => Some(Request::Paste { over }),
        Command::FlipHorizontal => Some(Request::Flip { horizontal: true }),
        Command::FlipVertical => Some(Request::Flip { horizontal: false }),
        Command::Export => Some(Request::Export),
        Command::Outline => Some(Request::Outline),
        Command::Rename => if s.selection.len() == 0 {
            None
        } else if s.selection.len() == 1 {
            if crate::tree::find(s.history.layers(), s.selection[0]) is Some {
                Some(Request::RenameOne(s.selection[0]))
            } else {
                None
            }
        } else {
            Some(Request::RenameAll)
        },
        _ => None,
    }
}

/// How far a nudge goes.
pub open spec fn nudge<S: Scalar>(dx: i32, dy: i32) -> Vec2<S> {
    Vec2 { x: S::spec_ratio(dx as int, 1), y: S::spec_ratio(dy as int, 1) }
}

/// The session after the arrow keys nudged the selection; not while points are selected.
pub open spec fn nudged<S: Scalar>(s: Session<S>, dx: i32, dy: i32, resize: bool) -> Session<S> {
    if s.canvas.selected_points.len() > 0 {
        s
    } else if resize {
        selection_edited(s, EditView::Resize(nudge(dx, dy)))
    } else {
        selection_edited(s, EditView::Move(nudge(dx, dy)))
    }
}

/// The session after Enter: scale mode ends, or the one selected text is edited in place; only
/// with the selection tool.
pub open spec fn entered<S: Scalar>(s: Session<S>) -> Session<S> {
    if s.tool != Tool::Select {
        s
    } else if s.canvas.scaling is Some {
        Session { canvas: CanvasView { scaling: None, ..s.canvas }, ..s }
    } else {
        match lone_text(s) {
            Some(id) => if s.canvas.editing_text == Some(id) {
                s
            } else {
                Session {
                    canvas: s.canvas.editing(id),
                    history: s.history.after_snapshot(),
                    ..s
                }
            },
            None => s,
        }
    }
}

/// The session after Delete: the selected points go, else the selected layers.
pub open spec fn delete_pressed<S: Scalar>(s: Session<S>) -> Session<S> {
    if s.canvas.selected_points.len() > 0 {
        match points_deleted(s.canvas, s.history.layers(), s.selection) {
            Some((canvas, layers, selection)) => Session {
                canvas,
                history: s.history.after_snapshot().with_layers(layers),
                selection,
                ..s
            },
            None => s,
        }
    } else {
        selection_deleted(s)
    }
}

/// The session after a command; what needs something from outside changes nothing yet.
#[verifier::opaque]
pub open spec fn commanded<S: Scalar>(s: Session<S>, c: Command) -> Session<S> {
    match c {
        Command::Undo => Session { history: s.history.after_undo(), ..s },
        Command::Redo => Session { history: s.history.after_redo(), ..s },
        Command::Group => selection_grouped(s),
        Command::Ungroup => selection_ungrouped(s),
        Command::Duplicate { below } => selection_copied(s, below),
        Command::SelectSiblings => siblings_selected(s),
        Command::ToggleMask => selection_edited(s, EditView::ToggleMask),
        Command::ClearSelection => Session { selection: Seq::empty(), ..s },
        Command::ToggleAspectLock => Session {
            canvas: CanvasView { aspect_locked: !s.canvas.aspect_locked, ..s.canvas },
            ..s
        },
        Command::Nudge { dx, dy, resize } => nudged(s, dx, dy, resize),
        Command::Scale => if s.selection.len() > 0 {
            Session { canvas: CanvasView { scaling: Some(s.selection), ..s.canvas }, ..s }
        } else {
            s
        },
        Command::Enter => entered(s),
        Command::Delete => delete_pressed(s),
        _ => s,
    }
}

impl<S: Scalar> App<S> {
    /// Picks the tool that was typed; nothing happens where some widget takes what is typed.
    pub fn pick_tool(&mut self, keyboard: &Keyboard)
        ensures
            final(self)@ == (AppView {
                session: Session {
                    tool: if keyboard.focused {
                        old(self)@.session.tool
                    } else {
                        tool_after(
                            old(self)@.session.tool,
                            keyboard.typed@,
                            keyboard.typed@.len(),
                        )
                    },
                    ..old(self)@.session
                },
                ..old(self)@
            }),
            old(self).wf() ==> final(self).wf(),
    {
        if keyboard.focused {
            return;
        }
        let mut tool = self.tool;
        let mut k: usize = 0;
        while k < keyboard.typed.len()
            invariant
                *self == *old(self),
                k <= keyboard.typed.len(),
                tool == tool_after(self.tool, keyboard.typed@, k as nat),
            decreases keyboard.typed.len() - k,
        {
            let t = keyboard.typed[k];
            if !(t.command || t.ctrl || t.shift) {
                if let Some(next) = tool_shortcut(t.key) {
                    tool = next;
                }
            }
            k += 1;
        }
        self.tool = tool;
    }

    fn run_nudge(&mut self, dx: i32, dy: i32, resize: bool)
        requires
            old(self).wf(),
        ensures
            final(self).wf(),
            final(self)@ == (AppView {
                session: nudged(old(self)@.session, dx, dy, resize),
                ..old(self)@
            }),
    {
        if self.canvas.has_point_selection() {
            return;
        }
        let delta = Vec2 { x: S::of_int(dx as i64), y: S::of_int(dy as i64) };
        if resize {
            self.resize_selection_nudge(delta);
        } else {
            self.nudge_selection(delta);
        }
    }

    fn run_enter(&mut self)
        requires
            old(self).wf(),
        ensures
            final(self).wf(),
            final(self)@ == (AppView { session: entered(old(self)@.session), ..old(self)@ }),
    {
        if self.tool != Tool::Select {
            return;
        }
        if self.canvas.scaling.is_some() {
            self.canvas.scaling = None;
            return;
        }
        if let Some(id) = self.lone_text() {
            self.canvas.start_editing_text(&mut self.history, id);
        }
    }

    fn run_delete(&mut self)
        requires
            old(self).wf(),
        ensures
            final(self).wf(),
            final(self)@ == (AppView {
                session: delete_pressed(old(self)@.session),
                ..old(self)@
            }),
    {
        if self.canvas.has_point_selection() {
            self.canvas.delete_selected_points(&mut self.history, &mut self.selection);
        } else {
            self.delete_selection();
        }
    }

    fn run_scale(&mut self)
        requires
            old(self).wf(),
        ensures
            final(self).wf(),
            final(self)@ == (AppView {
                session: commanded(old(self)@.session, Command::Scale),
                ..old(self)@
            }),
    {
        reveal(commanded);
        if self.selection.len() > 0 {
            self.canvas.scaling = Some(copy_vec(&self.selection));
        }
    }

    /// What a command needs from outside.
    pub fn request_of(&self, c: Command) -> (r: Option<Request>)
        requires
            self.wf(),
        ensures
            r == request(self@.session, c),
    {
        match c {
            Command::Save { as_new } => Some(Request::Save { as_new }),
            Command::Copy => Some(Request::Copy),
            Command::Paste { over } => Some(Request::Paste { over }),
            Command::FlipHorizontal => Some(Request::Flip { horizontal: true }),
            Command::FlipVertical => Some(Request::Flip { horizontal: false }),
            Command::Export => Some(Request::Export),
            Command::Outline => Some(Request::Outline),
            Command::Rename => if self.selection.len() == 0 {
                None
            } else if self.selection.len() == 1 {
                if self.history.page().find(self.selection[0]).is_some() {
                    Some(Request::RenameOne(self.selection[0]))
                } else {
                    None
                }
            } else {
                Some(Request::RenameAll)
            },
            _ => None,
        }
    }

    /// Does what a command asks for; what needs something from outside changes nothing here.
    pub fn run_command(&mut self, c: Command)
        requires
            old(self).wf(),
            old(self)@.session.next < u64::MAX,
            c matches Command::Duplicate { below } ==> can_copy_all(
                old(self)@.session.history.layers(),
                old(self)@.session.selection,
                old(self)@.session.canvas.duplicate_offset,
                below,
                old(self)@.session.next,
            ),
        ensures
            final(self).wf(),
            final(self)@ == (AppView {
                session: commanded(old(self)@.session, c),
                ..old(self)@
            }),
    {
        proof {
            if !(c is Scale) {
                reveal(commanded);
            }
        }
        match c {
            Command::Undo => {
                self.undo();
            },
            Command::Redo => {
                self.redo();
            },
            Command::Group => {
                self.group_selection();
            },
            Command::Ungroup => {
                self.ungroup_selection();
            },
            Command::Duplicate { below } => {
                self.duplicate_selection_placed(below);
            },
            Command::SelectSiblings => {
                self.select_siblings();
            },
            Command::ToggleMask => {
                self.toggle_mask_selection();
            },
            Command::ClearSelection => {
                self.selection = Vec::new();
                assert(self.selection@ =~= Seq::empty());
            },
            Command::ToggleAspectLock => {
                self.canvas.aspect_locked = !self.canvas.aspect_locked;
            },
            Command::Nudge { dx, dy, resize } => {
                self.run_nudge(dx, dy, resize);
            },
            Command::Scale => {
                self.run_scale();
            },
            Command::Enter => {
                self.run_enter();
            },
            Command::Delete => {
                self.run_delete();
            },
            _ => {},
        }
    }
}

/// Whether a command may come from a key while some widget takes what is typed.
pub open spec fn spares_the_selection(c: Command) -> bool {
    !(c is Delete) && !(c is ClearSelection) && !(c is Nudge) && !(c is Paste) && !(
    c is SelectSiblings)
}

/// Whether all commands spare the selection.
pub open spec fn all_spare(s: Seq<Command>) -> bool {
    forall|i: int| 0 <= i < s.len() ==> spares_the_selection(#[trigger] s[i])
}

/// While some widget takes what is typed, no key deletes, clears, pastes or nudges anything.
pub proof fn law_typing_leaves_the_selection_alone(k: Keyboard)
    requires
        k.focused,
    ensures
        all_spare(commands(k)),
{
    let d = document_commands(Seq::empty(), k);
    assert(all_spare(d));
    let s = selection_commands(d, k);
    assert(all_spare(s));
    assert(editing_commands(s, k) == s);
}

} // verus!
