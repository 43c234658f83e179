//! What is asked for by keys and panels.
use vstd::prelude::*;

use crate::canvas::Session;
use crate::clicks::type_of_key;
use crate::document::DocumentView;
use crate::edits::{edited, insert_anchor, rightmost, EditView};
use crate::fixed::Fixed;
use crate::geometry::Vec2;
use crate::model::{BoolOp, Frame, LayerView, PointType};
use crate::names::{decimal, number};
use crate::panel_actions::{
    page_added, page_removed, page_renamed, pages_acted, PagesActionView,
};
use crate::placement::Tool;
use crate::plane::near;
use crate::pointing::near_frame;
use crate::scalar::Scalar;
use crate::shortcuts::{
    asked, commands, document_commands, editing_commands, nudge, selection_commands, tool_after,
    tool_for, Command, Key, Keyboard, Typed,
};
use crate::style::{PaintView, StyleView};

verus! {

/// Which tool a letter picks.
pub proof fn law_letters_pick_tools()
    ensures
        tool_for(Key::V) == Some(Tool::Select),
        tool_for(Key::H) == Some(Tool::Pan),
        tool_for(Key::A) == Some(Tool::Artboard),
        tool_for(Key::R) == Some(Tool::Rectangle),
        tool_for(Key::O) == Some(Tool::Oval),
        tool_for(Key::L) == Some(Tool::Line),
        tool_for(Key::W) == Some(Tool::Arrow),
        tool_for(Key::S) == Some(Tool::Star),
        tool_for(Key::N) == Some(Tool::Polygon),
        tool_for(Key::T) == Some(Tool::Text),
        tool_for(Key::P) == Some(Tool::Pen),
        tool_for(Key::X) == Some(Tool::Scissors),
        tool_for(Key::Escape) is None,
        tool_for(Key::Delete) is None,
        tool_for(Key::Enter) is None,
        type_of_key(1) == Some(PointType::Straight),
        type_of_key(2) == Some(PointType::Mirror),
        type_of_key(3) == Some(PointType::Asymmetric),
        type_of_key(4) == Some(PointType::Disconnected),
        type_of_key(0) is None,
        type_of_key(5) is None,
{
}

/// The last letter that picks a tool decides; one that is typed with a modifier does not.
pub proof fn law_the_last_letter_decides(tool: Tool, typed: Seq<Typed>, k: nat)
    requires
        k < typed.len(),
    ensures
        ({
            let t = typed[k as int];
            let plain = !t.command && !t.ctrl && !t.shift;
            &&& plain && tool_for(t.key) is Some ==> tool_after(tool, typed, k + 1) == tool_for(
                t.key,
            )->0
            &&& !plain || tool_for(t.key) is None ==> tool_after(tool, typed, k + 1) == tool_after(
                tool,
                typed,
                k,
            )
        }),
        tool_after(tool, typed, 0) == tool,
{
}

proof fn lemma_asked(s: Seq<Command>, holds: bool, c: Command, x: Command)
    ensures
        asked(s, holds, c).contains(x) <==> s.contains(x) || (holds && x == c),
{
    let t = asked(s, holds, c);
    if s.contains(x) {
        let k = choose|k: int| 0 <= k < s.len() && s[k] == x;
        assert(t[k] == x);
    }
    if holds {
        assert(t[s.len() as int] == c);
        if t.contains(x) {
            let k = choose|k: int| 0 <= k < t.len() && t[k] == x;
            if k < s.len() {
                assert(s[k] == x);
            }
        }
    }
}

/// When a command is asked for by the keyboard: which key is pressed, and what is held.
pub open spec fn is_wished(k: Keyboard, x: Command) -> bool {
    let down = |key: Key| k.pressed@.contains(key);
    match x {
        Command::Undo => down(Key::Z) && k.command && !k.shift,
        Command::Redo => (down(Key::Z) && k.command && k.shift) || (down(Key::Y) && k.command),
        Command::Save { as_new } => down(Key::S) && k.command && as_new == k.shift,
        Command::Group => down(Key::G) && k.command && !k.shift,
        Command::Ungroup => down(Key::G) && k.command && k.shift,
        Command::Duplicate { below } => down(Key::D) && k.command && below == k.shift,
        Command::Copy => !k.focused && down(Key::C) && k.command,
        Command::Paste { over } => !k.focused && down(Key::V) && k.command && over == k.shift,
        Command::SelectSiblings => !k.focused && down(Key::A) && k.command,
        Command::ToggleMask => down(Key::M) && k.command && k.shift,
        Command::FlipHorizontal => !k.focused && down(Key::H) && k.shift && !k.command,
        Command::FlipVertical => !k.focused && down(Key::V) && k.shift && !k.command,
        Command::Export => down(Key::E) && k.command,
        Command::Outline => !k.focused && down(Key::O) && k.command && k.alt,
        Command::ClearSelection => !k.focused && down(Key::Escape),
        Command::ToggleAspectLock => !k.focused && down(Key::L) && k.command && k.alt,
        Command::Nudge { dx, dy, resize } => {
            let far = if k.shift {
                10int
            } else {
                1
            };
            &&& !k.focused
            &&& resize == k.command
            &&& (down(Key::Right) && dx == far && dy == 0) || (down(Key::Left) && dx == -far && dy
                == 0) || (down(Key::Down) && dx == 0 && dy == far) || (down(Key::Up) && dx == 0
                && dy == -far)
        },
        Command::Rename => !k.focused && down(Key::R) && k.command,
        Command::Scale => !k.focused && down(Key::K) && !k.command && !k.shift && !k.alt,
        Command::Enter => !k.focused && down(Key::Enter),
        Command::Delete => !k.focused && (down(Key::Delete) || down(Key::Backspace)),
    }
}

/// The commands that a keyboard asks for are those whose keys are pressed, and no others.
pub proof fn law_keys_ask_for_commands(k: Keyboard, x: Command)
    ensures
        commands(k).contains(x) <==> is_wished(k, x),
{
    let s = document_commands(Seq::empty(), k);
    let t = selection_commands(s, k);
    lemma_document_commands(Seq::empty(), k, x);
    lemma_selection_commands(s, k, x);
    lemma_editing_commands(t, k, x);
}

proof fn lemma_document_commands(s: Seq<Command>, k: Keyboard, x: Command)
    ensures
        document_commands(s, k).contains(x) <==> s.contains(x) || (is_wished(k, x) && (x is Undo
            || x is Redo || x is Save || x is Group || x is Ungroup || x is Duplicate || x is Copy
            || x is Paste)),
{
    let down = |key: Key| k.pressed@.contains(key);
    let cmd = k.command;
    let free = !k.focused;
    let s1 = asked(s, down(Key::Z) && cmd && !k.shift, Command::Undo);
    lemma_asked(s, down(Key::Z) && cmd && !k.shift, Command::Undo, x);
    let redo = (down(Key::Z) && cmd && k.shift) || (down(Key::Y) && cmd);
    let s2 = asked(s1, redo, Command::Redo);
    lemma_asked(s1, redo, Command::Redo, x);
    let s3 = asked(s2, down(Key::S) && cmd, Command::Save { as_new: k.shift });
    lemma_asked(s2, down(Key::S) && cmd, Command::Save { as_new: k.shift }, x);
    let s4 = asked(s3, down(Key::G) && cmd && !k.shift, Command::Group);
    lemma_asked(s3, down(Key::G) && cmd && !k.shift, Command::Group, x);
    let s5 = asked(s4, down(Key::G) && cmd && k.shift, Command::Ungroup);
    lemma_asked(s4, down(Key::G) && cmd && k.shift, Command::Ungroup, x);
    let s6 = asked(s5, down(Key::D) && cmd, Command::Duplicate { below: k.shift });
    lemma_asked(s5, down(Key::D) && cmd, Command::Duplicate { below: k.shift }, x);
    let s7 = asked(s6, free && down(Key::C) && cmd, Command::Copy);
    lemma_asked(s6, free && down(Key::C) && cmd, Command::Copy, x);
    lemma_asked(s7, free && down(Key::V) && cmd, Command::Paste { over: k.shift }, x);
}

proof fn lemma_selection_commands(s: Seq<Command>, k: Keyboard, x: Command)
    ensures
        selection_commands(s, k).contains(x) <==> s.contains(x) || (is_wished(k, x) && (
        x is SelectSiblings || x is ToggleMask || x is FlipHorizontal || x is FlipVertical
            || x is Export || x is Outline || x is ClearSelection || x is ToggleAspectLock)),
{
    let down = |key: Key| k.pressed@.contains(key);
    let cmd = k.command;
    let free = !k.focused;
    let s1 = asked(s, free && down(Key::A) && cmd, Command::SelectSiblings);
    lemma_asked(s, free && down(Key::A) && cmd, Command::SelectSiblings, x);
    let s2 = asked(s1, down(Key::M) && cmd && k.shift, Command::ToggleMask);
    lemma_asked(s1, down(Key::M) && cmd && k.shift, Command::ToggleMask, x);
    let s3 = asked(s2, free && down(Key::H) && k.shift && !cmd, Command::FlipHorizontal);
    lemma_asked(s2, free && down(Key::H) && k.shift && !cmd, Command::FlipHorizontal, x);
    let s4 = asked(s3, free && down(Key::V) && k.shift && !cmd, Command::FlipVertical);
    lemma_asked(s3, free && down(Key::V) && k.shift && !cmd, Command::FlipVertical, x);
    let s5 = asked(s4, down(Key::E) && cmd, Command::Export);
    lemma_asked(s4, down(Key::E) && cmd, Command::Export, x);
    let s6 = asked(s5, free && down(Key::O) && cmd && k.alt, Command::Outline);
    lemma_asked(s5, free && down(Key::O) && cmd && k.alt, Command::Outline, x);
    let s7 = asked(s6, free && down(Key::Escape), Command::ClearSelection);
    lemma_asked(s6, free && down(Key::Escape), Command::ClearSelection, x);
    lemma_asked(s7, free && down(Key::L) && cmd && k.alt, Command::ToggleAspectLock, x);
}

proof fn lemma_editing_commands(s: Seq<Command>, k: Keyboard, x: Command)
    ensures
        editing_commands(s, k).contains(x) <==> s.contains(x) || (is_wished(k, x) && (x is Nudge
            || x is Rename || x is Scale || x is Enter || x is Delete)),
{
    let down = |key: Key| k.pressed@.contains(key);
    let cmd = k.command;
    let free = !k.focused;
    let step: i32 = if k.shift {
        10
    } else {
        1
    };
    let back: i32 = if k.shift {
        -10i32
    } else {
        -1i32
    };
    let right = Command::Nudge { dx: step, dy: 0, resize: cmd };
    let left = Command::Nudge { dx: back, dy: 0, resize: cmd };
    let below = Command::Nudge { dx: 0, dy: step, resize: cmd };
    let above = Command::Nudge { dx: 0, dy: back, resize: cmd };
    let s1 = asked(s, free && down(Key::Right), right);
    lemma_asked(s, free && down(Key::Right), right, x);
    let s2 = asked(s1, free && down(Key::Left), left);
    lemma_asked(s1, free && down(Key::Left), left, x);
    let s3 = asked(s2, free && down(Key::Down), below);
    lemma_asked(s2, free && down(Key::Down), below, x);
    let s4 = asked(s3, free && down(Key::Up), above);
    lemma_asked(s3, free && down(Key::Up), above, x);
    let s5 = asked(s4, free && down(Key::R) && cmd, Command::Rename);
    lemma_asked(s4, free && down(Key::R) && cmd, Command::Rename, x);
    let scale = free && down(Key::K) && !cmd && !k.shift && !k.alt;
    let s6 = asked(s5, scale, Command::Scale);
    lemma_asked(s5, scale, Command::Scale, x);
    let s7 = asked(s6, free && down(Key::Enter), Command::Enter);
    lemma_asked(s6, free && down(Key::Enter), Command::Enter, x);
    lemma_asked(
        s7,
        free && (down(Key::Delete) || down(Key::Backspace)),
        Command::Delete,
        x,
    );
}

/// An edit changes what it is named for and nothing else: moving adds to the position, resizing to the
/// size, filling replaces the paint, and each toggle turns one mark over.
pub proof fn law_edits_change_one_thing(
    v: LayerView<Fixed>,
    d: Vec2<Fixed>,
    name: Seq<char>,
    c: crate::color::Color32,
    op: BoolOp,
)
    requires
        near_frame(v.frame),
        near(d.x) && near(d.y),
    ensures
        ({
            let w = edited(v, EditView::Move(d));
            &&& w.frame.pos.x.raw == v.frame.pos.x.raw + d.x.raw
            &&& w.frame.pos.y.raw == v.frame.pos.y.raw + d.y.raw
            &&& w == v.with_frame(Frame { pos: w.frame.pos, ..v.frame })
        }),
        ({
            let w = edited(v, EditView::Resize(d));
            &&& w.frame.size.x.raw == v.frame.size.x.raw + d.x.raw
            &&& w.frame.size.y.raw == v.frame.size.y.raw + d.y.raw
            &&& w == v.with_frame(Frame { size: w.frame.size, ..v.frame })
        }),
        ({
            let w = edited(v, EditView::Fill(c));
            &&& w.style.fill == Some(PaintView::<Fixed>::Solid(c))
            &&& w == (LayerView { style: StyleView { fill: w.style.fill, ..v.style }, ..v })
        }),
        edited(v, EditView::Rename(name)) == (LayerView { name, ..v }),
        edited(v, EditView::ToggleVisible) == (LayerView { visible: !v.visible, ..v }),
        edited(v, EditView::ToggleLocked) == (LayerView { locked: !v.locked, ..v }),
        edited(v, EditView::ToggleMask) == (LayerView { is_mask: !v.is_mask, ..v }),
        edited(v, EditView::ToggleIgnoreMask) == (LayerView { ignore_mask: !v.ignore_mask, ..v }),
        edited(v, EditView::SetBoolOp(op)) == (LayerView { bool_op: op, ..v }),
{
}

/// A nudge is as many units as it says, to the right and down.
pub proof fn law_nudges_are_whole_units(dx: i32, dy: i32)
    requires
        -100 <= dx <= 100,
        -100 <= dy <= 100,
    ensures
        nudge::<Fixed>(dx, dy).x.raw == dx * 65536,
        nudge::<Fixed>(dx, dy).y.raw == dy * 65536,
{
    assert((dx * 65536) / 1 == dx * 65536 && (dy * 65536) / 1 == dy * 65536);
}

/// A page that is added is the last, empty, and is shown.
pub proof fn law_added_pages_are_shown<S>(d: DocumentView<S>, name: Seq<char>)
    ensures
        ({
            let e = page_added(d, name);
            &&& e.pages.len() == d.pages.len() + 1 && e.pages.drop_last() == d.pages
            &&& e.active_page == e.pages.len() - 1
            &&& e.pages.last().name == name && e.pages.last().layers.len() == 0
                && e.pages.last().guides.len() == 0
            &&& e == (DocumentView { pages: e.pages, active_page: e.active_page, ..d })
        }),
{
    let e = page_added(d, name);
    assert(e.pages.drop_last() =~= d.pages);
}

/// Removing a page takes that page away and no other; the page that is shown stays shown, unless it is the
/// one that goes. The last page stays.
pub proof fn law_removed_pages<S>(d: DocumentView<S>, i: int)
    requires
        0 <= d.active_page < d.pages.len(),
    ensures
        d.pages.len() == 1 ==> page_removed(d, i) == d,
        d.pages.len() > 1 && 0 <= i < d.pages.len() ==> ({
            let e = page_removed(d, i);
            &&& e.pages == d.pages.remove(i)
            &&& 0 <= e.active_page < e.pages.len()
            &&& d.active_page != i ==> e.pages[e.active_page] == d.pages[d.active_page]
            &&& d.active_page == i && i > 0 && i == d.pages.len() - 1 ==> e.active_page == i - 1
            &&& d.active_page == i && i < d.pages.len() - 1 ==> e.pages[e.active_page] == d.pages[i
                + 1]
        }),
{
}

/// Renaming a page gives it that name and changes nothing else.
pub proof fn law_renamed_pages<S>(d: DocumentView<S>, i: int, name: Seq<char>, j: int)
    requires
        0 <= i < d.pages.len(),
        0 <= j < d.pages.len(),
    ensures
        ({
            let e = page_renamed(d, i, name);
            &&& e.pages.len() == d.pages.len() && e.active_page == d.active_page
            &&& e.pages[i].name == name && e.pages[i].layers == d.pages[i].layers
                && e.pages[i].guides == d.pages[i].guides
            &&& j != i ==> e.pages[j] == d.pages[j]
        }),
{
}

/// Picking a page shows it; picking, adding and deleting pages clear the selection, renaming does not.
pub proof fn law_pages_are_picked<S: Scalar>(s: Session<S>, i: int, name: Seq<char>)
    ensures
        pages_acted(s, PagesActionView::Select(i)).history.current.active_page == i,
        pages_acted(s, PagesActionView::Select(i)).history.current.pages == s.history.current.pages,
        pages_acted(s, PagesActionView::Select(i)).selection.len() == 0,
        pages_acted(s, PagesActionView::Add).selection.len() == 0,
        pages_acted(s, PagesActionView::Delete(i)).selection.len() == 0,
        pages_acted(s, PagesActionView::Rename(i, name)).selection == s.selection,
{
}

/// A number that is written out is read back as it was.
pub proof fn law_numbers_are_read_back(n: int)
    requires
        n >= 0,
    ensures
        number(decimal(n)) == n,
        decimal(n).len() > 0,
    decreases n,
{
    if n >= 10 {
        law_numbers_are_read_back(n / 10);
        assert(decimal(n).drop_last() =~= decimal(n / 10));
        assert(decimal(n).last() as int - '0' as int == n % 10);
    } else {
        let d = decimal(n);
        assert(d.drop_last().len() == 0);
        assert(number(d.drop_last()) == 0);
        assert(d.last() as int - '0' as int == n);
    }
}

/// New artboards go to the right of everything that is on the page, forty units away.
pub proof fn law_new_artboards_stand_beside(s: Seq<LayerView<Fixed>>, k: nat, i: int)
    requires
        0 <= i < k <= s.len(),
    ensures
        rightmost(s, k).raw >= s[i].frame.spec_bounds().max.x.raw,
        rightmost(s, k).raw >= 0,
        rightmost(s, s.len()).raw <= 0x1000_0000 ==> insert_anchor(s).x.raw == rightmost(
            s,
            s.len(),
        ).raw + 40 * 65536,
        insert_anchor(s).y.raw == 40 * 65536,
    decreases k,
{
    lemma_rightmost(s, s.len());
    let j = (k - 1) as nat;
    if i < j {
        law_new_artboards_stand_beside(s, j, i);
    }
    lemma_rightmost(s, j);
    assert(Fixed::spec_ratio(40, 1).raw == 40 * 65536);
    assert(Fixed::spec_ratio(0, 1).raw == 0);
}

proof fn lemma_rightmost(s: Seq<LayerView<Fixed>>, k: nat)
    ensures
        rightmost(s, k).raw >= 0,
    decreases k,
{
    assert(Fixed::spec_ratio(0, 1).raw == 0);
    if k > 0 {
        lemma_rightmost(s, (k - 1) as nat);
    }
}

} // verus!
