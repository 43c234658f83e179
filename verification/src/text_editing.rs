//! Editing a text in place: where its editor stands, and what typing does to the text.
use vstd::prelude::*;

use crate::canvas::{waiting_fonts, CanvasView, CanvasWidget};
use crate::color::Color32;
use crate::document::offset_of;
use crate::dragging::with_layer;
use crate::geometry::{Pos2, Rect, Vec2};
use crate::history::History;
use crate::model::{group_views, KindView, Layer, LayerId, LayerKind, LayerView};
use crate::scalar::Scalar;
use crate::shading::flat_color;
use crate::text::{
    run_views, RunStyle, RunStyleView, TextBlock, TextBlockView, TextResize, TextRun, TextRunView,
    VerticalAlign,
};

verus! {

broadcast use group_views;

/// What is left to wait for among the first `k` texts whose fonts were not there: those whose font
/// is there now are done, the others are tried a few times more.
pub open spec fn still_waiting(
    s: Seq<(LayerId, Seq<char>, u8)>,
    ready: Seq<bool>,
    k: nat,
) -> Seq<(LayerId, Seq<char>, u8)>
    decreases k,
{
    if k == 0 {
        Seq::empty()
    } else {
        let rest = still_waiting(s, ready, (k - 1) as nat);
        let e = s[k - 1];
        if !ready[k - 1] && e.2 > 1 {
            rest.push((e.0, e.1, (e.2 - 1) as u8))
        } else {
            rest
        }
    }
}

/// The texts among the first `k` whose fonts are there now.
pub open spec fn now_ready(s: Seq<(LayerId, Seq<char>, u8)>, ready: Seq<bool>, k: nat) -> Seq<
    LayerId,
>
    decreases k,
{
    if k == 0 {
        Seq::empty()
    } else if ready[k - 1] {
        now_ready(s, ready, (k - 1) as nat).push(s[k - 1].0)
    } else {
        now_ready(s, ready, (k - 1) as nat)
    }
}

/// The editor of a text on the screen.
#[derive(Debug, PartialEq)]
pub struct TextEditor<S> {
    pub layer: LayerId,
    /// Where the text is on the page.
    pub bounds: Rect<S>,
    pub width: S,
    pub color: Color32,
    /// Whether the text has runs of its own style.
    pub rich: bool,
    pub vertical_align: VerticalAlign,
}

/// How wide the editor of a text is.
pub open spec fn editor_width<S: Scalar>(resize: TextResize, b: Rect<S>, zoom: S, canvas: S) -> S {
    match resize {
        TextResize::Auto => S::spec_ratio(2000, 1).spec_lesser(canvas),
        _ => b.spec_width().spec_times(zoom).spec_greater(S::spec_ratio(40, 1)),
    }
}

/// The editor of the text that is edited; none where that layer is gone or is no text.
pub open spec fn editor_of<S: Scalar>(c: CanvasView<S>, s: Seq<LayerView<S>>, canvas: S) -> Option<
    TextEditor<S>,
> {
    match c.editing_text {
        Some(id) => match (crate::tree::find(s, id), offset_of(s, id, Vec2::spec_zero())) {
            (Some(v), Some(offset)) => match v.kind {
                KindView::Text { text } => {
                    let b = v.frame.spec_bounds().spec_translate(offset);
                    Some(
                        TextEditor {
                            layer: id,
                            bounds: b,
                            width: editor_width(text.resize, b, c.zoom, canvas),
                            color: match v.style.fill {
                                Some(p) => flat_color(p),
                                None => Color32 { r: 0, g: 0, b: 0, a: 255 },
                            },
                            rich: text.runs.len() > 0,
                            vertical_align: text.vertical_align,
                        },
                    )
                },
                _ => None,
            },
            _ => None,
        },
        None => None,
    }
}

/// How far down its box the editor is moved, by the height of what it shows.
pub open spec fn editor_drop<S: Scalar>(align: VerticalAlign, box_height: S, content: S) -> S {
    let zero = S::spec_ratio(0, 1);
    let spare = box_height.spec_minus(content);
    match align {
        VerticalAlign::Top => zero,
        VerticalAlign::Middle => spare.spec_times(S::spec_ratio(1, 2)).spec_greater(zero),
        VerticalAlign::Bottom => spare.spec_greater(zero),
    }
}

/// How many characters two texts share at their beginnings, among the first `k`.
pub open spec fn shared_head(a: Seq<char>, b: Seq<char>, k: nat) -> nat
    decreases a.len() - k,
{
    if k < a.len() && k < b.len() && a[k as int] == b[k as int] {
        shared_head(a, b, k + 1)
    } else {
        k
    }
}

/// How many characters two texts share at their ends, `k` of them at least, beside `head` at their
/// beginnings.
pub open spec fn shared_tail(a: Seq<char>, b: Seq<char>, head: nat, k: nat) -> nat
    decreases a.len() - k,
{
    if k + head < a.len() && k + head < b.len() && a[a.len() - 1 - k] == b[b.len() - 1 - k] {
        shared_tail(a, b, head, k + 1)
    } else {
        k
    }
}

/// The one stretch in which two texts differ: where it begins, how long it is in the first, and
/// how long in the second.
pub open spec fn difference(a: Seq<char>, b: Seq<char>) -> (int, int, int) {
    let head = shared_head(a, b, 0);
    let tail = shared_tail(a, b, head, 0);
    (head as int, a.len() - head - tail, b.len() - head - tail)
}

proof fn lemma_shared_head(a: Seq<char>, b: Seq<char>, k: nat)
    requires
        k <= a.len(),
        k <= b.len(),
        forall|i: int| 0 <= i < k ==> a[i] == b[i],
    ensures
        shared_head(a, b, k) <= a.len(),
        shared_head(a, b, k) <= b.len(),
        forall|i: int| 0 <= i < shared_head(a, b, k) ==> a[i] == b[i],
    decreases a.len() - k,
{
    if k < a.len() && k < b.len() && a[k as int] == b[k as int] {
        lemma_shared_head(a, b, k + 1);
    }
}

proof fn lemma_shared_tail(a: Seq<char>, b: Seq<char>, head: nat, k: nat)
    requires
        k + head <= a.len(),
        k + head <= b.len(),
        forall|i: int| 0 <= i < k ==> #[trigger] a[a.len() - 1 - i] == b[b.len() - 1 - i],
    ensures
        shared_tail(a, b, head, k) + head <= a.len(),
        shared_tail(a, b, head, k) + head <= b.len(),
        forall|i: int|
            0 <= i < shared_tail(a, b, head, k) ==> #[trigger] a[a.len() - 1 - i] == b[b.len() - 1
                - i],
    decreases a.len() - k,
{
    if k + head < a.len() && k + head < b.len() && a[a.len() - 1 - k] == b[b.len() - 1 - k] {
        lemma_shared_tail(a, b, head, k + 1);
    }
}

/// Putting the differing stretch of the second text in the place of that of the first makes the
/// second text.
pub proof fn law_a_difference_makes_the_text(a: Seq<char>, b: Seq<char>)
    ensures
        ({
            let (start, removed, inserted) = difference(a, b);
            &&& 0 <= start && 0 <= removed && 0 <= inserted
            &&& start + removed <= a.len()
            &&& start + inserted <= b.len()
            &&& a.take(start) + b.subrange(start, start + inserted) + a.skip(start + removed) == b
        }),
{
    let head = shared_head(a, b, 0);
    lemma_shared_head(a, b, 0);
    let tail = shared_tail(a, b, head, 0);
    lemma_shared_tail(a, b, head, 0);
    let (start, removed, inserted) = difference(a, b);
    let made = a.take(start) + b.subrange(start, start + inserted) + a.skip(start + removed);
    assert(made.len() == b.len());
    assert forall|i: int| 0 <= i < b.len() implies made[i] == b[i] by {
        if i >= start + inserted {
            let j = b.len() - 1 - i;
            assert(a[a.len() - 1 - j] == b[b.len() - 1 - j]);
        }
    }
    assert(made =~= b);
}

/// The one stretch in which two texts differ: where it begins, how long it is in the first, and
/// how long in the second.
pub fn diff_chars(a: &str, b: &str) -> (r: (usize, usize, usize))
    ensures
        r.0 == difference(a@, b@).0,
        r.1 == difference(a@, b@).1,
        r.2 == difference(a@, b@).2,
        r.0 + r.1 <= a@.len() <= usize::MAX,
        r.0 + r.2 <= b@.len() <= usize::MAX,
{
    let n: usize = a.unicode_len();
    let m: usize = b.unicode_len();
    let mut head: usize = 0;
    while head < n && head < m && a.get_char(head) == b.get_char(head)
        invariant
            n == a@.len(),
            m == b@.len(),
            head <= n,
            head <= m,
            shared_head(a@, b@, 0) == shared_head(a@, b@, head as nat),
        decreases n - head,
    {
        head += 1;
    }
    let mut tail: usize = 0;
    while tail < n - head && tail < m - head && a.get_char(n - 1 - tail) == b.get_char(
        m - 1 - tail,
    )
        invariant
            n == a@.len(),
            m == b@.len(),
            head <= n,
            head <= m,
            tail <= n - head,
            tail <= m - head,
            shared_tail(a@, b@, head as nat, 0) == shared_tail(a@, b@, head as nat, tail as nat),
        decreases n - tail,
    {
        tail += 1;
    }
    (head, n - head - tail, m - head - tail)
}

/// How many characters the first `k` runs hold.
pub open spec fn run_total<S>(runs: Seq<TextRunView<S>>, k: nat) -> nat
    decreases k,
{
    if k == 0 {
        0
    } else {
        run_total(runs, (k - 1) as nat) + runs[k - 1].len as nat
    }
}

/// How many of the characters `from..to` are among the `removed` ones at `start`.
pub open spec fn lost(from: int, to: int, start: int, removed: int) -> int {
    let a = if from < start {
        start
    } else {
        from
    };
    let b = if to > start + removed {
        start + removed
    } else {
        to
    };
    if a < b {
        b - a
    } else {
        0
    }
}

/// Whether run `i`, of the characters `from..to`, takes what is typed at `start`: the run of the
/// character before it does, or the first one at the beginning of the text.
pub open spec fn takes(i: int, from: int, to: int, start: int) -> bool {
    if start == 0 {
        i == 0
    } else {
        from < start <= to
    }
}

/// How long run `i` is after `removed` characters at `start` gave way to `inserted`.
pub open spec fn new_len<S>(
    runs: Seq<TextRunView<S>>,
    i: int,
    start: int,
    removed: int,
    inserted: int,
) -> int {
    let from = run_total(runs, i as nat) as int;
    let to = from + runs[i].len;
    runs[i].len - lost(from, to, start, removed) + if takes(i, from, to, start) {
        inserted
    } else {
        0
    }
}

/// The first `k` runs after characters were replaced; a run without characters is gone.
pub open spec fn runs_after<S>(
    runs: Seq<TextRunView<S>>,
    start: int,
    removed: int,
    inserted: int,
    k: nat,
) -> Seq<TextRunView<S>>
    decreases k,
{
    if k == 0 {
        Seq::empty()
    } else {
        let rest = runs_after(runs, start, removed, inserted, (k - 1) as nat);
        let n = new_len(runs, k - 1, start, removed, inserted);
        if n > 0 {
            rest.push(TextRunView { len: n as usize, ..runs[k - 1] })
        } else {
            rest
        }
    }
}

/// The runs of a text after characters were replaced. What is typed behind all runs gets a run of
/// the style `base`.
pub open spec fn spliced<S>(
    runs: Seq<TextRunView<S>>,
    start: int,
    removed: int,
    inserted: int,
    base: RunStyleView<S>,
) -> Seq<TextRunView<S>> {
    let kept = runs_after(runs, start, removed, inserted, runs.len());
    if inserted > 0 && (runs.len() == 0 || start > run_total(runs, runs.len())) {
        kept.push(TextRunView { len: inserted as usize, style: base })
    } else {
        kept
    }
}

proof fn lemma_run_total_grows<S>(runs: Seq<TextRunView<S>>, i: nat, k: nat)
    requires
        i <= k,
    ensures
        run_total(runs, i) <= run_total(runs, k),
    decreases k,
{
    if i < k {
        lemma_run_total_grows(runs, i, (k - 1) as nat);
    }
}

proof fn lemma_total_of_push<S>(runs: Seq<TextRunView<S>>, r: TextRunView<S>, k: nat)
    requires
        k <= runs.len(),
    ensures
        run_total(runs.push(r), k) == run_total(runs, k),
    decreases k,
{
    if k > 0 {
        lemma_total_of_push(runs, r, (k - 1) as nat);
    }
}

proof fn lemma_total_after<S>(
    runs: Seq<TextRunView<S>>,
    start: int,
    removed: int,
    inserted: int,
    k: nat,
)
    requires
        0 <= start,
        0 <= removed,
        0 <= inserted,
        k <= runs.len(),
        run_total(runs, runs.len()) + inserted <= usize::MAX,
    ensures
        ({
            let after = runs_after(runs, start, removed, inserted, k);
            run_total(after, after.len()) == run_total(runs, k) - lost(
                0,
                run_total(runs, k) as int,
                start,
                removed,
            ) + if k > 0 && start <= run_total(runs, k) {
                inserted
            } else {
                0
            }
        }),
    decreases k,
{
    if k > 0 {
        let j = (k - 1) as nat;
        lemma_total_after(runs, start, removed, inserted, j);
        lemma_run_total_grows(runs, k, runs.len());
        let rest = runs_after(runs, start, removed, inserted, j);
        let n = new_len(runs, k - 1, start, removed, inserted);
        assert(0 <= n <= usize::MAX);
        if n > 0 {
            lemma_total_of_push(rest, TextRunView { len: n as usize, ..runs[k - 1] }, rest.len());
        }
    }
}

/// Editing a text keeps its runs in step with it: where the runs held all characters that were
/// replaced, they hold as many characters afterwards as the text has then.
pub proof fn law_runs_follow_the_text<S>(
    runs: Seq<TextRunView<S>>,
    start: int,
    removed: int,
    inserted: int,
    base: RunStyleView<S>,
)
    requires
        runs.len() > 0,
        0 <= start,
        0 <= removed,
        0 <= inserted,
        start + removed <= run_total(runs, runs.len()),
        run_total(runs, runs.len()) + inserted <= usize::MAX,
    ensures
        ({
            let after = spliced(runs, start, removed, inserted, base);
            run_total(after, after.len()) == run_total(runs, runs.len()) - removed + inserted
        }),
{
    lemma_total_after(runs, start, removed, inserted, runs.len());
}

fn least(a: usize, b: usize) -> (r: usize)
    ensures
        r <= a,
        r <= b,
        r == a || r == b,
{
    if a < b {
        a
    } else {
        b
    }
}

/// Moves the runs of a text along with the characters that were replaced.
pub fn splice<S: Scalar>(
    runs: Vec<TextRun<S>>,
    start: usize,
    removed: usize,
    inserted: usize,
    base: &RunStyle<S>,
) -> (r: Vec<TextRun<S>>)
    requires
        start + removed <= usize::MAX,
        run_total(run_views(runs@), runs@.len()) + inserted <= usize::MAX,
    ensures
        run_views(r@) == spliced(
            run_views(runs@),
            start as int,
            removed as int,
            inserted as int,
            base@,
        ),
{
    let ghost all = run_views(runs@);
    let mut r: Vec<TextRun<S>> = Vec::new();
    let mut i: usize = 0;
    let mut from: usize = 0;
    assert(run_views(r@) =~= Seq::empty());
    while i < runs.len()
        invariant
            start + removed <= usize::MAX,
            all == run_views(runs@),
            all.len() == runs@.len(),
            run_total(all, all.len()) + inserted <= usize::MAX,
            i <= runs.len(),
            from == run_total(all, i as nat),
            run_views(r@) == runs_after(
                all,
                start as int,
                removed as int,
                inserted as int,
                i as nat,
            ),
        decreases runs.len() - i,
    {
        proof {
            assert(all[i as int] == runs@[i as int]@);
            lemma_run_total_grows(all, (i + 1) as nat, all.len());
        }
        let len: usize = runs[i].len;
        let to: usize = from + len;
        let a: usize = if from < start {
            start
        } else {
            from
        };
        let b: usize = least(to, start + removed);
        let gone: usize = if a < b {
            b - a
        } else {
            0
        };
        let here = if start == 0 {
            i == 0
        } else {
            from < start && start <= to
        };
        let n: usize = len - gone + if here {
            inserted
        } else {
            0
        };
        assert(n == new_len(all, i as int, start as int, removed as int, inserted as int));
        if n > 0 {
            let ghost before = r@;
            let run = TextRun { len: n, style: runs[i].style.duplicate() };
            let ghost v = run@;
            r.push(run);
            assert(run_views(r@) =~= run_views(before).push(v));
        }
        from = to;
        i += 1;
    }
    if inserted > 0 && (runs.len() == 0 || start > from) {
        let ghost before = r@;
        let run = TextRun { len: inserted, style: base.duplicate() };
        let ghost v = run@;
        r.push(run);
        assert(run_views(r@) =~= run_views(before).push(v));
    }
    r
}

/// The style of what a text's runs leave.
pub open spec fn base_style<S>(text: TextBlockView<S>, color: Option<Color32>) -> RunStyleView<S> {
    RunStyleView {
        font: text.font,
        font_size: text.font_size,
        color,
        bold: text.bold,
        italic: text.italic,
        underline: text.underline,
        strikethrough: text.strikethrough,
    }
}

/// A text that says something else: its runs, if it has any, move along with what was typed.
#[verifier::opaque]
pub open spec fn retyped_text<S>(
    text: TextBlockView<S>,
    color: Option<Color32>,
    content: Seq<char>,
) -> TextBlockView<S> {
    let (start, removed, inserted) = difference(text.content, content);
    TextBlockView {
        content,
        runs: if text.runs.len() == 0 {
            text.runs
        } else {
            spliced(text.runs, start, removed, inserted, base_style(text, color))
        },
        ..text
    }
}

/// A text layer that says something else.
pub open spec fn retyped<S: Scalar>(v: LayerView<S>, content: Seq<char>) -> LayerView<S> {
    match v.kind {
        KindView::Text { text } => LayerView {
            kind: KindView::Text {
                text: retyped_text(
                    text,
                    match v.style.fill {
                        Some(p) => Some(flat_color(p)),
                        None => None,
                    },
                    content,
                ),
            },
            ..v
        },
        _ => v,
    }
}

/// Whether the lengths of a text's runs can grow by what is typed.
pub open spec fn can_retype<S>(v: LayerView<S>, content: Seq<char>) -> bool {
    v.kind matches KindView::Text { text } ==> content.len() <= usize::MAX && run_total(
        text.runs,
        text.runs.len(),
    ) + content.len() <= usize::MAX
}

fn retype_text<S: Scalar>(text: &mut TextBlock<S>, color: Option<Color32>, content: String)
    requires
        content@.len() <= usize::MAX,
        run_total(old(text)@.runs, old(text)@.runs.len()) + content@.len() <= usize::MAX,
    ensures
        final(text)@ == retyped_text(old(text)@, color, content@),
{
    reveal(retyped_text);
    if text.runs.len() > 0 {
        let (start, removed, inserted) = diff_chars(text.content.as_str(), content.as_str());
        let base = RunStyle {
            font: text.font.duplicate(),
            font_size: text.font_size,
            color,
            bold: text.bold,
            italic: text.italic,
            underline: text.underline,
            strikethrough: text.strikethrough,
        };
        let mut runs: Vec<TextRun<S>> = Vec::new();
        std::mem::swap(&mut runs, &mut text.runs);
        text.runs = splice(runs, start, removed, inserted, &base);
    }
    text.content = content;
}

fn retype<S: Scalar>(layer: &mut Layer<S>, content: String)
    requires
        can_retype(old(layer)@, content@),
    ensures
        final(layer)@ == retyped(old(layer)@, content@),
{
    let color = match &layer.style.fill {
        Some(p) => Some(p.to_color32()),
        None => None,
    };
    if let LayerKind::Text { text } = &mut layer.kind {
        retype_text(text, color, content);
    }
}

impl<S: Scalar> CanvasWidget<S> {
    /// Looks again at the texts whose fonts were not there: `ready` says of each whether its font
    /// is there now. Returns those that are to be measured.
    pub fn retry_font_resizes(&mut self, ready: &Vec<bool>) -> (r: Vec<LayerId>)
        requires
            ready.len() == old(self)@.pending_font_resize.len(),
        ensures
            r@ == now_ready(old(self)@.pending_font_resize, ready@, ready@.len()),
            final(self)@ == (CanvasView {
                pending_font_resize: still_waiting(
                    old(self)@.pending_font_resize,
                    ready@,
                    ready@.len(),
                ),
                ..old(self)@
            }),
    {
        let ghost all = self@.pending_font_resize;
        let mut done: Vec<LayerId> = Vec::new();
        let mut kept: Vec<(LayerId, String, u8)> = Vec::new();
        let n = ready.len();
        let mut i: usize = 0;
        assert(waiting_fonts(kept@) =~= Seq::empty());
        while i < n
            invariant
                *self == *old(self),
                all == waiting_fonts(self.pending_font_resize@),
                n == ready.len(),
                n == all.len(),
                i <= n,
                done@ == now_ready(all, ready@, i as nat),
                waiting_fonts(kept@) == still_waiting(all, ready@, i as nat),
            decreases n - i,
        {
            assert(all[i as int].0 == self.pending_font_resize@[i as int].0);
            let id = self.pending_font_resize[i].0;
            let left: u8 = self.pending_font_resize[i].2;
            if ready[i] {
                done.push(id);
            } else if left > 1 {
                let ghost before = kept@;
                let family = self.pending_font_resize[i].1.clone();
                let ghost e = (id, family@, (left - 1) as u8);
                kept.push((id, family, left - 1));
                assert(waiting_fonts(kept@) =~= waiting_fonts(before).push(e));
            }
            i += 1;
        }
        self.pending_font_resize = kept;
        done
    }

    /// The editor of the text that is edited. The editing ends where that layer is gone or is no
    /// text any more.
    pub fn text_editor(&mut self, history: &History<S>, canvas_width: S) -> (r: Option<
        TextEditor<S>,
    >)
        requires
            history@.current.wf(),
        ensures
            r == editor_of(old(self)@, history@.layers(), canvas_width),
            final(self)@ == (if r is None && old(self)@.editing_text is Some {
                CanvasView { editing_text: None, text_edit_selection: None, ..old(self)@ }
            } else {
                old(self)@
            }),
    {
        let id = match self.editing_text {
            Some(id) => id,
            None => {
                return None;
            },
        };
        let page = history.page();
        if let (Some(layer), Some(offset)) = (page.find(id), page.absolute_offset(id)) {
            if let LayerKind::Text { text } = &layer.kind {
                let b = layer.frame.bounds().translate(offset);
                let width = match text.resize {
                    TextResize::Auto => S::ratio(2000, 1).lesser(canvas_width),
                    _ => b.width().times(self.zoom).greater(S::ratio(40, 1)),
                };
                let color = match &layer.style.fill {
                    Some(p) => p.to_color32(),
                    None => Color32 { r: 0, g: 0, b: 0, a: 255 },
                };
                return Some(
                    TextEditor {
                        layer: id,
                        bounds: b,
                        width,
                        color,
                        rich: text.runs.len() > 0,
                        vertical_align: text.vertical_align,
                    },
                );
            }
        }
        self.editing_text = None;
        self.text_edit_selection = None;
        None
    }

    /// Where the editor stands on the screen, by the height of what it shows.
    pub fn editor_position(&self, editor: &TextEditor<S>, origin: Pos2<S>, content_height: S) -> (r:
        Pos2<S>)
        ensures
            r == self@.to_screen(origin, editor.bounds.min).spec_plus(
                Vec2 {
                    x: S::spec_ratio(0, 1),
                    y: editor_drop(
                        editor.vertical_align,
                        editor.bounds.spec_height().spec_times(self@.zoom),
                        content_height,
                    ),
                },
            ),
    {
        let zero = S::ratio(0, 1);
        let spare = editor.bounds.height().times(self.zoom).minus(content_height);
        let y = match editor.vertical_align {
            VerticalAlign::Top => zero,
            VerticalAlign::Middle => spare.times(S::ratio(1, 2)).greater(zero),
            VerticalAlign::Bottom => spare.greater(zero),
        };
        self.to_screen(origin, editor.bounds.min).plus(Vec2 { x: zero, y })
    }

    /// Whether the editor is to take the focus and select its whole text: once.
    pub fn take_text_focus(&mut self) -> (r: bool)
        ensures
            r == old(self)@.editing_text_just_started,
            final(self)@ == (CanvasView { editing_text_just_started: false, ..old(self)@ }),
    {
        let r = self.editing_text_just_started;
        self.editing_text_just_started = false;
        r
    }

    /// Notes which characters are selected in the editor; a bare cursor selects none.
    pub fn set_text_selection(&mut self, range: Option<(usize, usize)>)
        ensures
            final(self)@ == (CanvasView {
                text_edit_selection: match range {
                    Some((a, b)) => if a < b {
                        Some((a, b))
                    } else {
                        None
                    },
                    None => None,
                },
                ..old(self)@
            }),
    {
        self.text_edit_selection = match range {
            Some((a, b)) => if a < b {
                Some((a, b))
            } else {
                None
            },
            None => None,
        };
    }

    /// Gives the edited layer what was typed.
    pub fn text_changed(&self, history: &mut History<S>, content: String)
        requires
            old(history)@.current.wf(),
            self@.editing_text matches Some(id) ==> (crate::tree::find(
                old(history)@.layers(),
                id,
            ) matches Some(v) ==> can_retype(v, content@)),
        ensures
            final(history)@ == old(history)@.with_layers(
                match self@.editing_text {
                    Some(id) => with_layer(
                        old(history)@.layers(),
                        id,
                        |v: LayerView<S>| retyped(v, content@),
                    ),
                    None => old(history)@.layers(),
                },
            ),
    {
        proof {
            crate::history::lemma_unedited(history@);
        }
        if let Some(id) = self.editing_text {
            if let Some(layer) = history.page_mut().find_mut(id) {
                retype(layer, content);
            }
        }
    }

    /// Ends the editing of a text, when it loses the focus or Escape is pressed.
    pub fn end_text_editing(&mut self, lost_focus: bool, escape: bool)
        ensures
            final(self)@ == (if lost_focus || escape {
                CanvasView { editing_text: None, text_edit_selection: None, ..old(self)@ }
            } else {
                old(self)@
            }),
    {
        if lost_focus || escape {
            self.editing_text = None;
            self.text_edit_selection = None;
        }
    }
}

} // verus!
