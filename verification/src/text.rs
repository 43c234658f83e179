//! What a text layer says and how it is set.
use vstd::prelude::*;

use crate::color::Color32;
use crate::scalar::Scalar;

verus! {

/// The typeface of a text layer or of a run in it.
#[derive(Debug, PartialEq)]
pub enum TextFont {
    Proportional,
    Monospace,
    Serif,
    Display,
    Handwriting,
    /// A family installed on the machine, by name.
    System(String),
}

/// [`TextFont`] with the name as a sequence of characters.
#[verifier::ext_equal]
pub enum TextFontView {
    Proportional,
    Monospace,
    Serif,
    Display,
    Handwriting,
    System(Seq<char>),
}

impl TextFont {
    pub open spec fn view(&self) -> TextFontView {
        match *self {
            TextFont::Proportional => TextFontView::Proportional,
            TextFont::Monospace => TextFontView::Monospace,
            TextFont::Serif => TextFontView::Serif,
            TextFont::Display => TextFontView::Display,
            TextFont::Handwriting => TextFontView::Handwriting,
            TextFont::System(name) => TextFontView::System(name@),
        }
    }

    /// A copy of its own.
    pub fn duplicate(&self) -> (r: Self)
        ensures
            r@ == self@,
    {
        match self {
            TextFont::Proportional => TextFont::Proportional,
            TextFont::Monospace => TextFont::Monospace,
            TextFont::Serif => TextFont::Serif,
            TextFont::Display => TextFont::Display,
            TextFont::Handwriting => TextFont::Handwriting,
            TextFont::System(name) => TextFont::System(name.clone()),
        }
    }
}

#[derive(Clone, Copy, Debug, PartialEq, Eq, Structural)]
pub enum TextAlign {
    Left,
    Center,
    Right,
    Justify,
}

#[derive(Clone, Copy, Debug, PartialEq, Eq, Structural)]
pub enum VerticalAlign {
    Top,
    Middle,
    Bottom,
}

/// How a text layer's frame follows its content.
#[derive(Clone, Copy, Debug, PartialEq, Eq, Structural)]
pub enum TextResize {
    /// Both sides hug the content and lines break only where they were typed.
    Auto,
    /// The width is kept, lines wrap at it, the height hugs the content.
    AutoHeight,
    /// The frame is kept and what overflows is clipped.
    Fixed,
}

#[derive(Clone, Copy, Debug, PartialEq, Eq, Structural)]
pub enum TextTransform {
    AsTyped,
    Uppercase,
    Lowercase,
}

#[derive(Clone, Copy, Debug, PartialEq, Eq, Structural)]
pub enum ListType {
    Plain,
    Bulleted,
    Numbered,
}

/// The character style of a run.
#[derive(Debug, PartialEq)]
pub struct RunStyle<S> {
    pub font: TextFont,
    pub font_size: S,
    /// The layer's fill where absent.
    pub color: Option<Color32>,
    pub bold: bool,
    pub italic: bool,
    pub underline: bool,
    pub strikethrough: bool,
}

#[verifier::ext_equal]
pub struct RunStyleView<S> {
    pub font: TextFontView,
    pub font_size: S,
    pub color: Option<Color32>,
    pub bold: bool,
    pub italic: bool,
    pub underline: bool,
    pub strikethrough: bool,
}

impl<S: Scalar> RunStyle<S> {
    pub open spec fn view(&self) -> RunStyleView<S> {
        RunStyleView {
            font: self.font@,
            font_size: self.font_size,
            color: self.color,
            bold: self.bold,
            italic: self.italic,
            underline: self.underline,
            strikethrough: self.strikethrough,
        }
    }

    /// A copy of its own.
    pub fn duplicate(&self) -> (r: Self)
        ensures
            r@ == self@,
    {
        RunStyle {
            font: self.font.duplicate(),
            font_size: self.font_size,
            color: self.color,
            bold: self.bold,
            italic: self.italic,
            underline: self.underline,
            strikethrough: self.strikethrough,
        }
    }
}

/// The next `len` characters of a text, with a style of their own: the runs of a text follow one
/// another from its first character on.
#[derive(Debug, PartialEq)]
pub struct TextRun<S> {
    pub len: usize,
    pub style: RunStyle<S>,
}

#[verifier::ext_equal]
pub struct TextRunView<S> {
    pub len: usize,
    pub style: RunStyleView<S>,
}

impl<S: Scalar> TextRun<S> {
    pub open spec fn view(&self) -> TextRunView<S> {
        TextRunView { len: self.len, style: self.style@ }
    }
}

pub open spec fn run_views<S: Scalar>(runs: Seq<TextRun<S>>) -> Seq<TextRunView<S>> {
    Seq::new(runs.len(), |i: int| runs[i]@)
}

/// The content and setting of a text layer.
#[derive(Debug, PartialEq)]
pub struct TextBlock<S> {
    pub content: String,
    pub font_size: S,
    pub font: TextFont,
    pub align: TextAlign,
    pub vertical_align: VerticalAlign,
    pub resize: TextResize,
    /// The font's own line spacing where absent.
    pub line_height: Option<S>,
    pub letter_spacing: S,
    pub paragraph_spacing: S,
    pub bold: bool,
    pub italic: bool,
    pub underline: bool,
    pub strikethrough: bool,
    pub transform: TextTransform,
    pub list: ListType,
    pub list_start: i32,
    /// Stretches set differently from the rest; none for uniform text.
    pub runs: Vec<TextRun<S>>,
}

#[verifier::ext_equal]
pub struct TextBlockView<S> {
    pub content: Seq<char>,
    pub font_size: S,
    pub font: TextFontView,
    pub align: TextAlign,
    pub vertical_align: VerticalAlign,
    pub resize: TextResize,
    pub line_height: Option<S>,
    pub letter_spacing: S,
    pub paragraph_spacing: S,
    pub bold: bool,
    pub italic: bool,
    pub underline: bool,
    pub strikethrough: bool,
    pub transform: TextTransform,
    pub list: ListType,
    pub list_start: i32,
    pub runs: Seq<TextRunView<S>>,
}

impl<S: Scalar> TextBlock<S> {
    pub open spec fn view(&self) -> TextBlockView<S> {
        TextBlockView {
            content: self.content@,
            font_size: self.font_size,
            font: self.font@,
            align: self.align,
            vertical_align: self.vertical_align,
            resize: self.resize,
            line_height: self.line_height,
            letter_spacing: self.letter_spacing,
            paragraph_spacing: self.paragraph_spacing,
            bold: self.bold,
            italic: self.italic,
            underline: self.underline,
            strikethrough: self.strikethrough,
            transform: self.transform,
            list: self.list,
            list_start: self.list_start,
            runs: run_views(self.runs@),
        }
    }

    /// Uniform, unwrapped, left-aligned text.
    pub fn plain(content: String, font_size: S) -> (r: Self)
        ensures
            r@.content == content@,
            r@.font_size == font_size,
            r@.font == TextFontView::Proportional,
            r@.align == TextAlign::Left,
            r@.vertical_align == VerticalAlign::Top,
            r@.resize == TextResize::Auto,
            r@.line_height is None,
            r@.letter_spacing == S::spec_ratio(0, 1),
            r@.paragraph_spacing == S::spec_ratio(0, 1),
            !r@.bold && !r@.italic && !r@.underline && !r@.strikethrough,
            r@.transform == TextTransform::AsTyped,
            r@.list == ListType::Plain,
            r@.list_start == 1,
            r@.runs == Seq::<TextRunView<S>>::empty(),
    {
        TextBlock {
            content,
            font_size,
            font: TextFont::Proportional,
            align: TextAlign::Left,
            vertical_align: VerticalAlign::Top,
            resize: TextResize::Auto,
            line_height: None,
            letter_spacing: S::ratio(0, 1),
            paragraph_spacing: S::ratio(0, 1),
            bold: false,
            italic: false,
            underline: false,
            strikethrough: false,
            transform: TextTransform::AsTyped,
            list: ListType::Plain,
            list_start: 1,
            runs: Vec::new(),
        }
    }

    /// A copy of its own.
    pub fn duplicate(&self) -> (r: Self)
        ensures
            r@ == self@,
    {
        let mut runs: Vec<TextRun<S>> = Vec::new();
        let mut i: usize = 0;
        while i < self.runs.len()
            invariant
                i <= self.runs.len(),
                runs.len() == i,
                forall|k: int| 0 <= k < i ==> #[trigger] runs@[k]@ == self.runs@[k]@,
            decreases self.runs.len() - i,
        {
            let run = &self.runs[i];
            runs.push(TextRun { len: run.len, style: run.style.duplicate() });
            i += 1;
        }
        let r = TextBlock {
            content: self.content.clone(),
            font_size: self.font_size,
            font: self.font.duplicate(),
            align: self.align,
            vertical_align: self.vertical_align,
            resize: self.resize,
            line_height: self.line_height,
            letter_spacing: self.letter_spacing,
            paragraph_spacing: self.paragraph_spacing,
            bold: self.bold,
            italic: self.italic,
            underline: self.underline,
            strikethrough: self.strikethrough,
            transform: self.transform,
            list: self.list,
            list_start: self.list_start,
            runs,
        };
        assert(r@.runs =~= self@.runs);
        r
    }
}

} // verus!
