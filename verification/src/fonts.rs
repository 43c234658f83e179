//! Which font file draws a typeface.
use vstd::prelude::*;

use crate::text::{TextFont, TextFontView};

verus! {

/// A font file: one that comes with the program, or one installed on the machine.
#[derive(Clone, Copy, Debug, PartialEq, Eq, Structural)]
pub enum FontFile {
    Proportional,
    Monospace,
    Serif,
    Display,
    Handwriting,
    ProportionalBold,
    MonospaceBold,
    SerifBold,
    DisplayBold,
    HandwritingBold,
    /// The regular face of an installed family.
    Installed,
    /// The bold face of an installed family.
    InstalledBold,
}

/// The file and the face in it for a typeface; `installed` is the face of an installed family.
pub open spec fn regular_face(font: TextFontView, installed: Option<u32>) -> (FontFile, u32) {
    match font {
        TextFontView::Proportional => (FontFile::Proportional, 0),
        TextFontView::Monospace => (FontFile::Monospace, 0),
        TextFontView::Serif => (FontFile::Serif, 0),
        TextFontView::Display => (FontFile::Display, 0),
        TextFontView::Handwriting => (FontFile::Handwriting, 0),
        TextFontView::System(_) => match installed {
            Some(i) => (FontFile::Installed, i),
            None => (FontFile::Proportional, 0),
        },
    }
}

/// The file and the face in it for a bold typeface.
pub open spec fn bold_face(
    font: TextFontView,
    installed: Option<u32>,
    installed_bold: Option<u32>,
) -> (FontFile, u32) {
    match font {
        TextFontView::Proportional => (FontFile::ProportionalBold, 0),
        TextFontView::Monospace => (FontFile::MonospaceBold, 0),
        TextFontView::Serif => (FontFile::SerifBold, 0),
        TextFontView::Display => (FontFile::DisplayBold, 0),
        TextFontView::Handwriting => (FontFile::HandwritingBold, 0),
        TextFontView::System(_) => match installed_bold {
            Some(i) => (FontFile::InstalledBold, i),
            None => regular_face(font, installed),
        },
    }
}

/// The file and the face in it for a typeface; one that is not installed is drawn in the
/// proportional face.
pub fn ab_glyph_bytes(font: &TextFont, installed: Option<u32>) -> (r: (FontFile, u32))
    ensures
        r == regular_face(font@, installed),
{
    match font {
        TextFont::Proportional => (FontFile::Proportional, 0),
        TextFont::Monospace => (FontFile::Monospace, 0),
        TextFont::Serif => (FontFile::Serif, 0),
        TextFont::Display => (FontFile::Display, 0),
        TextFont::Handwriting => (FontFile::Handwriting, 0),
        TextFont::System(_) => match installed {
            Some(i) => (FontFile::Installed, i),
            None => (FontFile::Proportional, 0),
        },
    }
}

/// The file and the face in it for a bold typeface; an installed family without a bold face is
/// drawn in its regular one.
pub fn ab_glyph_bytes_bold(
    font: &TextFont,
    installed: Option<u32>,
    installed_bold: Option<u32>,
) -> (r: (FontFile, u32))
    ensures
        r == bold_face(font@, installed, installed_bold),
{
    match font {
        TextFont::Proportional => (FontFile::ProportionalBold, 0),
        TextFont::Monospace => (FontFile::MonospaceBold, 0),
        TextFont::Serif => (FontFile::SerifBold, 0),
        TextFont::Display => (FontFile::DisplayBold, 0),
        TextFont::Handwriting => (FontFile::HandwritingBold, 0),
        TextFont::System(_) => match installed_bold {
            Some(i) => (FontFile::InstalledBold, i),
            None => ab_glyph_bytes(font, installed),
        },
    }
}

/// A family that is not installed is drawn in the proportional face, in both weights.
pub proof fn law_missing_families_fall_back(name: Seq<char>)
    ensures
        regular_face(TextFontView::System(name), None) == regular_face(
            TextFontView::Proportional,
            None,
        ),
        bold_face(TextFontView::System(name), None, None) == regular_face(
            TextFontView::Proportional,
            None,
        ),
{
}

} // verus!
