//! The clock in large letters, drawn with the glyphs of a FIGlet font.

use vstd::prelude::*;
use vstd::string::*;
use figlet_rs::FIGfont;
use crate::counter::DisplayClock;

verus! {

/// A FIGlet font of the `figlet_rs` crate. What it holds is not looked into
/// here.
#[verifier::external_type_specification]
#[verifier::external_body]
pub struct ExFIGfont(figlet_rs::FIGfont);

/// The printed figure that `figlet_rs` makes of `text` in `font`, or `None`
/// where it makes none. The font stands for itself here: it has no view.
pub uninterp spec fn figure_of(font: FIGfont, text: Seq<char>) -> Option<Seq<char>>;

/// The characters of a figure, where there is one.
pub open spec fn printed(figure: Option<String>) -> Option<Seq<char>> {
    match figure {
        Some(lines) => Some(lines@),
        None => None,
    }
}

/// Asks `FIGfont::convert` for the figure of `text` and prints it with the
/// `Display` of `FIGure`. Both read nothing but the font and the text, so the
/// outcome is the one that `figure_of` names.
#[verifier::external_body]
fn convert(font: &FIGfont, text: &str) -> (figure: Option<String>)
    ensures
        printed(figure) == figure_of(*font, text@),
{
    match font.convert(text) {
        Some(figure) => Some(figure.to_string()),
        None => None,
    }
}

impl DisplayClock {
    /// The clock in the large letters of `font`: the figure of its text, or
    /// `None` where the font has no glyph for any of its characters.
    pub fn banner(&self, font: &FIGfont) -> (figure: Option<String>)
        ensures
            printed(figure) == figure_of(*font, self.spec_text()),
    {
        let text = self.text();
        convert(font, text.as_str())
    }
}

} // verus!
