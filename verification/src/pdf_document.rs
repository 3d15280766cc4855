//! Positioned input handed to the parser: pages of lines of words, each word
//! carrying its horizontal and vertical position on the page, its rendered
//! width and its font size.
//!
//! Every measurement is an integer in hundredths of a typographic point
//! (the page origin is the bottom-left corner; `y` grows upward), so the
//! column tests of the classifier are exact integer comparisons.

use vstd::prelude::*;

verus! {

/// Position of a word on its page, in hundredths of a point.
#[derive(Clone, Copy, Debug, PartialEq, Eq, Structural)]
pub struct TextPosition {
    pub x: u32,
    pub y: u32,
}

/// One positioned text fragment of the input.
#[derive(Clone, Debug)]
pub struct Word {
    pub text: String,
    pub bbox_width: u32,
    pub position: TextPosition,
    pub font_size: u32,
}

/// One input line: the words that share a baseline, in reading order.
#[derive(Clone, Debug)]
pub struct Line {
    pub words: Vec<Word>,
}

/// One input page.
#[derive(Clone, Debug)]
pub struct Page {
    pub lines: Vec<Line>,
}

/// The whole positioned input.
#[derive(Clone, Debug)]
pub struct PDFDocument {
    pub pages: Vec<Page>,
}

/// Mathematical image of a [`Word`].
#[verifier::ext_equal]
pub struct WordV {
    pub text: Seq<char>,
    pub bbox_width: int,
    pub x: int,
    pub y: int,
    pub font_size: int,
}

impl View for Word {
    type V = WordV;

    open spec fn view(&self) -> WordV {
        WordV {
            text: self.text@,
            bbox_width: self.bbox_width as int,
            x: self.position.x as int,
            y: self.position.y as int,
            font_size: self.font_size as int,
        }
    }
}

impl View for Line {
    type V = Seq<WordV>;

    open spec fn view(&self) -> Seq<WordV> {
        Seq::new(self.words@.len(), |i: int| self.words@[i]@)
    }
}

impl View for Page {
    type V = Seq<Seq<WordV>>;

    open spec fn view(&self) -> Seq<Seq<WordV>> {
        Seq::new(self.lines@.len(), |i: int| self.lines@[i]@)
    }
}

impl View for PDFDocument {
    type V = Seq<Seq<Seq<WordV>>>;

    open spec fn view(&self) -> Seq<Seq<Seq<WordV>>> {
        Seq::new(self.pages@.len(), |i: int| self.pages@[i]@)
    }
}

/// Page margins and column anchors of a screenplay layout, in hundredths of
/// a point, measured from the bottom-left page corner.
///
/// `top` and `bottom` bound the vertical content band; `left` and `right`
/// bound the horizontal one; `action`, `character`, `dialogue` and
/// `parenthetical` are the indentation anchors of the body columns.
#[derive(Clone, Copy, Debug, PartialEq, Eq, Structural)]
pub struct ElementIndentations {
    pub pagewidth: u32,
    pub pageheight: u32,
    pub left: u32,
    pub right: u32,
    pub top: u32,
    pub bottom: u32,
    pub action: u32,
    pub character: u32,
    pub dialogue: u32,
    pub parenthetical: u32,
}

impl ElementIndentations {
    /// The US-Letter defaults: page 8.5 in by 11 in, content band between
    /// 1 in and 10 in vertically and 1.5 in and 7.5 in horizontally,
    /// action column at 1.5 in, character at 3.7 in, dialogue at 2.5 in,
    /// parenthetical at 3.1 in (72 points per inch).
    pub fn us_letter_default() -> (r: Self)
        ensures
            r == Self::us_letter_default_spec(),
    {
        ElementIndentations {
            pagewidth: 61200,
            pageheight: 79200,
            left: 10800,
            right: 54000,
            top: 72000,
            bottom: 7200,
            action: 10800,
            character: 26640,
            dialogue: 18000,
            parenthetical: 22320,
        }
    }

    pub open spec fn us_letter_default_spec() -> Self {
        ElementIndentations {
            pagewidth: 61200,
            pageheight: 79200,
            left: 10800,
            right: 54000,
            top: 72000,
            bottom: 7200,
            action: 10800,
            character: 26640,
            dialogue: 18000,
            parenthetical: 22320,
        }
    }

    pub fn top(self, new_top: u32) -> (r: Self)
        ensures
            r == (Self { top: new_top, ..self }),
    {
        Self { top: new_top, ..self }
    }

    pub fn bottom(self, new_bottom: u32) -> (r: Self)
        ensures
            r == (Self { bottom: new_bottom, ..self }),
    {
        Self { bottom: new_bottom, ..self }
    }

    pub fn left(self, new_left: u32) -> (r: Self)
        ensures
            r == (Self { left: new_left, ..self }),
    {
        Self { left: new_left, ..self }
    }

    pub fn right(self, new_right: u32) -> (r: Self)
        ensures
            r == (Self { right: new_right, ..self }),
    {
        Self { right: new_right, ..self }
    }

    pub fn pageheight(self, new_pageheight: u32) -> (r: Self)
        ensures
            r == (Self { pageheight: new_pageheight, ..self }),
    {
        Self { pageheight: new_pageheight, ..self }
    }

    pub fn pagewidth(self, new_pagewidth: u32) -> (r: Self)
        ensures
            r == (Self { pagewidth: new_pagewidth, ..self }),
    {
        Self { pagewidth: new_pagewidth, ..self }
    }

    pub fn action(self, new_action: u32) -> (r: Self)
        ensures
            r == (Self { action: new_action, ..self }),
    {
        Self { action: new_action, ..self }
    }

    pub fn character(self, new_character: u32) -> (r: Self)
        ensures
            r == (Self { character: new_character, ..self }),
    {
        Self { character: new_character, ..self }
    }

    pub fn dialogue(self, new_dialogue: u32) -> (r: Self)
        ensures
            r == (Self { dialogue: new_dialogue, ..self }),
    {
        Self { dialogue: new_dialogue, ..self }
    }

    pub fn parenthetical(self, new_parenthetical: u32) -> (r: Self)
        ensures
            r == (Self { parenthetical: new_parenthetical, ..self }),
    {
        Self { parenthetical: new_parenthetical, ..self }
    }
}

} // verus!
