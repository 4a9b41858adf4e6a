//! Text with optional ANSI styling.

use vstd::prelude::*;

verus! {

pub const RESET: &'static str = "\x1b[0m";

pub const DIM: &'static str = "\x1b[2m";

pub const RED: &'static str = "\x1b[31m";

pub const BOLD_RED: &'static str = "\x1b[1;31m";

pub const GREEN: &'static str = "\x1b[32m";

pub const BOLD_YELLOW: &'static str = "\x1b[1;33m";

pub const BOLD_MAGENTA: &'static str = "\x1b[1;35m";

pub const CYAN: &'static str = "\x1b[36m";

/// A value that can be shown as text.
pub trait Shown {
    /// The text that the value is shown as.
    spec fn shown(&self) -> Seq<char>;

    /// The text that the value is shown as.
    fn show(&self) -> (text: String)
        ensures
            text@ == self.shown(),
    ;
}

impl Shown for String {
    open spec fn shown(&self) -> Seq<char> {
        self@
    }

    fn show(&self) -> (text: String) {
        self.clone()
    }
}

impl<'b> Shown for &'b String {
    open spec fn shown(&self) -> Seq<char> {
        (**self)@
    }

    fn show(&self) -> (text: String) {
        (*self).clone()
    }
}

impl<'b> Shown for &'b str {
    open spec fn shown(&self) -> Seq<char> {
        (**self)@
    }

    fn show(&self) -> (text: String) {
        (*self).to_owned()
    }
}

/// A text between a style and the sequence that ends it, or as it is without color.
pub open spec fn styled_text(text: Seq<char>, style: Seq<char>, color: bool) -> Seq<char> {
    if color {
        style + text + RESET@
    } else {
        text
    }
}

/// A value with optional ANSI styling.
pub struct Styled<'a, T> {
    value: T,
    style: &'a str,
    color: bool,
}

/// Apply an ANSI style when color is enabled.
pub fn styled<T: Shown>(value: T, style: &str, color: bool) -> (result: Styled<'_, T>)
    ensures
        result.text() == styled_text(value.shown(), style@, color),
{
    Styled { value, style, color }
}

impl<'a, T: Shown> Styled<'a, T> {
    /// The text of the value, with its style where color is enabled.
    pub closed spec fn text(&self) -> Seq<char> {
        styled_text(self.value.shown(), self.style@, self.color)
    }

    /// The text of the value, with its style where color is enabled.
    pub fn to_string(&self) -> (text: String)
        ensures
            text@ == self.text(),
    {
        if self.color {
            self.style.to_owned().concat(self.value.show().as_str()).concat(RESET)
        } else {
            self.value.show()
        }
    }
}

/// Without color a text is shown as it is; with color it is the same text between the style and
/// the sequence that ends it, so nothing of it is lost.
pub proof fn styling_keeps_the_text(text: Seq<char>, style: Seq<char>)
    ensures
        styled_text(text, style, false) == text,
        styled_text(text, style, true).subrange(style.len() as int, (style.len() + text.len()) as int)
            == text,
        styled_text(text, style, true).take(style.len() as int) == style,
        styled_text(text, style, true).skip((style.len() + text.len()) as int) == RESET@,
{
    let whole = styled_text(text, style, true);
    assert(whole.subrange(style.len() as int, (style.len() + text.len()) as int) == text);
    assert(whole.take(style.len() as int) == style);
    assert(whole.skip((style.len() + text.len()) as int) == RESET@);
}

/// The styles are the codes by which terminals set them.
pub proof fn styles_are_terminal_codes()
    ensures
        RESET@ == "\x1b[0m"@,
        DIM@ == "\x1b[2m"@,
        RED@ == "\x1b[31m"@,
        BOLD_RED@ == "\x1b[1;31m"@,
        GREEN@ == "\x1b[32m"@,
        BOLD_YELLOW@ == "\x1b[1;33m"@,
        BOLD_MAGENTA@ == "\x1b[1;35m"@,
        CYAN@ == "\x1b[36m"@,
{
}

} // verus!
