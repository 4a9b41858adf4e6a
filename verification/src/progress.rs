//! The line on the terminal that says how far the work has come.

use crate::git::{display_path, shown_path};
use crate::listener::{CheckProgress, ProgressView};
use crate::style::{styled, styled_text, CYAN, DIM};
use crate::text::{
    chars_of, decimal, decimal_round_trip, decimal_value, is_digit, parse_decimal, to_decimal,
};
use crate::url::SourceUrlView;
use vstd::prelude::*;
use vstd::utf8::encode_utf8;

verus! {

// ---------------------------------------------------------------------------------------------
// The terminal
// ---------------------------------------------------------------------------------------------

/// The width of a terminal that does not tell its own.
pub const DEFAULT_TERMINAL_WIDTH: usize = 80;

/// Whether there is color, by whether there is a terminal and whether color is switched off.
pub open spec fn has_color(is_terminal: bool, no_color: bool) -> bool {
    is_terminal && !no_color
}

/// Output that does not go to a terminal has no color; on a terminal it has, unless that is
/// switched off.
pub proof fn color_is_for_terminals(no_color: bool)
    ensures
        !has_color(false, no_color),
        has_color(true, false),
        !has_color(true, true),
{
}

/// Whether output is colored: only on a terminal, and only where color is not switched off.
pub fn color_enabled(is_terminal: bool, no_color: bool) -> (color: bool)
    ensures
        color == (is_terminal && !no_color),
        color == has_color(is_terminal, no_color),
{
    is_terminal && !no_color
}

/// A text without the plus sign at its start, if there is one.
pub open spec fn without_sign(text: Seq<char>) -> Seq<char> {
    if text.len() > 0 && text[0] == '+' {
        text.drop_first()
    } else {
        text
    }
}

/// Whether a text holds digits only.
pub open spec fn all_digits(text: Seq<char>) -> bool {
    forall|i: int| 0 <= i < text.len() ==> is_digit(#[trigger] text[i])
}

/// The number that a text is read as: digits only, behind a plus sign if there is one, and no
/// more than a `usize` can hold.
pub open spec fn number_in(text: Seq<char>) -> Option<nat> {
    if without_sign(text).len() > 0 && all_digits(without_sign(text)) && decimal_value(
        without_sign(text),
    ) <= usize::MAX {
        Some(decimal_value(without_sign(text)))
    } else {
        None
    }
}

/// The number that a text is read as.
pub fn parse_number(text: &str) -> (number: Option<usize>)
    ensures
        match number {
            Some(n) => number_in(text@) == Some(n as nat),
            None => number_in(text@) is None,
        },
{
    let chars = chars_of(text);
    let mut digits: Vec<char> = Vec::new();
    let start: usize = if chars.len() > 0 && chars[0] == '+' {
        1
    } else {
        0
    };
    let ghost wanted = without_sign(text@);
    assert(wanted == chars@.skip(start as int));
    for i in start..chars.len()
        invariant
            chars@ == text@,
            start <= chars@.len(),
            wanted == without_sign(text@),
            wanted == chars@.skip(start as int),
            digits@ == wanted.take(i - start),
            all_digits(digits@),
    {
        let c = chars[i];
        assert(wanted[i - start] == c);
        if !(c >= '0' && c <= '9') {
            assert(!is_digit(wanted[i - start]));
            return None;
        }
        assert(wanted.take(i + 1 - start) == wanted.take(i - start).push(c));
        digits.push(c);
    }
    assert(wanted.take(wanted.len() as int) == wanted);
    if digits.len() == 0 {
        return None;
    }
    parse_decimal(digits.as_slice())
}

/// How wide a terminal is taken to be: as wide as it says, else as wide as the environment says,
/// else as wide as most are.
pub open spec fn width_of(size: Option<nat>, columns: Option<Seq<char>>) -> nat {
    if size is Some && size->0 != 0 {
        size->0
    } else if columns is Some && number_in(columns->0) is Some {
        number_in(columns->0)->0
    } else {
        DEFAULT_TERMINAL_WIDTH as nat
    }
}

/// How wide a terminal is taken to be, by what it says and by what the environment says.
pub fn terminal_width(size: Option<u16>, columns: Option<&str>) -> (width: usize)
    ensures
        width == width_of(
            match size {
                Some(width) => Some(width as nat),
                None => None,
            },
            match columns {
                Some(text) => Some(text@),
                None => None,
            },
        ),
{
    if let Some(width) = size {
        if width != 0 {
            return width as usize;
        }
    }
    if let Some(text) = columns {
        if let Some(number) = parse_number(text) {
            return number;
        }
    }
    DEFAULT_TERMINAL_WIDTH
}

// ---------------------------------------------------------------------------------------------
// What fits
// ---------------------------------------------------------------------------------------------

/// A number of dots.
pub open spec fn dots(count: nat) -> Seq<char> {
    Seq::new(count, |i: int| '.')
}

/// A text cut at its end, with three dots in place of what was cut, so that it is no longer than
/// `width`.
pub open spec fn truncated(value: Seq<char>, width: nat) -> Seq<char> {
    if value.len() <= width {
        value
    } else if width <= 3 {
        dots(width)
    } else {
        value.take(width - 3) + "..."@
    }
}

/// A cut text is as long as there is room for, a text that fits is not cut, and where there is
/// room for more than the dots a cut text keeps its start.
pub proof fn truncated_texts_fit(value: Seq<char>, width: nat)
    ensures
        truncated(value, width).len() == if value.len() <= width {
            value.len()
        } else {
            width
        },
        value.len() <= width ==> truncated(value, width) == value,
        value.len() > width > 3 ==> truncated(value, width).take(width - 3) == value.take(
            width - 3,
        ),
{
    reveal_strlit("...");
    if value.len() > width > 3 {
        assert(truncated(value, width).take(width - 3) == value.take(width - 3));
    }
}

/// A text cut at its end so that it is no longer than `width`.
pub fn truncate(value: &str, width: usize) -> (result: String)
    ensures
        result@ == truncated(value@, width as nat),
{
    let chars = chars_of(value);
    if chars.len() <= width {
        return value.to_owned();
    }
    let mut result = String::new();
    if width <= 3 {
        for i in 0..width
            invariant
                result@ == dots(i as nat),
        {
            result.push('.');
            assert(dots((i + 1) as nat) == dots(i as nat).push('.'));
        }
        return result;
    }
    for i in 0..width - 3
        invariant
            3 < width < chars@.len(),
            result@ == chars@.take(i as int),
    {
        result.push(chars[i]);
        assert(chars@.take(i + 1) == chars@.take(i as int).push(chars@[i as int]));
    }
    result.concat("...")
}

// ---------------------------------------------------------------------------------------------
// The line
// ---------------------------------------------------------------------------------------------

/// What takes the cursor to the start of its line and clears it.
pub const CLEAR_LINE: &'static str = "\r\x1b[2K";

/// The room that a line leaves between a label and a suffix, with one column to spare. A label
/// counts by its bytes.
pub open spec fn room(width: nat, label: Seq<char>, suffix: Seq<char>) -> nat {
    let taken = encode_utf8(label).len() + suffix.len() + 1;
    if width <= taken {
        0
    } else {
        (width - taken) as nat
    }
}

/// A value, in a style if there is one.
pub open spec fn value_text(value: Seq<char>, style: Option<Seq<char>>, color: bool) -> Seq<char> {
    match style {
        Some(style) => styled_text(value, style, color),
        None => value,
    }
}

/// The line that says how far the work has come.
pub open spec fn progress_text(
    width: nat,
    label: Seq<char>,
    value: Seq<char>,
    suffix: Seq<char>,
    style: Option<Seq<char>>,
    color: bool,
) -> Seq<char> {
    CLEAR_LINE@ + styled_text(label, DIM@, color) + value_text(
        truncated(value, room(width, label, suffix)),
        style,
        color,
    ) + suffix
}

/// A line of progress keeps its whole counter, and where there is room for label and counter at
/// all it does not reach the last column of the terminal.
pub proof fn progress_fits_the_terminal(
    width: nat,
    label: Seq<char>,
    value: Seq<char>,
    suffix: Seq<char>,
    style: Option<Seq<char>>,
    color: bool,
)
    requires
        encode_utf8(label).len() == label.len(),
        label.len() + suffix.len() < width,
    ensures
        label.len() + truncated(value, room(width, label, suffix)).len() + suffix.len() < width,
        progress_text(width, label, value, suffix, None, false) == CLEAR_LINE@ + label + truncated(
            value,
            room(width, label, suffix),
        ) + suffix,
        suffix.is_suffix_of(progress_text(width, label, value, suffix, style, color)),
{
    truncated_texts_fit(value, room(width, label, suffix));
    let line = progress_text(width, label, value, suffix, style, color);
    assert(suffix =~= line.subrange(line.len() - suffix.len(), line.len() as int));
}

/// Writes the line that says how far the work has come.
pub fn write_progress(
    output: &mut String,
    width: usize,
    label: &str,
    value: &str,
    suffix: &str,
    value_style: Option<&str>,
    color: bool,
)
    ensures
        final(output)@ == old(output)@ + progress_text(
            width as nat,
            label@,
            value@,
            suffix@,
            match value_style {
                Some(style) => Some(style@),
                None => None,
            },
            color,
        ),
{
    let ghost before = output@;
    let suffix_length = chars_of(suffix).len();
    let label_length = label.as_bytes().len();
    let rest: usize = if width > label_length {
        width - label_length
    } else {
        0
    };
    let more: usize = if rest > suffix_length {
        rest - suffix_length
    } else {
        0
    };
    let available: usize = if more > 1 {
        more - 1
    } else {
        0
    };
    assert(available == room(width as nat, label@, suffix@));
    let value = truncate(value, available);
    let shown = match value_style {
        Some(style) => styled(&value, style, color).to_string(),
        None => value,
    };
    let label = styled(label, DIM, color).to_string();
    output.append(CLEAR_LINE);
    output.append(label.as_str());
    output.append(shown.as_str());
    output.append(suffix);
    assert(output@ == before + (CLEAR_LINE@ + label@ + shown@ + suffix@));
}

/// Writes what clears the line.
pub fn clear_progress(output: &mut String)
    ensures
        final(output)@ == old(output)@ + CLEAR_LINE@,
{
    output.append(CLEAR_LINE);
}

// ---------------------------------------------------------------------------------------------
// What it says
// ---------------------------------------------------------------------------------------------

/// How [`char::escape_debug`] writes a character.
pub uninterp spec fn escaped_char(c: char) -> Seq<char>;

/// A character as [`char::escape_debug`] writes it. Which characters it escapes, and how, is left
/// to that function; the result rests on the character alone.
#[verifier::external_body]
fn escape_char(c: char) -> (text: String)
    ensures
        text@ == escaped_char(c),
{
    c.escape_debug().collect()
}

/// A text with each character as [`char::escape_debug`] writes it.
pub open spec fn escaped(text: Seq<char>) -> Seq<char>
    decreases text.len(),
{
    if text.len() == 0 {
        Seq::empty()
    } else {
        escaped(text.drop_last()) + escaped_char(text.last())
    }
}

/// A text with each character as [`char::escape_debug`] writes it.
pub fn escape(text: &str) -> (result: String)
    ensures
        result@ == escaped(text@),
{
    let chars = chars_of(text);
    let mut result = String::new();
    for i in 0..chars.len()
        invariant
            result@ == escaped(chars@.take(i as int)),
    {
        let one = escape_char(chars[i]);
        result.append(one.as_str());
        assert(chars@.take(i + 1).drop_last() == chars@.take(i as int));
    }
    assert(chars@.take(chars@.len() as int) == chars@);
    result
}

/// How far the work has come, in numbers.
pub open spec fn counter(index: nat, total: nat) -> Seq<char> {
    " ("@ + decimal(index) + "/"@ + decimal(total) + ")"@
}

/// How far the work has come, in numbers.
pub fn counter_text(index: usize, total: usize) -> (text: String)
    ensures
        text@ == counter(index as nat, total as nat),
{
    let mut text = " (".to_owned();
    text.append(to_decimal(index).as_str());
    text.append("/");
    text.append(to_decimal(total).as_str());
    text.append(")");
    text
}

/// What is shown of the scan of a file.
pub open spec fn scan_text(path: Seq<u8>, index: nat, total: nat, width: nat, color: bool) -> Seq<
    char,
> {
    progress_text(
        width,
        "Scanning: "@,
        escaped(shown_path(path)),
        counter(index, total),
        None,
        color,
    )
}

/// What the scan of a file puts on the terminal.
pub fn scan_notice(path: &[u8], index: usize, total: usize, width: usize, color: bool) -> (text:
    String)
    ensures
        text@ == scan_text(path@, index as nat, total as nat, width as nat, color),
        text@ == progress_text(
            width as nat,
            "Scanning: "@,
            escaped(shown_path(path@)),
            counter(index as nat, total as nat),
            None,
            color,
        ),
{
    let value = escape(display_path(path).as_str());
    let suffix = counter_text(index, total);
    let mut text = String::new();
    write_progress(
        &mut text,
        width,
        "Scanning: ",
        value.as_str(),
        suffix.as_str(),
        None,
        color,
    );
    assert(text@ == progress_text(
        width as nat,
        "Scanning: "@,
        escaped(shown_path(path@)),
        counter(index as nat, total as nat),
        None,
        color,
    ));
    text
}

/// What is written to standard output and to standard error.
#[derive(Debug)]
pub struct Notice {
    pub stdout: String,
    pub stderr: String,
}

/// A [`Notice`] as its characters.
pub struct NoticeView {
    pub stdout: Seq<char>,
    pub stderr: Seq<char>,
}

impl View for Notice {
    type V = NoticeView;

    open spec fn view(&self) -> NoticeView {
        NoticeView { stdout: self.stdout@, stderr: self.stderr@ }
    }
}

/// What a step of a check puts on the line of an interactive terminal.
pub open spec fn step_text(progress: ProgressView, width: nat, color: bool) -> Seq<char> {
    match progress {
        ProgressView::Preparing { repository, index, total } => progress_text(
            width,
            "Preparing: "@,
            repository,
            counter(index, total),
            None,
            color,
        ),
        ProgressView::Checking { url, index, total } => progress_text(
            width,
            "Checking: "@,
            escaped(url.text),
            counter(index, total),
            Some(CYAN@),
            color,
        ),
        ProgressView::InvestigationCount { total } => CLEAR_LINE@,
        ProgressView::Investigating { url, index, total } => progress_text(
            width,
            "Investigating: "@,
            escaped(url.text),
            counter(index, total),
            Some(CYAN@),
            color,
        ),
    }
}

/// What a step of a check writes: on an interactive terminal its line, and everywhere the number
/// of links to investigate, once it is known.
pub open spec fn step_notice(
    progress: ProgressView,
    interactive: bool,
    width: nat,
    color: bool,
) -> NoticeView {
    NoticeView {
        stdout: match progress {
            ProgressView::InvestigationCount { total } => decimal(total)
                + " URL(s) require investigation.\n"@,
            _ => Seq::empty(),
        },
        stderr: if interactive {
            step_text(progress, width, color)
        } else {
            Seq::empty()
        },
    }
}

/// Without an interactive terminal a check writes nothing to standard error as it goes.
pub proof fn quiet_without_a_terminal(progress: ProgressView, width: nat, color: bool)
    ensures
        step_notice(progress, false, width, color).stderr.len() == 0,
{
}

/// What a step of a check writes.
pub fn check_notice(
    progress: CheckProgress<'_>,
    interactive: bool,
    width: usize,
    color: bool,
) -> (notice: Notice)
    ensures
        notice@ == step_notice(progress@, interactive, width as nat, color),
{
    let ghost view = progress@;
    let mut stdout = String::new();
    let mut stderr = String::new();
    match progress {
        CheckProgress::Preparing { repository, index, total } => {
            if interactive {
                let suffix = counter_text(index, total);
                write_progress(
                    &mut stderr,
                    width,
                    "Preparing: ",
                    repository,
                    suffix.as_str(),
                    None,
                    color,
                );
            }
        },
        CheckProgress::Checking { url, index, total } => {
            if interactive {
                let value = escape(url.text.as_str());
                let suffix = counter_text(index, total);
                write_progress(
                    &mut stderr,
                    width,
                    "Checking: ",
                    value.as_str(),
                    suffix.as_str(),
                    Some(CYAN),
                    color,
                );
            }
        },
        CheckProgress::InvestigationCount { total } => {
            if interactive {
                clear_progress(&mut stderr);
            }
            stdout.append(to_decimal(total).as_str());
            stdout.append(" URL(s) require investigation.\n");
        },
        CheckProgress::Investigating { url, index, total } => {
            if interactive {
                let value = escape(url.text.as_str());
                let suffix = counter_text(index, total);
                write_progress(
                    &mut stderr,
                    width,
                    "Investigating: ",
                    value.as_str(),
                    suffix.as_str(),
                    Some(CYAN),
                    color,
                );
            }
        },
    }
    let notice = Notice { stdout, stderr };
    proof {
        let wanted = step_notice(view, interactive, width as nat, color);
        assert(notice@.stdout == wanted.stdout);
        assert(notice@.stderr == wanted.stderr);
    }
    notice
}

// ---------------------------------------------------------------------------------------------
// What is shown while a run goes on
// ---------------------------------------------------------------------------------------------

proof fn numbers_are_digits(n: nat)
    ensures
        decimal(n).len() > 0,
        all_digits(decimal(n)),
        decimal_value(decimal(n)) == n,
        decimal(n)[0] != '+',
{
    decimal_round_trip(n);
    assert(is_digit(decimal(n)[0]));
}

/// A number is read from its digits, with or without a plus sign before them, and from nothing
/// else.
pub proof fn numbers_are_read_from_digits(n: nat, text: Seq<char>)
    ensures
        number_in(decimal(n)) == (if n <= usize::MAX {
            Some(n)
        } else {
            None
        }),
        number_in(seq!['+'] + decimal(n)) == number_in(decimal(n)),
        number_in(Seq::empty()) is None,
        number_in(seq!['+']) is None,
        (exists|i: int| 0 < i < text.len() && !('0' <= #[trigger] text[i] <= '9')) ==> number_in(
            text,
        ) is None,
        text.len() > 0 && !('0' <= text[0] <= '9') && text[0] != '+' ==> number_in(text) is None,
{
    numbers_are_digits(n);
    let signed = seq!['+'] + decimal(n);
    assert(signed.drop_first() =~= decimal(n));
    assert(seq!['+'].drop_first() =~= Seq::<char>::empty());
    if exists|i: int| 0 < i < text.len() && !('0' <= #[trigger] text[i] <= '9') {
        let i = choose|i: int| 0 < i < text.len() && !('0' <= #[trigger] text[i] <= '9');
        if text[0] == '+' {
            assert(text.drop_first()[i - 1] == text[i]);
            assert(!is_digit(text.drop_first()[i - 1]));
        } else {
            assert(!is_digit(text[i]));
        }
    }
    if text.len() > 0 && !('0' <= text[0] <= '9') && text[0] != '+' {
        assert(!is_digit(text[0]));
    }
}

/// The width of a terminal is what the terminal says, unless that is none; else what the variable
/// says, where that is a number; and else eighty.
pub proof fn terminals_have_a_width(size: Option<nat>, columns: Option<Seq<char>>)
    ensures
        size matches Some(width) ==> width > 0 ==> width_of(size, columns) == width,
        size is None || size == Some(0nat) ==> width_of(size, columns) == match columns {
            Some(text) => match number_in(text) {
                Some(number) => number,
                None => 80,
            },
            None => 80,
        },
{
}

/// A text that is too wide is cut so that three dots fit behind it; where not even they fit, as
/// many dots are shown as do.
pub proof fn wide_texts_end_in_dots(value: Seq<char>, width: nat)
    requires
        value.len() > width,
    ensures
        truncated(value, width).len() == width,
        width >= 4 ==> truncated(value, width) == value.subrange(0, width - 3) + seq![
            '.',
            '.',
            '.',
        ],
        width < 4 ==> forall|i: int|
            0 <= i < width ==> #[trigger] truncated(value, width)[i] == '.',
{
    reveal_strlit("...");
    assert("..."@ =~= seq!['.', '.', '.']);
}

/// A line of progress shows as much of its value as the terminal has room for beside the label,
/// what stands at the end, and one column that is left free: all of it where it fits, and else so
/// much that the line fills the rest.
pub proof fn progress_fills_the_terminal(
    width: nat,
    label: Seq<char>,
    value: Seq<char>,
    suffix: Seq<char>,
)
    requires
        encode_utf8(label).len() == label.len(),
    ensures
        ({
            let shown = progress_text(width, label, value, suffix, None, false);
            let front = "\r\x1b[2K"@ + label;
            let taken = label.len() + value.len() + suffix.len();
            &&& taken < width ==> shown == front + value + suffix
            &&& taken >= width && label.len() + suffix.len() < width ==> shown.len() == 5 + width
                - 1
            &&& label.len() + suffix.len() >= width ==> value.len() > 0 ==> shown == front + suffix
        }),
{
    reveal_strlit("\r\x1b[2K");
    let free = room(width, label, suffix);
    truncated_texts_fit(value, free);
    if label.len() + suffix.len() >= width && value.len() > 0 {
        assert(truncated(value, free) =~= Seq::<char>::empty());
        assert("\r\x1b[2K"@ + label + Seq::<char>::empty() + suffix =~= "\r\x1b[2K"@ + label
            + suffix);
    }
}

/// In color the label of a line of progress is dim, and its value has its own style.
pub proof fn progress_is_colored(
    width: nat,
    label: Seq<char>,
    value: Seq<char>,
    suffix: Seq<char>,
    style: Seq<char>,
)
    ensures
        progress_text(width, label, value, suffix, Some(style), true) == "\r\x1b[2K"@ + (
        "\x1b[2m"@ + label + "\x1b[0m"@) + (style + truncated(value, room(width, label, suffix))
            + "\x1b[0m"@) + suffix,
        progress_text(width, label, value, suffix, None, true) == "\r\x1b[2K"@ + ("\x1b[2m"@ + label
            + "\x1b[0m"@) + truncated(value, room(width, label, suffix)) + suffix,
{
}

/// What a terminal shows of each step of a check: what is done, of what, and which of how many. How
/// many links have to be investigated is told on the standard output, with or without a terminal;
/// nothing else is.
pub proof fn steps_are_shown(
    repository: Seq<char>,
    url: SourceUrlView,
    index: nat,
    total: nat,
    width: nat,
    color: bool,
)
    ensures
        ({
            let place = " ("@ + decimal(index) + "/"@ + decimal(total) + ")"@;
            let cyan = Some("\x1b[36m"@);
            let preparing = ProgressView::Preparing { repository, index, total };
            let checking = ProgressView::Checking { url, index, total };
            let investigating = ProgressView::Investigating { url, index, total };
            let count = ProgressView::InvestigationCount { total };
            &&& step_notice(preparing, true, width, color) == (NoticeView {
                stdout: ""@,
                stderr: progress_text(width, "Preparing: "@, repository, place, None, color),
            })
            &&& step_notice(checking, true, width, color) == (NoticeView {
                stdout: ""@,
                stderr: progress_text(
                    width,
                    "Checking: "@,
                    escaped(url.text),
                    place,
                    cyan,
                    color,
                ),
            })
            &&& step_notice(investigating, true, width, color) == (NoticeView {
                stdout: ""@,
                stderr: progress_text(
                    width,
                    "Investigating: "@,
                    escaped(url.text),
                    place,
                    cyan,
                    color,
                ),
            })
            &&& step_notice(count, true, width, color) == (NoticeView {
                stdout: decimal(total) + " URL(s) require investigation.\n"@,
                stderr: "\r\x1b[2K"@,
            })
            &&& step_notice(preparing, false, width, color) == (NoticeView {
                stdout: ""@,
                stderr: ""@,
            })
            &&& step_notice(checking, false, width, color) == (NoticeView {
                stdout: ""@,
                stderr: ""@,
            })
            &&& step_notice(investigating, false, width, color) == (NoticeView {
                stdout: ""@,
                stderr: ""@,
            })
            &&& step_notice(count, false, width, color) == (NoticeView {
                stdout: decimal(total) + " URL(s) require investigation.\n"@,
                stderr: ""@,
            })
        }),
{
    reveal_strlit("");
    assert(""@ =~= Seq::<char>::empty());
}

/// What a terminal shows of the scan of a file: its path, and which of how many files it is.
pub proof fn scans_are_shown(path: Seq<u8>, index: nat, total: nat, width: nat, color: bool)
    ensures
        scan_text(path, index, total, width, color) == progress_text(
            width,
            "Scanning: "@,
            escaped(shown_path(path)),
            " ("@ + decimal(index) + "/"@ + decimal(total) + ")"@,
            None,
            color,
        ),
        CLEAR_LINE@ == "\r\x1b[2K"@,
{
}

/// Each character is escaped by itself, in its place.
pub proof fn characters_are_escaped_one_by_one(text: Seq<char>)
    ensures
        escaped(text) == Seq::new(text.len(), |i: int| escaped_char(text[i])).flatten(),
    decreases text.len(),
{
    let all = Seq::new(text.len(), |i: int| escaped_char(text[i]));
    if text.len() == 0 {
        assert(all.flatten() =~= Seq::<char>::empty());
    } else {
        let front = text.drop_last();
        let fewer = Seq::new(front.len(), |i: int| escaped_char(front[i]));
        characters_are_escaped_one_by_one(front);
        assert(all =~= fewer.push(escaped_char(text.last())));
        fewer.lemma_flatten_push(escaped_char(text.last()));
    }
}

} // verus!
