//! The grammar, as functions of a buffer and a cursor. Each rule says what
//! is recognised at the cursor and where the cursor stands afterwards, or
//! where and how recognition fails. The parsers are specified against these.

use crate::error::{ErrorKind, ParseFailure};
use crate::reader::position_at;
use crate::text::{alphanumeric, is_scalar_value};
use vstd::prelude::*;

verus! {

/// What a rule finds at a cursor.
pub enum Parsed<T> {
    /// The rule matched up to `next`.
    Done { value: T, next: int },
    /// The rule failed, and the failure is reported at cursor `at`.
    Failed { at: int, recoverable: bool, kind: ErrorKind },
}

/// The failure reported for a rule that failed at cursor `at`.
pub open spec fn failure(buf: Seq<char>, at: int, recoverable: bool, kind: ErrorKind)
    -> ParseFailure {
    ParseFailure { position: position_at(buf, at), recoverable, kind }
}

/// Whether character `c` stands at `i`.
pub open spec fn char_at(buf: Seq<char>, i: int, c: char) -> bool {
    0 <= i < buf.len() && buf[i] == c
}

pub open spec fn is_hex_digit(c: char) -> bool {
    ('0' <= c <= '9') || ('a' <= c <= 'f') || ('A' <= c <= 'F')
}

pub open spec fn hex_digit_value(c: char) -> int {
    if '0' <= c <= '9' {
        c as int - 48
    } else if 'a' <= c <= 'f' {
        c as int - 87
    } else {
        c as int - 55
    }
}

/// The end of the run of hexadecimal digits that starts at `i`.
pub open spec fn hex_end(buf: Seq<char>, i: int) -> int
    decreases buf.len() - i,
{
    if 0 <= i < buf.len() && is_hex_digit(buf[i]) {
        hex_end(buf, i + 1)
    } else {
        i
    }
}

/// The number that the digits from `i` up to `j` write, the first digit
/// weighing most.
pub open spec fn hex_sum(buf: Seq<char>, i: int, j: int) -> int
    decreases j - i,
{
    if j <= i {
        0
    } else {
        16 * hex_sum(buf, i, j - 1) + hex_digit_value(buf[j - 1])
    }
}

/// One or more hexadecimal digits. A number beyond 32 bits is no scalar value.
pub open spec fn hex_value_at(buf: Seq<char>, i: int) -> Parsed<int> {
    let e = hex_end(buf, i);
    if e == i {
        Parsed::Failed { at: i, recoverable: false, kind: ErrorKind::InvalidHexDigit }
    } else if hex_sum(buf, i, e) > u32::MAX {
        Parsed::Failed { at: e, recoverable: false, kind: ErrorKind::InvalidUnicodeScalar }
    } else {
        Parsed::Done { value: hex_sum(buf, i, e), next: e }
    }
}

/// The rest of a `\u` escape: `{`, hexadecimal digits, `}`.
pub open spec fn unicode_at(buf: Seq<char>, i: int) -> Parsed<char> {
    if !(0 <= i < buf.len() && buf[i] == '{') {
        Parsed::Failed { at: i, recoverable: false, kind: ErrorKind::ExpectingOpenBrace }
    } else {
        match hex_value_at(buf, i + 1) {
            Parsed::Failed { at, recoverable, kind } => Parsed::Failed { at, recoverable, kind },
            Parsed::Done { value, next } => if !is_scalar_value(value) {
                Parsed::Failed {
                    at: next,
                    recoverable: false,
                    kind: ErrorKind::InvalidUnicodeScalar,
                }
            } else if !(next < buf.len() && buf[next] == '}') {
                Parsed::Failed {
                    at: next,
                    recoverable: false,
                    kind: ErrorKind::ExpectingCloseBrace,
                }
            } else {
                Parsed::Done { value: value as char, next: next + 1 }
            },
        }
    }
}

/// The character that a one-letter escape stands for.
pub open spec fn simple_escape(c: char) -> Option<char> {
    if c == '"' {
        Some('"')
    } else if c == '\\' {
        Some('\\')
    } else if c == '/' {
        Some('/')
    } else if c == 'b' {
        Some('\x08')
    } else if c == 'n' {
        Some('\n')
    } else if c == 'f' {
        Some('\x0c')
    } else if c == 'r' {
        Some('\r')
    } else if c == 't' {
        Some('\t')
    } else {
        None
    }
}

/// A backslash and what follows it.
pub open spec fn escape_at(buf: Seq<char>, i: int) -> Parsed<char> {
    if !(0 <= i < buf.len() && buf[i] == '\\') {
        Parsed::Failed { at: i, recoverable: true, kind: ErrorKind::ExpectingBackslash }
    } else if i + 1 < buf.len() && buf[i + 1] == 'u' {
        unicode_at(buf, i + 2)
    } else if i + 1 < buf.len() && simple_escape(buf[i + 1]) is Some {
        Parsed::Done { value: simple_escape(buf[i + 1]).unwrap(), next: i + 2 }
    } else {
        Parsed::Failed { at: i + 1, recoverable: false, kind: ErrorKind::InvalidEscape }
    }
}

/// The characters that stand for themselves only when escaped.
pub open spec fn must_be_escaped(c: char) -> bool {
    c == '\\' || c == '\x08' || c == '\n' || c == '\x0c' || c == '\r' || c == '\t'
}

/// One character of content: an escape, or a plain character that is
/// neither in `except` nor one that must be escaped.
pub open spec fn any_char_at(buf: Seq<char>, except: Seq<char>, i: int) -> Parsed<char> {
    match escape_at(buf, i) {
        Parsed::Done { value, next } => Parsed::Done { value, next },
        Parsed::Failed { at, recoverable, kind } => if !recoverable {
            Parsed::Failed { at, recoverable, kind }
        } else if 0 <= i < buf.len() && !except.contains(buf[i]) && !must_be_escaped(buf[i]) {
            Parsed::Done { value: buf[i], next: i + 1 }
        } else {
            Parsed::Failed { at: i, recoverable: true, kind: ErrorKind::ExpectingChar }
        },
    }
}

/// A run of characters: what it decodes to, where it ends, and the fatal
/// failure that cut it short, if one did.
pub struct Run {
    pub decoded: Seq<char>,
    pub end: int,
    pub fatal: Option<(int, ErrorKind)>,
}

/// Whether `whole` is the run that starts with the text `read` and goes on
/// as `rest` does.
pub open spec fn goes_on(whole: Run, read: Seq<char>, rest: Run) -> bool {
    &&& whole.decoded == read + rest.decoded
    &&& whole.end == rest.end
    &&& whole.fatal == rest.fatal
}

/// The longest run of content from `i`. A single `{` is content once the
/// character after it is known not to be a second `{`; while `pending`, the
/// `{` just before `i` waits for that. Two `{` in a row end the run before
/// the first of them.
pub open spec fn segment_from(buf: Seq<char>, except: Seq<char>, i: int, pending: bool) -> Run
    decreases buf.len() - i,
{
    let stop = Run {
        decoded: Seq::empty(),
        end: if pending {
            i - 1
        } else {
            i
        },
        fatal: None,
    };
    match any_char_at(buf, except, i) {
        Parsed::Failed { at, recoverable, kind } => if recoverable {
            stop
        } else {
            Run { decoded: Seq::empty(), end: i, fatal: Some((at, kind)) }
        },
        Parsed::Done { value, next } => if !(i < next <= buf.len()) {
            stop
        } else if value == '{' && next == i + 1 {
            if pending {
                stop
            } else {
                segment_from(buf, except, next, true)
            }
        } else {
            let rest = segment_from(buf, except, next, false);
            let head = if pending {
                seq!['{', value]
            } else {
                seq![value]
            };
            Run { decoded: head + rest.decoded, end: rest.end, fatal: rest.fatal }
        },
    }
}

/// A literal element: a segment that is not empty.
pub open spec fn literal_at(buf: Seq<char>, except: Seq<char>, i: int) -> Parsed<Seq<char>> {
    let run = segment_from(buf, except, i, false);
    match run.fatal {
        Some((at, kind)) => Parsed::Failed { at, recoverable: false, kind },
        None => if run.decoded.len() == 0 {
            Parsed::Failed { at: i, recoverable: true, kind: ErrorKind::ExpectingString }
        } else {
            Parsed::Done { value: run.decoded, next: run.end }
        },
    }
}

pub open spec fn is_blank(c: char) -> bool {
    c == ' ' || c == '\t'
}

/// The end of the run of spaces and tabs that starts at `i`.
pub open spec fn blank_end(buf: Seq<char>, i: int) -> int
    decreases buf.len() - i,
{
    if 0 <= i < buf.len() && is_blank(buf[i]) {
        blank_end(buf, i + 1)
    } else {
        i
    }
}

pub open spec fn is_name_char(c: char) -> bool {
    alphanumeric(c) || c == '_' || c == '-'
}

/// The end of the run of name characters that starts at `i`.
pub open spec fn name_end(buf: Seq<char>, i: int) -> int
    decreases buf.len() - i,
{
    if 0 <= i < buf.len() && is_name_char(buf[i]) {
        name_end(buf, i + 1)
    } else {
        i
    }
}

/// Whether character `c` stands at `i` and again at `i + 1`.
pub open spec fn pair_at(buf: Seq<char>, i: int, c: char) -> bool {
    0 <= i && i + 1 < buf.len() && buf[i] == c && buf[i + 1] == c
}

/// Where the parts of an interpolation stand: blanks from `inner` to
/// `name_start`, the name up to `name_end`, blanks up to `close`.
pub struct ExprShape {
    pub inner: int,
    pub name_start: int,
    pub name_end: int,
    pub close: int,
}

/// An interpolation: `{{`, blanks, a name, blanks, `}}`.
pub open spec fn expr_at(buf: Seq<char>, i: int) -> Parsed<ExprShape> {
    if !pair_at(buf, i, '{') {
        Parsed::Failed { at: i, recoverable: true, kind: ErrorKind::ExpectingInterpolation }
    } else {
        let a = blank_end(buf, i + 2);
        let b = name_end(buf, a);
        let c = blank_end(buf, b);
        if b == a {
            Parsed::Failed { at: a, recoverable: false, kind: ErrorKind::InvalidVariableName }
        } else if !pair_at(buf, c, '}') {
            Parsed::Failed {
                at: c,
                recoverable: false,
                kind: ErrorKind::UnterminatedInterpolation,
            }
        } else {
            Parsed::Done {
                value: ExprShape { inner: i + 2, name_start: a, name_end: b, close: c },
                next: c + 2,
            }
        }
    }
}

/// What an element of a template is and where it stands.
pub enum ElementShape {
    /// Literal text read from `start` up to `end`.
    Literal { decoded: Seq<char>, start: int, end: int },
    Interpolation(ExprShape),
}

/// An element: an interpolation, or else a literal.
pub open spec fn element_at(buf: Seq<char>, except: Seq<char>, i: int) -> Parsed<ElementShape> {
    match expr_at(buf, i) {
        Parsed::Done { value, next } => Parsed::Done {
            value: ElementShape::Interpolation(value),
            next,
        },
        Parsed::Failed { at, recoverable, kind } => if !recoverable {
            Parsed::Failed { at, recoverable, kind }
        } else {
            match literal_at(buf, except, i) {
                Parsed::Done { value, next } => Parsed::Done {
                    value: ElementShape::Literal { decoded: value, start: i, end: next },
                    next,
                },
                Parsed::Failed { at, recoverable, kind } => Parsed::Failed {
                    at,
                    recoverable,
                    kind,
                },
            }
        },
    }
}

/// A sequence of elements, where it ends, and the fatal failure that cut it
/// short, if one did.
pub struct Elements {
    pub shapes: Seq<ElementShape>,
    pub end: int,
    pub fatal: Option<(int, ErrorKind)>,
}

/// Elements from `i` on, up to the first place where none is found.
pub open spec fn elements_from(buf: Seq<char>, except: Seq<char>, i: int) -> Elements
    decreases buf.len() - i,
{
    match element_at(buf, except, i) {
        Parsed::Failed { at, recoverable, kind } => Elements {
            shapes: Seq::empty(),
            end: i,
            fatal: if recoverable {
                None
            } else {
                Some((at, kind))
            },
        },
        Parsed::Done { value, next } => if !(i < next <= buf.len()) {
            Elements { shapes: Seq::empty(), end: i, fatal: None }
        } else {
            let rest = elements_from(buf, except, next);
            Elements { shapes: seq![value] + rest.shapes, end: rest.end, fatal: rest.fatal }
        },
    }
}

/// How many spaces and tabs stand at the end of `s`.
pub open spec fn trailing_blanks(s: Seq<char>) -> nat
    decreases s.len(),
{
    if s.len() > 0 && is_blank(s.last()) {
        1 + trailing_blanks(s.drop_last())
    } else {
        0
    }
}

/// Whether the blanks that end the source text `raw` are no more than the
/// decoded text, and fewer where `raw` holds more than blanks: without
/// them something is left of both.
pub open spec fn blanks_leave_text(raw: Seq<char>, decoded: Seq<char>) -> bool {
    &&& trailing_blanks(raw) <= decoded.len()
    &&& trailing_blanks(raw) < raw.len() ==> trailing_blanks(raw) < decoded.len()
}

/// Whether the last of `shapes`, where it is a literal, starts at or after
/// `from` and ends at `end`, and the blanks that end its source text leave
/// something of it.
pub open spec fn last_literal_ends_at(
    buf: Seq<char>,
    shapes: Seq<ElementShape>,
    from: int,
    end: int,
) -> bool {
    shapes.len() > 0 ==> (shapes.last() matches ElementShape::Literal {
        decoded,
        start,
        end: literal_end,
    } ==> literal_end == end && from <= start < end && blanks_leave_text(
        buf.subrange(start, end),
        decoded,
    ))
}

/// How many characters a bare value gives back: the blanks that end the
/// source text of its last element, where that is a literal.
pub open spec fn trimmed_count(buf: Seq<char>, shapes: Seq<ElementShape>) -> nat {
    if shapes.len() == 0 {
        0
    } else {
        match shapes.last() {
            ElementShape::Literal { decoded, start, end } => trailing_blanks(
                buf.subrange(start, end),
            ),
            ElementShape::Interpolation(_) => 0,
        }
    }
}

/// The elements of a bare value once the blanks at its end are given back:
/// a last literal loses them from its text and from its source, and is
/// dropped when nothing is left of it.
pub open spec fn trim_last(buf: Seq<char>, shapes: Seq<ElementShape>) -> Seq<ElementShape> {
    let t = trimmed_count(buf, shapes);
    if t == 0 {
        shapes
    } else {
        match shapes.last() {
            ElementShape::Literal { decoded, start, end } => if t >= end - start {
                shapes.drop_last()
            } else {
                shapes.drop_last().push(
                    ElementShape::Literal {
                        decoded: decoded.take(decoded.len() - t),
                        start,
                        end: end - t,
                    },
                )
            },
            ElementShape::Interpolation(_) => shapes,
        }
    }
}

/// Whether a bare value that starts with `c` is empty.
pub open spec fn ends_bare_value(c: char) -> bool {
    c == ' ' || c == '\t' || c == '\n' || c == '#'
}

/// A bare value: empty before a blank, a line feed, `#` or the end of the
/// input; else elements up to a `#`, without the blanks at their end.
pub open spec fn unquoted_template_at(buf: Seq<char>, i: int) -> Parsed<Seq<ElementShape>> {
    if !(0 <= i < buf.len()) || ends_bare_value(buf[i]) {
        Parsed::Done { value: Seq::empty(), next: i }
    } else {
        let run = elements_from(buf, seq!['#'], i);
        match run.fatal {
            Some((at, kind)) => Parsed::Failed { at, recoverable: false, kind },
            None => Parsed::Done {
                value: trim_last(buf, run.shapes),
                next: run.end - trimmed_count(buf, run.shapes),
            },
        }
    }
}

/// A quoted value: `"`, elements up to a `"`, and that `"`.
pub open spec fn quoted_template_at(buf: Seq<char>, i: int) -> Parsed<Seq<ElementShape>> {
    if !(0 <= i < buf.len() && buf[i] == '"') {
        Parsed::Failed { at: i, recoverable: false, kind: ErrorKind::ExpectingQuote }
    } else if i + 1 < buf.len() && buf[i + 1] == '"' {
        Parsed::Done { value: Seq::empty(), next: i + 2 }
    } else {
        let run = elements_from(buf, seq!['"'], i + 1);
        match run.fatal {
            Some((at, kind)) => Parsed::Failed { at, recoverable: false, kind },
            None => if 0 <= run.end < buf.len() && buf[run.end] == '"' {
                Parsed::Done { value: run.shapes, next: run.end + 1 }
            } else {
                Parsed::Failed {
                    at: run.end,
                    recoverable: false,
                    kind: ErrorKind::UnterminatedQuotedLiteral,
                }
            },
        }
    }
}

pub open spec fn is_key_char(c: char) -> bool {
    alphanumeric(c) || c == '_' || c == '-' || c == '.'
}

/// The longest run of key text from `i`: escapes and key characters.
pub open spec fn key_run_from(buf: Seq<char>, i: int) -> Run
    decreases buf.len() - i,
{
    match escape_at(buf, i) {
        Parsed::Done { value, next } => if !(i < next <= buf.len()) {
            Run { decoded: Seq::empty(), end: i, fatal: None }
        } else {
            let rest = key_run_from(buf, next);
            Run { decoded: seq![value] + rest.decoded, end: rest.end, fatal: rest.fatal }
        },
        Parsed::Failed { at, recoverable, kind } => if !recoverable {
            Run { decoded: Seq::empty(), end: i, fatal: Some((at, kind)) }
        } else if 0 <= i < buf.len() && is_key_char(buf[i]) {
            let rest = key_run_from(buf, i + 1);
            Run { decoded: seq![buf[i]] + rest.decoded, end: rest.end, fatal: rest.fatal }
        } else {
            Run { decoded: Seq::empty(), end: i, fatal: None }
        },
    }
}

/// A bare key: a run of key text that is not empty.
pub open spec fn key_at(buf: Seq<char>, i: int) -> Parsed<Seq<char>> {
    let run = key_run_from(buf, i);
    match run.fatal {
        Some((at, kind)) => Parsed::Failed { at, recoverable: false, kind },
        None => if run.decoded.len() == 0 {
            Parsed::Failed { at: i, recoverable: true, kind: ErrorKind::ExpectingKeyString }
        } else {
            Parsed::Done { value: run.decoded, next: run.end }
        },
    }
}

/// The first `"` at or after `i`, or the end of the buffer.
pub open spec fn quote_from(buf: Seq<char>, i: int) -> int
    decreases buf.len() - i,
{
    if 0 <= i < buf.len() && buf[i] != '"' {
        quote_from(buf, i + 1)
    } else {
        i
    }
}

/// A plain quoted string: `"`, anything up to the next `"`, and that `"`.
/// A backslash has no meaning in it.
pub open spec fn quoted_string_at(buf: Seq<char>, i: int) -> Parsed<Seq<char>> {
    if !(0 <= i < buf.len() && buf[i] == '"') {
        Parsed::Failed { at: i, recoverable: false, kind: ErrorKind::ExpectingQuote }
    } else {
        let e = quote_from(buf, i + 1);
        if e < buf.len() {
            Parsed::Done { value: buf.subrange(i + 1, e), next: e + 1 }
        } else {
            Parsed::Failed { at: e, recoverable: false, kind: ErrorKind::ExpectingQuote }
        }
    }
}

} // verus!
