//! The parsers for escapes, literal text, templates and keys.

use crate::ast::{all_wf, elements_match, EncodedString, Template, TemplateElement};
use crate::error::{ErrorKind, ParseFailure};
use crate::expr::parse;
use crate::grammar::{
    any_char_at, blanks_leave_text, char_at, element_at, elements_from, ends_bare_value,
    escape_at, expr_at, failure, goes_on, hex_digit_value, hex_end, hex_sum, hex_value_at,
    is_blank, is_hex_digit, is_key_char, key_at, key_run_from, last_literal_ends_at, literal_at,
    must_be_escaped, quote_from, quoted_string_at, quoted_template_at, segment_from,
    simple_escape, trailing_blanks, unicode_at, unquoted_template_at, ElementShape, Parsed,
};
use crate::laws::lemma_escape_extent;
use crate::reader::{
    lemma_position_bounds, lemma_positions_ordered, lemma_rewind_within_line, state_at,
    Position, Reader, ReaderState, SourceSpan,
};
use crate::text::{char_from_u32, is_alphanumeric, push_char};
use vstd::prelude::*;

verus! {

/// Reads the character `c`, or fails fatally with `kind` where it does not
/// stand at the cursor. The reader moves only on success.
pub fn expect_char(reader: &mut Reader, c: char, kind: ErrorKind) -> (r: Result<(), ParseFailure>)
    requires
        old(reader).wf(),
    ensures
        final(reader).wf(),
        final(reader).text() == old(reader).text(),
        char_at(old(reader).text(), old(reader).cursor(), c) ==> {
            &&& r == Ok::<(), ParseFailure>(())
            &&& final(reader).cursor() == old(reader).cursor() + 1
        },
        !char_at(old(reader).text(), old(reader).cursor(), c) ==> {
            &&& r == Err::<(), ParseFailure>(
                failure(old(reader).text(), old(reader).cursor(), false, kind),
            )
            &&& final(reader).state == old(reader).state
        },
{
    let found: Option<char> = reader.peek();
    if found == Some(c) {
        let _ = reader.read();
        Ok(())
    } else {
        Err(ParseFailure { position: reader.state.pos, recoverable: false, kind })
    }
}

fn hex_digit_of(c: char) -> (d: Option<u32>)
    ensures
        d == if is_hex_digit(c) {
            Some(hex_digit_value(c) as u32)
        } else {
            None::<u32>
        },
        d matches Some(v) ==> v < 16,
{
    if '0' <= c && c <= '9' {
        Some(c as u32 - 48)
    } else if 'a' <= c && c <= 'f' {
        Some(c as u32 - 87)
    } else if 'A' <= c && c <= 'F' {
        Some(c as u32 - 55)
    } else {
        None
    }
}

/// Reads one or more hexadecimal digits and gives the number they write.
/// No digit at all is a fatal failure, and so is a number beyond 32 bits.
pub fn hex_value(reader: &mut Reader) -> (r: Result<u32, ParseFailure>)
    requires
        old(reader).wf(),
    ensures
        final(reader).wf(),
        final(reader).text() == old(reader).text(),
        match hex_value_at(old(reader).text(), old(reader).cursor()) {
            Parsed::Done { value, next } => {
                &&& r == Ok::<u32, ParseFailure>(value as u32)
                &&& 0 <= value
                &&& final(reader).cursor() == next
            },
            Parsed::Failed { at, recoverable, kind } => r == Err::<u32, ParseFailure>(
                failure(old(reader).text(), at, recoverable, kind),
            ),
        },
{
    let start: ReaderState = reader.state;
    let ghost buf = reader.buffer@;
    let mut v: u64 = 0;
    loop
        invariant
            reader.wf(),
            reader.buffer@ == buf,
            start.cursor <= reader.state.cursor,
            hex_end(buf, start.cursor as int) == hex_end(buf, reader.state.cursor as int),
            hex_sum(buf, start.cursor as int, reader.state.cursor as int) >= 0,
            v == if hex_sum(buf, start.cursor as int, reader.state.cursor as int)
                < 0x1_0000_0000 {
                hex_sum(buf, start.cursor as int, reader.state.cursor as int)
            } else {
                0x1_0000_0000
            },
        ensures
            hex_end(buf, start.cursor as int) == reader.state.cursor,
        decreases buf.len() - reader.state.cursor,
    {
        let digit: Option<u32> = match reader.peek() {
            Some(c) => hex_digit_of(c),
            None => None,
        };
        match digit {
            None => {
                break ;
            },
            Some(d) => {
                let _ = reader.read();
                v = v * 16 + d as u64;
                if v > 0xFFFF_FFFF {
                    v = 0x1_0000_0000;
                }
            },
        }
    }
    if reader.state.cursor == start.cursor {
        Err(
            ParseFailure {
                position: start.pos,
                recoverable: false,
                kind: ErrorKind::InvalidHexDigit,
            },
        )
    } else if v > 0xFFFF_FFFF {
        Err(
            ParseFailure {
                position: reader.state.pos,
                recoverable: false,
                kind: ErrorKind::InvalidUnicodeScalar,
            },
        )
    } else {
        Ok(v as u32)
    }
}

/// Reads what follows `\u`: `{`, hexadecimal digits that write a Unicode
/// scalar value, and `}`. Every failure is fatal.
pub fn unicode(reader: &mut Reader) -> (r: Result<char, ParseFailure>)
    requires
        old(reader).wf(),
    ensures
        final(reader).wf(),
        final(reader).text() == old(reader).text(),
        match unicode_at(old(reader).text(), old(reader).cursor()) {
            Parsed::Done { value, next } => {
                &&& r == Ok::<char, ParseFailure>(value)
                &&& final(reader).cursor() == next
            },
            Parsed::Failed { at, recoverable, kind } => r == Err::<char, ParseFailure>(
                failure(old(reader).text(), at, recoverable, kind),
            ),
        },
{
    match expect_char(reader, '{', ErrorKind::ExpectingOpenBrace) {
        Err(e) => {
            return Err(e);
        },
        Ok(_) => {},
    }
    let v: u32 = match hex_value(reader) {
        Err(e) => {
            return Err(e);
        },
        Ok(v) => v,
    };
    let c: char = match char_from_u32(v) {
        None => {
            return Err(
                ParseFailure {
                    position: reader.state.pos,
                    recoverable: false,
                    kind: ErrorKind::InvalidUnicodeScalar,
                },
            );
        },
        Some(c) => c,
    };
    match expect_char(reader, '}', ErrorKind::ExpectingCloseBrace) {
        Err(e) => Err(e),
        Ok(_) => Ok(c),
    }
}

fn simple_escape_of(c: char) -> (r: Option<char>)
    ensures
        r == simple_escape(c),
{
    if c == '"' {
        Some('"')
    } else if c == '\\' {
        Some('\\')
    } else if c == '/' {
        Some('/')
    } else if c == 'b' {
        Some('\x08')
    } else if c == 'n' {
        Some('\n')
    } else if c == 'f' {
        Some('\x0c')
    } else if c == 'r' {
        Some('\r')
    } else if c == 't' {
        Some('\t')
    } else {
        None
    }
}

/// Reads a backslash and what it escapes, and gives the character meant.
/// Without a backslash at the cursor the failure is recoverable and the
/// reader has not moved; after a backslash every failure is fatal.
pub fn escape_char(reader: &mut Reader) -> (r: Result<char, ParseFailure>)
    requires
        old(reader).wf(),
    ensures
        final(reader).wf(),
        final(reader).text() == old(reader).text(),
        match escape_at(old(reader).text(), old(reader).cursor()) {
            Parsed::Done { value, next } => {
                &&& r == Ok::<char, ParseFailure>(value)
                &&& final(reader).cursor() == next
            },
            Parsed::Failed { at, recoverable, kind } => r == Err::<char, ParseFailure>(
                failure(old(reader).text(), at, recoverable, kind),
            ) && (recoverable ==> final(reader).state == old(reader).state),
        },
{
    let found: Option<char> = reader.peek();
    if found != Some('\\') {
        return Err(
            ParseFailure {
                position: reader.state.pos,
                recoverable: true,
                kind: ErrorKind::ExpectingBackslash,
            },
        );
    }
    let _ = reader.read();
    let after: Position = reader.state.pos;
    let invalid = ParseFailure {
        position: after,
        recoverable: false,
        kind: ErrorKind::InvalidEscape,
    };
    match reader.read() {
        None => Err(invalid),
        Some(c) => {
            if c == 'u' {
                unicode(reader)
            } else {
                match simple_escape_of(c) {
                    Some(decoded) => Ok(decoded),
                    None => Err(invalid),
                }
            }
        },
    }
}

fn contains_char(set: &Vec<char>, c: char) -> (b: bool)
    ensures
        b == set@.contains(c),
{
    let mut i: usize = 0;
    while i < set.len()
        invariant
            i <= set@.len(),
            forall|j: int| 0 <= j < i ==> set@[j] != c,
        decreases set@.len() - i,
    {
        if set[i] == c {
            return true;
        }
        i += 1;
    }
    false
}

fn must_escape(c: char) -> (b: bool)
    ensures
        b == must_be_escaped(c),
{
    c == '\\' || c == '\x08' || c == '\n' || c == '\x0c' || c == '\r' || c == '\t'
}

/// Reads one character of content and gives the character meant: an
/// escape, or a plain character that is not in `except` and need not be
/// escaped. Where neither stands at the cursor the failure is recoverable
/// and the reader has not moved.
pub fn content_char(except: &Vec<char>, reader: &mut Reader) -> (r: Result<char, ParseFailure>)
    requires
        old(reader).wf(),
    ensures
        final(reader).wf(),
        final(reader).text() == old(reader).text(),
        match any_char_at(old(reader).text(), except@, old(reader).cursor()) {
            Parsed::Done { value, next } => {
                &&& r == Ok::<char, ParseFailure>(value)
                &&& final(reader).cursor() == next
                &&& old(reader).cursor() < next <= old(reader).text().len()
            },
            Parsed::Failed { at, recoverable, kind } => r == Err::<char, ParseFailure>(
                failure(old(reader).text(), at, recoverable, kind),
            ) && (recoverable ==> final(reader).state == old(reader).state),
        },
{
    let start: ReaderState = reader.state;
    proof {
        lemma_escape_extent(reader.buffer@, start.cursor as int);
    }
    match escape_char(reader) {
        Ok(c) => Ok(c),
        Err(e) => {
            if !e.recoverable {
                return Err(e);
            }
            let expecting = ParseFailure {
                position: start.pos,
                recoverable: true,
                kind: ErrorKind::ExpectingChar,
            };
            match reader.peek() {
                None => Err(expecting),
                Some(c) => {
                    if contains_char(except, c) || must_escape(c) {
                        Err(expecting)
                    } else {
                        let _ = reader.read();
                        Ok(c)
                    }
                },
            }
        },
    }
}

/// Reads one character of content as [`content_char`] does, and gives with
/// the character the source text that it was read from.
pub fn any_char(except: Vec<char>, reader: &mut Reader) -> (r: Result<(char, String), ParseFailure>)
    requires
        old(reader).wf(),
    ensures
        final(reader).wf(),
        final(reader).text() == old(reader).text(),
        match any_char_at(old(reader).text(), except@, old(reader).cursor()) {
            Parsed::Done { value, next } => {
                &&& final(reader).cursor() == next
                &&& r matches Ok(found) && found.0 == value && found.1@ == old(
                    reader).text().subrange(old(reader).cursor(), next)
            },
            Parsed::Failed { at, recoverable, kind } => r == Err::<(char, String), ParseFailure>(
                failure(old(reader).text(), at, recoverable, kind),
            ) && (recoverable ==> final(reader).state == old(reader).state),
        },
{
    let start: usize = reader.state.cursor;
    match content_char(&except, reader) {
        Ok(c) => {
            let raw: String = reader.substring_from(start);
            Ok((c, raw))
        },
        Err(e) => Err(e),
    }
}

/// Reads an interpolation as a template element.
pub fn template_element_expression(reader: &mut Reader) -> (r: Result<
    TemplateElement,
    ParseFailure,
>)
    requires
        old(reader).wf(),
    ensures
        final(reader).wf(),
        final(reader).text() == old(reader).text(),
        match expr_at(old(reader).text(), old(reader).cursor()) {
            Parsed::Done { value, next } => {
                &&& final(reader).cursor() == next
                &&& old(reader).cursor() < next
                &&& r matches Ok(e) && e.matches(old(reader).text(), ElementShape::Interpolation(value))
            },
            Parsed::Failed { at, recoverable, kind } => r == Err::<TemplateElement, ParseFailure>(
                failure(old(reader).text(), at, recoverable, kind),
            ) && (recoverable ==> final(reader).state == old(reader).state),
        },
{
    match parse(reader) {
        Ok(value) => Ok(TemplateElement::Interpolation(value)),
        Err(e) => Err(e),
    }
}

/// Reads the longest run of content at the cursor as one literal, the
/// characters of `except` ending it. A single `{` belongs to the literal;
/// before `{{` the literal ends and the reader stands before both. With no
/// content at the cursor the failure is recoverable and the reader has not
/// moved. The blanks that end the source text of the literal also end its
/// decoded text.
pub fn template_element_string(except: &Vec<char>, reader: &mut Reader) -> (r: Result<
    TemplateElement,
    ParseFailure,
>)
    requires
        old(reader).wf(),
    ensures
        final(reader).wf(),
        final(reader).text() == old(reader).text(),
        match literal_at(old(reader).text(), except@, old(reader).cursor()) {
            Parsed::Done { value, next } => {
                &&& final(reader).cursor() == next
                &&& old(reader).cursor() < next
                &&& r matches Ok(e) && e.matches(
                    old(reader).text(),
                    ElementShape::Literal {
                        decoded: value,
                        start: old(reader).cursor(),
                        end: next,
                    },
                )
                &&& r matches Ok(e) && e.wf()
                &&& blanks_leave_text(
                    old(reader).text().subrange(old(reader).cursor(), next),
                    value,
                )
            },
            Parsed::Failed { at, recoverable, kind } => r == Err::<TemplateElement, ParseFailure>(
                failure(old(reader).text(), at, recoverable, kind),
            ) && (recoverable ==> final(reader).state == old(reader).state),
        },
{
    let start: ReaderState = reader.state;
    let ghost buf = reader.buffer@;
    let ghost first = start.cursor as int;
    let mut decoded = String::new();
    let mut pending: bool = false;
    let mut end: ReaderState = start;
    loop
        invariant_except_break
            reader.state.cursor == end.cursor + if pending {
                1int
            } else {
                0int
            },
            pending ==> buf[end.cursor as int] == '{',
            goes_on(
                segment_from(buf, except@, first, false),
                decoded@,
                segment_from(buf, except@, reader.state.cursor as int, pending),
            ),
        invariant
            reader.wf(),
            reader.buffer@ == buf,
            buf == old(reader).text(),
            start == old(reader).state,
            first == start.cursor,
            start.cursor <= end.cursor <= buf.len(),
            end == state_at(buf, end.cursor as int),
            end.cursor <= reader.state.cursor,
            (decoded@.len() == 0) == (end.cursor == start.cursor),
            blanks_leave_text(buf.subrange(first, end.cursor as int), decoded@),
        ensures
            segment_from(buf, except@, first, false).decoded == decoded@,
            segment_from(buf, except@, first, false).end == end.cursor,
            segment_from(buf, except@, first, false).fatal.is_none(),
        decreases buf.len() - reader.state.cursor,
    {
        let before: usize = reader.state.cursor;
        let ghost here = before as int;
        let ghost rest = segment_from(buf, except@, here, pending);
        proof {
            lemma_escape_extent(buf, here);
        }
        match content_char(except, reader) {
            Err(e) => {
                if e.recoverable {
                    assert(decoded@ + rest.decoded =~= decoded@);
                    break ;
                } else {
                    return Err(e);
                }
            },
            Ok(c) => {
                let brace: bool = c == '{' && reader.state.cursor == before + 1;
                if brace && pending {
                    assert(decoded@ + rest.decoded =~= decoded@);
                    break ;
                } else if brace {
                    pending = true;
                } else {
                    let ghost prior = decoded@;
                    let ghost next = reader.state.cursor as int;
                    let ghost tail = segment_from(buf, except@, next, false);
                    if pending {
                        push_char(&mut decoded, '{');
                    }
                    push_char(&mut decoded, c);
                    proof {
                        let head = if pending {
                            seq!['{', c]
                        } else {
                            seq![c]
                        };
                        assert(decoded@ =~= prior + head);
                        assert(prior + (head + tail.decoded) =~= decoded@ + tail.decoded);
                        let grown = buf.subrange(first, next);
                        let shorter = buf.subrange(first, next - 1);
                        assert(grown.drop_last() =~= shorter);
                        assert(grown.last() == buf[next - 1]);
                        if next == here + 1 {
                            assert(trailing_blanks(grown) <= 1 + trailing_blanks(shorter));
                            if pending {
                                assert(shorter.last() == '{');
                                assert(trailing_blanks(shorter) == 0);
                            }
                        } else {
                            assert(!is_blank(buf[next - 1]));
                            assert(trailing_blanks(grown) == 0);
                        }
                    }
                    pending = false;
                    end = reader.state;
                }
            },
        }
    }
    reader.rewind_to(end);
    if end.cursor == start.cursor {
        Err(
            ParseFailure {
                position: start.pos,
                recoverable: true,
                kind: ErrorKind::ExpectingString,
            },
        )
    } else {
        let raw: String = reader.substring_from(start.cursor);
        Ok(TemplateElement::Literal { decoded, raw })
    }
}

/// Reads one template element: an interpolation, or else a literal that
/// the characters of `except` end. A fatal failure of the interpolation is
/// the failure of the element.
pub fn template_element(except: &Vec<char>, reader: &mut Reader) -> (r: Result<
    TemplateElement,
    ParseFailure,
>)
    requires
        old(reader).wf(),
    ensures
        final(reader).wf(),
        final(reader).text() == old(reader).text(),
        match element_at(old(reader).text(), except@, old(reader).cursor()) {
            Parsed::Done { value, next } => {
                &&& final(reader).cursor() == next
                &&& old(reader).cursor() < next
                &&& r matches Ok(e) && e.matches(old(reader).text(), value)
                &&& r matches Ok(e) && e.wf()
                &&& value matches ElementShape::Literal { decoded, start, end } ==> end == next
                    && blanks_leave_text(old(reader).text().subrange(start, end), decoded)
            },
            Parsed::Failed { at, recoverable, kind } => r == Err::<TemplateElement, ParseFailure>(
                failure(old(reader).text(), at, recoverable, kind),
            ) && (recoverable ==> final(reader).state == old(reader).state),
        },
{
    match template_element_expression(reader) {
        Err(e) => {
            if e.recoverable {
                template_element_string(except, reader)
            } else {
                Err(e)
            }
        },
        Ok(element) => Ok(element),
    }
}

/// Reads template elements until none is found at the cursor, and leaves
/// the reader there. A fatal failure of an element is the failure of all.
pub fn template_elements(except: &Vec<char>, reader: &mut Reader) -> (r: Result<
    Vec<TemplateElement>,
    ParseFailure,
>)
    requires
        old(reader).wf(),
    ensures
        final(reader).wf(),
        final(reader).text() == old(reader).text(),
        match elements_from(old(reader).text(), except@, old(reader).cursor()).fatal {
            Some((at, kind)) => r == Err::<Vec<TemplateElement>, ParseFailure>(
                failure(old(reader).text(), at, false, kind),
            ),
            None => {
                let run = elements_from(old(reader).text(), except@, old(reader).cursor());
                &&& final(reader).cursor() == run.end
                &&& old(reader).cursor() <= run.end
                &&& r matches Ok(elements) && elements_match(
                    elements@,
                    old(reader).text(),
                    run.shapes,
                ) && all_wf(elements@)
                &&& last_literal_ends_at(
                    old(reader).text(),
                    run.shapes,
                    old(reader).cursor(),
                    run.end,
                )
            },
        },
{
    let ghost buf = reader.buffer@;
    let ghost first = reader.state.cursor as int;
    let mut elements: Vec<TemplateElement> = Vec::new();
    let ghost mut shapes: Seq<ElementShape> = Seq::empty();
    loop
        invariant_except_break
            elements_from(buf, except@, first).shapes == shapes + elements_from(
                buf,
                except@,
                reader.state.cursor as int,
            ).shapes,
            elements_from(buf, except@, first).end == elements_from(
                buf,
                except@,
                reader.state.cursor as int,
            ).end,
            elements_from(buf, except@, first).fatal == elements_from(
                buf,
                except@,
                reader.state.cursor as int,
            ).fatal,
        invariant
            reader.wf(),
            reader.buffer@ == buf,
            buf == old(reader).text(),
            first == old(reader).cursor(),
            first <= reader.state.cursor,
            elements_match(elements@, buf, shapes),
            all_wf(elements@),
            last_literal_ends_at(buf, shapes, first, reader.state.cursor as int),
        ensures
            elements_from(buf, except@, first).shapes == shapes,
            elements_from(buf, except@, first).end == reader.state.cursor,
            elements_from(buf, except@, first).fatal.is_none(),
        decreases buf.len() - reader.state.cursor,
    {
        let ghost here = reader.state.cursor as int;
        let ghost rest = elements_from(buf, except@, here);
        match template_element(except, reader) {
            Err(e) => {
                if e.recoverable {
                    assert(shapes + rest.shapes =~= shapes);
                    break ;
                } else {
                    return Err(e);
                }
            },
            Ok(element) => {
                let ghost prior = shapes;
                let ghost prior_elements = elements@;
                elements.push(element);
                proof {
                    let next = reader.state.cursor as int;
                    let tail = elements_from(buf, except@, next);
                    match element_at(buf, except@, here) {
                        Parsed::Done { value, next } => {
                            shapes = prior.push(value);
                            assert(prior + (seq![value] + tail.shapes) =~= shapes + tail.shapes);
                        },
                        Parsed::Failed { .. } => {},
                    }
                    assert forall|k: int| 0 <= k < elements@.len() implies (
                    #[trigger] elements@[k]).matches(buf, shapes[k]) by {
                        if k < prior_elements.len() {
                            assert(elements@[k] == prior_elements[k]);
                        }
                    }
                    assert forall|k: int| 0 <= k < elements@.len() implies (
                    #[trigger] elements@[k]).wf() by {
                        if k < prior_elements.len() {
                            assert(elements@[k] == prior_elements[k]);
                        }
                    }
                }
            },
        }
    }
    Ok(elements)
}

fn is_blank_char(c: char) -> (b: bool)
    ensures
        b == is_blank(c),
{
    c == ' ' || c == '\t'
}

/// Counts the blanks that stand just before the cursor, looking back over
/// `limit` characters at most.
fn blanks_before_cursor(reader: &Reader, limit: usize) -> (t: usize)
    requires
        reader.wf(),
        limit <= reader.state.cursor,
    ensures
        t <= limit,
        t == trailing_blanks(
            reader.buffer@.subrange(reader.state.cursor - limit, reader.state.cursor as int),
        ),
        forall|j: int| reader.state.cursor - t <= j < reader.state.cursor ==> is_blank(
            reader.buffer@[j]),
{
    let ghost buf = reader.buffer@;
    let end: usize = reader.state.cursor;
    let ghost from = end - limit;
    let mut t: usize = 0;
    while t < limit
        invariant
            reader.wf(),
            buf == reader.buffer@,
            end == reader.state.cursor,
            from == end - limit,
            t <= limit <= end,
            trailing_blanks(buf.subrange(from, end as int)) == t + trailing_blanks(
                buf.subrange(from, end - t),
            ),
            forall|j: int| end - t <= j < end ==> is_blank(buf[j]),
        ensures
            t <= limit,
            trailing_blanks(buf.subrange(from, end as int)) == t,
        decreases limit - t,
    {
        let ghost shorter = buf.subrange(from, end - t);
        assert(shorter.last() == buf[end - t - 1]);
        assert(shorter.drop_last() =~= buf.subrange(from, end - t - 1));
        if is_blank_char(reader.buffer[end - 1 - t]) {
            t += 1;
        } else {
            break ;
        }
    }
    t
}

/// Reads a bare value: nothing before a space, a tab, a line feed, `#` or
/// the end of the input; else template elements up to a `#`. The blanks
/// that end the source text of a last literal are given back: the literal
/// loses them, and is dropped when nothing is left of it, and the reader
/// stands before them.
pub fn unquoted_template(reader: &mut Reader) -> (r: Result<Template, ParseFailure>)
    requires
        old(reader).wf(),
    ensures
        final(reader).wf(),
        final(reader).text() == old(reader).text(),
        match unquoted_template_at(old(reader).text(), old(reader).cursor()) {
            Parsed::Done { value, next } => {
                &&& final(reader).cursor() == next
                &&& r matches Ok(t) && !t.quoted && elements_match(
                    t.elements@,
                    old(reader).text(),
                    value,
                ) && t.span == (SourceSpan {
                    start: old(reader).state.pos,
                    end: final(reader).state.pos,
                }) && t.wf()
            },
            Parsed::Failed { at, recoverable, kind } => r == Err::<Template, ParseFailure>(
                failure(old(reader).text(), at, recoverable, kind),
            ) && !recoverable,
        },
        old(reader).cursor() >= old(reader).text().len() || ends_bare_value(
            old(reader).text()[old(reader).cursor()],
        ) ==> {
            &&& final(reader).state == old(reader).state
            &&& r matches Ok(t) && !t.quoted && t.elements@.len() == 0 && t.span == (
            SourceSpan { start: old(reader).state.pos, end: old(reader).state.pos })
        },
{
    let start: Position = reader.state.pos;
    let ghost buf = reader.buffer@;
    let ghost first = reader.state.cursor as int;
    let empty: bool = match reader.peek() {
        None => true,
        Some(c) => c == ' ' || c == '\t' || c == '\n' || c == '#',
    };
    if empty {
        proof {
            lemma_positions_ordered(buf, first, first);
        }
        return Ok(
            Template {
                quoted: false,
                elements: Vec::new(),
                span: SourceSpan { start, end: start },
            },
        );
    }
    let mut except: Vec<char> = Vec::new();
    except.push('#');
    assert(except@ =~= seq!['#']);
    let mut elements: Vec<TemplateElement> = match template_elements(&except, reader) {
        Err(e) => {
            return Err(e);
        },
        Ok(elements) => elements,
    };
    let ghost shapes = elements_from(buf, seq!['#'], first).shapes;
    let ghost whole = elements@;
    match elements.pop() {
        None => {},
        Some(TemplateElement::Interpolation(e)) => {
            elements.push(TemplateElement::Interpolation(e));
            assert(elements@ =~= whole);
        },
        Some(TemplateElement::Literal { decoded, raw }) => {
            let ghost last = TemplateElement::Literal { decoded, raw };
            assert(last == whole[whole.len() - 1]);
            assert(last.matches(buf, shapes[shapes.len() - 1]));
            let raw_len: usize = raw.as_str().unicode_len();
            let t: usize = blanks_before_cursor(reader, raw_len);
            if t == 0 {
                elements.push(TemplateElement::Literal { decoded, raw });
                assert(elements@ =~= whole);
            } else {
                proof {
                    lemma_rewind_within_line(buf, reader.state.cursor as int, t as int);
                    lemma_position_bounds(buf, reader.state.cursor - t);
                    lemma_position_bounds(buf, reader.state.cursor as int);
                }
                if t < raw_len {
                    let decoded_len: usize = decoded.as_str().unicode_len();
                    let kept: String = decoded.as_str().substring_char(
                        0,
                        decoded_len - t,
                    ).to_owned();
                    let kept_raw: String = raw.as_str().substring_char(0, raw_len - t).to_owned();
                    assert(kept_raw@ =~= buf.subrange(
                        reader.state.cursor - raw_len,
                        reader.state.cursor - t,
                    ));
                    elements.push(TemplateElement::Literal { decoded: kept, raw: kept_raw });
                }
                let rewound = ReaderState {
                    cursor: reader.state.cursor - t,
                    pos: Position {
                        line: reader.state.pos.line,
                        column: reader.state.pos.column - t,
                    },
                };
                reader.rewind_to(rewound);
            }
        },
    }
    let end: Position = reader.state.pos;
    proof {
        lemma_positions_ordered(buf, first, reader.state.cursor as int);
    }
    Ok(Template { quoted: false, elements, span: SourceSpan { start, end } })
}

/// Reads a quoted value: `"`, template elements up to a `"`, and that
/// `"`. Every failure is fatal; a missing closing quote is reported where
/// the elements end.
pub fn quoted_template(reader: &mut Reader) -> (r: Result<Template, ParseFailure>)
    requires
        old(reader).wf(),
    ensures
        final(reader).wf(),
        final(reader).text() == old(reader).text(),
        match quoted_template_at(old(reader).text(), old(reader).cursor()) {
            Parsed::Done { value, next } => {
                &&& final(reader).cursor() == next
                &&& old(reader).cursor() + 2 <= next
                &&& r matches Ok(t) && t.quoted && elements_match(
                    t.elements@,
                    old(reader).text(),
                    value,
                ) && t.span == (SourceSpan {
                    start: old(reader).state.pos,
                    end: final(reader).state.pos,
                }) && t.wf()
            },
            Parsed::Failed { at, recoverable, kind } => r == Err::<Template, ParseFailure>(
                failure(old(reader).text(), at, recoverable, kind),
            ) && !recoverable,
        },
{
    let start: Position = reader.state.pos;
    let ghost buf = reader.buffer@;
    let ghost first = reader.state.cursor as int;
    match expect_char(reader, '"', ErrorKind::ExpectingQuote) {
        Err(e) => {
            return Err(e);
        },
        Ok(_) => {},
    }
    let closed: Option<char> = reader.peek();
    if closed == Some('"') {
        let _ = reader.read();
        let end: Position = reader.state.pos;
        proof {
            lemma_positions_ordered(buf, first, reader.state.cursor as int);
        }
        return Ok(Template { quoted: true, elements: Vec::new(), span: SourceSpan { start, end } });
    }
    let mut except: Vec<char> = Vec::new();
    except.push('"');
    assert(except@ =~= seq!['"']);
    let elements: Vec<TemplateElement> = match template_elements(&except, reader) {
        Err(e) => {
            return Err(e);
        },
        Ok(elements) => elements,
    };
    match expect_char(reader, '"', ErrorKind::UnterminatedQuotedLiteral) {
        Err(e) => {
            return Err(e);
        },
        Ok(_) => {},
    }
    let end: Position = reader.state.pos;
    proof {
        lemma_positions_ordered(buf, first, reader.state.cursor as int);
    }
    Ok(Template { quoted: true, elements, span: SourceSpan { start, end } })
}

fn is_key_char_of(c: char) -> (b: bool)
    ensures
        b == is_key_char(c),
{
    is_alphanumeric(c) || c == '_' || c == '-' || c == '.'
}

/// Reads a bare key: escapes, letters, digits, `_`, `-` and `.`, as far as
/// they go. With none at the cursor the failure is recoverable and the
/// reader has not moved; a fatal failure of an escape is the failure of
/// the key.
pub fn unquoted_string_key(reader: &mut Reader) -> (r: Result<EncodedString, ParseFailure>)
    requires
        old(reader).wf(),
    ensures
        final(reader).wf(),
        final(reader).text() == old(reader).text(),
        match key_at(old(reader).text(), old(reader).cursor()) {
            Parsed::Done { value, next } => {
                &&& final(reader).cursor() == next
                &&& old(reader).cursor() < next
                &&& value.len() > 0
                &&& r matches Ok(key) && !key.quoted && key.decoded@ == value && key.raw@ == old(
                    reader).text().subrange(old(reader).cursor(), next) && key.span == (
                SourceSpan { start: old(reader).state.pos, end: final(reader).state.pos })
                    && key.span.ordered()
            },
            Parsed::Failed { at, recoverable, kind } => r == Err::<EncodedString, ParseFailure>(
                failure(old(reader).text(), at, recoverable, kind),
            ) && (recoverable ==> final(reader).state == old(reader).state),
        },
{
    let start: ReaderState = reader.state;
    let ghost buf = reader.buffer@;
    let ghost first = start.cursor as int;
    let mut decoded = String::new();
    loop
        invariant_except_break
            goes_on(
                key_run_from(buf, first),
                decoded@,
                key_run_from(buf, reader.state.cursor as int),
            ),
        invariant
            reader.wf(),
            reader.buffer@ == buf,
            buf == old(reader).text(),
            start == old(reader).state,
            first == start.cursor,
            start.cursor <= reader.state.cursor,
            (decoded@.len() == 0) == (reader.state.cursor == start.cursor),
        ensures
            key_run_from(buf, first).decoded == decoded@,
            key_run_from(buf, first).end == reader.state.cursor,
            key_run_from(buf, first).fatal.is_none(),
        decreases buf.len() - reader.state.cursor,
    {
        let ghost here = reader.state.cursor as int;
        let ghost rest = key_run_from(buf, here);
        let ghost prior = decoded@;
        proof {
            lemma_escape_extent(buf, here);
        }
        let found: Option<char> = match escape_char(reader) {
            Ok(c) => Some(c),
            Err(e) => {
                if !e.recoverable {
                    return Err(e);
                }
                match reader.peek() {
                    None => None,
                    Some(c) => {
                        if is_key_char_of(c) {
                            let _ = reader.read();
                            Some(c)
                        } else {
                            None
                        }
                    },
                }
            },
        };
        match found {
            None => {
                assert(decoded@ + rest.decoded =~= decoded@);
                break ;
            },
            Some(c) => {
                push_char(&mut decoded, c);
                proof {
                    let tail = key_run_from(buf, reader.state.cursor as int);
                    assert(prior + (seq![c] + tail.decoded) =~= decoded@ + tail.decoded);
                }
            },
        }
    }
    if reader.state.cursor == start.cursor {
        return Err(
            ParseFailure {
                position: start.pos,
                recoverable: true,
                kind: ErrorKind::ExpectingKeyString,
            },
        );
    }
    let raw: String = reader.substring_from(start.cursor);
    let end: Position = reader.state.pos;
    proof {
        lemma_positions_ordered(buf, first, reader.state.cursor as int);
    }
    Ok(EncodedString { quoted: false, decoded, raw, span: SourceSpan { start: start.pos, end } })
}

/// Reads a plain quoted string: `"`, everything up to the next `"`, and
/// that `"`. Nothing is decoded: a backslash stands for itself. Every
/// failure is fatal.
pub fn quoted_string(reader: &mut Reader) -> (r: Result<String, ParseFailure>)
    requires
        old(reader).wf(),
    ensures
        final(reader).wf(),
        final(reader).text() == old(reader).text(),
        match quoted_string_at(old(reader).text(), old(reader).cursor()) {
            Parsed::Done { value, next } => {
                &&& final(reader).cursor() == next
                &&& r matches Ok(s) && s@ == value
            },
            Parsed::Failed { at, recoverable, kind } => r == Err::<String, ParseFailure>(
                failure(old(reader).text(), at, recoverable, kind),
            ) && !recoverable,
        },
{
    match expect_char(reader, '"', ErrorKind::ExpectingQuote) {
        Err(e) => {
            return Err(e);
        },
        Ok(_) => {},
    }
    let from: usize = reader.state.cursor;
    let ghost buf = reader.buffer@;
    loop
        invariant
            reader.wf(),
            reader.buffer@ == buf,
            buf == old(reader).text(),
            from == old(reader).cursor() + 1,
            from <= reader.state.cursor,
            quote_from(buf, from as int) == quote_from(buf, reader.state.cursor as int),
        ensures
            quote_from(buf, from as int) == reader.state.cursor,
            reader.state.cursor < buf.len() ==> buf[reader.state.cursor as int] == '"',
        decreases buf.len() - reader.state.cursor,
    {
        match reader.peek() {
            None => {
                break ;
            },
            Some(c) => {
                if c != '"' {
                    let _ = reader.read();
                } else {
                    break ;
                }
            },
        }
    }
    let s: String = reader.substring_from(from);
    match expect_char(reader, '"', ErrorKind::ExpectingQuote) {
        Err(e) => Err(e),
        Ok(_) => Ok(s),
    }
}

} // verus!
