//! The parser for interpolations: `{{`, blanks, a name, blanks, `}}`.

use crate::ast::{Expr, Variable, Whitespace};
use crate::error::{ErrorKind, ParseFailure};
use crate::grammar::{blank_end, expr_at, failure, name_end, pair_at, Parsed};
use crate::reader::{Position, Reader, ReaderState, SourceSpan};
use crate::text::is_alphanumeric;
use vstd::prelude::*;

verus! {

/// Reads the spaces and tabs at the cursor, possibly none.
pub fn whitespace(reader: &mut Reader) -> (w: Whitespace)
    requires
        old(reader).wf(),
    ensures
        final(reader).wf(),
        final(reader).text() == old(reader).text(),
        final(reader).cursor() == blank_end(old(reader).text(), old(reader).cursor()),
        old(reader).cursor() <= final(reader).cursor(),
        w.value@ == old(reader).text().subrange(old(reader).cursor(), final(reader).cursor()),
        w.span == (SourceSpan { start: old(reader).state.pos, end: final(reader).state.pos }),
{
    let start: ReaderState = reader.state;
    let ghost buf = reader.buffer@;
    loop
        invariant
            reader.wf(),
            reader.buffer@ == buf,
            start.cursor <= reader.state.cursor,
            blank_end(buf, start.cursor as int) == blank_end(buf, reader.state.cursor as int),
        ensures
            blank_end(buf, start.cursor as int) == reader.state.cursor,
        decreases buf.len() - reader.state.cursor,
    {
        match reader.peek() {
            None => {
                break ;
            },
            Some(c) => {
                if c == ' ' || c == '\t' {
                    let _ = reader.read();
                } else {
                    break ;
                }
            },
        }
    }
    let value: String = reader.substring_from(start.cursor);
    Whitespace { value, span: SourceSpan { start: start.pos, end: reader.state.pos } }
}

/// Reads the name at the cursor: letters, digits, `_` and `-`. An empty
/// name is a fatal failure.
pub fn variable_name(reader: &mut Reader) -> (r: Result<Variable, ParseFailure>)
    requires
        old(reader).wf(),
    ensures
        final(reader).wf(),
        final(reader).text() == old(reader).text(),
        final(reader).cursor() == name_end(old(reader).text(), old(reader).cursor()),
        old(reader).cursor() <= final(reader).cursor(),
        final(reader).cursor() == old(reader).cursor() ==> r == Err::<Variable, ParseFailure>(
            failure(old(reader).text(), old(reader).cursor(), false, ErrorKind::InvalidVariableName),
        ),
        final(reader).cursor() > old(reader).cursor() ==> {
            &&& r matches Ok(v)
            &&& v.name@ == old(reader).text().subrange(old(reader).cursor(), final(reader).cursor())
            &&& v.span == (SourceSpan { start: old(reader).state.pos, end: final(reader).state.pos })
        },
{
    let start: ReaderState = reader.state;
    let ghost buf = reader.buffer@;
    loop
        invariant
            reader.wf(),
            reader.buffer@ == buf,
            start.cursor <= reader.state.cursor,
            name_end(buf, start.cursor as int) == name_end(buf, reader.state.cursor as int),
        ensures
            name_end(buf, start.cursor as int) == reader.state.cursor,
        decreases buf.len() - reader.state.cursor,
    {
        match reader.peek() {
            None => {
                break ;
            },
            Some(c) => {
                if is_alphanumeric(c) || c == '_' || c == '-' {
                    let _ = reader.read();
                } else {
                    break ;
                }
            },
        }
    }
    if reader.state.cursor == start.cursor {
        return Err(
            ParseFailure {
                position: start.pos,
                recoverable: false,
                kind: ErrorKind::InvalidVariableName,
            },
        );
    }
    let name: String = reader.substring_from(start.cursor);
    Ok(Variable { name, span: SourceSpan { start: start.pos, end: reader.state.pos } })
}

/// Reads the character `c` twice where it stands twice at the cursor, and
/// says whether it did. Otherwise the reader does not move.
pub fn try_pair(reader: &mut Reader, c: char) -> (found: bool)
    requires
        old(reader).wf(),
    ensures
        final(reader).wf(),
        final(reader).text() == old(reader).text(),
        found == pair_at(old(reader).text(), old(reader).cursor(), c),
        found ==> final(reader).cursor() == old(reader).cursor() + 2,
        !found ==> final(reader).state == old(reader).state,
{
    let start: ReaderState = reader.state;
    if reader.read() == Some(c) {
        if reader.read() == Some(c) {
            return true;
        }
    }
    reader.rewind_to(start);
    false
}

/// Reads an interpolation. Without `{{` at the cursor the failure is
/// recoverable and the reader has not moved; after `{{` every failure is
/// fatal.
pub fn parse(reader: &mut Reader) -> (r: Result<Expr, ParseFailure>)
    requires
        old(reader).wf(),
    ensures
        final(reader).wf(),
        final(reader).text() == old(reader).text(),
        match expr_at(old(reader).text(), old(reader).cursor()) {
            Parsed::Done { value, next } => {
                &&& final(reader).cursor() == next
                &&& old(reader).cursor() < next
                &&& r matches Ok(e) && e.matches(old(reader).text(), value)
            },
            Parsed::Failed { at, recoverable, kind } => r == Err::<Expr, ParseFailure>(
                failure(old(reader).text(), at, recoverable, kind),
            ) && (recoverable ==> final(reader).state == old(reader).state),
        },
{
    let start: Position = reader.state.pos;
    if !try_pair(reader, '{') {
        return Err(
            ParseFailure {
                position: start,
                recoverable: true,
                kind: ErrorKind::ExpectingInterpolation,
            },
        );
    }
    let space0: Whitespace = whitespace(reader);
    let variable: Variable = match variable_name(reader) {
        Err(e) => {
            return Err(e);
        },
        Ok(v) => v,
    };
    let space1: Whitespace = whitespace(reader);
    let close: Position = reader.state.pos;
    if !try_pair(reader, '}') {
        return Err(
            ParseFailure {
                position: close,
                recoverable: false,
                kind: ErrorKind::UnterminatedInterpolation,
            },
        );
    }
    Ok(Expr { space0, variable, space1 })
}

} // verus!
