//! Facts about the grammar that the parsers rest on.

use crate::grammar::{
    any_char_at, element_at, elements_from, escape_at, hex_end, hex_sum, is_blank, is_hex_digit,
    literal_at, segment_from, trailing_blanks, ElementShape, Parsed,
};
use vstd::prelude::*;

verus! {

/// A run of hexadecimal digits ends inside the buffer, at a character that
/// is no such digit, and holds such digits only.
pub proof fn lemma_hex_end_bounds(buf: Seq<char>, i: int)
    requires
        0 <= i <= buf.len(),
    ensures
        i <= hex_end(buf, i) <= buf.len(),
        hex_end(buf, i) < buf.len() ==> !is_hex_digit(buf[hex_end(buf, i)]),
    decreases buf.len() - i,
{
    if i < buf.len() && is_hex_digit(buf[i]) {
        lemma_hex_end_bounds(buf, i + 1);
    }
}

/// An escape takes at least two characters, ends inside the buffer, and its
/// last character is neither a blank nor a line feed.
pub proof fn lemma_escape_extent(buf: Seq<char>, i: int)
    requires
        0 <= i <= buf.len(),
    ensures
        escape_at(buf, i) matches Parsed::Done { value, next } ==> i + 2 <= next <= buf.len()
            && !is_blank(buf[next - 1]) && buf[next - 1] != '\n',
{
    if i + 3 <= buf.len() {
        lemma_hex_end_bounds(buf, i + 3);
    }
}

/// Content takes at least one character and ends inside the buffer.
pub proof fn lemma_any_char_extent(buf: Seq<char>, except: Seq<char>, i: int)
    requires
        0 <= i <= buf.len(),
    ensures
        any_char_at(buf, except, i) matches Parsed::Done { value, next } ==> i < next <= buf.len(),
{
    lemma_escape_extent(buf, i);
}

/// A run of hexadecimal digits that ends inside a stretch of the buffer is
/// the same run in that stretch taken alone.
pub proof fn lemma_hex_end_local(buf: Seq<char>, i: int, from: int, to: int)
    requires
        0 <= from <= i <= to <= buf.len(),
        hex_end(buf, i) < to,
    ensures
        hex_end(buf.subrange(from, to), i - from) == hex_end(buf, i) - from,
    decreases buf.len() - i,
{
    let sub = buf.subrange(from, to);
    lemma_hex_end_bounds(buf, i);
    assert(sub[i - from] == buf[i]);
    if is_hex_digit(buf[i]) {
        lemma_hex_end_bounds(buf, i + 1);
        lemma_hex_end_local(buf, i + 1, from, to);
    }
}

/// The digits of a stretch of the buffer write the same number in that
/// stretch taken alone.
pub proof fn lemma_hex_sum_local(buf: Seq<char>, i: int, j: int, from: int, to: int)
    requires
        0 <= from <= i <= j <= to <= buf.len(),
    ensures
        hex_sum(buf.subrange(from, to), i - from, j - from) == hex_sum(buf, i, j),
    decreases j - i,
{
    if j > i {
        lemma_hex_sum_local(buf, i, j - 1, from, to);
        assert(buf.subrange(from, to)[j - 1 - from] == buf[j - 1]);
    }
}

/// An escape that ends inside a stretch of the buffer is the same escape
/// in that stretch taken alone.
pub proof fn lemma_escape_local(buf: Seq<char>, i: int, from: int, to: int)
    requires
        0 <= from <= i <= to <= buf.len(),
        escape_at(buf, i) matches Parsed::Done { value, next } && next <= to,
    ensures
        escape_at(buf, i) matches Parsed::Done { value, next } && escape_at(
            buf.subrange(from, to),
            i - from,
        ) == (Parsed::Done { value, next: next - from }),
{
    let sub = buf.subrange(from, to);
    lemma_escape_extent(buf, i);
    assert(sub[i - from] == buf[i]);
    assert(sub[i + 1 - from] == buf[i + 1]);
    if buf[i + 1] == 'u' {
        let e = hex_end(buf, i + 3);
        lemma_hex_end_bounds(buf, i + 3);
        assert(sub[i + 2 - from] == buf[i + 2]);
        lemma_hex_end_local(buf, i + 3, from, to);
        lemma_hex_sum_local(buf, i + 3, e, from, to);
        assert(sub[e - from] == buf[e]);
    }
}

/// A segment that is not cut short ends inside the buffer, not before the
/// place where it starts, and after that place where it holds anything.
pub proof fn lemma_segment_end(buf: Seq<char>, except: Seq<char>, i: int, pending: bool)
    requires
        0 <= i <= buf.len(),
        pending ==> 1 <= i,
    ensures
        ({
            let run = segment_from(buf, except, i, pending);
            run.fatal.is_none() ==> {
                &&& run.end <= buf.len()
                &&& pending ==> i - 1 <= run.end
                &&& !pending ==> i <= run.end
                &&& run.decoded.len() > 0 ==> i < run.end
            }
        }),
    decreases buf.len() - i,
{
    lemma_any_char_extent(buf, except, i);
    match any_char_at(buf, except, i) {
        Parsed::Done { value, next } => {
            if value == '{' && next == i + 1 {
                if !pending {
                    lemma_segment_end(buf, except, next, true);
                }
            } else {
                lemma_segment_end(buf, except, next, false);
            }
        },
        Parsed::Failed { .. } => {},
    }
}

/// A segment is the same segment in its own source text taken alone,
/// whatever stands after it in the buffer.
pub proof fn lemma_segment_local(
    buf: Seq<char>,
    except: Seq<char>,
    from: int,
    i: int,
    pending: bool,
)
    requires
        0 <= from <= i <= buf.len(),
        pending ==> from <= i - 1,
        segment_from(buf, except, i, pending).fatal.is_none(),
        i <= segment_from(buf, except, i, pending).end,
    ensures
        ({
            let run = segment_from(buf, except, i, pending);
            let alone = segment_from(buf.subrange(from, run.end), except, i - from, pending);
            &&& run.end <= buf.len()
            &&& alone.decoded == run.decoded
            &&& alone.end == run.end - from
            &&& alone.fatal.is_none()
        }),
    decreases buf.len() - i,
{
    let run = segment_from(buf, except, i, pending);
    let e = run.end;
    lemma_segment_end(buf, except, i, pending);
    let sub = buf.subrange(from, e);
    lemma_any_char_extent(buf, except, i);
    lemma_escape_extent(buf, i);
    if i < e {
        assert(sub[i - from] == buf[i]);
    }
    match any_char_at(buf, except, i) {
        Parsed::Failed { .. } => {},
        Parsed::Done { value, next } => {
            if value == '{' && next == i + 1 {
                if !pending {
                    lemma_segment_end(buf, except, next, true);
                    if next <= e {
                        lemma_segment_local(buf, except, from, next, true);
                    }
                }
            } else {
                lemma_segment_end(buf, except, next, false);
                if escape_at(buf, i) is Done {
                    lemma_escape_local(buf, i, from, e);
                }
                lemma_segment_local(buf, except, from, next, false);
            }
        },
    }
}

/// Decoding the source text of an escape alone gives the character that
/// the escape stands for.
pub proof fn law_escape_round_trip(buf: Seq<char>, i: int)
    requires
        0 <= i <= buf.len(),
        escape_at(buf, i) is Done,
    ensures
        escape_at(buf, i) matches Parsed::Done { value, next } && i + 2 <= next <= buf.len()
            && escape_at(buf.subrange(i, next), 0) == (Parsed::Done { value, next: next - i }),
{
    lemma_escape_extent(buf, i);
    match escape_at(buf, i) {
        Parsed::Done { value, next } => {
            lemma_escape_local(buf, i, i, next);
        },
        Parsed::Failed { .. } => {},
    }
}

/// Decoding the source text of a literal alone gives the decoded text of
/// the literal, and uses that source text up.
pub proof fn law_literal_round_trip(buf: Seq<char>, except: Seq<char>, i: int)
    requires
        0 <= i <= buf.len(),
        literal_at(buf, except, i) is Done,
    ensures
        literal_at(buf, except, i) matches Parsed::Done { value, next } && i < next <= buf.len()
            && literal_at(buf.subrange(i, next), except, 0) == (Parsed::Done {
            value,
            next: next - i,
        }),
{
    lemma_segment_end(buf, except, i, false);
    lemma_segment_local(buf, except, i, i, false);
}

/// Every literal among the elements read from `i` on is the literal that
/// stands where it starts: its decoded text is not empty, it ends inside
/// the buffer, and its source text alone decodes to it again.
pub proof fn law_template_literals(buf: Seq<char>, except: Seq<char>, i: int, k: int)
    requires
        0 <= i <= buf.len(),
        0 <= k < elements_from(buf, except, i).shapes.len(),
    ensures
        elements_from(buf, except, i).shapes[k] matches ElementShape::Literal {
            decoded,
            start,
            end,
        } ==> {
            &&& i <= start < end <= buf.len()
            &&& decoded.len() > 0
            &&& literal_at(buf, except, start) == (Parsed::Done { value: decoded, next: end })
            &&& literal_at(buf.subrange(start, end), except, 0) == (Parsed::Done {
                value: decoded,
                next: end - start,
            })
        },
    decreases buf.len() - i,
{
    match element_at(buf, except, i) {
        Parsed::Failed { .. } => {},
        Parsed::Done { value, next } => {
            if i < next <= buf.len() {
                let rest = elements_from(buf, except, next);
                assert(elements_from(buf, except, i).shapes == seq![value] + rest.shapes);
                if k == 0 {
                    if value is Literal {
                        law_literal_round_trip(buf, except, i);
                    }
                } else {
                    law_template_literals(buf, except, next, k - 1);
                    assert((seq![value] + rest.shapes)[k] == rest.shapes[k - 1]);
                }
            }
        },
    }
}

/// The blanks counted at the end of a text are blanks, and are no more
/// than the text.
pub proof fn lemma_trailing_blanks(s: Seq<char>)
    ensures
        trailing_blanks(s) <= s.len(),
        forall|k: int| s.len() - trailing_blanks(s) <= k < s.len() ==> is_blank(s[k]),
    decreases s.len(),
{
    if s.len() > 0 && is_blank(s.last()) {
        lemma_trailing_blanks(s.drop_last());
        assert forall|k: int| s.len() - trailing_blanks(s) <= k < s.len() implies is_blank(
            s[k],
        ) by {
            if k < s.len() - 1 {
                assert(s[k] == s.drop_last()[k]);
            }
        }
    }
}

/// A segment that ends after the place where it starts holds text.
pub proof fn lemma_segment_holds_text(buf: Seq<char>, except: Seq<char>, i: int, pending: bool)
    requires
        0 <= i <= buf.len(),
        segment_from(buf, except, i, pending).fatal.is_none(),
        pending ==> i - 1 < segment_from(buf, except, i, pending).end,
        !pending ==> i < segment_from(buf, except, i, pending).end,
    ensures
        segment_from(buf, except, i, pending).decoded.len() > 0,
    decreases buf.len() - i,
{
    lemma_any_char_extent(buf, except, i);
    match any_char_at(buf, except, i) {
        Parsed::Done { value, next } => {
            if value == '{' && next == i + 1 {
                if !pending {
                    lemma_segment_holds_text(buf, except, next, true);
                }
            }
        },
        Parsed::Failed { .. } => {},
    }
}

/// A segment that is a run of blanks decodes to as many characters.
pub proof fn lemma_segment_of_blanks(buf: Seq<char>, except: Seq<char>, i: int, end: int)
    requires
        0 <= i <= end <= buf.len(),
        forall|k: int| i <= k < end ==> is_blank(buf[k]),
        segment_from(buf, except, i, false).fatal.is_none(),
        segment_from(buf, except, i, false).end == end,
    ensures
        segment_from(buf, except, i, false).decoded.len() == end - i,
    decreases end - i,
{
    lemma_segment_end(buf, except, i, false);
    lemma_any_char_extent(buf, except, i);
    lemma_escape_extent(buf, i);
    if i < end {
        assert(is_blank(buf[i]));
        lemma_segment_of_blanks(buf, except, i + 1, end);
    }
}

/// A segment without the blanks that end it is the same segment, without
/// as many characters, in the source text before those blanks taken alone,
/// unless that text ends in `{`.
pub proof fn lemma_segment_prefix(
    buf: Seq<char>,
    except: Seq<char>,
    from: int,
    i: int,
    pending: bool,
    cut: int,
)
    requires
        0 <= from <= i <= cut <= buf.len(),
        pending ==> from <= i - 1 && i < cut,
        segment_from(buf, except, i, pending).fatal.is_none(),
        cut <= segment_from(buf, except, i, pending).end,
        forall|k: int| cut <= k < segment_from(buf, except, i, pending).end ==> is_blank(buf[k]),
        0 < cut ==> buf[cut - 1] != '{',
    ensures
        ({
            let run = segment_from(buf, except, i, pending);
            let alone = segment_from(buf.subrange(from, cut), except, i - from, pending);
            &&& run.end <= buf.len()
            &&& run.decoded.len() >= run.end - cut
            &&& alone.decoded == run.decoded.take(run.decoded.len() - (run.end - cut))
            &&& alone.end == cut - from
            &&& alone.fatal.is_none()
        }),
    decreases buf.len() - i,
{
    let run = segment_from(buf, except, i, pending);
    let e = run.end;
    let sub = buf.subrange(from, cut);
    lemma_segment_end(buf, except, i, pending);
    lemma_any_char_extent(buf, except, i);
    lemma_escape_extent(buf, i);
    if i == cut {
        lemma_segment_of_blanks(buf, except, i, e);
        assert(run.decoded.take(0) =~= Seq::<char>::empty());
    } else {
        assert(sub[i - from] == buf[i]);
        match any_char_at(buf, except, i) {
            Parsed::Failed { .. } => {},
            Parsed::Done { value, next } => {
                if value == '{' && next == i + 1 {
                    if !pending {
                        lemma_segment_end(buf, except, next, true);
                        lemma_segment_prefix(buf, except, from, next, true, cut);
                    }
                } else {
                    let rest = segment_from(buf, except, next, false);
                    lemma_segment_end(buf, except, next, false);
                    if escape_at(buf, i) is Done {
                        assert(next <= cut) by {
                            if next > cut {
                                assert(is_blank(buf[next - 1]));
                            }
                        }
                        lemma_escape_local(buf, i, from, cut);
                    }
                    lemma_segment_prefix(buf, except, from, next, false, cut);
                    let head = if pending {
                        seq!['{', value]
                    } else {
                        seq![value]
                    };
                    let kept = rest.decoded.len() - (e - cut);
                    assert((head + rest.decoded).take(head.len() + kept) =~= head
                        + rest.decoded.take(kept));
                }
            },
        }
    }
}

/// Where a literal gives back some of the blanks that end its source text,
/// and loses as many characters of its decoded text, what is left is again
/// a literal: the source text that is left, taken alone, decodes to the
/// decoded text that is left. This holds unless the source text that is
/// left ends in `{`, which alone would wait for the character after it.
pub proof fn law_trimmed_literal_round_trip(
    buf: Seq<char>,
    except: Seq<char>,
    i: int,
    given_back: int,
)
    requires
        0 <= i <= buf.len(),
        literal_at(buf, except, i) matches Parsed::Done { value, next } && 0 <= given_back
            <= trailing_blanks(buf.subrange(i, next)) && given_back < next - i && buf[next
            - given_back - 1] != '{',
    ensures
        literal_at(buf, except, i) matches Parsed::Done { value, next } && given_back
            < value.len() && literal_at(buf.subrange(i, next - given_back), except, 0) == (
        Parsed::Done { value: value.take(value.len() - given_back), next: next - given_back - i }),
{
    let run = segment_from(buf, except, i, false);
    let cut = run.end - given_back;
    lemma_segment_end(buf, except, i, false);
    let raw = buf.subrange(i, run.end);
    lemma_trailing_blanks(raw);
    assert forall|k: int| cut <= k < run.end implies is_blank(buf[k]) by {
        assert(raw[k - i] == buf[k]);
    }
    lemma_segment_prefix(buf, except, i, i, false, cut);
    let sub = buf.subrange(i, cut);
    lemma_segment_holds_text(sub, except, 0, false);
}

} // verus!
