use hurl_core::ast::TemplateElement;
use hurl_core::error::{ErrorKind, ParseFailure};
use hurl_core::expr::parse;
use hurl_core::reader::{Position, Reader, ReaderState, SourceSpan};
use hurl_core::string::{
    any_char, content_char, escape_char, expect_char, hex_value, quoted_string, quoted_template,
    template_element, template_element_string, template_elements, unicode, unquoted_string_key,
    unquoted_template,
};

fn literal(decoded: &str, raw: &str) -> TemplateElement {
    TemplateElement::Literal {
        decoded: decoded.to_string(),
        raw: raw.to_string(),
    }
}

fn fatal(line: usize, column: usize, kind: ErrorKind) -> ParseFailure {
    ParseFailure {
        position: Position { line, column },
        recoverable: false,
        kind,
    }
}

fn recoverable(line: usize, column: usize, kind: ErrorKind) -> ParseFailure {
    ParseFailure {
        position: Position { line, column },
        recoverable: true,
        kind,
    }
}

#[test]
fn reader_tracks_lines_and_columns() {
    let mut reader = Reader::init("a\nbé");
    assert_eq!(reader.peek(), Some('a'));
    assert_eq!(reader.read(), Some('a'));
    assert_eq!(reader.state.pos, Position { line: 1, column: 2 });
    assert_eq!(reader.read(), Some('\n'));
    assert_eq!(reader.state.pos, Position { line: 2, column: 1 });
    assert_eq!(reader.read(), Some('b'));
    assert_eq!(reader.read(), Some('é'));
    assert_eq!(
        reader.state,
        ReaderState {
            cursor: 4,
            pos: Position { line: 2, column: 3 }
        }
    );
    assert!(reader.is_eof());
    assert_eq!(reader.read(), None);
    assert_eq!(reader.state.cursor, 4);
    assert_eq!(reader.substring_from(2), "bé");
}

#[test]
fn every_simple_escape_decodes_to_its_character() {
    let cases = [
        ("\\\"", '"'),
        ("\\\\", '\\'),
        ("\\/", '/'),
        ("\\b", '\u{8}'),
        ("\\n", '\n'),
        ("\\f", '\u{c}'),
        ("\\r", '\r'),
        ("\\t", '\t'),
    ];
    for (raw, decoded) in cases {
        let mut reader = Reader::init(raw);
        assert_eq!(escape_char(&mut reader), Ok(decoded));
        assert_eq!(reader.state.cursor, 2);
        let mut reader = Reader::init(raw);
        assert_eq!(
            any_char(vec![], &mut reader),
            Ok((decoded, raw.to_string()))
        );
    }
}

#[test]
fn decoding_the_raw_text_of_a_literal_gives_its_decoded_text() {
    let inputs = [
        "a\\u{23}b\\n c",
        "{0}",
        "x{y\\t",
        "hello\\u{20}{{name}}!",
        "a \\\\ b",
    ];
    for input in inputs {
        let mut reader = Reader::init(input);
        let first = template_element_string(&vec!['#'], &mut reader).unwrap();
        match first {
            TemplateElement::Literal { decoded, raw } => {
                let mut again = Reader::init(&raw);
                assert_eq!(
                    template_element_string(&vec!['#'], &mut again),
                    Ok(TemplateElement::Literal {
                        decoded,
                        raw: raw.clone()
                    })
                );
                assert!(again.is_eof());
            }
            TemplateElement::Interpolation(_) => panic!("a literal was expected"),
        }
    }
}

#[test]
fn unquoted_template_is_empty_before_a_terminator() {
    for input in ["", " x", "\tx", "\nx", "#x"] {
        let mut reader = Reader::init(input);
        let template = unquoted_template(&mut reader).unwrap();
        assert!(!template.quoted);
        assert!(template.elements.is_empty());
        assert_eq!(template.span, SourceSpan::init(1, 1, 1, 1));
        assert_eq!(
            reader.state,
            ReaderState {
                cursor: 0,
                pos: Position { line: 1, column: 1 }
            }
        );
    }
}

#[test]
fn unquoted_template_gives_back_trailing_blanks() {
    let mut reader = Reader::init("a b \t # c");
    let template = unquoted_template(&mut reader).unwrap();
    assert_eq!(template.elements, vec![literal("a b", "a b")]);
    assert_eq!(template.span, SourceSpan::init(1, 1, 1, 4));
    assert_eq!(reader.state.cursor, 3);

    let mut reader = Reader::init("a\\u{20}#");
    let template = unquoted_template(&mut reader).unwrap();
    assert_eq!(template.elements, vec![literal("a ", "a\\u{20}")]);
    assert_eq!(reader.state.cursor, 7);
}

#[test]
fn unquoted_template_drops_a_literal_of_blanks_only() {
    let mut reader = Reader::init("{{a}}  # c");
    let template = unquoted_template(&mut reader).unwrap();
    assert_eq!(template.elements.len(), 1);
    assert!(matches!(
        template.elements[0],
        TemplateElement::Interpolation(_)
    ));
    assert_eq!(template.span, SourceSpan::init(1, 1, 1, 6));
    assert_eq!(reader.state.cursor, 5);
    assert_eq!(reader.state.pos, Position { line: 1, column: 6 });
}

#[test]
fn unquoted_template_literal_brace() {
    let mut reader = Reader::init("{0}");
    let template = unquoted_template(&mut reader).unwrap();
    assert_eq!(template.elements, vec![literal("{0}", "{0}")]);
    assert_eq!(reader.state.cursor, 3);
}

#[test]
fn a_pending_brace_is_left_unread() {
    let mut reader = Reader::init("ab{");
    assert_eq!(
        template_element_string(&vec![], &mut reader),
        Ok(literal("ab", "ab"))
    );
    assert_eq!(reader.state.cursor, 2);

    let mut reader = Reader::init("{a");
    assert_eq!(
        template_element_string(&vec![], &mut reader),
        Ok(literal("{a", "{a"))
    );
    assert_eq!(reader.state.cursor, 2);

    let mut reader = Reader::init("\\u{7b}{x");
    assert_eq!(
        template_element_string(&vec![], &mut reader),
        Ok(literal("{{x", "\\u{7b}{x"))
    );
}

#[test]
fn segment_without_content_fails_recoverably() {
    for input in ["", "#", "{{x}}", "{", "\n"] {
        let mut reader = Reader::init(input);
        assert_eq!(
            template_element_string(&vec!['#'], &mut reader),
            Err(recoverable(1, 1, ErrorKind::ExpectingString))
        );
        assert_eq!(reader.state.cursor, 0);
    }
}

#[test]
fn fatal_escape_is_reported_after_the_backslash() {
    let mut reader = Reader::init("\\l");
    assert_eq!(
        escape_char(&mut reader),
        Err(fatal(1, 2, ErrorKind::InvalidEscape))
    );
    let mut reader = Reader::init("\\");
    assert_eq!(
        escape_char(&mut reader),
        Err(fatal(1, 2, ErrorKind::InvalidEscape))
    );
    let mut reader = Reader::init("ab\\l");
    assert_eq!(
        unquoted_template(&mut reader),
        Err(fatal(1, 4, ErrorKind::InvalidEscape))
    );
    let mut reader = Reader::init("\"ab\\l\"");
    assert_eq!(
        quoted_template(&mut reader),
        Err(fatal(1, 5, ErrorKind::InvalidEscape))
    );
}

#[test]
fn unicode_escape_failures_are_fatal() {
    let mut reader = Reader::init("x");
    assert_eq!(
        unicode(&mut reader),
        Err(fatal(1, 1, ErrorKind::ExpectingOpenBrace))
    );
    let mut reader = Reader::init("");
    assert_eq!(
        unicode(&mut reader),
        Err(fatal(1, 1, ErrorKind::ExpectingOpenBrace))
    );
    let mut reader = Reader::init("{}");
    assert_eq!(
        unicode(&mut reader),
        Err(fatal(1, 2, ErrorKind::InvalidHexDigit))
    );
    let mut reader = Reader::init("{41");
    assert_eq!(
        unicode(&mut reader),
        Err(fatal(1, 4, ErrorKind::ExpectingCloseBrace))
    );
    let mut reader = Reader::init("{D800}");
    assert_eq!(
        unicode(&mut reader),
        Err(fatal(1, 6, ErrorKind::InvalidUnicodeScalar))
    );
    let mut reader = Reader::init("{110000}");
    assert_eq!(
        unicode(&mut reader),
        Err(fatal(1, 8, ErrorKind::InvalidUnicodeScalar))
    );
    let mut reader = Reader::init("{10FFFF}");
    assert_eq!(unicode(&mut reader), Ok('\u{10FFFF}'));
}

#[test]
fn hex_value_weighs_the_first_digit_most() {
    let mut reader = Reader::init("1F");
    assert_eq!(hex_value(&mut reader), Ok(31));
    let mut reader = Reader::init("aBc0");
    assert_eq!(hex_value(&mut reader), Ok(0xabc0));
    assert_eq!(reader.state.cursor, 4);
    let mut reader = Reader::init("ffffffff}");
    assert_eq!(hex_value(&mut reader), Ok(u32::MAX));
    assert_eq!(reader.state.cursor, 8);
    let mut reader = Reader::init("0000000001g");
    assert_eq!(hex_value(&mut reader), Ok(1));
    assert_eq!(reader.state.cursor, 10);
}

#[test]
fn hex_value_beyond_32_bits_is_no_scalar_value() {
    let mut reader = Reader::init("100000000");
    assert_eq!(
        hex_value(&mut reader),
        Err(fatal(1, 10, ErrorKind::InvalidUnicodeScalar))
    );
    let mut reader = Reader::init("\\u{fffffffffffffffffffff}");
    assert_eq!(
        escape_char(&mut reader),
        Err(fatal(1, 25, ErrorKind::InvalidUnicodeScalar))
    );
}

#[test]
fn content_char_rejects_without_moving() {
    for input in ["", "#", "\\", "\u{8}", "\n", "\u{c}", "\r", "\t"] {
        let mut reader = Reader::init(input);
        let found = content_char(&vec!['#'], &mut reader);
        if input == "\\" {
            assert_eq!(found, Err(fatal(1, 2, ErrorKind::InvalidEscape)));
        } else {
            assert_eq!(found, Err(recoverable(1, 1, ErrorKind::ExpectingChar)));
            assert_eq!(reader.state.cursor, 0);
            assert_eq!(reader.state.pos, Position { line: 1, column: 1 });
        }
    }
    let mut reader = Reader::init("\"");
    assert_eq!(content_char(&vec!['#'], &mut reader), Ok('"'));
    let mut reader = Reader::init("\"");
    assert_eq!(
        content_char(&vec!['"'], &mut reader),
        Err(recoverable(1, 1, ErrorKind::ExpectingChar))
    );
}

#[test]
fn expect_char_moves_only_on_success() {
    let mut reader = Reader::init("ab");
    assert_eq!(expect_char(&mut reader, 'a', ErrorKind::ExpectingQuote), Ok(()));
    assert_eq!(reader.state.cursor, 1);
    assert_eq!(
        expect_char(&mut reader, 'a', ErrorKind::ExpectingQuote),
        Err(fatal(1, 2, ErrorKind::ExpectingQuote))
    );
    assert_eq!(reader.state.cursor, 1);
}

#[test]
fn interpolation_with_blanks() {
    let mut reader = Reader::init("{{ \tna-me_1  }}x");
    let expr = parse(&mut reader).unwrap();
    assert_eq!(expr.space0.value, " \t");
    assert_eq!(expr.space0.span, SourceSpan::init(1, 3, 1, 5));
    assert_eq!(expr.variable.name, "na-me_1");
    assert_eq!(expr.variable.span, SourceSpan::init(1, 5, 1, 12));
    assert_eq!(expr.space1.value, "  ");
    assert_eq!(expr.space1.span, SourceSpan::init(1, 12, 1, 14));
    assert_eq!(reader.state.cursor, 15);
    assert_eq!(reader.peek(), Some('x'));
}

#[test]
fn interpolation_failures() {
    let mut reader = Reader::init("{x");
    assert_eq!(
        parse(&mut reader),
        Err(recoverable(1, 1, ErrorKind::ExpectingInterpolation))
    );
    assert_eq!(reader.state.cursor, 0);
    assert_eq!(reader.state.pos, Position { line: 1, column: 1 });

    let mut reader = Reader::init("{{}}");
    assert_eq!(
        parse(&mut reader),
        Err(fatal(1, 3, ErrorKind::InvalidVariableName))
    );
    let mut reader = Reader::init("{{name}");
    assert_eq!(
        parse(&mut reader),
        Err(fatal(1, 7, ErrorKind::UnterminatedInterpolation))
    );
    let mut reader = Reader::init("a{{ }}");
    assert_eq!(
        unquoted_template(&mut reader),
        Err(fatal(1, 5, ErrorKind::InvalidVariableName))
    );
    let mut reader = Reader::init("{{ }}");
    assert_eq!(
        template_element(&vec!['#'], &mut reader),
        Err(fatal(1, 4, ErrorKind::InvalidVariableName))
    );
}

#[test]
fn template_elements_stop_where_none_is_found() {
    let mut reader = Reader::init("a{{b}}c#d");
    let elements = template_elements(&vec!['#'], &mut reader).unwrap();
    assert_eq!(elements.len(), 3);
    assert_eq!(elements[0], literal("a", "a"));
    assert_eq!(elements[2], literal("c", "c"));
    assert_eq!(reader.state.cursor, 7);

    let mut reader = Reader::init("#");
    assert_eq!(template_elements(&vec!['#'], &mut reader), Ok(vec![]));
    assert_eq!(reader.state.cursor, 0);
}

#[test]
fn quoted_template_keeps_blanks_and_interpolations() {
    let mut reader = Reader::init("\"a {{b}} \" #");
    let template = quoted_template(&mut reader).unwrap();
    assert!(template.quoted);
    assert_eq!(template.elements.len(), 3);
    assert_eq!(template.elements[0], literal("a ", "a "));
    assert_eq!(template.elements[2], literal(" ", " "));
    assert_eq!(template.span, SourceSpan::init(1, 1, 1, 11));
    assert_eq!(reader.state.cursor, 10);
}

#[test]
fn quoted_template_failures() {
    let mut reader = Reader::init("abc");
    assert_eq!(
        quoted_template(&mut reader),
        Err(fatal(1, 1, ErrorKind::ExpectingQuote))
    );
    let mut reader = Reader::init("\"abc");
    assert_eq!(
        quoted_template(&mut reader),
        Err(fatal(1, 5, ErrorKind::UnterminatedQuotedLiteral))
    );
    let mut reader = Reader::init("\"");
    assert_eq!(
        quoted_template(&mut reader),
        Err(fatal(1, 2, ErrorKind::UnterminatedQuotedLiteral))
    );
    let mut reader = Reader::init("\"ab\ncd\"");
    assert_eq!(
        quoted_template(&mut reader),
        Err(fatal(1, 4, ErrorKind::UnterminatedQuotedLiteral))
    );
}

#[test]
fn quoted_string_decodes_nothing() {
    let mut reader = Reader::init("\"a\\nb\" c");
    assert_eq!(quoted_string(&mut reader), Ok("a\\nb".to_string()));
    assert_eq!(reader.state.cursor, 6);

    let mut reader = Reader::init("x");
    assert_eq!(
        quoted_string(&mut reader),
        Err(fatal(1, 1, ErrorKind::ExpectingQuote))
    );
    let mut reader = Reader::init("\"abc");
    assert_eq!(
        quoted_string(&mut reader),
        Err(fatal(1, 5, ErrorKind::ExpectingQuote))
    );
}

#[test]
fn key_alphabet() {
    let mut reader = Reader::init("a_b-c.d9é:rest");
    let key = unquoted_string_key(&mut reader).unwrap();
    assert_eq!(key.decoded, "a_b-c.d9é");
    assert_eq!(key.raw, "a_b-c.d9é");
    assert!(!key.quoted);
    assert_eq!(key.span, SourceSpan::init(1, 1, 1, 10));
    assert_eq!(reader.state.cursor, 9);

    let mut reader = Reader::init("\\t\\u{41}");
    let key = unquoted_string_key(&mut reader).unwrap();
    assert_eq!(key.decoded, "\tA");
    assert_eq!(key.raw, "\\t\\u{41}");

    let mut reader = Reader::init(" key");
    assert_eq!(
        unquoted_string_key(&mut reader),
        Err(recoverable(1, 1, ErrorKind::ExpectingKeyString))
    );
    assert_eq!(reader.state.cursor, 0);
    assert_eq!(reader.state.pos, Position { line: 1, column: 1 });
}

#[test]
fn parsing_on_a_later_line_reports_that_line() {
    let mut reader = Reader::init("a\nkey: \\q");
    assert_eq!(reader.read(), Some('a'));
    assert_eq!(reader.read(), Some('\n'));
    let key = unquoted_string_key(&mut reader).unwrap();
    assert_eq!(key.span, SourceSpan::init(2, 1, 2, 4));
    assert_eq!(reader.read(), Some(':'));
    assert_eq!(reader.read(), Some(' '));
    assert_eq!(
        unquoted_template(&mut reader),
        Err(fatal(2, 7, ErrorKind::InvalidEscape))
    );
}

#[test]
fn a_trimmed_literal_decodes_from_its_own_raw_text() {
    for input in ["a b  # c", "x\\u{20}y \t", "{{v}} w  #", "a\\n  "] {
        let mut reader = Reader::init(input);
        let template = unquoted_template(&mut reader).unwrap();
        match template.elements.last() {
            Some(TemplateElement::Literal { decoded, raw }) => {
                let mut again = Reader::init(raw);
                assert_eq!(
                    template_element_string(&vec!['#'], &mut again),
                    Ok(literal(decoded, raw))
                );
                assert!(again.is_eof());
            }
            _ => panic!("a literal was expected"),
        }
    }
}

#[test]
fn a_trimmed_literal_may_end_in_a_brace() {
    let mut reader = Reader::init("a{ # c");
    let template = unquoted_template(&mut reader).unwrap();
    assert_eq!(template.elements, vec![literal("a{", "a{")]);
    assert_eq!(template.span, SourceSpan::init(1, 1, 1, 3));
    assert_eq!(reader.state.cursor, 2);

    let mut alone = Reader::init("a{");
    assert_eq!(
        template_element_string(&vec!['#'], &mut alone),
        Ok(literal("a", "a"))
    );
    assert_eq!(alone.state.cursor, 1);
}

#[test]
fn spans_do_not_end_before_they_start() {
    for input in ["\"a\nb\"", "\"\"", "\"{{x}}\""] {
        let mut reader = Reader::init(input);
        match quoted_template(&mut reader) {
            Ok(template) => {
                let (start, end) = (template.span.start, template.span.end);
                assert!(
                    start.line < end.line || (start.line == end.line && start.column <= end.column)
                );
            }
            Err(failure) => assert!(!failure.recoverable),
        }
    }
}

#[test]
fn a_reader_over_characters_reads_as_one_over_text() {
    let mut from_chars = Reader::new(vec!['k', '\\', 'n', ':']);
    let mut from_text = Reader::init("k\\n:");
    assert_eq!(from_chars.buffer, from_text.buffer);
    assert_eq!(from_chars.state, from_text.state);
    assert_eq!(
        unquoted_string_key(&mut from_chars),
        unquoted_string_key(&mut from_text)
    );
    assert_eq!(from_chars.state.cursor, 3);
}
