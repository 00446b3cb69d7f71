use hurl_core::ast::{EncodedString, Expr, Template, TemplateElement, Variable, Whitespace};
use hurl_core::error::ErrorKind;
use hurl_core::reader::{Position, Reader, SourceSpan};
use hurl_core::string::{
    any_char, escape_char, hex_value, quoted_string, quoted_template, template_element_expression,
    template_element_string, unicode, unquoted_string_key, unquoted_template,
};

fn literal(decoded: &str, raw: &str) -> TemplateElement {
    TemplateElement::Literal {
        decoded: decoded.to_string(),
        raw: raw.to_string(),
    }
}

#[test]
fn test_unquoted_template() {
    let mut reader = Reader::init("");
    assert_eq!(
        unquoted_template(&mut reader).unwrap(),
        Template {
            quoted: false,
            elements: vec![],
            span: SourceSpan::init(1, 1, 1, 1),
        }
    );
    assert_eq!(reader.state.cursor, 0);

    let mut reader = Reader::init("a\\u{23}");
    assert_eq!(
        unquoted_template(&mut reader).unwrap(),
        Template {
            quoted: false,
            elements: vec![literal("a#", "a\\u{23}")],
            span: SourceSpan::init(1, 1, 1, 8),
        }
    );
    assert_eq!(reader.state.cursor, 7);

    let mut reader = Reader::init("hello\\u{20}{{name}}!");
    assert_eq!(
        unquoted_template(&mut reader).unwrap(),
        Template {
            quoted: false,
            elements: vec![
                literal("hello ", "hello\\u{20}"),
                TemplateElement::Interpolation(Expr {
                    space0: Whitespace {
                        value: "".to_string(),
                        span: SourceSpan::init(1, 14, 1, 14)
                    },
                    variable: Variable {
                        name: "name".to_string(),
                        span: SourceSpan::init(1, 14, 1, 18)
                    },
                    space1: Whitespace {
                        value: "".to_string(),
                        span: SourceSpan::init(1, 18, 1, 18)
                    },
                }),
                literal("!", "!"),
            ],
            span: SourceSpan::init(1, 1, 1, 21),
        }
    );
    assert_eq!(reader.state.cursor, 20);

    let mut reader = Reader::init("hello\n");
    assert_eq!(
        unquoted_template(&mut reader).unwrap(),
        Template {
            quoted: false,
            elements: vec![literal("hello", "hello")],
            span: SourceSpan::init(1, 1, 1, 6),
        }
    );
    assert_eq!(reader.state.cursor, 5);
}

#[test]
fn test_unquoted_template_trailing_space() {
    let mut reader = Reader::init("hello # comment");
    assert_eq!(
        unquoted_template(&mut reader).unwrap(),
        Template {
            quoted: false,
            elements: vec![literal("hello", "hello")],
            span: SourceSpan::init(1, 1, 1, 6),
        }
    );
    assert_eq!(reader.state.cursor, 5);
    assert_eq!(reader.state.pos, Position { line: 1, column: 6 });
}

#[test]
fn test_unquoted_template_empty() {
    let mut reader = Reader::init(" hi");
    assert_eq!(
        unquoted_template(&mut reader).unwrap(),
        Template {
            quoted: false,
            elements: vec![],
            span: SourceSpan::init(1, 1, 1, 1),
        }
    );

    assert_eq!(reader.state.cursor, 0);
}

#[test]
fn test_unquoted_key() {
    let mut reader = Reader::init("key");
    assert_eq!(
        unquoted_string_key(&mut reader).unwrap(),
        EncodedString {
            decoded: "key".to_string(),
            raw: "key".to_string(),
            quoted: false,
            span: SourceSpan::init(1, 1, 1, 4),
        }
    );
    assert_eq!(reader.state.cursor, 3);

    let mut reader = Reader::init("key\\u{20}\\u{3a} :");
    assert_eq!(
        unquoted_string_key(&mut reader).unwrap(),
        EncodedString {
            decoded: "key :".to_string(),
            raw: "key\\u{20}\\u{3a}".to_string(),
            quoted: false,
            span: SourceSpan::init(1, 1, 1, 16),
        }
    );
    assert_eq!(reader.state.cursor, 15);
}

#[test]
fn test_unquoted_key_error() {
    let mut reader = Reader::init("");
    let error = unquoted_string_key(&mut reader).err().unwrap();
    assert_eq!(error.position, Position { line: 1, column: 1 });
    assert_eq!(error.kind, ErrorKind::ExpectingKeyString);

    let mut reader = Reader::init("\\l");
    let error = unquoted_string_key(&mut reader).err().unwrap();
    assert_eq!(error.position, Position { line: 1, column: 2 });
    assert_eq!(error.kind, ErrorKind::InvalidEscape);
}

#[test]
fn test_quoted_template() {
    let mut reader = Reader::init("\"\"");
    assert_eq!(
        quoted_template(&mut reader).unwrap(),
        Template {
            quoted: true,
            elements: vec![],
            span: SourceSpan::init(1, 1, 1, 3),
        }
    );
    assert_eq!(reader.state.cursor, 2);

    let mut reader = Reader::init("\"a#\"");
    assert_eq!(
        quoted_template(&mut reader).unwrap(),
        Template {
            quoted: true,
            elements: vec![literal("a#", "a#")],
            span: SourceSpan::init(1, 1, 1, 5),
        }
    );
    assert_eq!(reader.state.cursor, 4);

    let mut reader = Reader::init("\"{0}\"");
    assert_eq!(
        quoted_template(&mut reader).unwrap(),
        Template {
            quoted: true,
            elements: vec![literal("{0}", "{0}")],
            span: SourceSpan::init(1, 1, 1, 6),
        }
    );
    assert_eq!(reader.state.cursor, 5);
}

#[test]
fn test_quoted_string() {
    let mut reader = Reader::init("\"\"");
    assert_eq!(quoted_string(&mut reader).unwrap(), "");
    assert_eq!(reader.state.cursor, 2);

    let mut reader = Reader::init("\"Hello\"");
    assert_eq!(quoted_string(&mut reader).unwrap(), "Hello");
    assert_eq!(reader.state.cursor, 7);
}

#[test]
fn test_template_element_unquoted_string() {
    let mut reader = Reader::init("name\\u{23}\\u{20}{{");
    assert_eq!(
        template_element_string(&vec![], &mut reader).unwrap(),
        literal("name# ", "name\\u{23}\\u{20}")
    );
    assert_eq!(reader.state.cursor, 16);
}

#[test]
fn test_template_element_unquoted_string_single_bracket() {
    let mut reader = Reader::init("{0}");
    assert_eq!(
        template_element_string(&vec![], &mut reader).unwrap(),
        literal("{0}", "{0}")
    );
    assert_eq!(reader.state.cursor, 3);
}

#[test]
fn test_template_element_quoted_string() {
    let mut reader = Reader::init("name#\\u{20}{{");
    assert_eq!(
        template_element_string(&vec![], &mut reader).unwrap(),
        literal("name# ", "name#\\u{20}")
    );
    assert_eq!(reader.state.cursor, 11);
}

#[test]
fn test_template_element_expression() {
    let mut reader = Reader::init("{{name}}");
    assert_eq!(
        template_element_expression(&mut reader).unwrap(),
        TemplateElement::Interpolation(Expr {
            space0: Whitespace {
                value: "".to_string(),
                span: SourceSpan::init(1, 3, 1, 3)
            },
            variable: Variable {
                name: "name".to_string(),
                span: SourceSpan::init(1, 3, 1, 7)
            },
            space1: Whitespace {
                value: "".to_string(),
                span: SourceSpan::init(1, 7, 1, 7)
            },
        })
    );
}

#[test]
fn test_any_char() {
    let mut reader = Reader::init("a");
    assert_eq!(
        any_char(vec![], &mut reader).unwrap(),
        ('a', "a".to_string())
    );
    assert_eq!(reader.state.cursor, 1);

    let mut reader = Reader::init(" ");
    assert_eq!(
        any_char(vec![], &mut reader).unwrap(),
        (' ', " ".to_string())
    );
    assert_eq!(reader.state.cursor, 1);

    let mut reader = Reader::init("\\t");
    assert_eq!(
        any_char(vec![], &mut reader).unwrap(),
        ('\t', "\\t".to_string())
    );
    assert_eq!(reader.state.cursor, 2);

    let mut reader = Reader::init("#");
    assert_eq!(
        any_char(vec![], &mut reader).unwrap(),
        ('#', "#".to_string())
    );
    assert_eq!(reader.state.cursor, 1);
}

#[test]
fn test_any_char_error() {
    let mut reader = Reader::init("");
    let error = any_char(vec![], &mut reader).err().unwrap();
    assert_eq!(error.position, Position { line: 1, column: 1 });
    assert_eq!(error.recoverable, true);

    let mut reader = Reader::init("#");
    let error = any_char(vec!['#'], &mut reader).err().unwrap();
    assert_eq!(error.position, Position { line: 1, column: 1 });
    assert_eq!(error.recoverable, true);

    let mut reader = Reader::init("\t");
    let error = any_char(vec![], &mut reader).err().unwrap();
    assert_eq!(error.position, Position { line: 1, column: 1 });
    assert_eq!(error.recoverable, true);
}

#[test]
fn test_escape_char() {
    let mut reader = Reader::init("\\n");
    assert_eq!(escape_char(&mut reader).unwrap(), '\n');
    assert_eq!(reader.state.cursor, 2);

    let mut reader = Reader::init("\\u{0a}");
    assert_eq!(escape_char(&mut reader).unwrap(), '\n');
    assert_eq!(reader.state.cursor, 6);

    let mut reader = Reader::init("x");
    let error = escape_char(&mut reader).err().unwrap();
    assert_eq!(error.position, Position { line: 1, column: 1 });
    assert_eq!(error.kind, ErrorKind::ExpectingBackslash);
    assert_eq!(error.recoverable, true);
    assert_eq!(reader.state.cursor, 0);
}

#[test]
fn test_unicode() {
    let mut reader = Reader::init("{000a}");
    assert_eq!(unicode(&mut reader).unwrap(), '\n');
    assert_eq!(reader.state.cursor, 6);

    let mut reader = Reader::init("{E9}");
    assert_eq!(unicode(&mut reader).unwrap(), 'é');
    assert_eq!(reader.state.cursor, 4);
}

#[test]
fn test_hex_value() {
    let mut reader = Reader::init("20x");
    assert_eq!(hex_value(&mut reader).unwrap(), 32);

    let mut reader = Reader::init("x");
    let error = hex_value(&mut reader).err().unwrap();
    assert_eq!(error.position, Position { line: 1, column: 1 });
    assert_eq!(error.kind, ErrorKind::InvalidHexDigit);
    assert_eq!(error.recoverable, false);
}
