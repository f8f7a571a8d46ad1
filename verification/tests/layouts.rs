use liberty_parse::ast::{GroupItem, Number, Value};
use liberty_parse::error::{ErrorKind, Failure, Frame, FrameKind, Label};
use liberty_parse::parser::{
    complex_attribute, complex_attribute_values, expression, parse_libs, rest_of,
    simple_attr_value, simple_attribute, underscore_tag,
};
use liberty_parse::text::{text_of, to_chars};

fn num(v: f64) -> Number {
    Number { bits: v.to_bits(), fixed: format!("{:.6}", v) }
}

fn floats(vs: &[f64]) -> Value {
    Value::FloatGroup(vs.iter().map(|v| num(*v)).collect())
}

#[test]
fn continuation_layouts_agree() {
    let expected = Ok(("", vec![floats(&[1.0, 2.0]), floats(&[3.0, 4.0])]));
    assert_eq!(complex_attribute_values("(\"1, 2\", \\\n  \"3, 4\")"), expected);
    assert_eq!(complex_attribute_values("(\"1, 2\" \\\n  , \"3, 4\")"), expected);
    assert_eq!(complex_attribute_values("(\"1, 2\",\"3, 4\")"), expected);
    assert_eq!(complex_attribute_values("(\"1, 2\" , \\\r\n\"3, 4\" \\\r\n)"), expected);
    assert_eq!(complex_attribute_values("( \\\n \"1, 2\", \"3, 4\" \\\n )"), expected);
    assert_eq!(
        complex_attribute("values ( \"1, 2\", \\\n \"3, 4\" );"),
        Ok((
            "",
            GroupItem::ComplexAttr(
                "values".to_string(),
                vec![floats(&[1.0, 2.0]), floats(&[3.0, 4.0])]
            )
        ))
    );
}

#[test]
fn a_backslash_needs_its_line_break() {
    let failure = complex_attribute_values("(1, \\ 2)").unwrap_err();
    assert!(!failure.fatal);
    assert_eq!(failure.frames[0], Frame { offset: 4, kind: FrameKind::Nom(ErrorKind::Tag) });
    assert_eq!(
        failure.frames[1],
        Frame { offset: 0, kind: FrameKind::Context(Label::ComplexValues) }
    );
}

#[test]
fn empty_parentheses_hold_no_value() {
    assert_eq!(
        complex_attribute_values("()"),
        Err(Failure {
            fatal: false,
            frames: vec![
                Frame { offset: 1, kind: FrameKind::Nom(ErrorKind::SeparatedList) },
                Frame { offset: 0, kind: FrameKind::Context(Label::ComplexValues) },
            ],
        })
    );
    assert_eq!(
        complex_attribute_values("( )"),
        Ok(("", vec![Value::Expression(String::new())]))
    );
    assert_eq!(
        simple_attribute("x : ;"),
        Ok(("", GroupItem::SimpleAttr("x".to_string(), Value::Expression(String::new()))))
    );
}

#[test]
fn a_number_needs_what_ends_it() {
    assert_eq!(simple_attr_value("1\n;"), Ok(("\n;", Value::Expression("1".to_string()))));
    assert_eq!(simple_attr_value("1 ;"), Ok((" ;", Value::Float(num(1.0)))));
    assert_eq!(simple_attr_value("1\t;"), Ok(("\t;", Value::Float(num(1.0)))));
    assert_eq!(simple_attr_value("1)"), Ok((")", Value::Float(num(1.0)))));
    assert_eq!(simple_attr_value("1,"), Ok((",", Value::Float(num(1.0)))));
    assert_eq!(simple_attr_value("-A;"), Ok((";", Value::Expression("-A".to_string()))));
    assert_eq!(simple_attr_value("1.5e3;"), Ok((";", Value::Float(num(1500.0)))));
    assert_eq!(simple_attr_value("  .5;"), Ok((";", Value::Float(num(0.5)))));
    assert_eq!(simple_attr_value("1"), Ok(("", Value::Expression("1".to_string()))));
    assert_eq!(simple_attr_value("\"1, x\";"), Ok((";", Value::String("1, x".to_string()))));
    assert_eq!(simple_attr_value("\" 1 ,2\";"), Ok((";", floats(&[1.0, 2.0]))));
}

#[test]
fn identifiers_take_what_is_alphanumeric() {
    assert_eq!(underscore_tag("a\u{e9}_1\u{663} x"), Ok((" x", "a\u{e9}_1\u{663}")));
    assert_eq!(underscore_tag("a-b"), Ok(("-b", "a")));
    assert_eq!(underscore_tag("a\u{2014}b"), Ok(("\u{2014}b", "a")));
    let failure = underscore_tag("\u{e9}a").unwrap_err();
    assert_eq!(
        failure,
        Failure {
            fatal: false,
            frames: vec![
                Frame { offset: 0, kind: FrameKind::Nom(ErrorKind::Alpha) },
                Frame { offset: 0, kind: FrameKind::Context(Label::UnderscoreTag) },
            ],
        }
    );
    assert!(underscore_tag("1a").is_err());
    assert!(underscore_tag("").is_err());
}

#[test]
fn expressions_stop_where_no_operand_follows() {
    assert_eq!(expression("A + ;"), Ok((" + ;", "A")));
    assert_eq!(expression("A +- B;"), Ok((";", "A +- B")));
    assert_eq!(expression(""), Ok(("", "")));
    assert_eq!(expression("& B"), Ok(("& B", "")));
    assert_eq!(expression("A B"), Ok((" B", "A")));
    let failure = expression("(A").unwrap_err();
    assert!(failure.fatal);
    assert_eq!(
        failure.frames,
        vec![
            Frame { offset: 2, kind: FrameKind::Char(')') },
            Frame { offset: 0, kind: FrameKind::Context(Label::Expression) },
        ]
    );
}

#[test]
fn comments_at_the_top_are_dropped() {
    let (rest, libs) = parse_libs("/* a */ l(x){ } /* b */\n/* c */ m(y){ }\n").unwrap();
    assert_eq!(rest, "");
    assert_eq!(
        libs,
        vec![
            GroupItem::Group("l".to_string(), "x".to_string(), vec![]),
            GroupItem::Group("m".to_string(), "y".to_string(), vec![]),
        ]
    );
    let open = parse_libs("/* never closed").unwrap_err();
    assert!(!open.fatal);
    assert_eq!(open.frames[0], Frame { offset: 0, kind: FrameKind::Nom(ErrorKind::Eof) });
}

#[test]
fn characters_are_counted_not_bytes() {
    let chars = to_chars("a\u{e9}b\u{1F600}c");
    assert_eq!(chars, vec!['a', '\u{e9}', 'b', '\u{1F600}', 'c']);
    assert_eq!(text_of(&chars, 1, 4), "\u{e9}b\u{1F600}");
    assert_eq!(text_of(&chars, 2, 2), "");
    assert_eq!(rest_of("a\u{e9}b\u{1F600}c", 4), "c");
    assert_eq!(rest_of("abc", 3), "");
}
