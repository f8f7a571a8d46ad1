use liberty_parse::ast::{GroupItem, Number, Value};
use liberty_parse::error::{ErrorKind, Failure, Frame, FrameKind, Label};
use liberty_parse::parser::{
    boolean, comment, complex_attribute, complex_attribute_values, expression, parse_group,
    parse_group_body, parse_libs, quoted_floats, quoted_string, simple_attr_value,
    simple_attribute, underscore_tag,
};

fn num(v: f64) -> Number {
    Number { bits: v.to_bits(), fixed: format!("{:.6}", v) }
}

fn float(v: f64) -> Value {
    Value::Float(num(v))
}

fn floats(vs: &[f64]) -> Value {
    Value::FloatGroup(vs.iter().map(|v| num(*v)).collect())
}

/// What is left of `input` at the innermost frame of `failure`.
fn left_at<'a>(input: &'a str, failure: &Failure) -> &'a str {
    let offset = failure.frames[0].offset;
    match input.char_indices().nth(offset) {
        Some((at, _)) => &input[at..],
        None => "",
    }
}

#[test]
fn test_complex_attr_values() {
    assert_eq!(
        complex_attribute_values(
            r#"( \
    "0, 0.18, 0.33", \
    "-0.555, -0.45, -0.225" \
    )"#
        ),
        Ok(("", vec![floats(&[0.0, 0.18, 0.33]), floats(&[-0.555, -0.45, -0.225])]))
    );
    assert_eq!(
        complex_attribute_values(
            r#"( \
                 "a string(b)" \
                 )"#
        ),
        Ok(("", vec![Value::String("a string(b)".to_string())]))
    );
    assert_eq!(
        complex_attribute_values("(123,-456)"),
        Ok(("", vec![float(123.0), float(-456.0)]))
    );
}

#[test]
fn test_complex_attr() {
    assert_eq!(
        complex_attribute("capacitive_load_unit (1,pf);"),
        Ok((
            "",
            GroupItem::ComplexAttr(
                "capacitive_load_unit".to_string(),
                vec![float(1.0), Value::Expression("pf".to_string())],
            )
        ))
    );
}

#[test]
fn test_complex_attr_multi_line() {
    assert_eq!(
        complex_attribute(
            r#"values ( \
    "0, 0.18, 0.33", \
    "-0.555, -0.45, -0.225");"#
        ),
        Ok((
            "",
            GroupItem::ComplexAttr(
                "values".to_string(),
                vec![floats(&[0.0, 0.18, 0.33]), floats(&[-0.555, -0.45, -0.225])],
            )
        ))
    );
}

#[test]
fn test_comment() {
    assert_eq!(comment("/*** abc **/def"), Ok(("def", "/*** abc **/")));
    assert_eq!(
        comment(
            "/* multi
line
**
**/
**/rest"
        ),
        Ok((
            "
**/rest",
            "/* multi
line
**
**/"
        ))
    );
}

#[test]
fn test_underscore_tag() {
    assert_eq!(underscore_tag("a_b__c"), Ok(("", "a_b__c")));
    assert_eq!(underscore_tag("abc other"), Ok((" other", "abc")));
    assert_eq!(underscore_tag("nand2"), Ok(("", "nand2")));
    for input in ["_", " a_b", ",,"] {
        let failure = underscore_tag(input).unwrap_err();
        assert!(!failure.fatal);
        assert_eq!(left_at(input, &failure), input);
        assert_eq!(failure.frames[0].kind, FrameKind::Nom(ErrorKind::Alpha));
    }
}

#[test]
fn test_simple_attribute_malformed() {
    let input = "attr_name : a b ; ";
    let failure = simple_attribute(input).unwrap_err();
    assert_eq!(left_at(input, &failure), "b ; ");
    assert_eq!(failure.frames[0].kind, FrameKind::Char(';'));
    // The colon has been read, so nothing else may be tried here.
    assert!(failure.fatal);
    assert_eq!(
        failure.frames,
        vec![
            Frame { offset: 14, kind: FrameKind::Char(';') },
            Frame { offset: 0, kind: FrameKind::Context(Label::SimpleAttr) },
        ]
    );
}

#[test]
fn test_simple_attribute_bool() {
    assert_eq!(
        simple_attribute("attr_name : true ; "),
        Ok((" ", GroupItem::SimpleAttr(String::from("attr_name"), Value::Bool(true))))
    );
    assert_eq!(
        simple_attribute("attr_name : false ; "),
        Ok((" ", GroupItem::SimpleAttr(String::from("attr_name"), Value::Bool(false))))
    );
}

#[test]
fn test_simple_attribute_float() {
    assert_eq!(
        simple_attribute("attr_name : 345.123 ; "),
        Ok((" ", GroupItem::SimpleAttr(String::from("attr_name"), float(345.123))))
    );
    assert_eq!(
        simple_attribute("attr_name : -345.123 ; "),
        Ok((" ", GroupItem::SimpleAttr(String::from("attr_name"), float(-345.123))))
    );
}

#[test]
fn test_simple_attribute_int() {
    assert_eq!(
        simple_attribute("attr_name : 345 ; "),
        Ok((" ", GroupItem::SimpleAttr(String::from("attr_name"), float(345.0))))
    );
    assert_eq!(
        simple_attribute("attr_name : -345 ; "),
        Ok((" ", GroupItem::SimpleAttr(String::from("attr_name"), float(-345.0))))
    );
}

#[test]
fn test_expression() {
    let expressions = vec![
        "A",
        "-A",
        "--A",
        "A + B",
        "A - B",
        "A * B",
        "A / B",
        "(A + B)",
        "((A + B))",
        "(A / B) + C",
        "(A / B) - (C * D)",
        "A + 0.123",
        "A - .123",
        "A * 0",
        "A / 1",
        "(A + 0.5)",
        "((1.23 + B))",
        "(4.5 / B) + C",
        "(7.8 / B) - (C * D)",
    ];
    for expr in expressions {
        assert_eq!(expression(expr), Ok(("", expr)));
    }
}

#[test]
fn test_simple_attribute_expression() {
    assert_eq!(
        simple_attribute("attr_name : nand2; "),
        Ok((
            " ",
            GroupItem::SimpleAttr(
                String::from("attr_name"),
                Value::Expression(String::from("nand2")),
            )
        ))
    );
    assert_eq!(
        simple_attribute("attr_name : table_lookup; "),
        Ok((
            " ",
            GroupItem::SimpleAttr(
                String::from("attr_name"),
                Value::Expression(String::from("table_lookup")),
            )
        ))
    );
    assert!(simple_attribute("attr_name : A +B; ").is_ok());
    assert_eq!(
        simple_attribute("attr_name : A + 1.2; "),
        Ok((
            " ",
            GroupItem::SimpleAttr(
                String::from("attr_name"),
                Value::Expression(String::from("A + 1.2")),
            )
        ))
    );
}

#[test]
fn test_simple_attribute_string() {
    assert_eq!(
        simple_attribute("attr_name : \"table_lookup\"; "),
        Ok((
            " ",
            GroupItem::SimpleAttr(
                String::from("attr_name"),
                Value::String(String::from("table_lookup"))
            )
        ))
    );
}

#[test]
fn test_parse_group() {
    let data = "library ( foo ) {
            abc ( 1, 2, 3 );
        }";
    assert!(parse_group(data).is_ok());
    assert_eq!(
        parse_group(data),
        Ok((
            "",
            GroupItem::Group(
                "library".to_string(),
                "foo".to_string(),
                vec![GroupItem::ComplexAttr(
                    "abc".to_string(),
                    vec![float(1.0), float(2.0), float(3.0)],
                )],
            ),
        ))
    );
}

#[test]
fn test_nested_group() {
    assert_eq!(
        parse_group(
            r#"
            outer( outer ) {
                inner ( inner) {
                    abc ( 1, 2, 3 );
                }
                inner(inner2 ) {
                    abc ( 1, 2, 3 );
                }
            }"#
        ),
        Ok((
            "",
            GroupItem::Group(
                "outer".to_string(),
                "outer".to_string(),
                vec![
                    GroupItem::Group(
                        "inner".to_string(),
                        "inner".to_string(),
                        vec![GroupItem::ComplexAttr(
                            "abc".to_string(),
                            vec![float(1.0), float(2.0), float(3.0)],
                        )],
                    ),
                    GroupItem::Group(
                        "inner".to_string(),
                        "inner2".to_string(),
                        vec![GroupItem::ComplexAttr(
                            "abc".to_string(),
                            vec![float(1.0), float(2.0), float(3.0)],
                        )],
                    ),
                ]
            )
        ))
    );
}

#[test]
fn test_lib_simple() {
    assert_eq!(
        parse_libs(
            r#"
/*
 delay model :       typ
 check model :       typ
 power model :       typ
 capacitance model : typ
 other model :       typ
*/
library(foo) {

  delay_model : table_lookup;
  /* unit attributes */
  time_unit : "1ns";
  capacitive_load_unit (1, pf );
  function: "A & B";

  slew_upper_threshold_pct_rise : 80;
  nom_temperature : 25.0;
}
"#
        ),
        Ok((
            "",
            vec![GroupItem::Group(
                "library".to_string(),
                "foo".to_string(),
                vec![
                    GroupItem::SimpleAttr(
                        "delay_model".to_string(),
                        Value::Expression("table_lookup".to_string())
                    ),
                    GroupItem::Comment("/* unit attributes */".to_string()),
                    GroupItem::SimpleAttr(
                        "time_unit".to_string(),
                        Value::String("1ns".to_string())
                    ),
                    GroupItem::ComplexAttr(
                        "capacitive_load_unit".to_string(),
                        vec![float(1.0), Value::Expression("pf".to_string())],
                    ),
                    GroupItem::SimpleAttr(
                        "function".to_string(),
                        Value::String("A & B".to_string()),
                    ),
                    GroupItem::SimpleAttr(
                        "slew_upper_threshold_pct_rise".to_string(),
                        float(80.0)
                    ),
                    GroupItem::SimpleAttr("nom_temperature".to_string(), float(25.0)),
                ],
            )]
        ))
    );
}

#[test]
fn disambiguates_values() {
    assert_eq!(simple_attr_value("80;"), Ok((";", float(80.0))));
    assert_eq!(simple_attr_value("-345;"), Ok((";", float(-345.0))));
    assert_eq!(simple_attr_value("true;"), Ok((";", Value::Bool(true))));
    assert_eq!(simple_attr_value("false;"), Ok((";", Value::Bool(false))));
    assert_eq!(
        simple_attr_value("\"A & B\";"),
        Ok((";", Value::String("A & B".to_string())))
    );
    for text in ["nand2", "A + 1.2", "(A + B)", "((A + B) * (C - 1))", "-A"] {
        let input = format!("{};", text);
        assert_eq!(
            simple_attr_value(&input),
            Ok((";", Value::Expression(text.to_string())))
        );
    }
    assert_eq!(boolean("trueish"), Err(Failure {
        fatal: false,
        frames: vec![Frame { offset: 0, kind: FrameKind::Nom(ErrorKind::MapRes) }],
    }));
    assert_eq!(quoted_floats("\"1, 2.5\" x"), Ok((" x", vec![num(1.0), num(2.5)])));
    assert_eq!(quoted_floats("\"\""), Ok(("", vec![])));
    assert_eq!(quoted_string("\"1ns\" x"), Ok((" x", "1ns")));
    assert!(quoted_string("\"\"").unwrap_err().fatal);
}

#[test]
fn reads_a_body_up_to_what_is_no_item() {
    let (rest, items) = parse_group_body(" a : 1; /* c */ b (2); }").unwrap();
    assert_eq!(rest, " }");
    assert_eq!(
        items,
        vec![
            GroupItem::SimpleAttr("a".to_string(), float(1.0)),
            GroupItem::Comment("/* c */".to_string()),
            GroupItem::ComplexAttr("b".to_string(), vec![float(2.0)]),
        ]
    );
}
