use liberty_parse::ast::{GroupItem, LibertyAst, Number, Value};
use liberty_parse::error::{ErrorKind, Failure, Frame, FrameKind, Label};
use liberty_parse::liberty::{Attribute, Group, Liberty};
use liberty_parse::parse_lib;
use liberty_parse::parser::{parse_group, parse_libs};

fn num(v: f64) -> Number {
    Number { bits: v.to_bits(), fixed: format!("{:.6}", v) }
}

fn float(v: f64) -> Value {
    Value::Float(num(v))
}

fn floats(vs: &[f64]) -> Value {
    Value::FloatGroup(vs.iter().map(|v| num(*v)).collect())
}

fn block(text: &str) -> Group {
    let (rest, item) = parse_group(text).unwrap();
    assert_eq!(rest, "");
    Group::from_group_item(item)
}

const SAMPLE: &str = r#"library(sample){ cell(AND2){ area:1; pin(o){ timing(){ cell_rise(delay_temp_3x3){ index_1("0.5, 1.0, 1.5"); values("0.1, 0.2, 0.3","0.11, 0.21, 0.31"); } } } } }"#;

#[test]
fn end_to_end() {
    let liberty = parse_lib(SAMPLE).unwrap();
    assert_eq!(liberty.0.len(), 1);
    let lib = &liberty.0[0];
    assert_eq!(lib.type_, "library");
    assert_eq!(lib.name, "sample");
    let cell = lib.get_cell("AND2").unwrap();
    assert_eq!(cell.simple_attribute("area").unwrap().float().map(f64::from_bits), Some(1.0));
    let pin = cell.get_pin("o").unwrap();
    let timing = pin.iter_subgroups_of_type("timing");
    assert_eq!(timing.len(), 1);
    let rise = timing[0].iter_subgroups_of_type("cell_rise");
    assert_eq!(rise.len(), 1);
    assert_eq!(rise[0].name, "delay_temp_3x3");
    let values: Vec<Vec<f64>> = rise[0]
        .complex_attribute("values")
        .unwrap()
        .iter()
        .map(|v| v.float_group().unwrap().into_iter().map(f64::from_bits).collect())
        .collect();
    assert_eq!(values, vec![vec![0.1, 0.2, 0.3], vec![0.11, 0.21, 0.31]]);
    assert_eq!(
        rise[0].complex_attribute("index_1"),
        Some(&vec![floats(&[0.5, 1.0, 1.5])])
    );
}

#[test]
fn later_attribute_overwrites_in_first_place() {
    let group = block("g(){ x : 1; y : true; x : 2; z (3); y (4, 5); }");
    let names: Vec<&String> = group.attributes.keys().collect();
    assert_eq!(names, vec!["x", "y", "z"]);
    assert_eq!(group.simple_attribute("x"), Some(&float(2.0)));
    assert_eq!(group.simple_attribute("y"), None);
    assert_eq!(group.complex_attribute("y"), Some(&vec![float(4.0), float(5.0)]));
    assert_eq!(group.complex_attribute("x"), None);
    assert_eq!(group.simple_attribute("nothing"), None);
    let simple = group.iter_simple_attributes();
    assert_eq!(simple.len(), 1);
    assert_eq!(simple[0], (&"x".to_string(), &float(2.0)));
    let complex = group.iter_complex_attributes();
    assert_eq!(complex.len(), 2);
    assert_eq!(complex[0], (&"y".to_string(), &vec![float(4.0), float(5.0)]));
    assert_eq!(complex[1], (&"z".to_string(), &vec![float(3.0)]));
}

#[test]
fn duplicate_names_yield_the_first() {
    let group = block("cell(c){ pin(a){ n : 1; } cell(a){ } pin(a){ n : 2; } pin(b){ } }");
    let first = group.get_pin("a").unwrap();
    assert_eq!(first.simple_attribute("n"), Some(&float(1.0)));
    assert_eq!(group.iter_subgroups().len(), 4);
    let pins = group.iter_pins();
    assert_eq!(pins.len(), 3);
    assert_eq!(pins[1].simple_attribute("n"), Some(&float(2.0)));
    assert_eq!(group.iter_cells().len(), 1);
    assert!(group.get_cell("b").is_none());
    assert!(group.get_pin("c").is_none());
    assert_eq!(group.find_subgroup("pin", "a"), Some(0));
    assert_eq!(group.find_subgroup("pin", "b"), Some(3));
    assert_eq!(group.find_subgroup("timing", "a"), None);
}

#[test]
fn lookups_for_change_reach_the_first() {
    let mut group = block("lib(l){ cell(a){ } cell(a){ } pin(p){ } }");
    group.get_cell_mut("a").unwrap().name = "renamed".to_string();
    assert_eq!(group.subgroups[0].name, "renamed");
    assert_eq!(group.subgroups[1].name, "a");
    group.get_pin_mut("p").unwrap().type_ = "bus".to_string();
    assert_eq!(group.subgroups[2].type_, "bus");
    assert!(group.get_cell_mut("p").is_none());
    assert!(group.get_pin_mut("p").is_none());
}

#[test]
fn new_group_is_empty() {
    let group = Group::new("cell", "INV");
    assert_eq!(group.type_, "cell");
    assert_eq!(group.name, "INV");
    assert!(group.attributes.is_empty());
    assert!(group.subgroups.is_empty());
    assert_eq!(
        group.into_group_item(),
        GroupItem::Group("cell".to_string(), "INV".to_string(), vec![])
    );
}

#[test]
fn block_parameters_are_joined() {
    let (_, item) = parse_group("lut(a, \"b c\" ,d){}").unwrap();
    assert_eq!(
        item,
        GroupItem::Group("lut".to_string(), "a, \"b c\", d".to_string(), vec![])
    );
    let (_, item) = parse_group("timing(){}").unwrap();
    assert_eq!(item, GroupItem::Group("timing".to_string(), "".to_string(), vec![]));
}

#[test]
fn structured_form_drops_comments_and_sorts_attributes_first() {
    let text = "l(a){ g(b){ /* c */ } x : 1; /* d */ y(2); }";
    let (_, item) = parse_group(text).unwrap();
    let group = Group::from_group_item(item.clone());
    assert_eq!(group.subgroups.len(), 1);
    assert_eq!(group.attributes.get("x"), Some(&Attribute::Simple(float(1.0))));
    let back = group.clone().into_group_item();
    assert_eq!(
        back,
        GroupItem::Group(
            "l".to_string(),
            "a".to_string(),
            vec![
                GroupItem::SimpleAttr("x".to_string(), float(1.0)),
                GroupItem::ComplexAttr("y".to_string(), vec![float(2.0)]),
                GroupItem::Group("g".to_string(), "b".to_string(), vec![]),
            ]
        )
    );
    assert_eq!(group.to_group_item(), back);
    assert_eq!(Group::from_group_item(back), group);
    assert_eq!(group.duplicate(), group);
}

#[test]
fn documents_convert_both_ways() {
    let ast = LibertyAst::from_string("a(x){ p : 1; } /* c */ b(y){ }").unwrap();
    assert_eq!(ast.0.len(), 2);
    let liberty = ast.clone().into_liberty();
    assert_eq!(liberty, Liberty::from_ast(ast.clone()));
    assert_eq!(liberty.0[1].type_, "b");
    assert_eq!(LibertyAst::from_liberty(liberty.clone()), ast);
    assert_eq!(liberty.clone().to_ast(), ast);
    assert_eq!(liberty.clone(), liberty);
}

#[test]
fn values_are_written_exactly() {
    assert_eq!(Value::Bool(true).to_string(), "true");
    assert_eq!(Value::Bool(false).to_string(), "false");
    assert_eq!(float(1.0).to_string(), "1.000000");
    assert_eq!(float(-345.1234567).to_string(), "-345.123457");
    assert_eq!(float(0.0000004).to_string(), "0.000000");
    assert_eq!(floats(&[0.0, 0.18, -0.555]).to_string(), "\"0.000000, 0.180000, -0.555000\"");
    assert_eq!(floats(&[]).to_string(), "\"\"");
    assert_eq!(floats(&[2.5]).to_string(), "\"2.500000\"");
    assert_eq!(Value::String("A & B".to_string()).to_string(), "\"A & B\"");
    assert_eq!(Value::Expression("A + 1.2".to_string()).to_string(), "A + 1.2");
}

#[test]
fn documents_are_written_exactly() {
    let ast = LibertyAst::from_string(
        "library(foo){ /* a\nb */ t : \"1ns\"; u (1, pf ); cell(c){ pin(p){ d : input; } e : true; } }\nlibrary ( bar ) { }",
    )
    .unwrap();
    assert_eq!(
        ast.to_string(),
        "library ( foo ) {\n/*\n/* a\nb */\n*/\n  t : \"1ns\";\n  u (1.000000, pf)\n  cell ( c ) {\n    pin ( p ) {\n      d : input;\n    }\n    e : true;\n  }\n}\nlibrary ( bar ) {\n\n}"
    );
    let liberty = parse_lib("l(a){ g(b){ /* c */ } x : 1; }").unwrap();
    assert_eq!(liberty.to_string(), "l ( a ) {\n  x : 1.000000;\n  g ( b ) {\n\n  }\n}");
    assert_eq!(LibertyAst::new(vec![]).to_string(), "");
}

#[test]
fn written_text_is_a_fixed_point() {
    let text = "library(foo){ a : 1; b : -2.5e-3; c : \"x y\"; d : true; e : A + (B * 2); cell(AND2){ area : 0.1234567; pin(o){ f : \"!A\"; } } }";
    let once = parse_lib(text).unwrap().to_string();
    let twice = parse_lib(&once).unwrap().to_string();
    assert_eq!(twice, once);
    assert_eq!(
        once,
        "library ( foo ) {\n  a : 1.000000;\n  b : -0.002500;\n  c : \"x y\";\n  d : true;\n  e : A + (B * 2);\n  cell ( AND2 ) {\n    area : 0.123457;\n    pin ( o ) {\n      f : \"!A\";\n    }\n  }\n}"
    );
}

#[test]
fn written_complex_attribute_does_not_parse() {
    let once = parse_lib("l(a){ v (1, 2); }").unwrap().to_string();
    assert_eq!(once, "l ( a ) {\n  v (1.000000, 2.000000)\n}");
    assert!(parse_lib(&once).is_err());
}

#[test]
fn failure_after_the_colon_is_fatal() {
    let input = "library(a){ attr_name : a b ; }";
    let error = parse_lib(input).unwrap_err();
    assert_eq!(error.0, input);
    assert!(error.1.fatal);
    assert_eq!(
        error.1.frames,
        vec![
            Frame { offset: 26, kind: FrameKind::Char(';') },
            Frame { offset: 12, kind: FrameKind::Context(Label::SimpleAttr) },
            Frame { offset: 11, kind: FrameKind::Context(Label::FoldingItems) },
            Frame { offset: 11, kind: FrameKind::Context(Label::GroupBody) },
            Frame { offset: 0, kind: FrameKind::Context(Label::ParsingGroup) },
            Frame { offset: 0, kind: FrameKind::Context(Label::ParseLib) },
            Frame { offset: 0, kind: FrameKind::Context(Label::ParseLibs) },
        ]
    );
    assert_eq!(&input[26..], "b ; }");
}

#[test]
fn failures_at_the_top() {
    assert_eq!(
        parse_libs("attr_name : a b ;"),
        Err(Failure {
            fatal: false,
            frames: vec![
                Frame { offset: 0, kind: FrameKind::Nom(ErrorKind::Eof) },
                Frame { offset: 0, kind: FrameKind::Context(Label::ParseLibs) },
            ],
        })
    );
    let open = parse_libs("library(a){ x : 1; ").unwrap_err();
    assert!(open.fatal);
    assert_eq!(open.frames[0], Frame { offset: 19, kind: FrameKind::Char('}') });
    let paren = parse_libs("l(a){ x : (A + B; }").unwrap_err();
    assert!(paren.fatal);
    assert_eq!(paren.frames[0], Frame { offset: 16, kind: FrameKind::Char(')') });
    let quote = parse_libs("l(a){ x : \"abc; }").unwrap_err();
    assert!(quote.fatal);
    assert_eq!(quote.frames[0], Frame { offset: 17, kind: FrameKind::Char('"') });
    assert_eq!(parse_libs("  \n /* only */ \n"), Ok(("", vec![])));
    assert_eq!(parse_libs(""), Ok(("", vec![])));
}

#[test]
fn messages_point_at_the_place() {
    let input = "library(a) {\n  x : (A + B;\n}";
    let error = parse_lib(input).unwrap_err();
    let message = error.to_string();
    assert!(message.starts_with("0: at line 2:\n  x : (A + B;\n            ^\nexpected ')', found ;\n\n"));
    assert!(message.contains("1: at line 2, in expression:\n  x : (A + B;\n      ^\n\n"));
    assert!(message.ends_with("in parse_libs:\nlibrary(a) {\n^\n\n"));
    let tail = LibertyAst::from_string("é(").unwrap_err().to_string();
    assert_eq!(tail, "0: at line 1, in Eof:\né(\n^\n\n1: at line 1, in parse_libs:\né(\n^\n\n");
    let wide = LibertyAst::from_string("l(a){ s : \"é\"; t : (1; }").unwrap_err();
    assert_eq!(wide.1.frames[0], Frame { offset: 21, kind: FrameKind::Char(')') });
    assert!(wide.to_string().starts_with("0: at line 1:\nl(a){ s : \"é\"; t : (1; }\n"));
}

#[test]
fn nested_blocks_are_changed_in_place() {
    let mut group = block("lib(l){ cell(a){ } pin(p){ } cell(b){ } x : 1; }");
    for sub in group.iter_subgroups_mut() {
        sub.name.push('!');
    }
    let names: Vec<&str> = group.subgroups.iter().map(|g| g.name.as_str()).collect();
    assert_eq!(names, vec!["a!", "p!", "b!"]);
    let cells = group.iter_subgroups_of_type_mut("cell");
    assert_eq!(cells.len(), 2);
    for cell in cells {
        cell.type_ = "macro".to_string();
    }
    let kinds: Vec<&str> = group.subgroups.iter().map(|g| g.type_.as_str()).collect();
    assert_eq!(kinds, vec!["macro", "pin", "macro"]);
    assert!(group.iter_cells_mut().is_empty());
    for pin in group.iter_pins_mut() {
        pin.subgroups.push(Group::new("timing", ""));
    }
    assert_eq!(group.subgroups[1].subgroups.len(), 1);
    assert_eq!(group.subgroups[0].subgroups.len(), 0);
    assert_eq!(group.simple_attribute("x"), Some(&float(1.0)));
}

#[test]
fn attributes_are_changed_in_place() {
    let mut group = block("g(){ a : 1; b (2, 3); c : true; d (\"4, 5\"); }");
    for (name, value) in group.iter_simple_attributes_mut() {
        if name == "a" {
            *value = Value::Expression("changed".to_string());
        }
    }
    for (_, values) in group.iter_complex_attributes_mut() {
        values.push(Value::Bool(false));
    }
    let names: Vec<&String> = group.attributes.keys().collect();
    assert_eq!(names, vec!["a", "b", "c", "d"]);
    assert_eq!(group.simple_attribute("a"), Some(&Value::Expression("changed".to_string())));
    assert_eq!(group.simple_attribute("c"), Some(&Value::Bool(true)));
    assert_eq!(
        group.complex_attribute("b"),
        Some(&vec![float(2.0), float(3.0), Value::Bool(false)])
    );
    assert_eq!(
        group.complex_attribute("d"),
        Some(&vec![floats(&[4.0, 5.0]), Value::Bool(false)])
    );
    assert_eq!(group.iter_simple_attributes_mut().len(), 2);
    assert_eq!(group.iter_complex_attributes_mut().len(), 2);
}

#[test]
fn document_behaves_as_its_blocks() {
    let mut liberty = parse_lib("a(x){ } b(y){ }").unwrap();
    assert_eq!(liberty.len(), 2);
    assert_eq!(liberty[1].name, "y");
    liberty[0].name = "z".to_string();
    let names: Vec<String> = liberty.clone().into_iter().map(|g| g.name).collect();
    assert_eq!(names, vec!["z", "y"]);
    let ast: LibertyAst = liberty.into();
    assert_eq!(ast.0.len(), 2);
}
