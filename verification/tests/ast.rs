use liberty_parse::ast::{GroupItem, LibertyAst, Number, Value};

const SMALL: &str = r#"/*
 delay model :       typ
 check model :       typ
*/
library(small) {
  delay_model : table_lookup;
  in_place_swap_mode : match_footprint;

  /* unit attributes */
  time_unit : "1ns";
  voltage_unit : "1V";
  current_unit : "1uA";
  pulling_resistance_unit : "1kohm";
  leakage_power_unit : "1nW";
  capacitive_load_unit (1,pf);

  slew_upper_threshold_pct_rise : 80;
  slew_lower_threshold_pct_rise : 20;
  input_threshold_pct_rise : 50;
  nom_process : 1.0;
  nom_voltage : 1.5;
  nom_temperature : 25.0;
  operating_conditions ( typical ) {
     process : 1;
     voltage : 1.5;
     temperature : 25;
  }
  default_operating_conditions : typical;
}
"#;

const CELLS: &str = r#"library(cells) {
  delay_model : table_lookup;
  cell (AND2) {
    area : 2.5;
    cell_footprint : and2;
    pin (A) {
      direction : input;
      capacitance : 0.0021;
    }
    pin (B) {
      direction : input;
      capacitance : 0.0023;
    }
    pin (Y) {
      direction : output;
      function : "(A & B)";
      max_capacitance : 0.5;
    }
  }
  cell (INV) {
    area : 1;
    dont_use : false;
    pin (A) {
      direction : input;
      capacitance : 0.0019;
    }
    pin (Y) {
      direction : output;
      function : "!A";
    }
  }
}
"#;

const CELLS_TIMING: &str = r#"library(cells_timing) {
  lu_table_template (delay_temp_3x3) {
    variable_1 : input_net_transition;
    variable_2 : total_output_net_capacitance;
    index_1 ("0.5, 1.0, 1.5");
    index_2 ("10.0, 20.0, 30.0");
  }
  cell (AND2) {
    area : 2.5;
    pin (Y) {
      direction : output;
      function : "(A & B)";
      timing () {
        related_pin : "A";
        timing_sense : positive_unate;
        cell_rise (delay_temp_3x3) {
          index_1 ("0.5, 1.0, 1.5");
          index_2 ("10.0, 20.0, 30.0");
          values ( "0.1, 0.2, 0.3", \
                   "0.11, 0.21, 0.31", \
                   "0.12, 0.22, 0.32" );
        }
        cell_fall (delay_temp_3x3) {
          index_1 ("0.5, 1.0, 1.5");
          index_2 ("10.0, 20.0, 30.0");
          values ( \
            "0.1, 0.2, 0.3" \
            , "0.11, 0.21, 0.31", \
            "0.12, 0.22, 0.32" \
          );
        }
      }
    }
  }
}
"#;

#[test]
fn test_files() {
    LibertyAst::from_string(SMALL).unwrap();
    LibertyAst::from_string(CELLS).unwrap();
    LibertyAst::from_string(CELLS_TIMING).unwrap();
}

#[test]
fn test_values() {
    assert_eq!(Value::Bool(false).bool(), Some(false));
    let number = Number { bits: (-3.45f64).to_bits(), fixed: format!("{:.6}", -3.45f64) };
    assert_eq!(Value::Float(number).float().map(f64::from_bits), Some(-3.45f64));
    assert_eq!(Value::Expression("A & B".to_string()).expr(), Some("A & B".to_string()));
    let group = vec![1.2f64, 3.4]
        .into_iter()
        .map(|v| Number { bits: v.to_bits(), fixed: format!("{:.6}", v) })
        .collect();
    assert_eq!(
        Value::FloatGroup(group)
            .float_group()
            .map(|bits| bits.into_iter().map(f64::from_bits).collect::<Vec<f64>>()),
        Some(vec![1.2, 3.4])
    );
    assert_eq!(Value::String("abc def".to_string()).string(), Some("abc def".to_string()));
}

#[test]
fn accessors_refuse_other_kinds() {
    let text = Value::String("1".to_string());
    assert_eq!(text.float(), None);
    assert_eq!(text.bool(), None);
    assert_eq!(text.expr(), None);
    assert_eq!(text.float_group(), None);
    assert_eq!(Value::Bool(true).string(), None);
    assert_eq!(GroupItem::Comment("/**/".to_string()).group(), None);
}

#[test]
fn small_file_has_one_library() {
    let ast = LibertyAst::from_string(SMALL).unwrap();
    assert_eq!(ast.0.len(), 1);
    let (kind, name, items) = ast.0[0].group().unwrap();
    assert_eq!(kind, "library");
    assert_eq!(name, "small");
    assert_eq!(items.len(), 17);
}
