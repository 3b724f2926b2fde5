use lapp::flag::{Constraint, Flag};
use lapp::types::{error, same_type, split_items, FileRef, LappError, Type, Value};

fn message<T>(r: Result<T, LappError>) -> String {
    match r {
        Ok(_) => panic!("expected an error"),
        Err(e) => e.description().to_string(),
    }
}

fn ints(v: &Value) -> Vec<i32> {
    v.as_array().unwrap().iter().map(|b| b.as_int().unwrap()).collect()
}

fn strings(v: &Value) -> Vec<String> {
    v.as_array().unwrap().iter().map(|b| b.as_string().unwrap()).collect()
}

fn flag_of(long: &str, vtype: Type) -> Flag {
    let mut f = Flag::default();
    f.long = long.to_string();
    f.vtype = vtype;
    f
}

#[test]
fn error_carries_its_message() {
    let r: Result<i32, LappError> = error("went wrong");
    assert_eq!(message(r), "went wrong");
    assert_eq!(LappError("plain".to_string()).description(), "plain");
}

#[test]
fn types_are_named_by_six_words() {
    assert!(Type::from_name("string").unwrap() == Type::Str);
    assert!(Type::from_name("integer").unwrap() == Type::Int);
    assert!(Type::from_name("float").unwrap() == Type::Float);
    assert!(Type::from_name("bool").unwrap() == Type::Bool);
    assert!(Type::from_name("infile").unwrap() == Type::FileIn);
    assert!(Type::from_name("outfile").unwrap() == Type::FileOut);
    assert_eq!(message(Type::from_name("hex")), "not a known type hex");
    assert_eq!(message(Type::from_name("")), "not a known type ");
    assert_eq!(message(Type::from_name("String")), "not a known type String");
}

#[test]
fn types_compare_by_shape() {
    assert!(same_type(&Type::Int, &Type::Int));
    assert!(!same_type(&Type::Int, &Type::Float));
    let a = Type::Int.create_empty_array();
    let b = Type::Int.create_empty_array();
    let c = Type::Str.create_empty_array();
    assert!(a == b);
    assert!(a != c);
    assert!(a != Type::Int);
    assert!(a.array_type() == Some(&Type::Int));
    assert!(Type::Int.array_type().is_none());
    assert!(Type::default() == Type::Absent);
}

#[test]
fn short_names_are_the_words_of_the_usage_text() {
    assert_eq!(Type::Str.short_name(), "string");
    assert_eq!(Type::Int.short_name(), "integer");
    assert_eq!(Type::Float.short_name(), "float");
    assert_eq!(Type::Bool.short_name(), "bool");
    assert_eq!(Type::FileIn.short_name(), "infile");
    assert_eq!(Type::FileOut.short_name(), "outfile");
    assert_eq!(Type::Absent.short_name(), "bad");
    assert_eq!(Type::Error.short_name(), "bad");
    assert_eq!(Type::Int.create_empty_array().short_name(), "array of integer");
    assert_eq!(
        Type::Str.create_empty_array().create_empty_array().short_name(),
        "array of array of string"
    );
}

#[test]
fn variant_names_are_what_debug_prints() {
    for t in [
        Type::Str,
        Type::Int,
        Type::Float,
        Type::Bool,
        Type::FileIn,
        Type::FileOut,
        Type::Absent,
        Type::Error,
        Type::Int.create_empty_array(),
        Type::Bool.create_empty_array().create_empty_array(),
    ] {
        assert_eq!(t.variant_name(), format!("{:?}", t));
    }
}

#[test]
fn rust_names_wrap_lists_in_vec() {
    assert_eq!(Type::Bool.rust_name(false), "bool");
    assert_eq!(Type::Float.rust_name(false), "f32");
    assert_eq!(Type::Int.rust_name(false), "i32");
    assert_eq!(Type::Str.rust_name(false), "String");
    assert_eq!(Type::FileIn.rust_name(false), "Box<Read>");
    assert_eq!(Type::FileOut.rust_name(false), "Box<Write>");
    assert_eq!(Type::Absent.rust_name(false), "bad");
    assert_eq!(Type::Int.rust_name(true), "Vec<i32>");
    assert_eq!(Type::Int.create_empty_array().rust_name(false), "Vec<i32>");
    assert_eq!(Type::Str.create_empty_array().rust_name(true), "Vec<Vec<String>>");
}

#[test]
fn strings_and_files_are_read_as_they_are() {
    assert_eq!(Type::Str.parse_string(" any text ").unwrap().as_string().unwrap(), " any text ");
    assert!(matches!(Type::FileIn.parse_string("a.txt").unwrap(), Value::FileIn(s) if s == "a.txt"));
    assert!(matches!(Type::FileOut.parse_string("b.txt").unwrap(), Value::FileOut(s) if s == "b.txt"));
}

#[test]
fn numbers_are_read_or_become_error_values() {
    assert_eq!(Type::Int.parse_string("42").unwrap().as_int().unwrap(), 42);
    assert_eq!(Type::Int.parse_string("-42").unwrap().as_int().unwrap(), -42);
    assert!(matches!(
        Type::Int.parse_string("4x2").unwrap(),
        Value::Error(m) if m == "can't convert '4x2' to integer - invalid digit found in string"
    ));
    assert!(matches!(
        Type::Int.parse_string("").unwrap(),
        Value::Error(m) if m == "can't convert '' to integer - cannot parse integer from empty string"
    ));
    assert!(matches!(
        Type::Int.parse_string("3000000000").unwrap(),
        Value::Error(m) if m == "can't convert '3000000000' to integer - number too large to fit in target type"
    ));
    assert!(matches!(
        Type::Int.parse_string("-3000000000").unwrap(),
        Value::Error(m) if m == "can't convert '-3000000000' to integer - number too small to fit in target type"
    ));
    assert_eq!(Type::Float.parse_string("1.5e3").unwrap().as_float().unwrap(), "1.5e3");
    assert!(matches!(
        Type::Float.parse_string("1.5.3").unwrap(),
        Value::Error(m) if m == "can't convert '1.5.3' to float - invalid float literal"
    ));
    assert!(matches!(
        Type::Float.parse_string("").unwrap(),
        Value::Error(m) if m == "can't convert '' to float - cannot parse float from empty string"
    ));
}

#[test]
fn no_text_becomes_a_boolean() {
    assert_eq!(message(Type::Bool.parse_string("true")), "can't convert 'true' to Bool");
    assert_eq!(message(Type::Absent.parse_string("x")), "can't convert 'x' to Absent");
    assert_eq!(message(Type::Error.parse_string("x")), "can't convert 'x' to Error");
}

#[test]
fn lists_split_at_commas_if_there_is_one() {
    assert_eq!(split_items("10 20 30"), vec!["10", "20", "30"]);
    assert_eq!(split_items("  10\t20  "), vec!["10", "20"]);
    assert_eq!(split_items("10,20,30"), vec!["10", "20", "30"]);
    assert_eq!(split_items("a b,c d"), vec!["a b", "c d"]);
    assert_eq!(split_items("a,,b,"), vec!["a", "", "b", ""]);
    assert_eq!(split_items(","), vec!["", ""]);
    assert_eq!(split_items(""), Vec::<&str>::new());
    assert_eq!(split_items("   "), Vec::<&str>::new());
    assert_eq!(split_items("one"), vec!["one"]);
}

#[test]
fn lists_split_as_std_splits_them() {
    for s in ["", " ", "a", "a b", " a  b ", "a,b", "a, b", ",a", "a,", "x\u{a0}y", "1\t2\n3"] {
        let want: Vec<&str> = if s.contains(',') {
            s.split(',').collect()
        } else {
            s.split_whitespace().collect()
        };
        assert_eq!(split_items(s), want, "for {:?}", s);
    }
}

#[test]
fn split_items_joined_again_split_the_same() {
    for s in ["10 20 30", "  a \t b\nc ", "1,2,3", "a b,c", ",,", "", "x"] {
        let parts = split_items(s);
        let sep = if s.contains(',') { "," } else { " " };
        let again = parts.join(sep);
        assert_eq!(split_items(&again), parts, "for {:?}", s);
        let one = Type::Str.create_empty_array().parse_string(s).unwrap();
        let two = Type::Str.create_empty_array().parse_string(&again).unwrap();
        assert_eq!(strings(&one), strings(&two));
    }
}

#[test]
fn arrays_are_read_item_by_item() {
    let t = Type::Int.create_empty_array();
    assert_eq!(ints(&t.parse_string("10 20 30").unwrap()), vec![10, 20, 30]);
    assert_eq!(ints(&t.parse_string("1,2").unwrap()), vec![1, 2]);
    assert_eq!(ints(&t.parse_string("").unwrap()), Vec::<i32>::new());
    let s = Type::Str.create_empty_array();
    assert_eq!(strings(&s.parse_string("a,b c").unwrap()), vec!["a", "b c"]);
}

#[test]
fn a_bad_item_gives_its_error_for_the_whole_array() {
    let t = Type::Int.create_empty_array();
    assert!(matches!(
        t.parse_string("10 x 30 y").unwrap(),
        Value::Error(m) if m == "can't convert 'x' to integer - invalid digit found in string"
    ));
    assert!(matches!(
        t.parse_string("1,,3").unwrap(),
        Value::Error(m) if m == "can't convert '' to integer - cannot parse integer from empty string"
    ));
    let b = Type::Bool.create_empty_array();
    assert_eq!(message(b.parse_string("true false")), "can't convert 'true' to Bool");
    assert!(b.parse_string("").unwrap().as_array().unwrap().is_empty());
}

#[test]
fn values_tell_their_type() {
    assert!(Value::Str("a".into()).type_of() == Type::Str);
    assert!(Value::Int(1).type_of() == Type::Int);
    assert!(Value::Float("1.0".into()).type_of() == Type::Float);
    assert!(Value::Bool(true).type_of() == Type::Bool);
    assert!(Value::FileIn("a".into()).type_of() == Type::FileIn);
    assert!(Value::FileOut("a".into()).type_of() == Type::FileOut);
    assert!(Value::Absent.type_of() == Type::Absent);
    assert!(Value::Error("e".into()).type_of() == Type::Error);
    let arr = Value::Arr(vec![Box::new(Value::Int(1)), Box::new(Value::Str("x".into()))]);
    assert!(arr.type_of() == Type::Int.create_empty_array());
    assert!(Value::empty_array().type_of() == Type::Absent.create_empty_array());
    assert!(matches!(Value::default(), Value::Absent));
    assert!(Value::Absent.is_none());
    assert!(!Value::Int(0).is_none());
    assert!(!Value::empty_array().is_none());
}

#[test]
fn values_give_what_they_hold_or_say_what_they_are() {
    assert_eq!(Value::Str("a".into()).as_string().unwrap(), "a");
    assert_eq!(message(Value::Int(1).as_string()), "not a string, but integer");
    assert_eq!(Value::Int(-3).as_int().unwrap(), -3);
    assert_eq!(message(Value::Str("a".into()).as_int()), "not a integer, but string");
    assert_eq!(Value::Float("2.5".into()).as_float().unwrap(), "2.5");
    assert_eq!(message(Value::Int(1).as_float()), "not a float, but integer");
    assert_eq!(Value::Bool(true).as_bool().unwrap(), true);
    assert_eq!(message(Value::Absent.as_bool()), "not a boolean, but bad");
    assert_eq!(message(Value::Bool(true).as_array()), "not a array, but bool");
    assert_eq!(message(Value::empty_array().as_string()), "not a string, but array of bad");
    let arr = Value::Arr(vec![Box::new(Value::Float("1".into()))]);
    assert_eq!(message(arr.as_int()), "not a integer, but array of float");
    assert_eq!(arr.as_array().unwrap().len(), 1);
}

#[test]
fn files_are_standard_streams_or_paths() {
    assert!(matches!(Value::FileIn("stdin".into()).as_infile().unwrap(), FileRef::Standard));
    assert!(matches!(Value::FileIn("in.txt".into()).as_infile().unwrap(), FileRef::Path(p) if p == "in.txt"));
    assert!(matches!(Value::FileIn("stdout".into()).as_infile().unwrap(), FileRef::Path(p) if p == "stdout"));
    assert!(matches!(Value::FileOut("stdout".into()).as_outfile().unwrap(), FileRef::Standard));
    assert!(matches!(Value::FileOut("o.txt".into()).as_outfile().unwrap(), FileRef::Path(p) if p == "o.txt"));
    assert_eq!(message(Value::FileOut("a".into()).as_infile()), "not a infile, but outfile");
    assert_eq!(
        message(Value::FileIn("a".into()).as_outfile()),
        "not a not an outfile, but infile"
    );
}

#[test]
fn defaults_show_their_type_by_their_form() {
    assert_eq!(Value::from_value("10").unwrap().as_int().unwrap(), 10);
    assert_eq!(Value::from_value("1.5").unwrap().as_float().unwrap(), "1.5");
    assert_eq!(Value::from_value("'out.txt'").unwrap().as_string().unwrap(), "out.txt");
    assert_eq!(Value::from_value("'10'").unwrap().as_string().unwrap(), "10");
    assert_eq!(Value::from_value("''").unwrap().as_string().unwrap(), "");
    assert_eq!(Value::from_value("'").unwrap().as_string().unwrap(), "");
    assert_eq!(Value::from_value("'ab").unwrap().as_string().unwrap(), "a");
    assert!(matches!(Value::from_value("stdin").unwrap(), Value::FileIn(s) if s == "stdin"));
    assert!(matches!(Value::from_value("stdout").unwrap(), Value::FileOut(s) if s == "stdout"));
    assert_eq!(Value::from_value("hello").unwrap().as_string().unwrap(), "hello");
    assert_eq!(Value::from_value("-5").unwrap().as_string().unwrap(), "-5");
    assert_eq!(Value::from_value("").unwrap().as_string().unwrap(), "");
    assert!(matches!(
        Value::from_value("1x").unwrap(),
        Value::Error(m) if m == "can't convert '1x' to integer - invalid digit found in string"
    ));
    assert!(matches!(
        Value::from_value("1.x").unwrap(),
        Value::Error(m) if m == "can't convert '1.x' to float - invalid float literal"
    ));
}

#[test]
fn clones_hold_the_same() {
    let v = Value::Arr(vec![
        Box::new(Value::Int(1)),
        Box::new(Value::Arr(vec![Box::new(Value::Str("deep".into()))])),
    ]);
    let c = v.clone();
    assert_eq!(format!("{:?}", c), format!("{:?}", v));
}

#[test]
fn a_new_flag_is_blank() {
    let f = Flag::default();
    assert_eq!(f.long, "");
    assert_eq!(f.short, '\0');
    assert!(f.vtype == Type::Absent);
    assert!(f.value.is_none());
    assert!(f.defval.is_none());
    assert!(!f.is_set);
    assert!(!f.is_multiple);
    assert_eq!(f.pos, 0);
    assert_eq!(f.help, "");
    assert!(f.constraint.is_none());
    assert!(f.strings.is_empty());
    assert_eq!(f.defstr, "");
    assert_eq!(f.position(), None);
}

#[test]
fn a_flag_takes_one_value_once() {
    let mut f = flag_of("level", Type::Int);
    f.set_value(Value::Int(3)).unwrap();
    assert!(f.is_set);
    assert_eq!(f.value.as_int().unwrap(), 3);
    assert_eq!(message(f.set_value(Value::Int(4))), "flag already specified level");
    assert_eq!(f.value.as_int().unwrap(), 3);
}

#[test]
fn a_multiple_flag_gathers_its_values_in_order() {
    let mut f = flag_of("inc", Type::Str);
    f.is_multiple = true;
    f.value = Value::empty_array();
    for a in ["one", "two", "three"] {
        f.set_value_from_string(a).unwrap();
    }
    assert_eq!(strings(&f.value), vec!["one", "two", "three"]);
    assert_eq!(f.strings, vec!["one", "two", "three"]);
    assert!(f.is_set);
}

#[test]
fn an_argument_is_read_by_the_type_of_the_flag() {
    let mut f = flag_of("n", Type::Int);
    f.set_value_from_string("12").unwrap();
    assert_eq!(f.value.as_int().unwrap(), 12);
    assert_eq!(f.strings, vec!["12"]);
    assert_eq!(message(f.set_value_from_string("13")), "flag already specified n");
    assert_eq!(f.strings, vec!["12", "13"]);
    let mut g = flag_of("n", Type::Int);
    g.set_value_from_string("twelve").unwrap();
    assert!(matches!(&g.value, Value::Error(m) if m == "can't convert 'twelve' to integer - invalid digit found in string"));
    let mut b = flag_of("b", Type::Bool);
    assert_eq!(message(b.set_value_from_string("yes")), "can't convert 'yes' to Bool");
    assert!(!b.is_set);
    assert!(b.strings.is_empty());
}

#[test]
fn a_range_holds_whole_numbers_to_its_bounds() {
    let mut f = flag_of("port", Type::Absent);
    f.set_range_constraint("1", "10").unwrap();
    assert!(f.vtype == Type::Int);
    assert!(matches!(&f.constraint, Some(Constraint::IntRange { name, low: 1, high: 10 }) if name == "port"));
    f.is_multiple = true;
    f.value = Value::empty_array();
    f.set_value_from_string("1").unwrap();
    f.set_value_from_string("10").unwrap();
    assert_eq!(message(f.set_value_from_string("0")), "flag 'port' out of range 1..10");
    assert_eq!(message(f.set_value_from_string("11")), "flag 'port' out of range 1..10");
    assert_eq!(message(f.set_value_from_string("-4")), "flag 'port' out of range 1..10");
    assert_eq!(ints(&f.value), vec![1, 10]);
    assert_eq!(f.strings, vec!["1", "10"]);
    f.set_value_from_string("x").unwrap();
    assert_eq!(f.value.as_array().unwrap().len(), 3);
}

#[test]
fn a_range_of_floating_point_numbers_is_kept_as_written() {
    let mut f = flag_of("scale", Type::Absent);
    f.set_range_constraint("0.5", "2.5").unwrap();
    assert!(f.vtype == Type::Float);
    assert!(matches!(&f.constraint, Some(Constraint::FloatRange { name, lower, upper })
        if name == "scale" && lower == "0.5" && upper == "2.5"));
    f.set_value_from_string("99.0").unwrap();
    assert_eq!(f.value.as_float().unwrap(), "99.0");
}

#[test]
fn range_bounds_must_be_numbers_of_one_kind() {
    let mut f = flag_of("r", Type::Absent);
    assert_eq!(message(f.set_range_constraint("1", "2.5")), "range values must be same type");
    assert_eq!(message(f.set_range_constraint("a", "b")), "range values must be integer or float");
    assert_eq!(message(f.set_range_constraint("", "")), "range values must be integer or float");
    assert_eq!(message(f.set_range_constraint("1x", "2x")), "range values must be integer or float");
    assert_eq!(message(f.set_range_constraint("1", "b")), "range values must be same type");
    assert!(f.vtype == Type::Absent);
    assert!(f.constraint.is_none());
}

#[test]
fn a_constraint_lets_other_values_through() {
    let c = Constraint::IntRange { name: "n".into(), low: -2, high: 2 };
    assert_eq!(c.check(Value::Int(-2)).unwrap().as_int().unwrap(), -2);
    assert_eq!(c.check(Value::Int(2)).unwrap().as_int().unwrap(), 2);
    assert_eq!(message(c.check(Value::Int(3))), "flag 'n' out of range -2..2");
    assert_eq!(c.check(Value::Str("s".into())).unwrap().as_string().unwrap(), "s");
    assert!(matches!(c.check(Value::Error("e".into())).unwrap(), Value::Error(m) if m == "e"));
}

#[test]
fn a_default_is_inferred_or_read_by_the_type() {
    let mut f = flag_of("k", Type::Absent);
    f.set_default_from_string("10", true).unwrap();
    assert!(f.vtype == Type::Int);
    assert_eq!(f.defval.as_int().unwrap(), 10);
    assert_eq!(f.defstr, "10");
    let mut g = flag_of("s", Type::Str);
    g.set_default_from_string("10", false).unwrap();
    assert!(g.vtype == Type::Str);
    assert_eq!(g.defval.as_string().unwrap(), "10");
    let mut h = flag_of("x", Type::Float);
    h.set_default_from_string("2", false).unwrap();
    assert_eq!(h.defval.as_float().unwrap(), "2");
    let mut b = flag_of("b", Type::Bool);
    assert_eq!(message(b.set_default_from_string("true", false)), "can't convert 'true' to Bool");
    assert_eq!(b.defstr, "true");
    assert!(b.defval.is_none());
}

#[test]
fn check_gives_the_default_to_a_flag_that_was_not_given() {
    let mut f = flag_of("k", Type::Absent);
    f.set_default_from_string("10", true).unwrap();
    f.check().unwrap();
    assert_eq!(f.value.as_int().unwrap(), 10);
    assert_eq!(f.strings, vec!["10"]);
    assert!(!f.is_set);
    let mut g = flag_of("k", Type::Absent);
    g.set_default_from_string("10", true).unwrap();
    g.set_value_from_string("3").unwrap();
    g.check().unwrap();
    assert_eq!(g.value.as_int().unwrap(), 3);
    assert_eq!(g.strings, vec!["3"]);
    let mut r = flag_of("req", Type::Str);
    r.check().unwrap();
    assert!(r.value.is_none());
    assert!(r.strings.is_empty());
}

#[test]
fn clear_takes_the_flag_back() {
    let mut f = flag_of("k", Type::Int);
    f.set_value_from_string("3").unwrap();
    f.clear();
    assert!(!f.is_set);
    assert!(f.value.is_none());
    assert!(f.strings.is_empty());
    assert_eq!(f.long, "k");
    f.set_value_from_string("4").unwrap();
    assert_eq!(f.value.as_int().unwrap(), 4);
}

#[test]
fn position_is_there_for_positional_arguments() {
    let mut f = flag_of("in", Type::Str);
    assert_eq!(f.position(), None);
    f.pos = 2;
    assert_eq!(f.position(), Some(2));
}

#[test]
fn variable_names_are_snake_case() {
    assert_eq!(flag_of("verbose", Type::Bool).rust_name(), "verbose");
    assert_eq!(flag_of("Dry-Run", Type::Bool).rust_name(), "dry_run");
    assert_eq!(flag_of("9lives", Type::Bool).rust_name(), "c_9lives");
    assert_eq!(flag_of("-x", Type::Bool).rust_name(), "c__x");
    assert_eq!(flag_of("_x", Type::Bool).rust_name(), "c__x");
    assert_eq!(flag_of("ÉTÉ", Type::Bool).rust_name(), "été");
    assert_eq!(flag_of("", Type::Bool).rust_name(), "");
}

#[test]
fn getters_are_named_by_the_type() {
    let mut f = flag_of("n", Type::Int);
    assert_eq!(f.getter_name(), "args.get_integer(\"n\")");
    assert_eq!(f.rust_type(), "i32");
    f.is_multiple = true;
    assert_eq!(f.getter_name(), "args.get_integers(\"n\")");
    assert_eq!(f.rust_type(), "Vec<i32>");
    let g = flag_of("p", Type::Str.create_empty_array());
    assert_eq!(g.getter_name(), "args.get_strings(\"p\")");
    assert_eq!(g.rust_type(), "Vec<String>");
    let h = flag_of("v", Type::Bool);
    assert_eq!(h.getter_name(), "args.get_bool(\"v\")");
}
