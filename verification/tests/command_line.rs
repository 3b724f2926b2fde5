use lapp::flag::Constraint;
use lapp::types::{FileRef, LappError, Type, Value};
use lapp::{Args, Parsed};

fn argv(a: &[&str]) -> Vec<String> {
    a.iter().map(|s| s.to_string()).collect()
}

fn message<T>(r: Result<T, LappError>) -> String {
    match r {
        Ok(_) => panic!("expected an error"),
        Err(e) => e.description().to_string(),
    }
}

fn declared(text: &'static str) -> Args<'static> {
    let mut args = Args::new(text);
    args.parse_spec().expect("usage text");
    args
}

fn read(text: &'static str, a: &[&str]) -> Args<'static> {
    let mut args = declared(text);
    let parsed = args.parse_command_line(argv(a)).expect("command line");
    assert!(matches!(parsed, Parsed::Ready));
    args
}

fn line_error(line: &str) -> String {
    let mut args = Args::new("");
    message(args.parse_spec_line(line))
}

const SIMPLE: &str = "
    Testing
      -v, --verbose verbose flag
      -k   arb flag
      -o, --output (default 'stdout')
      -p   (integer...)
      -I, --include... (string)
      <in> (string)
      <out> (string...)
";

#[test]
fn a_usage_text_declares_its_flags_in_order() {
    let args = declared(SIMPLE);
    let names: Vec<&str> = args.flags().iter().map(|f| f.long.as_str()).collect();
    assert_eq!(names, vec!["verbose", "k", "output", "p", "include", "in", "out", "help"]);
    let f = &args.flags()[0];
    assert_eq!(f.short, 'v');
    assert!(f.vtype == Type::Bool);
    assert!(matches!(f.defval, Value::Bool(false)));
    assert_eq!(f.help, "verbose flag");
    assert_eq!(f.pos, 0);
    let k = &args.flags()[1];
    assert_eq!((k.long.as_str(), k.short), ("k", 'k'));
    assert_eq!(k.help, "arb flag");
    let o = &args.flags()[2];
    assert!(o.vtype == Type::Str);
    assert_eq!(o.defval.as_string().unwrap(), "stdout");
    assert_eq!(o.defstr, "'stdout'");
    let p = &args.flags()[3];
    assert!(p.vtype == Type::Int.create_empty_array());
    assert!(!p.is_multiple);
    assert!(p.defval.as_array().unwrap().is_empty());
    assert!(p.value.is_none());
    let i = &args.flags()[4];
    assert!(i.is_multiple);
    assert!(i.vtype == Type::Str);
    assert!(i.value.as_array().unwrap().is_empty());
    assert!(i.defval.is_none());
    let first = &args.flags()[5];
    assert_eq!((first.pos, first.short, first.is_multiple), (1, '\0', false));
    let last = &args.flags()[6];
    assert_eq!((last.pos, last.is_multiple), (2, true));
    assert!(last.vtype == Type::Str);
    let h = &args.flags()[7];
    assert_eq!((h.long.as_str(), h.short, h.help.as_str()), ("help", 'h', "this help"));
    assert!(h.vtype == Type::Bool);
    assert_eq!(args.text(), SIMPLE);
}

#[test]
fn lines_that_declare_nothing_are_passed_over() {
    let mut args = Args::new("");
    for line in ["", "    ", "Some words", "  x -v", "-- not a flag", "--", "*-v"] {
        args.parse_spec_line(line).unwrap();
    }
    assert!(args.flags().is_empty());
}

#[test]
fn an_empty_positional_name_counts_but_declares_nothing() {
    let mut args = Args::new("");
    args.parse_spec_line("<>").unwrap();
    args.parse_spec_line("<a> (string)").unwrap();
    assert_eq!(args.flags().len(), 1);
    assert_eq!(args.flags()[0].pos, 2);
}

#[test]
fn a_declared_help_flag_is_kept() {
    let args = declared("  -h, --help  my own help\n  -x (integer)");
    assert_eq!(args.flags().len(), 2);
    assert_eq!(args.flags()[0].help, "my own help");
}

#[test]
fn specifiers_give_type_default_and_range() {
    let args = declared(
        "
        -a (integer)
        -b (default 10)
        -c (default 1.5)
        -d (string default hello)
        -e (float default 2)
        -f (1..10)
        -g (0.5..1.5)
        -i (infile)
        -o (outfile default stdout)
        --in2 (default stdin)
        -s, --save (default 'out.txt')
        -t (integer default x)
    ",
    );
    let f = args.flags();
    assert!(f[0].vtype == Type::Int && f[0].defval.is_none());
    assert!(f[1].vtype == Type::Int);
    assert_eq!(f[1].defval.as_int().unwrap(), 10);
    assert!(f[2].vtype == Type::Float);
    assert_eq!(f[2].defval.as_float().unwrap(), "1.5");
    assert!(f[3].vtype == Type::Str);
    assert_eq!(f[3].defval.as_string().unwrap(), "hello");
    assert!(f[4].vtype == Type::Float);
    assert_eq!(f[4].defval.as_float().unwrap(), "2");
    assert!(f[5].vtype == Type::Int);
    assert!(matches!(&f[5].constraint, Some(Constraint::IntRange { name, low: 1, high: 10 }) if name == "f"));
    assert!(f[6].vtype == Type::Float);
    assert!(matches!(&f[6].constraint, Some(Constraint::FloatRange { lower, upper, .. }) if lower == "0.5" && upper == "1.5"));
    assert!(f[7].vtype == Type::FileIn);
    assert!(f[8].vtype == Type::FileOut);
    assert!(matches!(&f[8].defval, Value::FileOut(s) if s == "stdout"));
    assert!(f[9].vtype == Type::FileIn);
    assert!(matches!(&f[9].defval, Value::FileIn(s) if s == "stdin"));
    assert_eq!(f[10].defval.as_string().unwrap(), "out.txt");
    assert!(matches!(&f[11].defval, Value::Error(m) if m == "can't convert 'x' to integer - invalid digit found in string"));
}

#[test]
fn three_dots_in_the_specifier_make_a_list_or_a_varargs() {
    let args = declared("  -p (integer...)\n  --ranged (1..5...)\n  <files> (string...)");
    let f = args.flags();
    assert!(f[0].vtype == Type::Int.create_empty_array());
    assert!(!f[0].is_multiple);
    assert!(f[1].vtype == Type::Int.create_empty_array());
    assert!(f[1].constraint.is_some());
    assert!(f[2].vtype == Type::Str);
    assert!(f[2].is_multiple);
    assert!(f[2].value.as_array().unwrap().is_empty());
    assert!(f[2].defval.as_array().unwrap().is_empty());
}

#[test]
fn a_short_name_must_be_one_letter_or_digit() {
    assert_eq!(line_error("-? odd"), "not allowed: only letters or digits in short flags: flag '?'");
    assert_eq!(line_error("- lonely"), "not allowed: only letters or digits in short flags: flag ' '");
    assert_eq!(line_error("-"), "not allowed: only letters or digits in short flags: flag ''");
    assert_eq!(line_error("-ab two"), "short flags should have one character: flag 'a'");
}

#[test]
fn a_comma_behind_a_short_name_wants_a_long_name() {
    assert_eq!(line_error("-a, b"), "expecting long flag after short flag: flag 'a'");
    assert_eq!(line_error("-a,-b"), "expecting long flag after short flag: flag 'a'");
    assert_eq!(line_error("-a,"), "expecting long flag after short flag: flag 'a'");
}

#[test]
fn a_long_name_holds_letters_digits_underscore_and_dash() {
    assert_eq!(
        line_error("--bad=name"),
        "long flags can only contain letters, numbers, '_' or '-': flag 'bad'"
    );
    assert_eq!(
        line_error("--tab\thelp"),
        "long flags can only contain letters, numbers, '_' or '-': flag 'tab'"
    );
    let mut args = Args::new("");
    args.parse_spec_line("--good_name-2 fine").unwrap();
    assert_eq!(args.flags()[0].long, "good_name-2");
    args.parse_spec_line("-x, --été... (string)").unwrap();
    assert_eq!(args.flags()[1].long, "été");
    assert!(args.flags()[1].is_multiple);
}

#[test]
fn brackets_must_close() {
    assert_eq!(line_error("<name (string)"), "cannot find end \">\"");
    assert_eq!(line_error("-a (integer"), "cannot find end \")\"");
}

#[test]
fn a_name_is_declared_once() {
    let mut args = Args::new("");
    args.parse_spec_line("-v, --verbose").unwrap();
    assert_eq!(message(args.parse_spec_line("--verbose")), "already defined: flag 'verbose'");
    assert_eq!(message(args.parse_spec_line("<verbose> (string)")), "already defined: flag 'verbose'");
    args.parse_spec_line("-k").unwrap();
    assert_eq!(message(args.parse_spec_line("-k (integer)")), "already defined: flag 'k'");
    assert_eq!(args.flags().len(), 2);
}

#[test]
fn a_type_must_be_known_and_a_specifier_not_empty() {
    assert_eq!(line_error("-a (hex)"), "not a known type hex");
    assert_eq!(line_error("-a ()"), "nothing inside type specifier: flag 'a'");
    assert_eq!(line_error("-a (  )"), "nothing inside type specifier: flag 'a'");
    assert_eq!(line_error("-a (...)"), "nothing inside type specifier: flag 'a'");
    assert_eq!(line_error("-a (default)"), "not a known type default");
    assert_eq!(line_error("-a (bool default true)"), "can't convert 'true' to Bool");
}

#[test]
fn range_bounds_are_checked_when_declared() {
    assert_eq!(line_error("-a (1..2.5)"), "range values must be same type");
    assert_eq!(line_error("-a (a..b)"), "range values must be integer or float");
    assert_eq!(line_error("-a (..5)"), "range values must be same type");
}

#[test]
fn only_one_positional_takes_all_that_remain() {
    let mut args = Args::new("");
    args.parse_spec_line("<a> (string...)").unwrap();
    assert_eq!(
        message(args.parse_spec_line("<b> (string...)")),
        "only last argument can occur multiple times: flag 'b'"
    );
}

#[test]
fn a_usage_text_stops_at_its_first_bad_line() {
    let mut args = Args::new("  -a (integer)\n  -b (nothing)\n  -c (integer)\n");
    assert_eq!(message(args.parse_spec()), "not a known type nothing");
    assert_eq!(args.flags().len(), 1);
}

#[test]
fn scenario_just_the_positionals() {
    let args = read(SIMPLE, &["in", "hello"]);
    assert_eq!(args.get_bool_result("verbose").unwrap(), false);
    assert_eq!(args.get_bool_result("k").unwrap(), false);
    assert_eq!(args.get_string_result("output").unwrap(), "stdout");
    assert_eq!(args.get_integers_result("p").unwrap(), Vec::<i32>::new());
    assert_eq!(args.get_strings_result("include").unwrap(), Vec::<String>::new());
    assert_eq!(args.get_string_result("in").unwrap(), "in");
    assert_eq!(args.get_strings_result("out").unwrap(), vec!["hello"]);
}

#[test]
fn combined_short_flags_are_read_as_separate_ones() {
    let one = read(SIMPLE, &["-vk", "a", "b"]);
    let two = read(SIMPLE, &["-v", "-k", "a", "b"]);
    for args in [&one, &two] {
        assert_eq!(args.get_bool_result("verbose").unwrap(), true);
        assert_eq!(args.get_bool_result("k").unwrap(), true);
        assert_eq!(args.get_strings_result("out").unwrap(), vec!["b"]);
    }
    assert_eq!(format!("{:?}", values(&one)), format!("{:?}", values(&two)));
    let three = read(SIMPLE, &["-vkp", "1 2", "a"]);
    let four = read(SIMPLE, &["-v", "-kp", "1 2", "a"]);
    assert_eq!(three.get_integers_result("p").unwrap(), vec![1, 2]);
    assert_eq!(format!("{:?}", values(&three)), format!("{:?}", values(&four)));
}

fn values<'a>(args: &'a Args<'static>) -> Vec<(&'a Value, bool, &'a Vec<String>)> {
    args.flags().iter().map(|f| (&f.value, f.is_set, &f.strings)).collect()
}

#[test]
fn combined_short_flags_fail_as_separate_ones_do() {
    let mut one = declared(SIMPLE);
    let mut two = declared(SIMPLE);
    let a = message(one.parse_command_line(argv(&["-vv", "x"])));
    let b = message(two.parse_command_line(argv(&["-v", "-v", "x"])));
    assert_eq!(a, "flag already specified verbose");
    assert_eq!(a, b);
    assert_eq!(format!("{:?}", values(&one)), format!("{:?}", values(&two)));
}

#[test]
fn a_double_dash_makes_the_rest_positional() {
    let args = read(SIMPLE, &["hello", "baggins", "--", "--frodo", "-v", "--"]);
    assert_eq!(args.get_strings_result("out").unwrap(), vec!["baggins", "--frodo", "-v", "--"]);
    assert_eq!(args.get_bool_result("verbose").unwrap(), false);
    let early = read(SIMPLE, &["--", "-k", "-x"]);
    assert_eq!(early.get_string_result("in").unwrap(), "-k");
    assert_eq!(early.get_strings_result("out").unwrap(), vec!["-x"]);
    assert_eq!(early.get_bool_result("k").unwrap(), false);
}

#[test]
fn a_multiple_flag_gathers_in_the_order_of_the_command_line() {
    let args = read(SIMPLE, &["-I.", "x", "-I", "..", "--include", "lib", "--include=a", "-I:b", "y"]);
    assert_eq!(args.get_strings_result("include").unwrap(), vec![".", "..", "lib", "a", "b"]);
    assert_eq!(args.get_strings_result("out").unwrap(), vec!["y"]);
}

#[test]
fn values_stand_behind_equals_colon_or_in_the_next_token() {
    let text = "  -n, --num (integer)\n  -s, --str (default x)";
    assert_eq!(read(text, &["--num=5"]).get_integer_result("num").unwrap(), 5);
    assert_eq!(read(text, &["--num:5"]).get_integer_result("num").unwrap(), 5);
    assert_eq!(read(text, &["--num", "5"]).get_integer_result("num").unwrap(), 5);
    assert_eq!(read(text, &["--num=", "5"]).get_integer_result("num").unwrap(), 5);
    assert_eq!(read(text, &["-n5"]).get_integer_result("num").unwrap(), 5);
    assert_eq!(read(text, &["-n=5"]).get_integer_result("num").unwrap(), 5);
    assert_eq!(read(text, &["-n:5"]).get_integer_result("num").unwrap(), 5);
    assert_eq!(read(text, &["-n", "5"]).get_integer_result("num").unwrap(), 5);
    assert_eq!(read(text, &["-n", "-5"]).get_integer_result("num").unwrap(), -5);
    assert_eq!(read(text, &["--str=a=b:c", "-n1"]).get_string_result("str").unwrap(), "a=b:c");
    assert_eq!(read(text, &["-s=a=b", "-n1"]).get_string_result("str").unwrap(), "a=b");
    assert_eq!(read(text, &["-n1"]).get_string_result("str").unwrap(), "x");
}

#[test]
fn a_boolean_long_flag_takes_no_value() {
    let args = read(SIMPLE, &["--verbose=no", "a"]);
    assert_eq!(args.get_bool_result("verbose").unwrap(), true);
    assert_eq!(args.get_string_result("in").unwrap(), "a");
}

#[test]
fn a_single_dash_is_no_flag_and_no_argument() {
    let args = read(SIMPLE, &["-", "a"]);
    assert_eq!(args.get_string_result("in").unwrap(), "a");
}

#[test]
fn tokens_that_find_no_flag_are_errors() {
    let mut a = declared(SIMPLE);
    assert_eq!(message(a.parse_command_line(argv(&["--nope"]))), "no long flag 'nope'");
    let mut b = declared(SIMPLE);
    assert_eq!(message(b.parse_command_line(argv(&["--nope=1"]))), "no long flag 'nope'");
    let mut c = declared(SIMPLE);
    assert_eq!(message(c.parse_command_line(argv(&["-vz"]))), "no short flag 'z'");
    assert_eq!(c.flags()[0].is_set, true);
    let mut d = declared("  <one> (string)\n  <two> (integer)");
    assert_eq!(message(d.parse_command_line(argv(&["a", "1", "extra"]))), "no arg #3");
    let mut e = declared("  -v");
    assert_eq!(message(e.parse_command_line(argv(&["stray"]))), "no arg #1");
}

#[test]
fn a_flag_that_wants_a_value_must_get_one() {
    let mut a = declared(SIMPLE);
    assert_eq!(message(a.parse_command_line(argv(&["--output"]))), "no value for flag 'output'");
    let mut b = declared(SIMPLE);
    assert_eq!(message(b.parse_command_line(argv(&["-vo"]))), "no value for flag 'output'");
    let mut c = declared(SIMPLE);
    assert_eq!(message(c.parse_command_line(argv(&["-o="]))), "no value for flag 'output'");
}

#[test]
fn a_flag_is_given_once() {
    let mut a = declared(SIMPLE);
    assert_eq!(
        message(a.parse_command_line(argv(&["-o", "a", "--output", "b"]))),
        "flag already specified output"
    );
    let mut b = declared(SIMPLE);
    assert_eq!(
        message(b.parse_command_line(argv(&["-p", "1", "-p", "2"]))),
        "flag already specified p"
    );
}

#[test]
fn a_value_out_of_range_stops_the_reading() {
    let text = "  -n (1..10)\n  -m (default 0)";
    let mut a = declared(text);
    assert_eq!(message(a.parse_command_line(argv(&["-n", "11", "-m", "3"]))), "flag 'n' out of range 1..10");
    assert!(!a.flags()[1].is_set);
    assert_eq!(read(text, &["-n", "10"]).get_integer_result("n").unwrap(), 10);
}

#[test]
fn a_bad_number_is_kept_until_it_is_asked_for() {
    let args = read("  -n (integer)\n  -m (integer)\n  <x> (float)", &["-n", "ten", "-m", "3", "1.2.3"]);
    assert_eq!(args.get_integer_result("m").unwrap(), 3);
    assert_eq!(
        message(args.get_integer_result("n")),
        "flag 'n': can't convert 'ten' to integer - invalid digit found in string"
    );
    assert_eq!(
        message(args.get_float_result("x")),
        "argument #1 'x': can't convert '1.2.3' to float - invalid float literal"
    );
    assert_eq!(args.flag_present("n").unwrap(), true);
}

#[test]
fn a_flag_without_default_that_is_not_given_is_required() {
    let args = read("  -s,--str (string)\n  -n (integer)\n  <a> (string)\n  <b> (float)", &["x"]);
    assert_eq!(message(args.get_string_result("str")), "flag 'str': is required");
    assert_eq!(message(args.get_integer_result("str")), "flag 'str': is required");
    assert_eq!(message(args.get_integer_result("n")), "flag 'n': is required");
    assert_eq!(message(args.get_float_result("b")), "argument #2 'b': is required");
    assert_eq!(message(args.get_strings_result("b")), "argument #2 'b': is required");
    assert_eq!(message(args.get_text_result("b")), "argument #2 'b': is required");
    assert_eq!(args.flag_present("str").unwrap(), false);
    assert_eq!(args.flag_present("a").unwrap(), true);
}

#[test]
fn scenario_errors_and_values() {
    let args = read(
        "
        testing
        -s,--str (string)
        <frodo> (float)
        <bonzo>... (integer)
    ",
        &["1", "10", "20", "30"],
    );
    assert_eq!(message(args.get_string_result("str")), "flag 'str': is required");
    assert_eq!(
        message(args.get_string_result("frodo")),
        "argument #1 'frodo': not a string, but float"
    );
    assert_eq!(args.get_float_result("frodo").unwrap().parse::<f64>().unwrap(), 1.0);
    assert_eq!(args.get_integers_result("bonzo").unwrap(), vec![10, 20, 30]);
}

#[test]
fn accessors_say_what_is_wrong() {
    let args = read(SIMPLE, &["-p", "1 2", "a", "b"]);
    assert_eq!(message(args.get_bool_result("nope")), "flag 'nope': is unknown");
    assert_eq!(message(args.get_integer_result("verbose")), "flag 'verbose': not a integer, but bool");
    assert_eq!(message(args.get_bool_result("in")), "argument #1 'in': not a boolean, but string");
    assert_eq!(message(args.get_infile_result("in")), "argument #1 'in': not a infile, but string");
    assert_eq!(
        message(args.get_outfile_result("output")),
        "flag 'output': not a not an outfile, but string"
    );
    assert_eq!(
        message(args.get_strings_result("p")),
        "flag 'p': wanted array of string, but is array of integer"
    );
    assert_eq!(
        message(args.get_floats_result("out")),
        "flag 'out': wanted array of float, but is array of string"
    );
    assert_eq!(message(args.get_integers_result("in")), "not a array, but string");
    assert_eq!(message(args.flag_present("nope")), "'nope' is not a flag");
    assert_eq!(args.get_strings_result("include").unwrap(), Vec::<String>::new());
    assert_eq!(args.get_integers_result("include").unwrap(), Vec::<i32>::new());
    assert_eq!(args.get_floats_result("include").unwrap(), Vec::<String>::new());
}

#[test]
fn files_are_named_not_opened() {
    let text = "  <in> (default stdin)\n  <out> (default stdout)";
    let none = read(text, &[]);
    assert!(matches!(none.get_infile_result("in").unwrap(), FileRef::Standard));
    assert!(matches!(none.get_outfile_result("out").unwrap(), FileRef::Standard));
    let both = read(text, &["a.txt", "b.txt"]);
    assert!(matches!(both.get_infile_result("in").unwrap(), FileRef::Path(p) if p == "a.txt"));
    assert!(matches!(both.get_outfile_result("out").unwrap(), FileRef::Path(p) if p == "b.txt"));
}

#[test]
fn floating_point_arrays_come_as_written() {
    let args = read("  -x (float...)\n  <y>... (float)", &["-x", "1.5,2e3", ".5", "7"]);
    assert_eq!(args.get_floats_result("x").unwrap(), vec!["1.5", "2e3"]);
    assert_eq!(args.get_floats_result("y").unwrap(), vec![".5", "7"]);
    let values: Vec<f64> =
        args.get_floats_result("x").unwrap().iter().map(|s| s.parse().unwrap()).collect();
    assert_eq!(values, vec![1.5, 2000.0]);
}

#[test]
fn text_is_the_first_argument_as_written() {
    let args = read("  -n (default 007)\n  -m (integer)\n  -I... (string)", &["-m", "0012"]);
    assert_eq!(args.get_text_result("m").unwrap(), "0012");
    assert_eq!(args.get_text_result("n").unwrap(), "007");
    assert_eq!(args.get_integer_result("n").unwrap(), 7);
    assert_eq!(message(args.get_text_result("I")), "flag 'I': is required");
    assert_eq!(message(args.get_text_result("zzz")), "flag 'zzz': is unknown");
}

#[test]
fn results_give_the_flag_and_its_value() {
    let args = read(SIMPLE, &["-k", "a"]);
    assert_eq!(args.result_flag_flag("k").unwrap().short, 'k');
    assert!(matches!(args.result_flag_value("k").unwrap(), Value::Bool(true)));
    assert_eq!(message(args.result_flag_flag("zzz").map(|_| ())), "flag 'zzz': is unknown");
    let none = read("  -r (string)", &[]);
    assert_eq!(message(none.result_flag_value("r").map(|_| ())), "flag 'r': is required");
}

#[test]
fn help_gives_the_usage_text_at_the_left_margin() {
    let mut args = declared("\n    Usage\n      -v  loud\n      <x> (string)\n");
    let parsed = args.parse_command_line(argv(&["--help"])).unwrap();
    assert!(matches!(parsed, Parsed::Help(text) if text == "Usage\n  -v  loud\n  <x> (string)\n"));
    assert!(args.flags()[1].value.is_none());
    let mut short = declared("  -v  loud");
    assert!(matches!(short.parse_command_line(argv(&["-vh"])).unwrap(), Parsed::Help(t) if t == "-v  loud\n"));
}

#[test]
fn custom_types_are_held_as_strings() {
    let mut args = Args::new("  --hex (hex)\n  --oct (oct default 17)");
    args.user_types(&["hex", "oct"]);
    args.parse_spec().unwrap();
    args.parse_command_line(argv(&["--hex", "FF"])).unwrap();
    assert_eq!(args.get_string_result("hex").unwrap(), "FF");
    assert_eq!(u64::from_str_radix(args.get_text_result("hex").unwrap(), 16).unwrap(), 255);
    assert_eq!(args.get_string_result("oct").unwrap(), "17");
}

#[test]
fn declarations_are_written_for_variables() {
    let mut args = Args::new("  -v, --verbose\n  -n, --lines (default 10)\n  <files> (string...)");
    let text = args.declarations("").unwrap();
    assert_eq!(
        text,
        "    let verbose = args.get_bool(\"verbose\");\n    let lines = args.get_integer(\"lines\");\n    let files = args.get_strings(\"files\");\n    let help = args.get_bool(\"help\");\n"
    );
}

#[test]
fn declarations_are_written_for_a_struct() {
    let usage = "  -n (default 10)\n  -p (float...)";
    let mut args = Args::new(usage);
    let text = args.declarations("Opts").unwrap();
    let want = "const USAGE: &'static str = \"\n  -n (default 10)\n  -p (float...)\";\n#[derive(Debug)]\nstruct Opts {\n\tn: i32,\n\tp: Vec<f32>,\n\thelp: bool,\n}\n\nimpl Opts {\n\tfn new() -> (Opts,lapp::Args<'static>) {\n\t\tlet args = lapp::parse_args(USAGE);\n\t\t(Opts{\n\t\t\tn: args.get_integer(\"n\"),\n\t\t\tp: args.get_floats(\"p\"),\n\t\t\thelp: args.get_bool(\"help\"),\n\t\t},args)\n\t}\n}\n\n";
    assert_eq!(text, want);
}

#[test]
fn declarations_fail_with_the_usage_text() {
    let mut args = Args::new("  -a (nothing)");
    assert_eq!(message(args.declarations("Opts")), "not a known type nothing");
}
