use lapp::types::LappError;
use lapp::{Args, Parsed};

const SIMPLE: &'static str = "
        Testing Lapp
          -v, --verbose verbose flag
          -k   arb flag
          -o, --output (default 'stdout')
          -p   (integer...)
          -I, --include... (string)
          <in> (string)
          <out> (string...)
    ";

fn arg_strings(a: &[&str]) -> Vec<String> {
    a.iter().map(|s| s.to_string()).collect()
}

fn empty_strings() -> Vec<String> {
    Vec::new()
}

fn parse_args(spec: &'static str, parms: &[&str]) -> Args<'static> {
    let mut args = Args::new(spec);
    args.parse_spec().expect("spec failed");
    let parsed = args.parse_command_line(arg_strings(parms)).expect("scan failed");
    assert!(matches!(parsed, Parsed::Ready));
    args
}

struct SimpleTest {
    verbose: bool,
    k: bool,
    output: String,
    p: Vec<i32>,
    included: Vec<String>,
    out: Vec<String>,
}

impl SimpleTest {
    fn new(test_args: &[&str]) -> SimpleTest {
        let args = parse_args(SIMPLE, test_args);
        SimpleTest {
            verbose: args.get_bool_result("verbose").unwrap(),
            k: args.get_bool_result("k").unwrap(),
            output: args.get_string_result("output").unwrap(),
            p: args.get_integers_result("p").unwrap(),
            included: args.get_strings_result("include").unwrap(),
            out: args.get_strings_result("out").unwrap(),
        }
    }
}

#[test]
fn test_simple_just_out() {
    let res = SimpleTest::new(&["boo", "hello"]);
    assert_eq!(res.verbose, false);
    assert_eq!(res.k, false);
    assert_eq!(res.output, "stdout");
    assert_eq!(res.p, &[]);
    assert_eq!(res.out, &["hello"]);
}

#[test]
fn test_simple_bool_flags() {
    let res = SimpleTest::new(&["boo", "-vk", "hello"]);
    assert_eq!(res.verbose, true);
    assert_eq!(res.k, true);
    assert_eq!(res.output, "stdout");
    assert_eq!(res.p, &[]);
    assert_eq!(res.out, &["hello"]);
}

#[test]
fn test_simple_array_flag() {
    let res = SimpleTest::new(&["boo", "-p", "10 20 30", "hello"]);
    assert_eq!(res.verbose, false);
    assert_eq!(res.k, false);
    assert_eq!(res.output, "stdout");
    assert_eq!(res.p, &[10, 20, 30]);
    assert_eq!(res.out, &["hello"]);
}

#[test]
fn test_simple_multiple_positional_args() {
    let res = SimpleTest::new(&["boo", "hello", "baggins", "--", "--frodo"]);
    assert_eq!(res.verbose, false);
    assert_eq!(res.k, false);
    assert_eq!(res.output, "stdout");
    assert_eq!(res.p, &[]);
    assert_eq!(res.included, empty_strings());
    assert_eq!(res.out, &["hello", "baggins", "--frodo"]);
}

#[test]
fn test_simple_multiple_flags() {
    let res = SimpleTest::new(&["boo", "-I.", "-I..", "--include", "lib", "hello"]);
    assert_eq!(res.verbose, false);
    assert_eq!(res.k, false);
    assert_eq!(res.output, "stdout");
    assert_eq!(res.p, &[]);
    assert_eq!(res.included, &[".", "..", "lib"]);
    assert_eq!(res.out, &["hello"]);
}

fn err<T>(r: Result<T, LappError>) -> String {
    r.err().unwrap().description().to_string()
}

fn ok<T>(r: Result<T, LappError>) -> T {
    r.unwrap()
}

static ERRS: &str = "
        testing lapp
        -s,--str (string)
        <frodo> (float)
        <bonzo>... (integer)
    ";

#[test]
fn test_errors_result() {
    let aa = parse_args(ERRS, &["1", "10", "20", "30"]);
    assert_eq!(err(aa.get_string_result("str")), "flag \'str\': is required");
    assert_eq!(
        err(aa.get_string_result("frodo")),
        "argument #1 \'frodo\': not a string, but float"
    );
    assert_eq!(ok(aa.get_float_result("frodo")).parse::<f32>().unwrap(), 1.0);
    assert_eq!(ok(aa.get_integers_result("bonzo")), [10, 20, 30]);
}

const CUSTOM: &str = "
        Custom types need to be given names
        so we accept them as valid:
        --hex (hex)
    ";

struct Hex {
    value: u64,
}

impl std::str::FromStr for Hex {
    type Err = std::num::ParseIntError;

    fn from_str(s: &str) -> Result<Self, Self::Err> {
        let value = u64::from_str_radix(s, 16)?;
        Ok(Hex { value: value })
    }
}

#[test]
fn test_custom() {
    let mut args = Args::new(CUSTOM);
    args.user_types(&["hex"]);
    args.parse_spec().expect("spec failed");
    args.parse_command_line(arg_strings(&["--hex", "FF"])).expect("scan failed");
    let hex: Hex = args.get_text_result("hex").unwrap().parse().unwrap();
    assert_eq!(hex.value, 0xFF);
}
