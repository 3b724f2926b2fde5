//! Types and values of flags, and the error that every fallible operation reports.

use vstd::prelude::*;
use vstd::string::*;
use vstd::std_specs::cmp::PartialEqSpecImpl;
use crate::chars::{char_is_digit, is_digit, lemma_run_bounds, run, run_length, CharClass};
use crate::number::{check_float, float_fault, int_of, parse_integer, FloatFault, IntFault};
use crate::strutil::{skip_spaces, texts};
use crate::text::{chars_of, contains_char, same_text};

verus! {

/// What went wrong, in words.
#[derive(Debug)]
pub struct LappError(pub String);

impl View for LappError {
    type V = Seq<char>;

    open spec fn view(&self) -> Seq<char> {
        self.0@
    }
}

impl LappError {
    /// The message.
    pub fn description(&self) -> (s: &str)
        ensures
            s@ == self@,
    {
        self.0.as_str()
    }
}

/// A result as contracts see it: the view of what succeeded, or the message of what failed.
pub open spec fn outcome<T: View>(r: Result<T, LappError>) -> Result<T::V, Seq<char>> {
    match r {
        Ok(v) => Ok(v@),
        Err(e) => Err(e@),
    }
}

/// Fails with `msg`.
pub fn error<T>(msg: &str) -> (r: Result<T, LappError>)
    ensures
        r matches Err(e) && e@ == msg@,
{
    Err(LappError(msg.to_owned()))
}

/// The shape that a flag expects of its value.
#[derive(Debug)]
pub enum Type {
    Str,
    Int,
    Float,
    Bool,
    FileIn,
    FileOut,
    /// No type: the flag has not been given one.
    Absent,
    Arr(Box<Type>),
    Error,
}

/// The type that a name in a type specifier stands for.
pub open spec fn type_named(s: Seq<char>) -> Option<Type> {
    if s == "string"@ {
        Some(Type::Str)
    } else if s == "integer"@ {
        Some(Type::Int)
    } else if s == "float"@ {
        Some(Type::Float)
    } else if s == "bool"@ {
        Some(Type::Bool)
    } else if s == "infile"@ {
        Some(Type::FileIn)
    } else if s == "outfile"@ {
        Some(Type::FileOut)
    } else {
        None
    }
}

/// The message for a name that stands for no type.
pub open spec fn unknown_type_message(s: Seq<char>) -> Seq<char> {
    "not a known type "@ + s
}

/// The name of a type as messages give it.
pub open spec fn short_name_of(t: Type) -> Seq<char>
    decreases t,
{
    match t {
        Type::Str => "string"@,
        Type::Int => "integer"@,
        Type::Float => "float"@,
        Type::Bool => "bool"@,
        Type::FileIn => "infile"@,
        Type::FileOut => "outfile"@,
        Type::Arr(inner) => "array of "@ + short_name_of(*inner),
        _ => "bad"@,
    }
}

/// The name of the variant of a type, with its element type in brackets for an array.
pub open spec fn variant_name_of(t: Type) -> Seq<char>
    decreases t,
{
    match t {
        Type::Str => "Str"@,
        Type::Int => "Int"@,
        Type::Float => "Float"@,
        Type::Bool => "Bool"@,
        Type::FileIn => "FileIn"@,
        Type::FileOut => "FileOut"@,
        Type::Absent => "Absent"@,
        Type::Arr(inner) => "Arr("@ + variant_name_of(*inner) + ")"@,
        Type::Error => "Error"@,
    }
}

/// The name of the type of the variable that holds a value of type `t`, without the list that
/// multiplicity wraps around it.
pub open spec fn plain_rust_name_of(t: Type) -> Seq<char>
    decreases t,
{
    match t {
        Type::Bool => "bool"@,
        Type::Float => "f32"@,
        Type::Int => "i32"@,
        Type::Str => "String"@,
        Type::FileIn => "Box<Read>"@,
        Type::FileOut => "Box<Write>"@,
        Type::Arr(inner) => "Vec<"@ + plain_rust_name_of(*inner) + ">"@,
        _ => "bad"@,
    }
}

/// The name of the type of the variable that holds a value of type `t`; a list of it where the
/// flag is `multiple`.
pub open spec fn rust_name_of(t: Type, multiple: bool) -> Seq<char> {
    if multiple {
        "Vec<"@ + plain_rust_name_of(t) + ">"@
    } else {
        plain_rust_name_of(t)
    }
}

/// Whether two types are the same.
pub fn same_type(a: &Type, b: &Type) -> (r: bool)
    ensures
        r == (*a == *b),
    decreases *a,
{
    match (a, b) {
        (Type::Str, Type::Str) => true,
        (Type::Int, Type::Int) => true,
        (Type::Float, Type::Float) => true,
        (Type::Bool, Type::Bool) => true,
        (Type::FileIn, Type::FileIn) => true,
        (Type::FileOut, Type::FileOut) => true,
        (Type::Absent, Type::Absent) => true,
        (Type::Error, Type::Error) => true,
        (Type::Arr(x), Type::Arr(y)) => same_type(x, y),
        _ => false,
    }
}

impl PartialEq for Type {
    fn eq(&self, other: &Type) -> (r: bool) {
        same_type(self, other)
    }
}

impl PartialEqSpecImpl for Type {
    open spec fn obeys_eq_spec() -> bool {
        true
    }

    open spec fn eq_spec(&self, other: &Type) -> bool {
        *self == *other
    }
}

impl Default for Type {
    fn default() -> (t: Type)
        ensures
            t == Type::Absent,
    {
        Type::Absent
    }
}

impl Type {
    /// The type that `s` names. Fails on a name that stands for none.
    pub fn from_name(s: &str) -> (r: Result<Type, LappError>)
        ensures
            match type_named(s@) {
                Some(t) => r == Ok::<Type, LappError>(t),
                None => r matches Err(e) && e@ == unknown_type_message(s@),
            },
    {
        if same_text(s, "string") {
            Ok(Type::Str)
        } else if same_text(s, "integer") {
            Ok(Type::Int)
        } else if same_text(s, "float") {
            Ok(Type::Float)
        } else if same_text(s, "bool") {
            Ok(Type::Bool)
        } else if same_text(s, "infile") {
            Ok(Type::FileIn)
        } else if same_text(s, "outfile") {
            Ok(Type::FileOut)
        } else {
            let mut msg = String::from_str("not a known type ");
            msg.append(s);
            Err(LappError(msg))
        }
    }

    /// The type of the elements, if this is an array type.
    pub fn array_type(&self) -> (r: Option<&Type>)
        ensures
            match *self {
                Type::Arr(inner) => r == Some(&*inner),
                _ => r is None,
            },
    {
        match self {
            Type::Arr(bt) => Some(&**bt),
            _ => None,
        }
    }

    /// The type of arrays of this type.
    pub fn create_empty_array(self) -> (t: Type)
        ensures
            t == Type::Arr(Box::new(self)),
    {
        Type::Arr(Box::new(self))
    }

    /// The name of the type as messages give it.
    pub fn short_name(&self) -> (s: String)
        ensures
            s@ == short_name_of(*self),
        decreases *self,
    {
        match self {
            Type::Str => String::from_str("string"),
            Type::Int => String::from_str("integer"),
            Type::Float => String::from_str("float"),
            Type::Bool => String::from_str("bool"),
            Type::FileIn => String::from_str("infile"),
            Type::FileOut => String::from_str("outfile"),
            Type::Arr(t) => {
                let mut s = String::from_str("array of ");
                let inner = t.short_name();
                s.append(inner.as_str());
                s
            },
            _ => String::from_str("bad"),
        }
    }

    /// The name of the variant, with the element type in brackets for an array.
    pub fn variant_name(&self) -> (s: String)
        ensures
            s@ == variant_name_of(*self),
        decreases *self,
    {
        match self {
            Type::Str => String::from_str("Str"),
            Type::Int => String::from_str("Int"),
            Type::Float => String::from_str("Float"),
            Type::Bool => String::from_str("Bool"),
            Type::FileIn => String::from_str("FileIn"),
            Type::FileOut => String::from_str("FileOut"),
            Type::Absent => String::from_str("Absent"),
            Type::Arr(t) => {
                let mut s = String::from_str("Arr(");
                let inner = t.variant_name();
                s.append(inner.as_str());
                s.append(")");
                s
            },
            Type::Error => String::from_str("Error"),
        }
    }

    /// The name of the type of the variable that holds a value of this type; a list of it where
    /// the flag is `multiple`.
    pub fn rust_name(&self, multiple: bool) -> (s: String)
        ensures
            s@ == rust_name_of(*self, multiple),
        decreases *self,
    {
        let res = match self {
            Type::Bool => String::from_str("bool"),
            Type::Float => String::from_str("f32"),
            Type::Int => String::from_str("i32"),
            Type::Str => String::from_str("String"),
            Type::FileIn => String::from_str("Box<Read>"),
            Type::FileOut => String::from_str("Box<Write>"),
            Type::Arr(t) => {
                let mut s = String::from_str("Vec<");
                let inner = t.rust_name(false);
                s.append(inner.as_str());
                s.append(">");
                s
            },
            _ => String::from_str("bad"),
        };
        if multiple {
            let mut s = String::from_str("Vec<");
            s.append(res.as_str());
            s.append(">");
            s
        } else {
            res
        }
    }
}

/// A value that a flag holds.
#[derive(Debug)]
pub enum Value {
    Str(String),
    Int(i32),
    /// A floating-point number, as it was written.
    Float(String),
    Bool(bool),
    /// A file to read: its path, or `stdin`.
    FileIn(String),
    /// A file to write: its path, or `stdout`.
    FileOut(String),
    /// No value.
    Absent,
    Arr(Vec<Box<Value>>),
    /// A value that could not be had, with the reason.
    Error(String),
}

/// A value as contracts see it.
pub enum ValueView {
    Str(Seq<char>),
    Int(i32),
    Float(Seq<char>),
    Bool(bool),
    FileIn(Seq<char>),
    FileOut(Seq<char>),
    Absent,
    Arr(Seq<ValueView>),
    Error(Seq<char>),
}

impl View for Value {
    type V = ValueView;

    open spec fn view(&self) -> ValueView
        decreases self, 0nat,
    {
        match self {
            Value::Str(s) => ValueView::Str(s@),
            Value::Int(n) => ValueView::Int(*n),
            Value::Float(s) => ValueView::Float(s@),
            Value::Bool(b) => ValueView::Bool(*b),
            Value::FileIn(s) => ValueView::FileIn(s@),
            Value::FileOut(s) => ValueView::FileOut(s@),
            Value::Absent => ValueView::Absent,
            Value::Arr(v) => ValueView::Arr(views_upto(*v, v@.len())),
            Value::Error(s) => ValueView::Error(s@),
        }
    }
}

/// The views of the first `n` values in a list.
pub open spec fn views_upto(v: Vec<Box<Value>>, n: nat) -> Seq<ValueView>
    decreases v, n,
{
    if n == 0 || n > v@.len() {
        seq![]
    } else {
        views_upto(v, (n - 1) as nat).push((*v@[n - 1]).view())
    }
}

/// The views of the values in a list.
pub open spec fn views(v: Seq<Box<Value>>) -> Seq<ValueView> {
    Seq::new(v.len(), |i: int| (*v[i])@)
}

/// A file that a flag names.
#[derive(Debug)]
pub enum FileRef {
    /// The standard stream of the process.
    Standard,
    /// The file at this path.
    Path(String),
}

/// A file reference as contracts see it.
pub enum FileRefView {
    Standard,
    Path(Seq<char>),
}

impl View for FileRef {
    type V = FileRefView;

    open spec fn view(&self) -> FileRefView {
        match self {
            FileRef::Standard => FileRefView::Standard,
            FileRef::Path(p) => FileRefView::Path(p@),
        }
    }
}

/// The file that `path` names, where `standard` is the name of the standard stream.
pub open spec fn file_ref_of(path: Seq<char>, standard: Seq<char>) -> FileRefView {
    if path == standard {
        FileRefView::Standard
    } else {
        FileRefView::Path(path)
    }
}

/// The type of a value. An array has the type of its first element; an empty one has elements
/// of no type.
pub open spec fn type_of_view(v: ValueView) -> Type
    decreases v,
{
    match v {
        ValueView::Str(_) => Type::Str,
        ValueView::Int(_) => Type::Int,
        ValueView::Float(_) => Type::Float,
        ValueView::Bool(_) => Type::Bool,
        ValueView::FileIn(_) => Type::FileIn,
        ValueView::FileOut(_) => Type::FileOut,
        ValueView::Absent => Type::Absent,
        ValueView::Error(_) => Type::Error,
        ValueView::Arr(vs) => Type::Arr(
            Box::new(
                if vs.len() > 0 {
                    type_of_view(vs[0])
                } else {
                    Type::Absent
                },
            ),
        ),
    }
}

/// The message of a value that is not of the kind asked for.
pub open spec fn type_error_message(kind: Seq<char>, v: ValueView) -> Seq<char> {
    "not a "@ + kind + ", but "@ + short_name_of(type_of_view(v))
}

/// What a fault in a whole number is called.
pub open spec fn int_fault_text(f: IntFault) -> Seq<char> {
    match f {
        IntFault::Empty => "cannot parse integer from empty string"@,
        IntFault::InvalidDigit => "invalid digit found in string"@,
        IntFault::PosOverflow => "number too large to fit in target type"@,
        IntFault::NegOverflow => "number too small to fit in target type"@,
    }
}

/// What a fault in a floating-point number is called.
pub open spec fn float_fault_text(f: FloatFault) -> Seq<char> {
    match f {
        FloatFault::Empty => "cannot parse float from empty string"@,
        FloatFault::Invalid => "invalid float literal"@,
    }
}

/// The message of a text that is no number of the kind `target`.
pub open spec fn conversion_message(s: Seq<char>, target: Seq<char>, reason: Seq<char>) -> Seq<
    char,
> {
    "can't convert '"@ + s + "' to "@ + target + " - "@ + reason
}

/// The message of a text that was to become a value of a type that no text can become.
pub open spec fn no_conversion_message(s: Seq<char>, t: Type) -> Seq<char> {
    "can't convert '"@ + s + "' to "@ + variant_name_of(t)
}

/// The parts of `s` between its commas.
pub open spec fn split_on_commas(s: Seq<char>) -> Seq<Seq<char>>
    decreases s.len(),
{
    let n = run(s, CharClass::Uncut) as int;
    if n >= s.len() {
        seq![s]
    } else {
        seq![s.take(n)] + split_on_commas(s.skip(n + 1))
    }
}

/// The words of `s`: what stands between its runs of white space.
pub open spec fn split_on_spaces(s: Seq<char>) -> Seq<Seq<char>>
    decreases s.len(),
{
    let t = skip_spaces(s);
    let n = run(t, CharClass::Visible) as int;
    if n == 0 {
        seq![]
    } else {
        proof {
            lemma_run_bounds(s, CharClass::Space);
            lemma_run_bounds(t, CharClass::Visible);
        }
        seq![t.take(n)] + split_on_spaces(t.skip(n))
    }
}

/// The items of a list written in one token: what stands between the commas if there is a
/// comma, else the words.
pub open spec fn split_list(s: Seq<char>) -> Seq<Seq<char>> {
    if s.contains(',') {
        split_on_commas(s)
    } else {
        split_on_spaces(s)
    }
}

/// The value that the text `s` gives for a flag of type `t`. A number that is badly written
/// gives an error value; a type that no text can become gives an error.
pub open spec fn coerce(t: Type, s: Seq<char>) -> Result<ValueView, Seq<char>>
    decreases t, 0nat,
{
    match t {
        Type::Str => Ok(ValueView::Str(s)),
        Type::Int => Ok(
            match int_of(s) {
                Ok(n) => ValueView::Int(n as i32),
                Err(f) => ValueView::Error(conversion_message(s, "integer"@, int_fault_text(f))),
            },
        ),
        Type::Float => Ok(
            match float_fault(s) {
                None => ValueView::Float(s),
                Some(f) => ValueView::Error(conversion_message(s, "float"@, float_fault_text(f))),
            },
        ),
        Type::FileIn => Ok(ValueView::FileIn(s)),
        Type::FileOut => Ok(ValueView::FileOut(s)),
        Type::Arr(inner) => coerce_each(*inner, split_list(s)),
        _ => Err(no_conversion_message(s, t)),
    }
}

/// The array of the values that `parts` give, each for type `t`; or what the first part that
/// gives no value of type `t` gives in its place.
pub open spec fn coerce_each(t: Type, parts: Seq<Seq<char>>) -> Result<ValueView, Seq<char>>
    decreases t, 1nat + parts.len(),
{
    if parts.len() == 0 {
        Ok(ValueView::Arr(seq![]))
    } else {
        match coerce_each(t, parts.drop_last()) {
            Ok(ValueView::Arr(vs)) => match coerce(t, parts.last()) {
                Ok(ValueView::Error(m)) => Ok(ValueView::Error(m)),
                Ok(v) => Ok(ValueView::Arr(vs.push(v))),
                Err(e) => Err(e),
            },
            other => other,
        }
    }
}

/// `s` without its first and its last character.
pub open spec fn unquoted(s: Seq<char>) -> Seq<char> {
    if s.len() >= 2 {
        s.subrange(1, s.len() - 1)
    } else {
        seq![]
    }
}

/// The value that a default written in the usage text stands for, by its form: a number where it
/// begins with a digit, a floating-point one if it holds a point; a string, without its first
/// and last character, where it begins with a quote; a standard stream where it names one; else
/// a string.
pub open spec fn literal_value(s: Seq<char>) -> Result<ValueView, Seq<char>> {
    if s.len() > 0 && is_digit(s[0]) {
        if s.contains('.') {
            coerce(Type::Float, s)
        } else {
            coerce(Type::Int, s)
        }
    } else if s.len() > 0 && s[0] == '\'' {
        Ok(ValueView::Str(unquoted(s)))
    } else if s == "stdin"@ {
        Ok(ValueView::FileIn(s))
    } else if s == "stdout"@ {
        Ok(ValueView::FileOut(s))
    } else {
        Ok(ValueView::Str(s))
    }
}

/// The text of a string value.
pub open spec fn string_in(v: ValueView) -> Result<Seq<char>, Seq<char>> {
    match v {
        ValueView::Str(s) => Ok(s),
        _ => Err(type_error_message("string"@, v)),
    }
}

/// The number of an integer value.
pub open spec fn int_in(v: ValueView) -> Result<i32, Seq<char>> {
    match v {
        ValueView::Int(n) => Ok(n),
        _ => Err(type_error_message("integer"@, v)),
    }
}

/// The numeral of a floating-point value.
pub open spec fn float_in(v: ValueView) -> Result<Seq<char>, Seq<char>> {
    match v {
        ValueView::Float(s) => Ok(s),
        _ => Err(type_error_message("float"@, v)),
    }
}

/// The truth of a boolean value.
pub open spec fn bool_in(v: ValueView) -> Result<bool, Seq<char>> {
    match v {
        ValueView::Bool(b) => Ok(b),
        _ => Err(type_error_message("boolean"@, v)),
    }
}

/// The file that an input value names.
pub open spec fn infile_in(v: ValueView) -> Result<FileRefView, Seq<char>> {
    match v {
        ValueView::FileIn(s) => Ok(file_ref_of(s, "stdin"@)),
        _ => Err(type_error_message("infile"@, v)),
    }
}

/// The file that an output value names.
pub open spec fn outfile_in(v: ValueView) -> Result<FileRefView, Seq<char>> {
    match v {
        ValueView::FileOut(s) => Ok(file_ref_of(s, "stdout"@)),
        _ => Err(type_error_message("not an outfile"@, v)),
    }
}

/// The elements of an array value.
pub open spec fn array_in(v: ValueView) -> Result<Seq<ValueView>, Seq<char>> {
    match v {
        ValueView::Arr(vs) => Ok(vs),
        _ => Err(type_error_message("array"@, v)),
    }
}

/// The views of the first values of a list, taken one by one, are the first of its views.
pub proof fn lemma_views_upto(v: Vec<Box<Value>>, n: nat)
    requires
        n <= v@.len(),
    ensures
        views_upto(v, n) == views(v@).take(n as int),
    decreases n,
{
    if n > 0 {
        lemma_views_upto(v, (n - 1) as nat);
        assert(views(v@).take(n as int) =~= views(v@).take(n - 1).push((*v@[n - 1])@));
    } else {
        assert(views(v@).take(0) =~= seq![]);
    }
}

/// The view of an array is the array of the views.
pub proof fn lemma_array_view(v: Vec<Box<Value>>)
    ensures
        Value::Arr(v)@ == ValueView::Arr(views(v@)),
{
    lemma_views_upto(v, v@.len());
    assert(views(v@).take(v@.len() as int) =~= views(v@));
}

/// Once a part has given no value of type `t`, the parts behind it change nothing.
pub proof fn lemma_coerce_each_stops(t: Type, parts: Seq<Seq<char>>, n: int)
    requires
        0 <= n <= parts.len(),
        !(coerce_each(t, parts.take(n)) matches Ok(ValueView::Arr(_))),
    ensures
        coerce_each(t, parts) == coerce_each(t, parts.take(n)),
    decreases parts.len() - n,
{
    if n < parts.len() {
        assert(parts.take(n + 1).drop_last() =~= parts.take(n));
        lemma_coerce_each_stops(t, parts, n + 1);
    } else {
        assert(parts.take(n) =~= parts);
    }
}

/// The message of a text that is no number of the kind `target`.
fn conversion_error(s: &str, target: &str, reason: &str) -> (msg: String)
    ensures
        msg@ == conversion_message(s@, target@, reason@),
{
    let mut msg = String::from_str("can't convert '");
    msg.append(s);
    msg.append("' to ");
    msg.append(target);
    msg.append(" - ");
    msg.append(reason);
    msg
}

impl IntFault {
    /// What the fault is called.
    pub fn text(self) -> (s: &'static str)
        ensures
            s@ == int_fault_text(self),
    {
        match self {
            IntFault::Empty => "cannot parse integer from empty string",
            IntFault::InvalidDigit => "invalid digit found in string",
            IntFault::PosOverflow => "number too large to fit in target type",
            IntFault::NegOverflow => "number too small to fit in target type",
        }
    }
}

impl FloatFault {
    /// What the fault is called.
    pub fn text(self) -> (s: &'static str)
        ensures
            s@ == float_fault_text(self),
    {
        match self {
            FloatFault::Empty => "cannot parse float from empty string",
            FloatFault::Invalid => "invalid float literal",
        }
    }
}

/// Splits `s` at its commas.
fn split_commas<'a>(s: &'a str) -> (parts: Vec<&'a str>)
    ensures
        texts(parts@) == split_on_commas(s@),
{
    let v = chars_of(s);
    let mut parts: Vec<&'a str> = Vec::new();
    let mut start: usize = 0;
    proof {
        assert(v@.skip(0) =~= v@);
        assert(texts(parts@) + split_on_commas(v@) =~= split_on_commas(v@));
    }
    loop
        invariant
            start <= v.len(),
            v@ == s@,
            split_on_commas(s@) == texts(parts@) + split_on_commas(v@.skip(start as int)),
        decreases v.len() - start,
    {
        let ghost rest = v@.skip(start as int);
        let ghost before = texts(parts@);
        let n = run_length(&v, start, CharClass::Uncut);
        parts.push(s.substring_char(start, start + n));
        if start + n == v.len() {
            proof {
                assert(s@.subrange(start as int, start + n) =~= rest);
                assert(texts(parts@) =~= before + seq![rest]);
            }
            return parts;
        }
        proof {
            assert(s@.subrange(start as int, start + n) =~= rest.take(n as int));
            assert(texts(parts@) =~= before + seq![rest.take(n as int)]);
            assert(rest.skip(n + 1) =~= v@.skip(start + n + 1));
        }
        start = start + n + 1;
    }
}

/// Splits `s` into its words.
fn split_spaces<'a>(s: &'a str) -> (parts: Vec<&'a str>)
    ensures
        texts(parts@) == split_on_spaces(s@),
{
    let v = chars_of(s);
    let mut parts: Vec<&'a str> = Vec::new();
    let mut start: usize = 0;
    proof {
        assert(v@.skip(0) =~= v@);
        assert(texts(parts@) + split_on_spaces(v@) =~= split_on_spaces(v@));
    }
    loop
        invariant
            start <= v.len(),
            v@ == s@,
            split_on_spaces(s@) == texts(parts@) + split_on_spaces(v@.skip(start as int)),
        decreases v.len() - start,
    {
        let ghost rest = v@.skip(start as int);
        let ghost before = texts(parts@);
        let a = run_length(&v, start, CharClass::Space);
        let n = run_length(&v, start + a, CharClass::Visible);
        proof {
            assert(skip_spaces(rest) =~= v@.skip(start + a));
        }
        if n == 0 {
            proof {
                assert(texts(parts@) + Seq::<Seq<char>>::empty() =~= texts(parts@));
            }
            return parts;
        }
        parts.push(s.substring_char(start + a, start + a + n));
        proof {
            let t = skip_spaces(rest);
            assert(s@.subrange(start + a, start + a + n) =~= t.take(n as int));
            assert(texts(parts@) =~= before + seq![t.take(n as int)]);
            assert(t.skip(n as int) =~= v@.skip(start + a + n));
        }
        start = start + a + n;
    }
}

/// Splits a list written in one token into its items.
pub fn split_items<'a>(s: &'a str) -> (parts: Vec<&'a str>)
    ensures
        texts(parts@) == split_list(s@),
{
    let v = chars_of(s);
    if contains_char(&v, ',') {
        split_commas(s)
    } else {
        split_spaces(s)
    }
}

impl Type {
    /// Reads `s` as a value of this type. A number that is badly written gives an error value;
    /// a list gives what its first bad item gives; a type that no text can become is an error.
    pub fn parse_string(&self, s: &str) -> (r: Result<Value, LappError>)
        ensures
            outcome(r) == coerce(*self, s@),
        decreases *self,
    {
        match self {
            Type::Str => Ok(Value::Str(s.to_owned())),
            Type::Int => match parse_integer(s) {
                Ok(n) => Ok(Value::Int(n)),
                Err(f) => Ok(Value::Error(conversion_error(s, "integer", f.text()))),
            },
            Type::Float => match check_float(s) {
                None => Ok(Value::Float(s.to_owned())),
                Some(f) => Ok(Value::Error(conversion_error(s, "float", f.text()))),
            },
            Type::FileIn => Ok(Value::FileIn(s.to_owned())),
            Type::FileOut => Ok(Value::FileOut(s.to_owned())),
            Type::Arr(bt) => {
                let parts = split_items(s);
                let ghost items = texts(parts@);
                let mut res: Vec<Box<Value>> = Vec::new();
                let mut i: usize = 0;
                proof {
                    assert(views(res@) =~= seq![]);
                }
                while i < parts.len()
                    invariant
                        i <= parts.len(),
                        items == texts(parts@),
                        items == split_list(s@),
                        *self == Type::Arr(*bt),
                        coerce_each(**bt, items.take(i as int)) == Ok::<ValueView, Seq<char>>(
                            ValueView::Arr(views(res@)),
                        ),
                    decreases parts.len() - i,
                {
                    let ghost before = views(res@);
                    proof {
                        assert(items.take(i + 1).drop_last() =~= items.take(i as int));
                        assert(items.take(i + 1).last() == parts@[i as int]@);
                    }
                    match bt.parse_string(parts[i]) {
                        Err(e) => {
                            proof {
                                lemma_coerce_each_stops(**bt, items, i + 1);
                            }
                            return Err(e);
                        },
                        Ok(Value::Error(m)) => {
                            proof {
                                lemma_coerce_each_stops(**bt, items, i + 1);
                            }
                            return Ok(Value::Error(m));
                        },
                        Ok(v) => {
                            res.push(Box::new(v));
                            proof {
                                assert(views(res@) =~= before.push(v@));
                            }
                        },
                    }
                    i += 1;
                }
                proof {
                    assert(items.take(i as int) =~= items);
                    lemma_array_view(res);
                }
                Ok(Value::Arr(res))
            },
            _ => {
                let mut msg = String::from_str("can't convert '");
                msg.append(s);
                msg.append("' to ");
                let name = self.variant_name();
                msg.append(name.as_str());
                Err(LappError(msg))
            },
        }
    }
}

impl Default for Value {
    fn default() -> (v: Value)
        ensures
            v@ == ValueView::Absent,
    {
        Value::Absent
    }
}

impl Clone for Value {
    fn clone(&self) -> (r: Value)
        ensures
            r@ == self@,
        decreases self,
    {
        match self {
            Value::Str(s) => Value::Str(s.clone()),
            Value::Int(n) => Value::Int(*n),
            Value::Float(s) => Value::Float(s.clone()),
            Value::Bool(b) => Value::Bool(*b),
            Value::FileIn(s) => Value::FileIn(s.clone()),
            Value::FileOut(s) => Value::FileOut(s.clone()),
            Value::Absent => Value::Absent,
            Value::Arr(v) => {
                let mut res: Vec<Box<Value>> = Vec::new();
                let mut i: usize = 0;
                while i < v.len()
                    invariant
                        i <= v.len(),
                        *self == Value::Arr(*v),
                        res.len() == i,
                        forall|j: int| 0 <= j < i ==> (*res@[j])@ == (*v@[j])@,
                    decreases v.len() - i,
                {
                    let item: &Value = &v[i];
                    proof {
                        assert(decreases_to!(*self => self->Arr_0));
                    }
                    res.push(Box::new(item.clone()));
                    i += 1;
                }
                proof {
                    lemma_array_view(res);
                    lemma_array_view(*v);
                    assert(views(res@) =~= views(v@));
                }
                Value::Arr(res)
            },
            Value::Error(s) => Value::Error(s.clone()),
        }
    }
}

impl Value {
    /// Fails because the value is not of the kind asked for.
    fn type_error<T>(&self, kind: &str) -> (r: Result<T, LappError>)
        ensures
            r matches Err(e) && e@ == type_error_message(kind@, self@),
    {
        let mut msg = String::from_str("not a ");
        msg.append(kind);
        msg.append(", but ");
        let name = self.type_of().short_name();
        msg.append(name.as_str());
        Err(LappError(msg))
    }

    /// The text, if this is a string.
    pub fn as_string(&self) -> (r: Result<String, LappError>)
        ensures
            outcome(r) == string_in(self@),
    {
        match self {
            Value::Str(s) => Ok(s.clone()),
            _ => self.type_error("string"),
        }
    }

    /// The number, if this is an integer.
    pub fn as_int(&self) -> (r: Result<i32, LappError>)
        ensures
            outcome(r) == int_in(self@),
    {
        match self {
            Value::Int(n) => Ok(*n),
            _ => self.type_error("integer"),
        }
    }

    /// The numeral, if this is a floating-point number.
    pub fn as_float(&self) -> (r: Result<String, LappError>)
        ensures
            outcome(r) == float_in(self@),
    {
        match self {
            Value::Float(s) => Ok(s.clone()),
            _ => self.type_error("float"),
        }
    }

    /// The truth value, if this is a boolean.
    pub fn as_bool(&self) -> (r: Result<bool, LappError>)
        ensures
            outcome(r) == bool_in(self@),
    {
        match self {
            Value::Bool(b) => Ok(*b),
            _ => self.type_error("boolean"),
        }
    }

    /// The file to read, if this is an input file: standard input for `stdin`, else the file at
    /// the path.
    pub fn as_infile(&self) -> (r: Result<FileRef, LappError>)
        ensures
            outcome(r) == infile_in(self@),
    {
        match self {
            Value::FileIn(s) => {
                if same_text(s.as_str(), "stdin") {
                    Ok(FileRef::Standard)
                } else {
                    Ok(FileRef::Path(s.clone()))
                }
            },
            _ => self.type_error("infile"),
        }
    }

    /// The file to write, if this is an output file: standard output for `stdout`, else the file
    /// at the path.
    pub fn as_outfile(&self) -> (r: Result<FileRef, LappError>)
        ensures
            outcome(r) == outfile_in(self@),
    {
        match self {
            Value::FileOut(s) => {
                if same_text(s.as_str(), "stdout") {
                    Ok(FileRef::Standard)
                } else {
                    Ok(FileRef::Path(s.clone()))
                }
            },
            _ => self.type_error("not an outfile"),
        }
    }

    /// The elements, if this is an array.
    pub fn as_array(&self) -> (r: Result<&Vec<Box<Value>>, LappError>)
        ensures
            match *self {
                Value::Arr(v) => r matches Ok(a) && *a == v,
                _ => r matches Err(e) && e@ == type_error_message("array"@, self@),
            },
    {
        match self {
            Value::Arr(vi) => Ok(vi),
            _ => self.type_error("array"),
        }
    }

    /// The type of the value. An array has the type of its first element; an empty one has
    /// elements of no type.
    pub fn type_of(&self) -> (t: Type)
        ensures
            t == type_of_view(self@),
        decreases self,
    {
        match self {
            Value::Str(_) => Type::Str,
            Value::Int(_) => Type::Int,
            Value::Float(_) => Type::Float,
            Value::Bool(_) => Type::Bool,
            Value::FileIn(_) => Type::FileIn,
            Value::FileOut(_) => Type::FileOut,
            Value::Absent => Type::Absent,
            Value::Error(_) => Type::Error,
            Value::Arr(v) => {
                proof {
                    lemma_array_view(*v);
                }
                if v.len() > 0 {
                    let first: &Value = &v[0];
                    Type::Arr(Box::new(first.type_of()))
                } else {
                    Type::Arr(Box::new(Type::Absent))
                }
            },
        }
    }

    /// The value that a default written in the usage text stands for, told by its form.
    pub fn from_value(val: &str) -> (r: Result<Value, LappError>)
        ensures
            outcome(r) == literal_value(val@),
    {
        let v = chars_of(val);
        if v.len() > 0 && char_is_digit(v[0]) {
            if contains_char(&v, '.') {
                Type::Float.parse_string(val)
            } else {
                Type::Int.parse_string(val)
            }
        } else if v.len() > 0 && v[0] == '\'' {
            if v.len() >= 2 {
                Ok(Value::Str(val.substring_char(1, v.len() - 1).to_owned()))
            } else {
                Ok(Value::Str(String::new()))
            }
        } else if same_text(val, "stdin") {
            Ok(Value::FileIn(val.to_owned()))
        } else if same_text(val, "stdout") {
            Ok(Value::FileOut(val.to_owned()))
        } else {
            Ok(Value::Str(val.to_owned()))
        }
    }

    /// The array without elements.
    pub fn empty_array() -> (v: Value)
        ensures
            v@ == ValueView::Arr(Seq::<ValueView>::empty()),
    {
        let empty: Vec<Box<Value>> = Vec::new();
        proof {
            lemma_array_view(empty);
            assert(views(empty@) =~= Seq::<ValueView>::empty());
        }
        Value::Arr(empty)
    }

    /// Whether this is no value.
    pub fn is_none(&self) -> (b: bool)
        ensures
            b == (self@ is Absent),
    {
        match self {
            Value::Absent => true,
            _ => false,
        }
    }
}

} // verus!
