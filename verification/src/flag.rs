//! One declared flag or positional argument: what it expects, what it holds, and how a value
//! gets into it.

use vstd::prelude::*;
use vstd::string::*;
use crate::chars::{char_is_digit, is_digit};
use crate::text::{
    chars_of, lowercase, lowercased, push_signed_decimal, signed_decimal, string_views,
};
use crate::types::{
    coerce, error, lemma_array_view, literal_value, outcome, rust_name_of, short_name_of,
    type_of_view, views, LappError, Type, Value, ValueView,
};

verus! {

/// A condition on the values that a flag accepts.
#[derive(Debug)]
pub enum Constraint {
    /// Whole numbers from `low` to `high`, both included, for the flag called `name`.
    IntRange { name: String, low: i32, high: i32 },
    /// Floating-point numbers from `lower` to `upper`, both as they were written, for the flag
    /// called `name`. The bounds are kept for the caller, who can compare such numbers.
    FloatRange { name: String, lower: String, upper: String },
}

/// A constraint as contracts see it.
pub enum ConstraintView {
    IntRange { name: Seq<char>, low: i32, high: i32 },
    FloatRange { name: Seq<char>, lower: Seq<char>, upper: Seq<char> },
}

impl View for Constraint {
    type V = ConstraintView;

    open spec fn view(&self) -> ConstraintView {
        match self {
            Constraint::IntRange { name, low, high } => ConstraintView::IntRange {
                name: name@,
                low: *low,
                high: *high,
            },
            Constraint::FloatRange { name, lower, upper } => ConstraintView::FloatRange {
                name: name@,
                lower: lower@,
                upper: upper@,
            },
        }
    }
}

/// A constraint that may be there, as contracts see it.
pub open spec fn constraint_view(c: Option<Constraint>) -> Option<ConstraintView> {
    match c {
        Some(c) => Some(c@),
        None => None,
    }
}

/// A declared flag or positional argument.
pub struct Flag {
    /// The long name; for a flag with a short name only, that name.
    pub long: String,
    /// The short name, or `'\0'` if there is none.
    pub short: char,
    pub vtype: Type,
    pub value: Value,
    /// The default, or no value if the flag has none.
    pub defval: Value,
    pub is_set: bool,
    /// Whether the flag may occur more than once; for a positional argument, whether it takes
    /// all the arguments that remain.
    pub is_multiple: bool,
    /// 0 for a flag; for a positional argument its place, counted from 1.
    pub pos: usize,
    pub help: String,
    pub constraint: Option<Constraint>,
    /// The arguments given to the flag, as they were written.
    pub strings: Vec<String>,
    /// The default, as it was written.
    pub defstr: String,
}

/// A flag as contracts see it.
pub struct FlagView {
    pub long: Seq<char>,
    pub short: char,
    pub vtype: Type,
    pub value: ValueView,
    pub defval: ValueView,
    pub is_set: bool,
    pub is_multiple: bool,
    pub pos: usize,
    pub help: Seq<char>,
    pub constraint: Option<ConstraintView>,
    pub strings: Seq<Seq<char>>,
    pub defstr: Seq<char>,
}

impl View for Flag {
    type V = FlagView;

    open spec fn view(&self) -> FlagView {
        FlagView {
            long: self.long@,
            short: self.short,
            vtype: self.vtype,
            value: self.value@,
            defval: self.defval@,
            is_set: self.is_set,
            is_multiple: self.is_multiple,
            pos: self.pos,
            help: self.help@,
            constraint: constraint_view(self.constraint),
            strings: string_views(self.strings@),
            defstr: self.defstr@,
        }
    }
}

/// The flag that nothing has been said of yet.
pub open spec fn blank_flag() -> FlagView {
    FlagView {
        long: seq![],
        short: '\0',
        vtype: Type::Absent,
        value: ValueView::Absent,
        defval: ValueView::Absent,
        is_set: false,
        is_multiple: false,
        pos: 0,
        help: seq![],
        constraint: None,
        strings: seq![],
        defstr: seq![],
    }
}

/// What an operation that may fail leaves behind: the state, changed as far as the operation
/// came, and the message if it failed.
pub struct Attempt<S> {
    pub state: S,
    pub error: Option<Seq<char>>,
}

/// The error of a result, as contracts see it.
pub open spec fn error_of<T>(r: Result<T, LappError>) -> Option<Seq<char>> {
    match r {
        Ok(_) => None,
        Err(e) => Some(e@),
    }
}

/// The message of a number outside its range.
pub open spec fn range_message(name: Seq<char>, low: int, high: int) -> Seq<char> {
    "flag '"@ + name + "' out of range "@ + signed_decimal(low) + ".."@ + signed_decimal(high)
}

/// The value `v` as the constraint lets it through. A whole number outside an integer range is
/// an error; every other value passes as it is.
pub open spec fn constrained(c: Option<ConstraintView>, v: ValueView) -> Result<
    ValueView,
    Seq<char>,
> {
    match (c, v) {
        (Some(ConstraintView::IntRange { name, low, high }), ValueView::Int(i)) => {
            if i < low || i > high {
                Err(range_message(name, low as int, high as int))
            } else {
                Ok(v)
            }
        },
        _ => Ok(v),
    }
}

/// The message of a second value for a flag that takes one.
pub open spec fn already_message(long: Seq<char>) -> Seq<char> {
    "flag already specified "@ + long
}

/// The value `held` with `v` at its end, if it is an array; else `held`.
pub open spec fn appended(held: ValueView, v: ValueView) -> ValueView {
    match held {
        ValueView::Arr(a) => ValueView::Arr(a.push(v)),
        other => other,
    }
}

/// The flag after `v` was given to it. A flag that takes one value and has one refuses; one that
/// takes several puts `v` behind those it has.
pub open spec fn with_value(f: FlagView, v: ValueView) -> Attempt<FlagView> {
    if f.is_set && !f.is_multiple {
        Attempt { state: f, error: Some(already_message(f.long)) }
    } else {
        Attempt {
            state: FlagView {
                is_set: true,
                value: if f.is_multiple {
                    appended(f.value, v)
                } else {
                    v
                },
                ..f
            },
            error: None,
        }
    }
}

/// The flag after the argument `arg` was given to it: read by the flag's type, held against its
/// constraint, then stored.
pub open spec fn with_argument(f: FlagView, arg: Seq<char>) -> Attempt<FlagView> {
    match coerce(f.vtype, arg) {
        Err(e) => Attempt { state: f, error: Some(e) },
        Ok(v) => match constrained(f.constraint, v) {
            Err(e) => Attempt { state: f, error: Some(e) },
            Ok(v) => with_value(FlagView { strings: f.strings.push(arg), ..f }, v),
        },
    }
}

/// The value that the argument `arg` gives to the flag `f`, where it gives one: `arg` read by
/// the flag's type and let through by its constraint.
pub open spec fn coerced_value(f: FlagView, arg: Seq<char>) -> ValueView
    recommends
        with_argument(f, arg).error is None,
{
    constrained(f.constraint, coerce(f.vtype, arg)->Ok_0)->Ok_0
}

/// The flag after `arg` was made its default; with `infer` the flag takes the type that the form
/// of `arg` shows, else `arg` is read by the type that the flag has.
pub open spec fn with_default(f: FlagView, arg: Seq<char>, infer: bool) -> Attempt<FlagView> {
    let named = FlagView { defstr: arg, ..f };
    let read = if infer {
        literal_value(arg)
    } else {
        coerce(f.vtype, arg)
    };
    match read {
        Err(e) => Attempt { state: named, error: Some(e) },
        Ok(v) => Attempt {
            state: FlagView {
                defval: v,
                vtype: if infer {
                    type_of_view(v)
                } else {
                    f.vtype
                },
                ..named
            },
            error: None,
        },
    }
}

/// The flag after the bounds `b1` and `b2` were set on it. Both must be whole numbers, or both
/// floating-point numbers; the flag takes their type.
pub open spec fn with_range(f: FlagView, b1: Seq<char>, b2: Seq<char>) -> Attempt<FlagView> {
    match (literal_value(b1), literal_value(b2)) {
        (Ok(ValueView::Int(low)), Ok(ValueView::Int(high))) => Attempt {
            state: FlagView {
                vtype: Type::Int,
                constraint: Some(ConstraintView::IntRange { name: f.long, low, high }),
                ..f
            },
            error: None,
        },
        (Ok(ValueView::Float(lower)), Ok(ValueView::Float(upper))) => Attempt {
            state: FlagView {
                vtype: Type::Float,
                constraint: Some(ConstraintView::FloatRange { name: f.long, lower, upper }),
                ..f
            },
            error: None,
        },
        (Ok(v1), Ok(v2)) => Attempt {
            state: f,
            error: Some(
                if type_of_view(v1) != type_of_view(v2) {
                    "range values must be same type"@
                } else {
                    "range values must be integer or float"@
                },
            ),
        },
        (Err(e), _) => Attempt { state: f, error: Some(e) },
        (_, Err(e)) => Attempt { state: f, error: Some(e) },
    }
}

/// The flag after the command line has been read: one that was not given takes its default, if
/// it has one.
pub open spec fn checked(f: FlagView) -> FlagView {
    if !f.is_set && !(f.defval is Absent) {
        FlagView { value: f.defval, strings: f.strings.push(f.defstr), ..f }
    } else {
        f
    }
}

/// The flag as it was before any argument was given to it.
pub open spec fn cleared(f: FlagView) -> FlagView {
    FlagView { is_set: false, strings: seq![], value: ValueView::Absent, ..f }
}

/// `s` with `_` in place of every `-`.
pub open spec fn underscored(s: Seq<char>) -> Seq<char> {
    Seq::new(
        s.len(),
        |i: int|
            if s[i] == '-' {
                '_'
            } else {
                s[i]
            },
    )
}

/// The name of the variable that holds the flag: the long name in lower case with `_` for `-`,
/// and `c_` before it where it would begin with a digit or with `_`.
pub open spec fn variable_name(long: Seq<char>) -> Seq<char> {
    let name = lowercased(underscored(long));
    if name.len() > 0 && (is_digit(name[0]) || name[0] == '_') {
        "c_"@ + name
    } else {
        name
    }
}

/// The name of the kind of value that the getter of a flag returns: that of the elements, with
/// `s` behind it, for an array type or a flag that takes several values.
pub open spec fn getter_kind(vtype: Type, is_multiple: bool) -> Seq<char> {
    match vtype {
        Type::Arr(inner) => short_name_of(*inner) + "s"@,
        _ => if is_multiple {
            short_name_of(vtype).push('s')
        } else {
            short_name_of(vtype)
        },
    }
}

/// The call that gets the value of a flag.
pub open spec fn getter_call(f: FlagView) -> Seq<char> {
    "args.get_"@ + getter_kind(f.vtype, f.is_multiple) + "(\""@ + f.long + "\")"@
}

impl Constraint {
    /// Lets `v` through, or refuses it. A whole number outside an integer range is refused;
    /// every other value passes as it is.
    pub fn check(&self, v: Value) -> (r: Result<Value, LappError>)
        ensures
            outcome(r) == constrained(Some(self@), v@),
    {
        match self {
            Constraint::IntRange { name, low, high } => {
                match v {
                    Value::Int(i) => {
                        if i < *low || i > *high {
                            let mut msg = String::from_str("flag '");
                            msg.append(name.as_str());
                            msg.append("' out of range ");
                            push_signed_decimal(&mut msg, *low);
                            msg.append("..");
                            push_signed_decimal(&mut msg, *high);
                            Err(LappError(msg))
                        } else {
                            Ok(Value::Int(i))
                        }
                    },
                    other => Ok(other),
                }
            },
            Constraint::FloatRange { .. } => Ok(v),
        }
    }
}

impl Default for Flag {
    fn default() -> (f: Flag)
        ensures
            f@ == blank_flag(),
    {
        let f = Flag {
            long: String::new(),
            short: '\0',
            vtype: Type::Absent,
            value: Value::Absent,
            defval: Value::Absent,
            is_set: false,
            is_multiple: false,
            pos: 0,
            help: String::new(),
            constraint: None,
            strings: Vec::new(),
            defstr: String::new(),
        };
        proof {
            assert(string_views(f.strings@) =~= seq![]);
            assert(f.long@ =~= seq![]);
            assert(f.help@ =~= seq![]);
            assert(f.defstr@ =~= seq![]);
        }
        f
    }
}

impl Flag {
    /// Gives the flag the argument `arg`: reads it by the flag's type, holds it against the
    /// constraint, and stores it.
    pub fn set_value_from_string(&mut self, arg: &str) -> (r: Result<(), LappError>)
        ensures
            final(self)@ == with_argument(old(self)@, arg@).state,
            error_of(r) == with_argument(old(self)@, arg@).error,
    {
        let mut v = self.vtype.parse_string(arg)?;
        match &self.constraint {
            Some(constraint) => {
                v = constraint.check(v)?;
            },
            None => {},
        }
        let ghost before = self.strings@;
        self.strings.push(arg.to_owned());
        proof {
            assert(string_views(self.strings@) =~= string_views(before).push(arg@));
        }
        self.set_value(v)
    }

    /// Makes `arg` the default of the flag. With `infer` the flag takes the type that the form
    /// of `arg` shows; else `arg` is read by the type that the flag has.
    pub fn set_default_from_string(&mut self, arg: &str, infer: bool) -> (r: Result<
        (),
        LappError,
    >)
        ensures
            final(self)@ == with_default(old(self)@, arg@, infer).state,
            error_of(r) == with_default(old(self)@, arg@, infer).error,
    {
        self.defstr = arg.to_owned();
        if infer {
            self.defval = Value::from_value(arg)?;
            self.vtype = self.defval.type_of();
        } else {
            self.defval = self.vtype.parse_string(arg)?;
        }
        Ok(())
    }

    /// Sets the bounds `b1` and `b2` on the values of the flag, which takes their type. Both
    /// must be whole numbers, or both floating-point numbers.
    pub fn set_range_constraint(&mut self, b1: &str, b2: &str) -> (r: Result<(), LappError>)
        ensures
            final(self)@ == with_range(old(self)@, b1@, b2@).state,
            error_of(r) == with_range(old(self)@, b1@, b2@).error,
    {
        let v1 = Value::from_value(b1)?;
        let v2 = Value::from_value(b2)?;
        match (v1, v2) {
            (Value::Int(low), Value::Int(high)) => {
                self.vtype = Type::Int;
                self.constraint = Some(
                    Constraint::IntRange { name: self.long.clone(), low, high },
                );
                Ok(())
            },
            (Value::Float(lower), Value::Float(upper)) => {
                self.vtype = Type::Float;
                self.constraint = Some(
                    Constraint::FloatRange { name: self.long.clone(), lower, upper },
                );
                Ok(())
            },
            (v1, v2) => {
                if v1.type_of() != v2.type_of() {
                    error("range values must be same type")
                } else {
                    error("range values must be integer or float")
                }
            },
        }
    }

    /// Stores `v` in the flag. A flag that takes one value and has one refuses; one that takes
    /// several puts `v` behind those it has.
    pub fn set_value(&mut self, v: Value) -> (r: Result<(), LappError>)
        ensures
            final(self)@ == with_value(old(self)@, v@).state,
            error_of(r) == with_value(old(self)@, v@).error,
    {
        if self.is_set && !self.is_multiple {
            let mut msg = String::from_str("flag already specified ");
            msg.append(self.long.as_str());
            return Err(LappError(msg));
        }
        self.is_set = true;
        if !self.is_multiple {
            self.value = v;
        } else {
            match &mut self.value {
                Value::Arr(arr) => {
                    let ghost before = *arr;
                    arr.push(Box::new(v));
                    proof {
                        lemma_array_view(before);
                        lemma_array_view(*arr);
                        assert(views(arr@) =~= views(before@).push(v@));
                    }
                },
                _ => {},
            }
        }
        Ok(())
    }

    /// The place of a positional argument; nothing for a flag.
    pub fn position(&self) -> (p: Option<usize>)
        ensures
            p == if self.pos > 0 {
                Some(self.pos)
            } else {
                None
            },
    {
        if self.pos > 0 {
            Some(self.pos)
        } else {
            None
        }
    }

    /// Closes the reading of the command line for this flag: if it was not given, it takes its
    /// default, if it has one. A flag without a default stays without a value.
    pub fn check(&mut self) -> (r: Result<(), LappError>)
        ensures
            final(self)@ == checked(old(self)@),
            r is Ok,
    {
        if !self.is_set {
            if !self.defval.is_none() {
                self.value = self.defval.clone();
                let ghost before = self.strings@;
                self.strings.push(self.defstr.clone());
                proof {
                    assert(string_views(self.strings@) =~= string_views(before).push(
                        self.defstr@,
                    ));
                }
            }
        }
        Ok(())
    }

    /// Takes the flag back to where it was before any argument was given to it.
    pub fn clear(&mut self)
        ensures
            final(self)@ == cleared(old(self)@),
    {
        self.is_set = false;
        self.strings.clear();
        self.value = Value::Absent;
        proof {
            assert(string_views(self.strings@) =~= seq![]);
        }
    }

    /// The name of the variable that holds the flag.
    pub fn rust_name(&self) -> (name: String)
        ensures
            name@ == variable_name(self.long@),
    {
        let v = chars_of(self.long.as_str());
        let mut replaced = String::new();
        let mut i: usize = 0;
        while i < v.len()
            invariant
                i <= v.len(),
                v@ == self.long@,
                replaced@ == underscored(self.long@).take(i as int),
            decreases v.len() - i,
        {
            let c = if v[i] == '-' {
                '_'
            } else {
                v[i]
            };
            replaced.push(c);
            proof {
                assert(underscored(self.long@).take(i + 1) =~= underscored(self.long@).take(
                    i as int,
                ).push(c));
            }
            i += 1;
        }
        proof {
            assert(underscored(self.long@).take(i as int) =~= underscored(self.long@));
        }
        let name = lowercase(replaced.as_str());
        let w = chars_of(name.as_str());
        if w.len() > 0 && (char_is_digit(w[0]) || w[0] == '_') {
            let mut res = String::from_str("c_");
            res.append(name.as_str());
            res
        } else {
            name
        }
    }

    /// The name of the type of the variable that holds the flag.
    pub fn rust_type(&self) -> (name: String)
        ensures
            name@ == rust_name_of(self.vtype, self.is_multiple),
    {
        self.vtype.rust_name(self.is_multiple)
    }

    /// The call that gets the value of the flag.
    pub fn getter_name(&self) -> (call: String)
        ensures
            call@ == getter_call(self@),
    {
        let mut tname = self.vtype.short_name();
        match self.vtype.array_type() {
            Some(inner) => {
                tname = inner.short_name();
                tname.append("s");
            },
            None => {
                if self.is_multiple {
                    tname.push('s');
                }
            },
        }
        let mut call = String::from_str("args.get_");
        call.append(tname.as_str());
        call.append("(\"");
        call.append(self.long.as_str());
        call.append("\")");
        call
    }
}

} // verus!
