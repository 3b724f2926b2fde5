//! Reading the values of flags once the command line has been matched.

use vstd::prelude::*;
use vstd::string::*;
use crate::flag::{Flag, FlagView};
use crate::grammar::{lookup, Key, KeyView};
use crate::matcher::{find_flag, flag_views};
use crate::text::{decimal, push_decimal, same_text, string_views};
use crate::types::{
    array_in, bool_in, float_in, infile_in, int_in, lemma_array_view, outcome, outfile_in,
    short_name_of, string_in, type_of_view, views, FileRefView, LappError, Value, ValueView,
};

verus! {

/// The place of a positional argument; nothing for a flag.
pub open spec fn position_of(f: FlagView) -> Option<usize> {
    if f.pos > 0 {
        Some(f.pos)
    } else {
        None
    }
}

/// The message `msg`, said of the flag called `name`, or of the positional argument of that
/// name at place `pos`.
pub open spec fn flag_message(name: Seq<char>, msg: Seq<char>, pos: Option<usize>) -> Seq<char> {
    match pos {
        Some(idx) => "argument #"@ + decimal(idx as nat) + " '"@ + name + "': "@ + msg,
        None => "flag '"@ + name + "': "@ + msg,
    }
}

/// The index of the flag called `name`, if it holds a value. A name that no flag has, a flag
/// without a value and a flag whose value is an error each give their message.
pub open spec fn found(flags: Seq<FlagView>, name: Seq<char>) -> Result<int, Seq<char>> {
    match lookup(flags, KeyView::Long(name)) {
        None => Err(flag_message(name, "is unknown"@, None)),
        Some(j) => match flags[j].value {
            ValueView::Absent => Err(flag_message(name, "is required"@, position_of(flags[j]))),
            ValueView::Error(s) => Err(flag_message(name, s, position_of(flags[j]))),
            _ => Ok(j),
        },
    }
}

/// What was read from the value of the flag at `j`, with a failure said of that flag.
pub open spec fn labelled<T>(
    flags: Seq<FlagView>,
    name: Seq<char>,
    j: int,
    r: Result<T, Seq<char>>,
) -> Result<T, Seq<char>> {
    match r {
        Ok(v) => Ok(v),
        Err(e) => Err(flag_message(name, e, position_of(flags[j]))),
    }
}

/// The text of the string flag called `name`.
pub open spec fn string_at(flags: Seq<FlagView>, name: Seq<char>) -> Result<Seq<char>, Seq<char>> {
    match found(flags, name) {
        Err(e) => Err(e),
        Ok(j) => labelled(flags, name, j, string_in(flags[j].value)),
    }
}

/// The number of the integer flag called `name`.
pub open spec fn int_at(flags: Seq<FlagView>, name: Seq<char>) -> Result<i32, Seq<char>> {
    match found(flags, name) {
        Err(e) => Err(e),
        Ok(j) => labelled(flags, name, j, int_in(flags[j].value)),
    }
}

/// The numeral of the floating-point flag called `name`.
pub open spec fn float_at(flags: Seq<FlagView>, name: Seq<char>) -> Result<Seq<char>, Seq<char>> {
    match found(flags, name) {
        Err(e) => Err(e),
        Ok(j) => labelled(flags, name, j, float_in(flags[j].value)),
    }
}

/// The truth of the boolean flag called `name`.
pub open spec fn bool_at(flags: Seq<FlagView>, name: Seq<char>) -> Result<bool, Seq<char>> {
    match found(flags, name) {
        Err(e) => Err(e),
        Ok(j) => labelled(flags, name, j, bool_in(flags[j].value)),
    }
}

/// The file that the input flag called `name` names.
pub open spec fn infile_at(flags: Seq<FlagView>, name: Seq<char>) -> Result<
    FileRefView,
    Seq<char>,
> {
    match found(flags, name) {
        Err(e) => Err(e),
        Ok(j) => labelled(flags, name, j, infile_in(flags[j].value)),
    }
}

/// The file that the output flag called `name` names.
pub open spec fn outfile_at(flags: Seq<FlagView>, name: Seq<char>) -> Result<
    FileRefView,
    Seq<char>,
> {
    match found(flags, name) {
        Err(e) => Err(e),
        Ok(j) => labelled(flags, name, j, outfile_in(flags[j].value)),
    }
}

/// The first argument given to the flag called `name`, as it was written; for a flag that took
/// its default, the default as it was written.
pub open spec fn text_at(flags: Seq<FlagView>, name: Seq<char>) -> Result<Seq<char>, Seq<char>> {
    match found(flags, name) {
        Err(e) => Err(e),
        Ok(j) => if flags[j].strings.len() > 0 {
            Ok(flags[j].strings[0])
        } else {
            Err(flag_message(name, "is required"@, position_of(flags[j])))
        },
    }
}

/// Whether the flag called `name` holds a value.
pub open spec fn present(flags: Seq<FlagView>, name: Seq<char>) -> Result<bool, Seq<char>> {
    match lookup(flags, KeyView::Long(name)) {
        None => Err("'"@ + name + "' is not a flag"@),
        Some(j) => Ok(!(flags[j].value is Absent)),
    }
}

/// The message of an array whose elements are not of the kind asked for.
pub open spec fn wrong_array_message(kind: Seq<char>, found_kind: Seq<char>) -> Seq<char> {
    "wanted array of "@ + kind + ", but is array of "@ + found_kind
}

/// The elements of the array flag called `name`, if the first of them is of the kind `kind`. An
/// array without elements is of every kind.
pub open spec fn array_at(flags: Seq<FlagView>, name: Seq<char>, kind: Seq<char>) -> Result<
    Seq<ValueView>,
    Seq<char>,
> {
    match found(flags, name) {
        Err(e) => Err(e),
        Ok(j) => match array_in(flags[j].value) {
            Err(e) => Err(e),
            Ok(vs) => {
                if vs.len() == 0 || short_name_of(type_of_view(vs[0])) == kind {
                    Ok(vs)
                } else {
                    Err(
                        flag_message(
                            name,
                            wrong_array_message(kind, short_name_of(type_of_view(vs[0]))),
                            None,
                        ),
                    )
                }
            },
        },
    }
}

/// The texts of the values `vs`, or the message of the first that is no string.
pub open spec fn strings_in(vs: Seq<ValueView>) -> Result<Seq<Seq<char>>, Seq<char>>
    decreases vs.len(),
{
    if vs.len() == 0 {
        Ok(seq![])
    } else {
        match strings_in(vs.drop_last()) {
            Err(e) => Err(e),
            Ok(xs) => match string_in(vs.last()) {
                Err(e) => Err(e),
                Ok(x) => Ok(xs.push(x)),
            },
        }
    }
}

/// The numbers of the values `vs`, or the message of the first that is no integer.
pub open spec fn ints_in(vs: Seq<ValueView>) -> Result<Seq<i32>, Seq<char>>
    decreases vs.len(),
{
    if vs.len() == 0 {
        Ok(seq![])
    } else {
        match ints_in(vs.drop_last()) {
            Err(e) => Err(e),
            Ok(xs) => match int_in(vs.last()) {
                Err(e) => Err(e),
                Ok(x) => Ok(xs.push(x)),
            },
        }
    }
}

/// The numerals of the values `vs`, or the message of the first that is no floating-point
/// number.
pub open spec fn floats_in(vs: Seq<ValueView>) -> Result<Seq<Seq<char>>, Seq<char>>
    decreases vs.len(),
{
    if vs.len() == 0 {
        Ok(seq![])
    } else {
        match floats_in(vs.drop_last()) {
            Err(e) => Err(e),
            Ok(xs) => match float_in(vs.last()) {
                Err(e) => Err(e),
                Ok(x) => Ok(xs.push(x)),
            },
        }
    }
}

/// The texts of the string array flag called `name`.
pub open spec fn strings_at(flags: Seq<FlagView>, name: Seq<char>) -> Result<
    Seq<Seq<char>>,
    Seq<char>,
> {
    match array_at(flags, name, "string"@) {
        Err(e) => Err(e),
        Ok(vs) => strings_in(vs),
    }
}

/// The numbers of the integer array flag called `name`.
pub open spec fn ints_at(flags: Seq<FlagView>, name: Seq<char>) -> Result<Seq<i32>, Seq<char>> {
    match array_at(flags, name, "integer"@) {
        Err(e) => Err(e),
        Ok(vs) => ints_in(vs),
    }
}

/// The numerals of the floating-point array flag called `name`.
pub open spec fn floats_at(flags: Seq<FlagView>, name: Seq<char>) -> Result<
    Seq<Seq<char>>,
    Seq<char>,
> {
    match array_at(flags, name, "float"@) {
        Err(e) => Err(e),
        Ok(vs) => floats_in(vs),
    }
}

/// A list of texts as contracts see it, or the message of what failed.
pub open spec fn texts_outcome(r: Result<Vec<String>, LappError>) -> Result<
    Seq<Seq<char>>,
    Seq<char>,
> {
    match r {
        Ok(v) => Ok(string_views(v@)),
        Err(e) => Err(e@),
    }
}

/// The message `msg`, said of the flag called `name`, or of the positional argument of that
/// name at place `pos`.
pub fn error_msg(name: &str, msg: &str, pos: Option<usize>) -> (text: String)
    ensures
        text@ == flag_message(name@, msg@, pos),
{
    match pos {
        Some(idx) => {
            let mut text = String::from_str("argument #");
            push_decimal(&mut text, idx as u64);
            text.append(" '");
            text.append(name);
            text.append("': ");
            text.append(msg);
            text
        },
        None => {
            let mut text = String::from_str("flag '");
            text.append(name);
            text.append("': ");
            text.append(msg);
            text
        },
    }
}

/// Fails with `msg`, said of the flag called `name`.
pub fn bad_flag<T>(name: &str, msg: &str, pos: Option<usize>) -> (r: Result<T, LappError>)
    ensures
        r matches Err(e) && e@ == flag_message(name@, msg@, pos),
{
    Err(LappError(error_msg(name, msg, pos)))
}

/// Finds the flag called `name`, if it holds a value.
pub fn find_value(flags: &Vec<Flag>, name: &str) -> (r: Result<usize, LappError>)
    ensures
        match found(flag_views(flags@), name@) {
            Ok(j) => r == Ok::<usize, LappError>(j as usize) && 0 <= j < flags.len(),
            Err(e) => r matches Err(x) && x@ == e,
        },
{
    let key = Key::Long(name);
    match find_flag(flags, &key) {
        Some(j) => {
            let positional = flags[j].position();
            match &flags[j].value {
                Value::Absent => bad_flag(name, "is required", positional),
                Value::Error(s) => bad_flag(name, s.as_str(), positional),
                _ => Ok(j),
            }
        },
        None => bad_flag(name, "is unknown", None),
    }
}

/// Says a failure to read the value of the flag at `j` of that flag.
pub fn label<T>(flags: &Vec<Flag>, name: &str, j: usize, r: Result<T, LappError>) -> (res: Result<
    T,
    LappError,
>)
    requires
        j < flags.len(),
    ensures
        match r {
            Ok(v) => res == Ok::<T, LappError>(v),
            Err(e) => res matches Err(x) && x@ == flag_message(
                name@,
                e@,
                position_of(flag_views(flags@)[j as int]),
            ),
        },
{
    match r {
        Ok(v) => Ok(v),
        Err(e) => bad_flag(name, e.description(), flags[j].position()),
    }
}

/// The elements of the array flag called `name`, if the first of them is of the kind `kind`.
pub fn find_array<'a>(flags: &'a Vec<Flag>, name: &str, kind: &str) -> (r: Result<
    &'a Vec<Box<Value>>,
    LappError,
>)
    ensures
        match array_at(flag_views(flags@), name@, kind@) {
            Ok(vs) => r matches Ok(a) && views(a@) == vs,
            Err(e) => r matches Err(x) && x@ == e,
        },
{
    let j = find_value(flags, name)?;
    let arr = flags[j].value.as_array()?;
    proof {
        lemma_array_view(*arr);
    }
    if arr.len() == 0 {
        return Ok(arr);
    }
    let first: &Value = &arr[0];
    let tname = first.type_of().short_name();
    if same_text(tname.as_str(), kind) {
        Ok(arr)
    } else {
        let mut msg = String::from_str("wanted array of ");
        msg.append(kind);
        msg.append(", but is array of ");
        msg.append(tname.as_str());
        bad_flag(name, msg.as_str(), None)
    }
}

/// Once a value is of the wrong kind, the values behind it change nothing.
pub proof fn lemma_strings_in_stops(vs: Seq<ValueView>, n: int)
    requires
        0 <= n <= vs.len(),
        strings_in(vs.take(n)) is Err,
    ensures
        strings_in(vs) == strings_in(vs.take(n)),
    decreases vs.len() - n,
{
    if n < vs.len() {
        assert(vs.take(n + 1).drop_last() =~= vs.take(n));
        lemma_strings_in_stops(vs, n + 1);
    } else {
        assert(vs.take(n) =~= vs);
    }
}

/// Once a value is of the wrong kind, the values behind it change nothing.
pub proof fn lemma_ints_in_stops(vs: Seq<ValueView>, n: int)
    requires
        0 <= n <= vs.len(),
        ints_in(vs.take(n)) is Err,
    ensures
        ints_in(vs) == ints_in(vs.take(n)),
    decreases vs.len() - n,
{
    if n < vs.len() {
        assert(vs.take(n + 1).drop_last() =~= vs.take(n));
        lemma_ints_in_stops(vs, n + 1);
    } else {
        assert(vs.take(n) =~= vs);
    }
}

/// Once a value is of the wrong kind, the values behind it change nothing.
pub proof fn lemma_floats_in_stops(vs: Seq<ValueView>, n: int)
    requires
        0 <= n <= vs.len(),
        floats_in(vs.take(n)) is Err,
    ensures
        floats_in(vs) == floats_in(vs.take(n)),
    decreases vs.len() - n,
{
    if n < vs.len() {
        assert(vs.take(n + 1).drop_last() =~= vs.take(n));
        lemma_floats_in_stops(vs, n + 1);
    } else {
        assert(vs.take(n) =~= vs);
    }
}

/// The texts of the values in `arr`, or the error of the first that is no string.
pub fn all_strings(arr: &Vec<Box<Value>>) -> (r: Result<Vec<String>, LappError>)
    ensures
        texts_outcome(r) == strings_in(views(arr@)),
{
    let ghost vs = views(arr@);
    let mut res: Vec<String> = Vec::new();
    let mut i: usize = 0;
    proof {
        assert(vs.take(0) =~= seq![]);
        assert(string_views(res@) =~= seq![]);
    }
    while i < arr.len()
        invariant
            i <= arr.len(),
            vs == views(arr@),
            strings_in(vs.take(i as int)) == Ok::<Seq<Seq<char>>, Seq<char>>(string_views(res@)),
        decreases arr.len() - i,
    {
        let ghost before = string_views(res@);
        proof {
            assert(vs.take(i + 1).drop_last() =~= vs.take(i as int));
            assert(vs.take(i + 1).last() == (*arr@[i as int])@);
        }
        let item: &Value = &arr[i];
        match item.as_string() {
            Ok(s) => {
                res.push(s);
                proof {
                    assert(string_views(res@) =~= before.push(s@));
                }
            },
            Err(e) => {
                proof {
                    lemma_strings_in_stops(vs, i + 1);
                }
                return Err(e);
            },
        }
        i += 1;
    }
    proof {
        assert(vs.take(i as int) =~= vs);
    }
    Ok(res)
}

/// The numbers of the values in `arr`, or the error of the first that is no integer.
pub fn all_ints(arr: &Vec<Box<Value>>) -> (r: Result<Vec<i32>, LappError>)
    ensures
        outcome(r) == ints_in(views(arr@)),
{
    let ghost vs = views(arr@);
    let mut res: Vec<i32> = Vec::new();
    let mut i: usize = 0;
    proof {
        assert(vs.take(0) =~= seq![]);
        assert(res@ =~= seq![]);
    }
    while i < arr.len()
        invariant
            i <= arr.len(),
            vs == views(arr@),
            ints_in(vs.take(i as int)) == Ok::<Seq<i32>, Seq<char>>(res@),
        decreases arr.len() - i,
    {
        proof {
            assert(vs.take(i + 1).drop_last() =~= vs.take(i as int));
            assert(vs.take(i + 1).last() == (*arr@[i as int])@);
        }
        let item: &Value = &arr[i];
        match item.as_int() {
            Ok(n) => {
                res.push(n);
            },
            Err(e) => {
                proof {
                    lemma_ints_in_stops(vs, i + 1);
                }
                return Err(e);
            },
        }
        i += 1;
    }
    proof {
        assert(vs.take(i as int) =~= vs);
    }
    Ok(res)
}

/// The numerals of the values in `arr`, or the error of the first that is no floating-point
/// number.
pub fn all_floats(arr: &Vec<Box<Value>>) -> (r: Result<Vec<String>, LappError>)
    ensures
        texts_outcome(r) == floats_in(views(arr@)),
{
    let ghost vs = views(arr@);
    let mut res: Vec<String> = Vec::new();
    let mut i: usize = 0;
    proof {
        assert(vs.take(0) =~= seq![]);
        assert(string_views(res@) =~= seq![]);
    }
    while i < arr.len()
        invariant
            i <= arr.len(),
            vs == views(arr@),
            floats_in(vs.take(i as int)) == Ok::<Seq<Seq<char>>, Seq<char>>(string_views(res@)),
        decreases arr.len() - i,
    {
        let ghost before = string_views(res@);
        proof {
            assert(vs.take(i + 1).drop_last() =~= vs.take(i as int));
            assert(vs.take(i + 1).last() == (*arr@[i as int])@);
        }
        let item: &Value = &arr[i];
        match item.as_float() {
            Ok(s) => {
                res.push(s);
                proof {
                    assert(string_views(res@) =~= before.push(s@));
                }
            },
            Err(e) => {
                proof {
                    lemma_floats_in_stops(vs, i + 1);
                }
                return Err(e);
            },
        }
        i += 1;
    }
    proof {
        assert(vs.take(i as int) =~= vs);
    }
    Ok(res)
}

} // verus!
