//! Command-line arguments read against the usage text that documents them.
//!
//! The usage text declares the flags: a line that begins with `-short, --long`, `--long` or
//! `-short` declares a flag, one that begins with `<name>` a positional argument. A specifier in
//! brackets gives the type (`(integer)`), a default (`(default 10)`) or a range (`(1..10)`);
//! without one the flag is a boolean that is false by default. `...` behind the name lets the
//! flag occur several times; `...` at the end of the specifier makes it take a list.

use vstd::prelude::*;
use vstd::string::*;

pub mod access;
pub mod chars;
pub mod codegen;
pub mod flag;
pub mod grammar;
pub mod laws;
pub mod matcher;
pub mod number;
pub mod strutil;
pub mod text;
pub mod types;

use crate::access::{
    all_floats, all_ints, all_strings, bad_flag, bool_at, find_array, find_value, float_at,
    floats_at, found, infile_at, int_at, ints_at, label, outfile_at, present, string_at, strings_at,
    text_at, texts_outcome,
};
use crate::codegen::{declarations_of, declare};
use crate::flag::{error_of, Flag};
use crate::grammar::{
    char_text, declared, declared_all, done, flag_fault, lemma_declared_well_formed, read_head,
    read_specifier, usage_read, well_formed, ArgsView, Key,
};
use crate::matcher::{
    check_all, find_flag, flag_views, help_wanted, lemma_scan_follows, matched, scan, scan_tokens,
    wants_help,
};
use crate::strutil::{dedent, dedented, lines, skipws, split_lines, starts_with, texts};
use crate::text::string_views;
use crate::types::{outcome, FileRef, LappError, Value};

verus! {

/// What the caller is to do once the command line has been read.
#[derive(Debug)]
pub enum Parsed {
    /// Go on: the flags hold their values.
    Ready,
    /// Show this usage text and end: help was asked for.
    Help(String),
}

/// The outcome as contracts see it.
pub enum ParsedView {
    Ready,
    Help(Seq<char>),
}

impl View for Parsed {
    type V = ParsedView;

    open spec fn view(&self) -> ParsedView {
        match self {
            Parsed::Ready => ParsedView::Ready,
            Parsed::Help(text) => ParsedView::Help(text@),
        }
    }
}

/// What reading the command line `argv` tells the caller: the error of the first token that is
/// in error; else, where help was asked for, the usage text moved to the left margin.
pub open spec fn command_line_outcome(a: ArgsView, argv: Seq<Seq<char>>) -> Result<
    ParsedView,
    Seq<char>,
> {
    let read = scan(a.flags, argv, 1, true);
    match read.error {
        Some(e) => Err(e),
        None => if help_wanted(read.state) {
            Ok(ParsedView::Help(dedented(a.text)))
        } else {
            Ok(ParsedView::Ready)
        },
    }
}

/// The flags that a usage text declares, and the values that a command line gives them.
pub struct Args<'a> {
    flags: Vec<Flag>,
    pos: usize,
    text: &'a str,
    varargs: bool,
    user_types: Vec<String>,
}

impl<'a> View for Args<'a> {
    type V = ArgsView;

    closed spec fn view(&self) -> ArgsView {
        ArgsView {
            flags: flag_views(self.flags@),
            pos: self.pos,
            text: self.text@,
            varargs: self.varargs,
            user_types: string_views(self.user_types@),
        }
    }
}

impl<'a> Args<'a> {
    /// The arguments that the usage text `text` is to declare. Nothing is read yet.
    pub fn new(text: &'a str) -> (args: Args<'a>)
        ensures
            args@ == (ArgsView {
                flags: seq![],
                pos: 0,
                text: text@,
                varargs: false,
                user_types: seq![],
            }),
            well_formed(args@),
    {
        let args = Args {
            flags: Vec::new(),
            pos: 0,
            text: text,
            varargs: false,
            user_types: Vec::new(),
        };
        proof {
            assert(flag_views(args.flags@) =~= seq![]);
            assert(string_views(args.user_types@) =~= seq![]);
        }
        args
    }

    /// The flags, in the order of their declaration.
    pub fn flags(&self) -> (flags: &Vec<Flag>)
        ensures
            flag_views(flags@) == self@.flags,
    {
        &self.flags
    }

    /// The usage text.
    pub fn text(&self) -> (text: &'a str)
        ensures
            text@ == self@.text,
    {
        self.text
    }

    /// Names the types that the caller reads for itself. A flag of such a type holds a string.
    pub fn user_types(&mut self, types: &[&str])
        ensures
            final(self)@ == (ArgsView { user_types: texts(types@), ..old(self)@ }),
    {
        let mut v: Vec<String> = Vec::new();
        let mut i: usize = 0;
        while i < types.len()
            invariant
                i <= types.len(),
                v.len() == i,
                forall|j: int| 0 <= j < i ==> v@[j]@ == types@[j]@,
            decreases types.len() - i,
        {
            v.push(types[i].to_owned());
            i += 1;
        }
        proof {
            assert(string_views(v@) =~= texts(types@));
        }
        self.user_types = v;
    }

    /// Reads one line of usage text. A line that declares a flag adds it.
    pub fn parse_spec_line(&mut self, line: &str) -> (r: Result<(), LappError>)
        requires
            well_formed(old(self)@),
        ensures
            final(self)@ == declared(old(self)@, line@).state,
            error_of(r) == declared(old(self)@, line@).error,
            well_formed(final(self)@),
    {
        proof {
            lemma_declared_well_formed(self@, line@);
        }
        let mut slice: &str = skipws(line);
        if slice.unicode_len() == 0 {
            return Ok(());
        }
        let head = read_head(&mut slice)?;
        if head.positional {
            if self.pos >= usize::MAX - 1 {
                return flag_fault(head.long.as_str(), "too many arguments");
            }
            self.pos = self.pos + 1;
        }
        let unnamed = head.long.as_str().unicode_len() == 0;
        if unnamed && head.short == '\0' {
            return Ok(());
        }
        let mut flag = Flag::default();
        flag.short = head.short;
        flag.long = if unnamed {
            char_text(head.short)
        } else {
            head.long
        };
        if head.positional {
            flag.pos = self.pos;
        }
        slice = skipws(slice);
        if starts_with(&mut slice, "...") {
            flag.is_multiple = true;
            slice = skipws(slice);
        }
        let claims = read_specifier(
            &mut flag,
            head.positional,
            self.varargs,
            &self.user_types,
            &mut slice,
        )?;
        if claims {
            self.varargs = true;
        }
        flag.help = skipws(slice).to_owned();
        let taken = find_flag(&self.flags, &Key::Long(flag.long.as_str()));
        if taken.is_some() {
            return flag_fault(flag.long.as_str(), "already defined");
        }
        let ghost before = flag_views(self.flags@);
        self.flags.push(flag);
        proof {
            assert(flag_views(self.flags@) =~= before.push(flag@));
        }
        Ok(())
    }

    /// Reads the usage text, line by line, up to the first line that is in error, and adds the
    /// help flag where the text declares none.
    pub fn parse_spec(&mut self) -> (r: Result<(), LappError>)
        requires
            well_formed(old(self)@),
        ensures
            final(self)@ == usage_read(old(self)@).state,
            error_of(r) == usage_read(old(self)@).error,
            well_formed(final(self)@),
    {
        let ls = split_lines(self.text);
        let ghost first = self@;
        let ghost all = lines(self.text@);
        let mut i: usize = 0;
        proof {
            assert(all.take(0) =~= seq![]);
        }
        while i < ls.len()
            invariant
                i <= ls.len(),
                texts(ls@) == all,
                all == lines(first.text),
                first == old(self)@,
                well_formed(self@),
                declared_all(first, all.take(i as int)) == done(self@),
            decreases ls.len() - i,
        {
            proof {
                assert(all.take(i + 1).drop_last() =~= all.take(i as int));
                assert(all.take(i + 1).last() == ls@[i as int]@);
            }
            match self.parse_spec_line(ls[i]) {
                Ok(()) => {},
                Err(e) => {
                    proof {
                        lemma_declared_all_stops(first, all, i + 1);
                    }
                    return Err(e);
                },
            }
            i += 1;
        }
        proof {
            assert(all.take(i as int) =~= all);
        }
        if find_flag(&self.flags, &Key::Long("help")).is_none() {
            self.parse_spec_line("   -h,--help this help")
        } else {
            Ok(())
        }
    }

    /// Reads the usage text, and writes the declarations, in Rust, of the variables that hold
    /// its flags: one variable for each flag where `struct_name` is empty, else a struct of that
    /// name.
    pub fn declarations(&mut self, struct_name: &str) -> (r: Result<String, LappError>)
        requires
            well_formed(old(self)@),
        ensures
            final(self)@ == usage_read(old(self)@).state,
            outcome(r) == match usage_read(old(self)@).error {
                Some(e) => Err::<Seq<char>, Seq<char>>(e),
                None => Ok(declarations_of(final(self)@.flags, final(self)@.text, struct_name@)),
            },
            well_formed(final(self)@),
    {
        self.parse_spec()?;
        Ok(declare(&self.flags, self.text, struct_name))
    }

    /// Reads the command line `v` into the flags, token by token, up to the first token that is
    /// in error. Then, unless help was asked for, every flag that was not given takes its
    /// default.
    pub fn parse_command_line(&mut self, v: Vec<String>) -> (r: Result<Parsed, LappError>)
        requires
            well_formed(old(self)@),
        ensures
            final(self)@ == (ArgsView {
                flags: matched(old(self)@.flags, string_views(v@)).state,
                ..old(self)@
            }),
            outcome(r) == command_line_outcome(old(self)@, string_views(v@)),
            well_formed(final(self)@),
    {
        proof {
            lemma_scan_follows(self@.flags, string_views(v@), 1, true);
        }
        scan_tokens(&mut self.flags, &v)?;
        if wants_help(&self.flags) {
            return Ok(Parsed::Help(dedent(self.text)));
        }
        check_all(&mut self.flags);
        Ok(Parsed::Ready)
    }

    /// Finds the flag called `name`, if it holds a value.
    pub fn result_flag_flag(&self, name: &str) -> (r: Result<&Flag, LappError>)
        ensures
            match found(self@.flags, name@) {
                Ok(j) => r matches Ok(f) && f@ == self@.flags[j],
                Err(e) => r matches Err(x) && x@ == e,
            },
    {
        let j = find_value(&self.flags, name)?;
        Ok(&self.flags[j])
    }

    /// The value of the flag called `name`.
    pub fn result_flag_value(&self, name: &str) -> (r: Result<&Value, LappError>)
        ensures
            match found(self@.flags, name@) {
                Ok(j) => r matches Ok(v) && v@ == self@.flags[j].value,
                Err(e) => r matches Err(x) && x@ == e,
            },
    {
        let j = find_value(&self.flags, name)?;
        Ok(&self.flags[j].value)
    }

    /// Whether the flag called `name` holds a value. Fails where there is no such flag.
    pub fn flag_present(&self, name: &str) -> (r: Result<bool, LappError>)
        ensures
            outcome(r) == present(self@.flags, name@),
    {
        match find_flag(&self.flags, &Key::Long(name)) {
            Some(j) => Ok(!self.flags[j].value.is_none()),
            None => {
                let mut msg = String::from_str("'");
                msg.append(name);
                msg.append("' is not a flag");
                Err(LappError(msg))
            },
        }
    }

    /// The flag called `name` as a string.
    pub fn get_string_result(&self, name: &str) -> (r: Result<String, LappError>)
        ensures
            outcome(r) == string_at(self@.flags, name@),
    {
        let j = find_value(&self.flags, name)?;
        label(&self.flags, name, j, self.flags[j].value.as_string())
    }

    /// The flag called `name` as an integer.
    pub fn get_integer_result(&self, name: &str) -> (r: Result<i32, LappError>)
        ensures
            outcome(r) == int_at(self@.flags, name@),
    {
        let j = find_value(&self.flags, name)?;
        label(&self.flags, name, j, self.flags[j].value.as_int())
    }

    /// The flag called `name` as a floating-point number: its numeral, as it was written.
    pub fn get_float_result(&self, name: &str) -> (r: Result<String, LappError>)
        ensures
            outcome(r) == float_at(self@.flags, name@),
    {
        let j = find_value(&self.flags, name)?;
        label(&self.flags, name, j, self.flags[j].value.as_float())
    }

    /// The flag called `name` as a boolean.
    pub fn get_bool_result(&self, name: &str) -> (r: Result<bool, LappError>)
        ensures
            outcome(r) == bool_at(self@.flags, name@),
    {
        let j = find_value(&self.flags, name)?;
        label(&self.flags, name, j, self.flags[j].value.as_bool())
    }

    /// The flag called `name` as a file to read.
    pub fn get_infile_result(&self, name: &str) -> (r: Result<FileRef, LappError>)
        ensures
            outcome(r) == infile_at(self@.flags, name@),
    {
        let j = find_value(&self.flags, name)?;
        label(&self.flags, name, j, self.flags[j].value.as_infile())
    }

    /// The flag called `name` as a file to write.
    pub fn get_outfile_result(&self, name: &str) -> (r: Result<FileRef, LappError>)
        ensures
            outcome(r) == outfile_at(self@.flags, name@),
    {
        let j = find_value(&self.flags, name)?;
        label(&self.flags, name, j, self.flags[j].value.as_outfile())
    }

    /// The first argument given to the flag called `name`, as it was written; for a flag that
    /// took its default, the default as it was written. A flag that holds a value that nothing
    /// was written for is said to be required.
    pub fn get_text_result(&self, name: &str) -> (r: Result<&String, LappError>)
        ensures
            match text_at(self@.flags, name@) {
                Ok(t) => r matches Ok(s) && s@ == t,
                Err(e) => r matches Err(x) && x@ == e,
            },
    {
        let j = find_value(&self.flags, name)?;
        if self.flags[j].strings.len() > 0 {
            Ok(&self.flags[j].strings[0])
        } else {
            bad_flag(name, "is required", self.flags[j].position())
        }
    }

    /// The flag called `name` as an array of strings.
    pub fn get_strings_result(&self, name: &str) -> (r: Result<Vec<String>, LappError>)
        ensures
            texts_outcome(r) == strings_at(self@.flags, name@),
    {
        let arr = find_array(&self.flags, name, "string")?;
        all_strings(arr)
    }

    /// The flag called `name` as an array of integers.
    pub fn get_integers_result(&self, name: &str) -> (r: Result<Vec<i32>, LappError>)
        ensures
            outcome(r) == ints_at(self@.flags, name@),
    {
        let arr = find_array(&self.flags, name, "integer")?;
        all_ints(arr)
    }

    /// The flag called `name` as an array of floating-point numbers: their numerals, as they
    /// were written.
    pub fn get_floats_result(&self, name: &str) -> (r: Result<Vec<String>, LappError>)
        ensures
            texts_outcome(r) == floats_at(self@.flags, name@),
    {
        let arr = find_array(&self.flags, name, "float")?;
        all_floats(arr)
    }
}

/// Once a line is in error, the lines behind it change nothing.
pub proof fn lemma_declared_all_stops(a: ArgsView, ls: Seq<Seq<char>>, n: int)
    requires
        0 <= n <= ls.len(),
        declared_all(a, ls.take(n)).error is Some,
    ensures
        declared_all(a, ls) == declared_all(a, ls.take(n)),
    decreases ls.len() - n,
{
    if n < ls.len() {
        assert(ls.take(n + 1).drop_last() =~= ls.take(n));
        lemma_declared_all_stops(a, ls, n + 1);
    } else {
        assert(ls.take(n) =~= ls);
    }
}

} // verus!
