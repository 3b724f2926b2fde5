//! The usage text: what one line of it declares, and what all its lines declare together.

use vstd::prelude::*;
use vstd::string::*;
use crate::chars::{char_is_alphanumeric, is_alphanumeric, run, run_length, CharClass};
use crate::flag::{blank_flag, error_of, with_default, with_range, Attempt, Flag, FlagView};
use crate::strutil::{
    after_word, ends_with, first_word, grab_upto, grab_word, lines, no_end_message, skip_spaces,
    skipws, split_around, split_with, starts_with, trim, trimmed, upto,
};
use crate::text::{chars_of, decimal, same_text, string_views};
use crate::types::{type_named, unknown_type_message, LappError, Type, Value, ValueView};

verus! {

/// What a flag is looked up by.
pub enum Key<'a> {
    /// Its long name.
    Long(&'a str),
    /// Its short name.
    Short(char),
    /// Its place among the positional arguments.
    Place(usize),
}

/// A key as contracts see it.
pub enum KeyView {
    Long(Seq<char>),
    Short(char),
    Place(usize),
}

impl<'a> View for Key<'a> {
    type V = KeyView;

    open spec fn view(&self) -> KeyView {
        match self {
            Key::Long(s) => KeyView::Long(s@),
            Key::Short(c) => KeyView::Short(*c),
            Key::Place(p) => KeyView::Place(*p),
        }
    }
}

/// Whether the flag is the one that the key asks for.
pub open spec fn answers(f: FlagView, key: KeyView) -> bool {
    match key {
        KeyView::Long(s) => f.long == s,
        KeyView::Short(c) => f.short == c,
        KeyView::Place(p) => f.pos == p,
    }
}

/// The index of the first flag that the key asks for.
pub open spec fn lookup(flags: Seq<FlagView>, key: KeyView) -> Option<int>
    decreases flags.len(),
{
    if flags.len() == 0 {
        None
    } else if answers(flags[0], key) {
        Some(0)
    } else {
        match lookup(flags.drop_first(), key) {
            Some(i) => Some(i + 1),
            None => None,
        }
    }
}

/// The message for a key that no flag answers. For a place it says that the command line holds
/// more positional arguments than were declared.
pub open spec fn lookup_message(key: KeyView) -> Seq<char> {
    match key {
        KeyView::Long(s) => "no long flag '"@ + s + "'"@,
        KeyView::Short(c) => "no short flag '"@ + seq![c] + "'"@,
        KeyView::Place(p) => "no arg #"@ + decimal(p as nat),
    }
}

/// The first flag that answers is found where none before it answers.
pub proof fn lemma_lookup_at(flags: Seq<FlagView>, key: KeyView, n: int)
    requires
        0 <= n <= flags.len(),
        forall|j: int| 0 <= j < n ==> !answers(#[trigger] flags[j], key),
        n < flags.len() ==> answers(flags[n], key),
    ensures
        lookup(flags, key) == if n < flags.len() {
            Some(n)
        } else {
            None
        },
    decreases n,
{
    if n > 0 {
        let rest = flags.drop_first();
        assert forall|j: int| 0 <= j < n - 1 implies !answers(#[trigger] rest[j], key) by {
            assert(rest[j] == flags[j + 1]);
        }
        if n < flags.len() {
            assert(rest[n - 1] == flags[n]);
        }
        lemma_lookup_at(rest, key, n - 1);
    }
}

/// What a lookup says of the flags: the one it finds answers, and none before it does; where it
/// finds none, none answers.
pub proof fn lemma_lookup(flags: Seq<FlagView>, key: KeyView)
    ensures
        match lookup(flags, key) {
            Some(i) => 0 <= i < flags.len() && answers(flags[i], key) && forall|j: int|
                0 <= j < i ==> !answers(#[trigger] flags[j], key),
            None => forall|j: int| 0 <= j < flags.len() ==> !answers(#[trigger] flags[j], key),
        },
    decreases flags.len(),
{
    if flags.len() > 0 && !answers(flags[0], key) {
        let rest = flags.drop_first();
        lemma_lookup(rest, key);
        match lookup(rest, key) {
            Some(i) => {
                assert(rest[i] == flags[i + 1]);
                assert forall|j: int| 0 <= j < i + 1 implies !answers(#[trigger] flags[j], key) by {
                    if j > 0 {
                        assert(flags[j] == rest[j - 1]);
                    }
                }
            },
            None => {
                assert forall|j: int| 0 <= j < flags.len() implies !answers(
                    #[trigger] flags[j],
                    key,
                ) by {
                    if j > 0 {
                        assert(flags[j] == rest[j - 1]);
                    }
                }
            },
        }
    }
}

/// The flags, the usage text and the counters that belong to one set of arguments, as contracts
/// see them.
pub struct ArgsView {
    pub flags: Seq<FlagView>,
    /// How many positional arguments have been declared.
    pub pos: usize,
    pub text: Seq<char>,
    /// Whether a positional argument takes all that remain.
    pub varargs: bool,
    /// The names of the types that the caller reads for itself.
    pub user_types: Seq<Seq<char>>,
}

/// Whether the counters fit the flags: no flag has a place beyond the count of positional
/// arguments, and that count can still be told from the largest number.
pub open spec fn well_formed(a: ArgsView) -> bool {
    &&& a.pos < usize::MAX
    &&& forall|i: int| 0 <= i < a.flags.len() ==> (#[trigger] a.flags[i]).pos <= a.pos
}

/// The message of an error in the declaration of the flag called `long`.
pub open spec fn flag_error(msg: Seq<char>, long: Seq<char>) -> Seq<char> {
    msg + ": flag '"@ + long + "'"@
}

/// What stands at the front of a declaration.
pub struct Head {
    /// The long name, or the name of the positional argument; empty if none was written.
    pub long: Seq<char>,
    /// The short name, or `'\0'` if none was written.
    pub short: char,
    pub positional: bool,
    /// What follows on the line.
    pub rest: Seq<char>,
}

/// A short name, read from what follows a single dash: the name, what follows it, and whether a
/// long name follows.
pub open spec fn short_head(s: Seq<char>) -> Result<(char, Seq<char>, bool), Seq<char>> {
    if s.len() == 0 {
        Err(flag_error("not allowed: only letters or digits in short flags"@, seq![]))
    } else {
        let c = s[0];
        let rest = s.skip(1);
        if !is_alphanumeric(c) {
            Err(flag_error("not allowed: only letters or digits in short flags"@, seq![c]))
        } else if rest.len() > 0 && is_alphanumeric(rest[0]) {
            Err(flag_error("short flags should have one character"@, seq![c]))
        } else if ","@.is_prefix_of(rest) {
            let after = skip_spaces(rest.skip(","@.len() as int));
            if "--"@.is_prefix_of(after) {
                Ok((c, after.skip("--"@.len() as int), true))
            } else {
                Err(flag_error("expecting long flag after short flag"@, seq![c]))
            }
        } else {
            Ok((c, rest, false))
        }
    }
}

/// The name that follows the dashes or stands between angle brackets, read from `s`, for a
/// declaration whose short name is `short`.
pub open spec fn named(short: char, s: Seq<char>, long_follows: bool) -> Result<Head, Seq<char>> {
    if long_follows {
        let n = run(s, CharClass::Name) as int;
        let rest = s.skip(n);
        if rest.len() > 0 && rest[0] != ' ' && rest[0] != '.' {
            Err(
                flag_error(
                    "long flags can only contain letters, numbers, '_' or '-'"@,
                    s.take(n),
                ),
            )
        } else {
            Ok(Head { long: s.take(n), short, positional: false, rest })
        }
    } else if "<"@.is_prefix_of(s) {
        match upto(s.skip("<"@.len() as int), ">"@) {
            None => Err(no_end_message(">"@)),
            Some((text, rest)) => Ok(Head { long: text, short, positional: true, rest }),
        }
    } else {
        Ok(
            Head {
                long: if short == '\0' {
                    seq![]
                } else {
                    seq![short]
                },
                short,
                positional: false,
                rest: s,
            },
        )
    }
}

/// The front of the declaration that `s` holds: `-x`, `-x, --long`, `--long` or `<name>`.
pub open spec fn head_of(s: Seq<char>) -> Result<Head, Seq<char>> {
    let one = "-"@.is_prefix_of(s);
    let s1 = if one {
        s.skip("-"@.len() as int)
    } else {
        s
    };
    let two = "-"@.is_prefix_of(s1);
    let s2 = if two {
        s1.skip("-"@.len() as int)
    } else {
        s1
    };
    if one && !two {
        match short_head(s2) {
            Err(e) => Err(e),
            Ok((c, rest, long_follows)) => named(c, rest, long_follows),
        }
    } else {
        named('\0', s2, two)
    }
}

/// The flag `f` with the type, default or range that the specifier `body` gives it. `body` is
/// what stands between the brackets, without white space around it and without a closing `...`.
pub open spec fn typed(f: FlagView, user_types: Seq<Seq<char>>, body: Seq<char>) -> Attempt<
    FlagView,
> {
    match split_around(body, ".."@) {
        Some((b1, b2)) => with_range(f, b1, b2),
        None => {
            if body.len() == 0 {
                failed(f, flag_error("nothing inside type specifier"@, f.long))
            } else if "default "@.is_prefix_of(body) {
                with_default(f, skip_spaces(body.skip("default "@.len() as int)), true)
            } else {
                let name = first_word(body);
                let rest = after_word(body);
                let known = if user_types.contains(name) {
                    Some(Type::Str)
                } else {
                    type_named(name)
                };
                match known {
                    None => failed(f, unknown_type_message(name)),
                    Some(t) => {
                        let g = FlagView { vtype: t, ..f };
                        if "default "@.is_prefix_of(rest) {
                            with_default(g, skip_spaces(rest.skip("default "@.len() as int)), false)
                        } else {
                            done(g)
                        }
                    },
                }
            }
        },
    }
}

/// A flag with its specifier read, as far as the reading came.
pub struct Specified {
    pub flag: FlagView,
    /// The message, if the specifier is in error.
    pub error: Option<Seq<char>>,
    /// What follows the specifier on the line.
    pub rest: Seq<char>,
    /// Whether the flag is the positional argument that takes all that remain.
    pub claims: bool,
}

/// The array without elements.
pub open spec fn no_values() -> ValueView {
    ValueView::Arr(Seq::<ValueView>::empty())
}

/// The flag `g`, whose specifier ended in `...`, as a flag that takes a list: a positional
/// argument takes all the arguments that remain, any other flag takes an array in one argument.
pub open spec fn listed(g: FlagView, positional: bool) -> FlagView {
    if positional {
        FlagView { defval: no_values(), is_multiple: true, ..g }
    } else {
        FlagView { defval: no_values(), vtype: Type::Arr(Box::new(g.vtype)), ..g }
    }
}

/// The flag `h` with the array without elements as its value, if it may hold several values.
pub open spec fn emptied(h: FlagView) -> FlagView {
    if h.is_multiple {
        FlagView { value: no_values(), ..h }
    } else {
        h
    }
}

/// The flag `f` with what the specifier at the front of `s` says of it; without a specifier `f`
/// is a boolean flag that is false by default. `...` at the end of the specifier makes a flag
/// take a list in one argument, and a positional argument take all the arguments that remain,
/// which only one may do. A specifier in error leaves `s` as it is.
pub open spec fn specified(
    f: FlagView,
    positional: bool,
    varargs: bool,
    user_types: Seq<Seq<char>>,
    s: Seq<char>,
) -> Specified {
    if "("@.is_prefix_of(s) {
        match upto(s.skip("("@.len() as int), ")"@) {
            None => Specified { flag: f, error: Some(no_end_message(")"@)), rest: s, claims: false },
            Some((inner, rest)) => {
                let body = trim(inner);
                let dotted = "..."@.is_suffix_of(body);
                let core = if dotted {
                    body.take(body.len() - "..."@.len())
                } else {
                    body
                };
                let t = typed(f, user_types, core);
                if t.error is Some {
                    Specified { flag: t.state, error: t.error, rest: s, claims: false }
                } else if dotted && positional && varargs {
                    Specified {
                        flag: t.state,
                        error: Some(
                            flag_error(
                                "only last argument can occur multiple times"@,
                                t.state.long,
                            ),
                        ),
                        rest: s,
                        claims: false,
                    }
                } else {
                    Specified {
                        flag: emptied(
                            if dotted {
                                listed(t.state, positional)
                            } else {
                                t.state
                            },
                        ),
                        error: None,
                        rest,
                        claims: dotted && positional,
                    }
                }
            },
        }
    } else {
        Specified {
            flag: FlagView { defval: ValueView::Bool(false), vtype: Type::Bool, ..f },
            error: None,
            rest: s,
            claims: false,
        }
    }
}

/// An attempt that failed with `e` and left `a`.
pub open spec fn failed<S>(a: S, e: Seq<char>) -> Attempt<S> {
    Attempt { state: a, error: Some(e) }
}

/// An attempt that went well and left `a`.
pub open spec fn done<S>(a: S) -> Attempt<S> {
    Attempt { state: a, error: None }
}

/// The flag that a head stands for, before anything else on the line is read.
pub open spec fn flag_of_head(h: Head, place: usize) -> FlagView {
    FlagView {
        long: if h.long.len() == 0 {
            seq![h.short]
        } else {
            h.long
        },
        short: h.short,
        pos: if h.positional {
            place
        } else {
            0
        },
        ..blank_flag()
    }
}

/// The arguments after the line `line` of usage text was read. A line that begins, after white
/// space, with neither `-` nor `<` declares nothing. A declaration is a head, `...` if the flag
/// may be repeated, a specifier in brackets, and help text; it adds one flag, whose long name
/// no earlier flag may have. A positional argument counts even where its line is in error
/// behind its name; one whose place could no longer be counted is an error itself.
pub open spec fn declared(a: ArgsView, line: Seq<char>) -> Attempt<ArgsView> {
    let s = skip_spaces(line);
    if s.len() == 0 {
        done(a)
    } else {
        match head_of(s) {
            Err(e) => failed(a, e),
            Ok(h) => {
                if h.positional && a.pos >= usize::MAX - 1 {
                    failed(a, flag_error("too many arguments"@, h.long))
                } else {
                    let a1 = if h.positional {
                        ArgsView { pos: (a.pos + 1) as usize, ..a }
                    } else {
                        a
                    };
                    if h.long.len() == 0 && h.short == '\0' {
                        done(a1)
                    } else {
                        let s1 = skip_spaces(h.rest);
                        let many = "..."@.is_prefix_of(s1);
                        let s2 = if many {
                            skip_spaces(s1.skip("..."@.len() as int))
                        } else {
                            s1
                        };
                        let f = FlagView { is_multiple: many, ..flag_of_head(h, a1.pos) };
                        let sp = specified(f, h.positional, a1.varargs, a1.user_types, s2);
                        let a2 = if sp.claims {
                            ArgsView { varargs: true, ..a1 }
                        } else {
                            a1
                        };
                        let g = FlagView { help: skip_spaces(sp.rest), ..sp.flag };
                        match sp.error {
                            Some(e) => failed(a1, e),
                            None => if lookup(a2.flags, KeyView::Long(g.long)) is Some {
                                failed(a2, flag_error("already defined"@, g.long))
                            } else {
                                done(ArgsView { flags: a2.flags.push(g), ..a2 })
                            },
                        }
                    }
                }
            },
        }
    }
}

/// Reading a line keeps the counters fitting the flags.
pub proof fn lemma_declared_well_formed(a: ArgsView, line: Seq<char>)
    requires
        well_formed(a),
    ensures
        well_formed(declared(a, line).state),
{
    let b = declared(a, line).state;
    assert(a.pos <= b.pos < usize::MAX);
    assert forall|i: int| 0 <= i < b.flags.len() implies (#[trigger] b.flags[i]).pos <= b.pos by {
        if i < a.flags.len() {
            assert(b.flags[i] == a.flags[i]);
        }
    }
}

/// The arguments after the lines `ls` were read one after the other, up to the first that is in
/// error.
pub open spec fn declared_all(a: ArgsView, ls: Seq<Seq<char>>) -> Attempt<ArgsView>
    decreases ls.len(),
{
    if ls.len() == 0 {
        done(a)
    } else {
        let before = declared_all(a, ls.drop_last());
        if before.error is Some {
            before
        } else {
            declared(before.state, ls.last())
        }
    }
}

/// The declaration of the help flag, for a usage text that declares none.
pub open spec fn help_line() -> Seq<char> {
    "   -h,--help this help"@
}

/// The arguments after their whole usage text was read, with the help flag added where the text
/// declares none.
pub open spec fn usage_read(a: ArgsView) -> Attempt<ArgsView> {
    let all = declared_all(a, lines(a.text));
    if all.error is Some {
        all
    } else if lookup(all.state.flags, KeyView::Long("help"@)) is None {
        declared(all.state, help_line())
    } else {
        all
    }
}

/// Fails with `msg`, said of the flag called `long`.
pub fn flag_fault<T>(long: &str, msg: &str) -> (r: Result<T, LappError>)
    ensures
        r matches Err(e) && e@ == flag_error(msg@, long@),
{
    let mut text = String::from_str(msg);
    text.append(": flag '");
    text.append(long);
    text.append("'");
    Err(LappError(text))
}

/// The text that holds the one character `c`.
pub fn char_text(c: char) -> (s: String)
    ensures
        s@ == seq![c],
{
    let mut s = String::new();
    s.push(c);
    proof {
        assert(s@ =~= seq![c]);
    }
    s
}

/// Reads a short name from what follows a single dash, and takes it off `slice`, with the comma
/// and the two dashes that may follow it. Returns the name and whether a long name follows.
/// Where the name is in error, `slice` stays as it is.
pub fn read_short(slice: &mut &str) -> (r: Result<(char, bool), LappError>)
    ensures
        match short_head(old(slice)@) {
            Ok((c, rest, long_follows)) => r == Ok::<(char, bool), LappError>((c, long_follows))
                && final(slice)@ == rest,
            Err(e) => r matches Err(x) && x@ == e && final(slice)@ == old(slice)@,
        },
{
    let whole: &str = *slice;
    let v = chars_of(whole);
    if v.len() == 0 {
        proof {
            reveal_strlit("");
            assert(""@ =~= Seq::<char>::empty());
        }
        return flag_fault("", "not allowed: only letters or digits in short flags");
    }
    let c = v[0];
    let name = char_text(c);
    if !char_is_alphanumeric(c) {
        return flag_fault(name.as_str(), "not allowed: only letters or digits in short flags");
    }
    let mut s: &str = whole.substring_char(1, v.len());
    proof {
        assert(s@ == old(slice)@.skip(1));
        if v.len() > 1 {
            assert(old(slice)@.skip(1)[0] == v@[1]);
        }
    }
    if v.len() > 1 && char_is_alphanumeric(v[1]) {
        return flag_fault(name.as_str(), "short flags should have one character");
    }
    if starts_with(&mut s, ",") {
        s = skipws(s);
        if !starts_with(&mut s, "--") {
            return flag_fault(name.as_str(), "expecting long flag after short flag");
        }
        *slice = s;
        Ok((c, true))
    } else {
        *slice = s;
        Ok((c, false))
    }
}

/// The front of a declaration, as it was read.
pub struct Heading {
    pub long: String,
    pub short: char,
    pub positional: bool,
}

/// Reads the name that follows the dashes or stands between angle brackets, and takes it off
/// `slice`. Where the name is in error, `slice` stays as it is.
pub fn read_name(short: char, slice: &mut &str, long_follows: bool) -> (r: Result<
    Heading,
    LappError,
>)
    ensures
        match named(short, old(slice)@, long_follows) {
            Ok(h) => r matches Ok(g) && g.long@ == h.long && g.short == h.short && g.positional
                == h.positional && final(slice)@ == h.rest,
            Err(e) => r matches Err(x) && x@ == e && final(slice)@ == old(slice)@,
        },
{
    let mut s: &str = *slice;
    if long_follows {
        let v = chars_of(s);
        let n = run_length(&v, 0, CharClass::Name);
        proof {
            assert(v@.skip(0) =~= v@);
        }
        let long = s.substring_char(0, n).to_owned();
        if n < v.len() && v[n] != ' ' && v[n] != '.' {
            return flag_fault(
                long.as_str(),
                "long flags can only contain letters, numbers, '_' or '-'",
            );
        }
        *slice = s.substring_char(n, v.len());
        Ok(Heading { long, short, positional: false })
    } else if starts_with(&mut s, "<") {
        let long = grab_upto(&mut s, ">")?;
        *slice = s;
        Ok(Heading { long, short, positional: true })
    } else {
        let long = if short == '\0' {
            String::new()
        } else {
            char_text(short)
        };
        proof {
            assert(short == '\0' ==> long@ =~= seq![]);
        }
        Ok(Heading { long, short, positional: false })
    }
}

/// Reads the front of a declaration and takes it off `slice`. Where the front is in error,
/// `slice` stays as it is.
pub fn read_head(slice: &mut &str) -> (r: Result<Heading, LappError>)
    ensures
        match head_of(old(slice)@) {
            Ok(h) => r matches Ok(g) && g.long@ == h.long && g.short == h.short && g.positional
                == h.positional && final(slice)@ == h.rest,
            Err(e) => r matches Err(x) && x@ == e && final(slice)@ == old(slice)@,
        },
{
    let mut s: &str = *slice;
    let one = starts_with(&mut s, "-");
    let two = starts_with(&mut s, "-");
    let head = if one && !two {
        let (c, long_follows) = read_short(&mut s)?;
        read_name(c, &mut s, long_follows)?
    } else {
        read_name('\0', &mut s, two)?
    };
    *slice = s;
    Ok(head)
}

/// Whether `names` holds `name`.
pub fn holds_name(names: &Vec<String>, name: &str) -> (r: bool)
    ensures
        r == string_views(names@).contains(name@),
{
    let mut i: usize = 0;
    while i < names.len()
        invariant
            i <= names.len(),
            forall|j: int| 0 <= j < i ==> string_views(names@)[j] != name@,
        decreases names.len() - i,
    {
        if same_text(names[i].as_str(), name) {
            assert(string_views(names@)[i as int] == name@);
            return true;
        }
        i += 1;
    }
    false
}

/// Gives `flag` the type, default or range that the specifier `body` says.
pub fn read_type(flag: &mut Flag, user_types: &Vec<String>, body: &str) -> (r: Result<
    (),
    LappError,
>)
    ensures
        final(flag)@ == typed(old(flag)@, string_views(user_types@), body@).state,
        error_of(r) == typed(old(flag)@, string_views(user_types@), body@).error,
{
    let mut rest: &str = body;
    match split_with(rest, "..") {
        Some((b1, b2)) => flag.set_range_constraint(b1, b2),
        None => {
            if chars_of(rest).len() == 0 {
                return flag_fault(flag.long.as_str(), "nothing inside type specifier");
            }
            if starts_with(&mut rest, "default ") {
                rest = skipws(rest);
                flag.set_default_from_string(rest, true)
            } else {
                let name = grab_word(&mut rest);
                flag.vtype = if holds_name(user_types, name.as_str()) {
                    Type::Str
                } else {
                    Type::from_name(name.as_str())?
                };
                if starts_with(&mut rest, "default ") {
                    rest = skipws(rest);
                    flag.set_default_from_string(rest, false)
                } else {
                    Ok(())
                }
            }
        },
    }
}

/// Reads the specifier at the front of `slice`, if there is one, into `flag`, and takes it off
/// `slice`. Returns whether the flag is the positional argument that takes all that remain.
/// Where the specifier is in error, `slice` stays as it is.
pub fn read_specifier(
    flag: &mut Flag,
    positional: bool,
    varargs: bool,
    user_types: &Vec<String>,
    slice: &mut &str,
) -> (r: Result<bool, LappError>)
    ensures
        ({
            let sp = specified(
                old(flag)@,
                positional,
                varargs,
                string_views(user_types@),
                old(slice)@,
            );
            &&& final(flag)@ == sp.flag
            &&& final(slice)@ == sp.rest
            &&& error_of(r) == sp.error
            &&& r matches Ok(claims) ==> claims == sp.claims
        }),
{
    let mut s: &str = *slice;
    if starts_with(&mut s, "(") {
        let inner = grab_upto(&mut s, ")")?;
        let mut body: &str = trimmed(inner.as_str());
        let dotted = ends_with(&mut body, "...");
        read_type(flag, user_types, body)?;
        let mut claims = false;
        if dotted {
            if positional && varargs {
                return flag_fault(
                    flag.long.as_str(),
                    "only last argument can occur multiple times",
                );
            }
            flag.defval = Value::empty_array();
            if positional {
                flag.is_multiple = true;
                claims = true;
            } else {
                let mut element = Type::Absent;
                core::mem::swap(&mut flag.vtype, &mut element);
                flag.vtype = element.create_empty_array();
            }
        }
        if flag.is_multiple {
            flag.value = Value::empty_array();
        }
        *slice = s;
        Ok(claims)
    } else {
        flag.defval = Value::Bool(false);
        flag.vtype = Type::Bool;
        Ok(false)
    }
}

} // verus!
