//! The command line: how its tokens find their flags.

use vstd::prelude::*;
use vstd::string::*;
use crate::chars::{run, run_length, CharClass};
use crate::flag::{checked, error_of, with_argument, with_value, Attempt, Flag, FlagView};
use crate::grammar::{
    answers, done, lemma_lookup, lemma_lookup_at, lookup, lookup_message, Key, KeyView,
};
use crate::strutil::starts_with;
use crate::text::{chars_of, push_decimal, same_text, string_views, text_of};
use crate::types::{LappError, Type, Value, ValueView};

verus! {

/// The views of the flags in a list.
pub open spec fn flag_views(v: Seq<Flag>) -> Seq<FlagView> {
    Seq::new(v.len(), |i: int| v[i]@)
}

/// Where the reading of a command line stands after one token, or one token and the value
/// behind it.
pub struct Step {
    pub flags: Seq<FlagView>,
    /// The message, if the token was in error.
    pub error: Option<Seq<char>>,
    /// The tokens that are still to be read.
    pub rest: Seq<Seq<char>>,
    /// The place of the positional argument that comes next.
    pub k: usize,
    /// Whether a token that begins with a dash still names a flag.
    pub parsing: bool,
}

/// The message for a flag that wants a value where the command line ends.
pub open spec fn no_value_message(name: Seq<char>) -> Seq<char> {
    "no value for flag '"@ + name + "'"@
}

/// The step that leaves the flag at `j` as the attempt `a` left it.
pub open spec fn fed(
    flags: Seq<FlagView>,
    j: int,
    a: Attempt<FlagView>,
    rest: Seq<Seq<char>>,
    k: usize,
    parsing: bool,
) -> Step {
    Step { flags: flags.update(j, a.state), error: a.error, rest, k, parsing }
}

/// The step that fails with `e` and changes nothing.
pub open spec fn stuck(flags: Seq<FlagView>, e: Seq<char>, rest: Seq<Seq<char>>, k: usize) -> Step {
    Step { flags, error: Some(e), rest, k, parsing: true }
}

/// Gives the flag at `j` its value: `inline` if that is not empty, else the next token. `name`
/// is what the flag is called if there is no next token.
pub open spec fn take_value(
    flags: Seq<FlagView>,
    j: int,
    inline: Seq<char>,
    name: Seq<char>,
    rest: Seq<Seq<char>>,
    k: usize,
) -> Step {
    if inline.len() > 0 {
        fed(flags, j, with_argument(flags[j], inline), rest, k, true)
    } else if rest.len() == 0 {
        stuck(flags, no_value_message(name), rest, k)
    } else {
        fed(flags, j, with_argument(flags[j], rest[0]), rest.drop_first(), k, true)
    }
}

/// The name in what follows the two dashes of a long flag: all up to the first `=` or `:`.
pub open spec fn long_name(s: Seq<char>) -> Seq<char> {
    s.take(run(s, CharClass::Unassigned) as int)
}

/// The value written behind the name of a long flag: what follows the first `=` or `:`.
pub open spec fn long_inline(s: Seq<char>) -> Seq<char> {
    let n = run(s, CharClass::Unassigned) as int;
    if n < s.len() {
        s.skip(n + 1)
    } else {
        seq![]
    }
}

/// The value written behind a short flag: what follows it in the token, without the `=` or `:`
/// that may introduce it.
pub open spec fn short_inline(r: Seq<char>) -> Seq<char> {
    if r.len() > 0 && (r[0] == '=' || r[0] == ':') {
        r.skip(1)
    } else {
        r
    }
}

/// The step for a long flag; `s` is what follows the two dashes. A boolean flag becomes true;
/// any other takes its value from behind the `=` or `:`, or from the next token.
pub open spec fn long_step(flags: Seq<FlagView>, s: Seq<char>, rest: Seq<Seq<char>>, k: usize) -> Step {
    match lookup(flags, KeyView::Long(long_name(s))) {
        None => stuck(flags, lookup_message(KeyView::Long(long_name(s))), rest, k),
        Some(j) => {
            if flags[j].vtype is Bool {
                fed(flags, j, with_value(flags[j], ValueView::Bool(true)), rest, k, true)
            } else {
                take_value(flags, j, long_inline(s), long_name(s), rest, k)
            }
        },
    }
}

/// The step for the short flags `cs` of one token, from left to right. A boolean flag becomes
/// true, and the next character is the next flag; any other flag takes the remainder of the
/// token, or the next token, as its value.
pub open spec fn shorts(flags: Seq<FlagView>, cs: Seq<char>, rest: Seq<Seq<char>>, k: usize) -> Step
    decreases cs.len(),
{
    if cs.len() == 0 {
        Step { flags, error: None, rest, k, parsing: true }
    } else {
        match lookup(flags, KeyView::Short(cs[0])) {
            None => stuck(flags, lookup_message(KeyView::Short(cs[0])), rest, k),
            Some(j) => {
                if flags[j].vtype is Bool {
                    let a = with_value(flags[j], ValueView::Bool(true));
                    if a.error is Some {
                        fed(flags, j, a, rest, k, true)
                    } else {
                        shorts(flags.update(j, a.state), cs.skip(1), rest, k)
                    }
                } else {
                    take_value(flags, j, short_inline(cs.skip(1)), flags[j].long, rest, k)
                }
            },
        }
    }
}

/// The step for a positional argument: the token goes to the flag whose place is `k`; the next
/// goes to the place behind it, unless the flag takes all that remain.
pub open spec fn positional_step(
    flags: Seq<FlagView>,
    t: Seq<char>,
    rest: Seq<Seq<char>>,
    k: usize,
    parsing: bool,
) -> Step {
    match lookup(flags, KeyView::Place(k)) {
        None => Step { parsing, ..stuck(flags, lookup_message(KeyView::Place(k)), rest, k) },
        Some(j) => fed(
            flags,
            j,
            with_argument(flags[j], t),
            rest,
            if flags[j].is_multiple {
                k
            } else {
                (k + 1) as usize
            },
            parsing,
        ),
    }
}

/// The step for the first of `tokens`. While flags are read, `--` alone ends their reading, a
/// token that begins with `--` is a long flag, and one that begins with `-` holds short flags;
/// every other token is a positional argument.
pub open spec fn step(flags: Seq<FlagView>, tokens: Seq<Seq<char>>, k: usize, parsing: bool) -> Step
    recommends
        tokens.len() > 0,
{
    let t = tokens[0];
    let rest = tokens.drop_first();
    if parsing && "--"@.is_prefix_of(t) {
        let s = t.skip("--"@.len() as int);
        if s.len() == 0 {
            Step { flags, error: None, rest, k, parsing: false }
        } else {
            long_step(flags, s, rest, k)
        }
    } else if parsing && "-"@.is_prefix_of(t) {
        shorts(flags, t.skip("-"@.len() as int), rest, k)
    } else {
        positional_step(flags, t, rest, k, parsing)
    }
}

/// The short flags of one token leave the tokens behind it, or all but the first of them.
pub proof fn lemma_shorts_rest(flags: Seq<FlagView>, cs: Seq<char>, rest: Seq<Seq<char>>, k: usize)
    ensures
        ({
            let st = shorts(flags, cs, rest, k);
            st.rest == rest || (rest.len() > 0 && st.rest == rest.drop_first())
        }),
    decreases cs.len(),
{
    if cs.len() > 0 {
        match lookup(flags, KeyView::Short(cs[0])) {
            None => {},
            Some(j) => {
                if flags[j].vtype is Bool {
                    let a = with_value(flags[j], ValueView::Bool(true));
                    if a.error is None {
                        lemma_shorts_rest(flags.update(j, a.state), cs.skip(1), rest, k);
                    }
                }
            },
        }
    }
}

/// The short flags of one token leave the place of the next positional argument alone, and
/// flags are still read after them.
pub proof fn lemma_shorts_state(flags: Seq<FlagView>, cs: Seq<char>, rest: Seq<Seq<char>>, k: usize)
    ensures
        shorts(flags, cs, rest, k).k == k,
        shorts(flags, cs, rest, k).parsing,
    decreases cs.len(),
{
    if cs.len() > 0 {
        match lookup(flags, KeyView::Short(cs[0])) {
            None => {},
            Some(j) => {
                if flags[j].vtype is Bool {
                    let a = with_value(flags[j], ValueView::Bool(true));
                    if a.error is None {
                        lemma_shorts_state(flags.update(j, a.state), cs.skip(1), rest, k);
                    }
                }
            },
        }
    }
}

/// A step leaves fewer tokens than it found.
pub proof fn lemma_step_shrinks(flags: Seq<FlagView>, tokens: Seq<Seq<char>>, k: usize, parsing: bool)
    requires
        tokens.len() > 0,
    ensures
        step(flags, tokens, k, parsing).rest.len() < tokens.len(),
{
    let t = tokens[0];
    if parsing && !"--"@.is_prefix_of(t) && "-"@.is_prefix_of(t) {
        lemma_shorts_rest(flags, t.skip("-"@.len() as int), tokens.drop_first(), k);
    }
}

/// The flags after the tokens were read from left to right, up to the first that is in error.
/// `k` is the place of the next positional argument.
pub open spec fn scan(flags: Seq<FlagView>, tokens: Seq<Seq<char>>, k: usize, parsing: bool) -> Attempt<
    Seq<FlagView>,
>
    decreases tokens.len(),
{
    if tokens.len() == 0 {
        done(flags)
    } else {
        let st = step(flags, tokens, k, parsing);
        if st.error is Some {
            Attempt { state: st.flags, error: st.error }
        } else {
            proof {
                lemma_step_shrinks(flags, tokens, k, parsing);
            }
            scan(st.flags, st.rest, st.k, st.parsing)
        }
    }
}

/// Whether the help flag is there and was given.
pub open spec fn help_wanted(flags: Seq<FlagView>) -> bool {
    match lookup(flags, KeyView::Long("help"@)) {
        Some(j) => flags[j].is_set,
        None => false,
    }
}

/// The flags, each closed as `checked` says.
pub open spec fn all_checked(flags: Seq<FlagView>) -> Seq<FlagView> {
    Seq::new(flags.len(), |i: int| checked(flags[i]))
}

/// The flags after the command line `argv` was read. After an error, or where help was asked
/// for, they stay as the reading left them; else every flag is closed.
pub open spec fn matched(flags: Seq<FlagView>, argv: Seq<Seq<char>>) -> Attempt<Seq<FlagView>> {
    let read = scan(flags, argv, 1, true);
    if read.error is Some || help_wanted(read.state) {
        read
    } else {
        done(all_checked(read.state))
    }
}

/// Whether two views show the same declaration: all but what the command line changes.
pub open spec fn same_declaration(a: FlagView, b: FlagView) -> bool {
    &&& a.long == b.long
    &&& a.short == b.short
    &&& a.vtype == b.vtype
    &&& a.defval == b.defval
    &&& a.is_multiple == b.is_multiple
    &&& a.pos == b.pos
    &&& a.help == b.help
    &&& a.constraint == b.constraint
    &&& a.defstr == b.defstr
}

/// Whether `after` may come of `before` by reading a command line: the declarations stay, a
/// flag that was given stays given, and one that was not given holds what it held.
pub open spec fn follows(before: Seq<FlagView>, after: Seq<FlagView>) -> bool {
    &&& after.len() == before.len()
    &&& forall|i: int|
        0 <= i < before.len() ==> {
            &&& same_declaration(#[trigger] after[i], before[i])
            &&& before[i].is_set ==> after[i].is_set
            &&& !after[i].is_set ==> after[i].value == before[i].value
        }
}

/// An argument changes nothing of a flag's declaration.
pub proof fn lemma_with_argument_follows(f: FlagView, arg: Seq<char>)
    ensures
        ({
            let g = with_argument(f, arg).state;
            same_declaration(g, f) && (f.is_set ==> g.is_set) && (!g.is_set ==> g.value == f.value)
        }),
{
}

/// Feeding one flag changes nothing of the declarations.
pub proof fn lemma_fed_follows(flags: Seq<FlagView>, j: int, g: FlagView)
    requires
        0 <= j < flags.len(),
        same_declaration(g, flags[j]),
        flags[j].is_set ==> g.is_set,
        !g.is_set ==> g.value == flags[j].value,
    ensures
        follows(flags, flags.update(j, g)),
{
}

/// `follows` passes on from step to step.
pub proof fn lemma_follows_trans(a: Seq<FlagView>, b: Seq<FlagView>, c: Seq<FlagView>)
    requires
        follows(a, b),
        follows(b, c),
    ensures
        follows(a, c),
{
    assert forall|i: int| 0 <= i < a.len() implies {
        &&& same_declaration(#[trigger] c[i], a[i])
        &&& a[i].is_set ==> c[i].is_set
        &&& !c[i].is_set ==> c[i].value == a[i].value
    } by {
        assert(same_declaration(b[i], a[i]));
        assert(same_declaration(c[i], b[i]));
    }
}

/// Giving a value to the flag that a lookup found changes nothing of the declarations.
pub proof fn lemma_take_value_follows(
    flags: Seq<FlagView>,
    j: int,
    inline: Seq<char>,
    name: Seq<char>,
    rest: Seq<Seq<char>>,
    k: usize,
)
    requires
        0 <= j < flags.len(),
    ensures
        follows(flags, take_value(flags, j, inline, name, rest, k).flags),
{
    if inline.len() > 0 {
        lemma_with_argument_follows(flags[j], inline);
        lemma_fed_follows(flags, j, with_argument(flags[j], inline).state);
    } else if rest.len() > 0 {
        lemma_with_argument_follows(flags[j], rest[0]);
        lemma_fed_follows(flags, j, with_argument(flags[j], rest[0]).state);
    }
}

/// The short flags of a token change nothing of the declarations.
pub proof fn lemma_shorts_follows(flags: Seq<FlagView>, cs: Seq<char>, rest: Seq<Seq<char>>, k: usize)
    ensures
        follows(flags, shorts(flags, cs, rest, k).flags),
    decreases cs.len(),
{
    if cs.len() > 0 {
        lemma_lookup(flags, KeyView::Short(cs[0]));
        match lookup(flags, KeyView::Short(cs[0])) {
            None => {},
            Some(j) => {
                if flags[j].vtype is Bool {
                    let a = with_value(flags[j], ValueView::Bool(true));
                    lemma_fed_follows(flags, j, a.state);
                    if a.error is None {
                        let next = flags.update(j, a.state);
                        lemma_shorts_follows(next, cs.skip(1), rest, k);
                        lemma_follows_trans(flags, next, shorts(next, cs.skip(1), rest, k).flags);
                    }
                } else {
                    lemma_take_value_follows(
                        flags,
                        j,
                        short_inline(cs.skip(1)),
                        flags[j].long,
                        rest,
                        k,
                    );
                }
            },
        }
    }
}

/// A step changes nothing of the declarations.
pub proof fn lemma_step_follows(flags: Seq<FlagView>, tokens: Seq<Seq<char>>, k: usize, parsing: bool)
    requires
        tokens.len() > 0,
    ensures
        follows(flags, step(flags, tokens, k, parsing).flags),
{
    let t = tokens[0];
    let rest = tokens.drop_first();
    if parsing && "--"@.is_prefix_of(t) {
        let s = t.skip("--"@.len() as int);
        if s.len() > 0 {
            lemma_lookup(flags, KeyView::Long(long_name(s)));
            match lookup(flags, KeyView::Long(long_name(s))) {
                None => {},
                Some(j) => {
                    if flags[j].vtype is Bool {
                        lemma_fed_follows(
                            flags,
                            j,
                            with_value(flags[j], ValueView::Bool(true)).state,
                        );
                    } else {
                        lemma_take_value_follows(flags, j, long_inline(s), long_name(s), rest, k);
                    }
                },
            }
        }
    } else if parsing && "-"@.is_prefix_of(t) {
        lemma_shorts_follows(flags, t.skip("-"@.len() as int), rest, k);
    } else {
        lemma_lookup(flags, KeyView::Place(k));
        match lookup(flags, KeyView::Place(k)) {
            None => {},
            Some(j) => {
                lemma_with_argument_follows(flags[j], t);
                lemma_fed_follows(flags, j, with_argument(flags[j], t).state);
            },
        }
    }
}

/// Reading a command line changes nothing of the declarations, and a flag that it leaves
/// without a mark of being given holds what it held before.
pub proof fn lemma_scan_follows(flags: Seq<FlagView>, tokens: Seq<Seq<char>>, k: usize, parsing: bool)
    ensures
        follows(flags, scan(flags, tokens, k, parsing).state),
    decreases tokens.len(),
{
    if tokens.len() > 0 {
        let st = step(flags, tokens, k, parsing);
        lemma_step_follows(flags, tokens, k, parsing);
        if st.error is None {
            lemma_step_shrinks(flags, tokens, k, parsing);
            lemma_scan_follows(st.flags, st.rest, st.k, st.parsing);
            lemma_follows_trans(flags, st.flags, scan(st.flags, st.rest, st.k, st.parsing).state);
        }
    }
}

/// Finds the first flag that the key asks for.
pub fn find_flag(flags: &Vec<Flag>, key: &Key) -> (r: Option<usize>)
    ensures
        lookup(flag_views(flags@), key@) == match r {
            Some(j) => Some(j as int),
            None => None,
        },
        r matches Some(j) ==> j < flags.len(),
{
    let mut i: usize = 0;
    while i < flags.len()
        invariant
            i <= flags.len(),
            forall|j: int| 0 <= j < i ==> !answers(#[trigger] flag_views(flags@)[j], key@),
        decreases flags.len() - i,
    {
        let hit = match key {
            Key::Long(s) => same_text(flags[i].long.as_str(), s),
            Key::Short(c) => flags[i].short == *c,
            Key::Place(p) => flags[i].pos == *p,
        };
        if hit {
            proof {
                assert(answers(flag_views(flags@)[i as int], key@));
                lemma_lookup_at(flag_views(flags@), key@, i as int);
            }
            return Some(i);
        }
        i += 1;
    }
    proof {
        lemma_lookup_at(flag_views(flags@), key@, i as int);
    }
    None
}

/// Fails because no flag answers the key.
pub fn missing<T>(key: &Key) -> (r: Result<T, LappError>)
    ensures
        r matches Err(e) && e@ == lookup_message(key@),
{
    match key {
        Key::Long(s) => {
            let mut msg = String::from_str("no long flag '");
            msg.append(s);
            msg.append("'");
            Err(LappError(msg))
        },
        Key::Short(c) => {
            let mut msg = String::from_str("no short flag '");
            let ghost before = msg@;
            msg.push(*c);
            proof {
                assert(msg@ =~= before + seq![*c]);
            }
            msg.append("'");
            Err(LappError(msg))
        },
        Key::Place(p) => {
            let mut msg = String::from_str("no arg #");
            push_decimal(&mut msg, *p as u64);
            Err(LappError(msg))
        },
    }
}

/// Gives the argument `arg` to the flag at index `j`.
pub fn give_argument(flags: &mut Vec<Flag>, j: usize, arg: &str) -> (r: Result<(), LappError>)
    requires
        j < old(flags).len(),
    ensures
        flag_views(final(flags)@) == flag_views(old(flags)@).update(
            j as int,
            with_argument(old(flags)@[j as int]@, arg@).state,
        ),
        error_of(r) == with_argument(old(flags)@[j as int]@, arg@).error,
{
    let r = flags[j].set_value_from_string(arg);
    proof {
        assert(flag_views(flags@) =~= flag_views(old(flags)@).update(
            j as int,
            with_argument(old(flags)@[j as int]@, arg@).state,
        ));
    }
    r
}

/// Makes the boolean flag at index `j` true.
pub fn give_true(flags: &mut Vec<Flag>, j: usize) -> (r: Result<(), LappError>)
    requires
        j < old(flags).len(),
    ensures
        flag_views(final(flags)@) == flag_views(old(flags)@).update(
            j as int,
            with_value(old(flags)@[j as int]@, ValueView::Bool(true)).state,
        ),
        error_of(r) == with_value(old(flags)@[j as int]@, ValueView::Bool(true)).error,
{
    let r = flags[j].set_value(Value::Bool(true));
    proof {
        assert(flag_views(flags@) =~= flag_views(old(flags)@).update(
            j as int,
            with_value(old(flags)@[j as int]@, ValueView::Bool(true)).state,
        ));
    }
    r
}

/// Whether the flag at index `j` is a boolean one.
pub fn is_switch(flags: &Vec<Flag>, j: usize) -> (b: bool)
    requires
        j < flags.len(),
    ensures
        b == (flag_views(flags@)[j as int].vtype is Bool),
{
    match flags[j].vtype {
        Type::Bool => true,
        _ => false,
    }
}

/// Gives the flag at index `j` its value: `inline` if that is not empty, else the token at
/// `next`. Returns the index of the token that is to be read next.
pub fn feed_value(
    flags: &mut Vec<Flag>,
    j: usize,
    inline: &str,
    name: &str,
    argv: &Vec<String>,
    next: usize,
    k: usize,
) -> (r: Result<usize, LappError>)
    requires
        j < old(flags).len(),
        next <= argv.len(),
    ensures
        ({
            let st = take_value(
                flag_views(old(flags)@),
                j as int,
                inline@,
                name@,
                string_views(argv@).skip(next as int),
                k,
            );
            &&& flag_views(final(flags)@) == st.flags
            &&& error_of(r) == st.error
            &&& r matches Ok(n) ==> next <= n <= argv.len() && st.rest == string_views(argv@).skip(
                n as int,
            )
        }),
{
    let ghost rest = string_views(argv@).skip(next as int);
    if inline.unicode_len() > 0 {
        give_argument(flags, j, inline)?;
        Ok(next)
    } else if next >= argv.len() {
        let mut msg = String::from_str("no value for flag '");
        msg.append(name);
        msg.append("'");
        Err(LappError(msg))
    } else {
        proof {
            assert(rest[0] == argv@[next as int]@);
            assert(rest.drop_first() =~= string_views(argv@).skip(next + 1));
        }
        give_argument(flags, j, argv[next].as_str())?;
        Ok(next + 1)
    }
}

/// Reads a long flag; `s` is what follows the two dashes. Returns the index of the token that
/// is to be read next.
pub fn read_long(flags: &mut Vec<Flag>, s: &str, argv: &Vec<String>, next: usize, k: usize) -> (r:
    Result<usize, LappError>)
    requires
        next <= argv.len(),
    ensures
        ({
            let st = long_step(
                flag_views(old(flags)@),
                s@,
                string_views(argv@).skip(next as int),
                k,
            );
            &&& flag_views(final(flags)@) == st.flags
            &&& error_of(r) == st.error
            &&& r matches Ok(n) ==> next <= n <= argv.len() && st.rest == string_views(argv@).skip(
                n as int,
            )
        }),
{
    let v = chars_of(s);
    let n = run_length(&v, 0, CharClass::Unassigned);
    proof {
        assert(v@.skip(0) =~= v@);
    }
    let name: &str = s.substring_char(0, n);
    let inline: &str = if n < v.len() {
        s.substring_char(n + 1, v.len())
    } else {
        s.substring_char(n, n)
    };
    proof {
        assert(n >= v.len() ==> inline@ =~= Seq::<char>::empty());
    }
    let key = Key::Long(name);
    match find_flag(flags, &key) {
        None => missing(&key),
        Some(j) => {
            if is_switch(flags, j) {
                give_true(flags, j)?;
                Ok(next)
            } else {
                feed_value(flags, j, inline, name, argv, next, k)
            }
        },
    }
}

/// Reads the short flags `cs` of one token. Returns the index of the token that is to be read
/// next.
pub fn read_shorts(
    flags: &mut Vec<Flag>,
    cs: &Vec<char>,
    argv: &Vec<String>,
    next: usize,
    k: usize,
) -> (r: Result<usize, LappError>)
    requires
        next <= argv.len(),
    ensures
        ({
            let st = shorts(
                flag_views(old(flags)@),
                cs@,
                string_views(argv@).skip(next as int),
                k,
            );
            &&& flag_views(final(flags)@) == st.flags
            &&& error_of(r) == st.error
            &&& r matches Ok(n) ==> next <= n <= argv.len() && st.rest == string_views(argv@).skip(
                n as int,
            )
        }),
{
    let ghost first = flag_views(flags@);
    let ghost rest = string_views(argv@).skip(next as int);
    let mut from: usize = 0;
    proof {
        assert(cs@.skip(0) =~= cs@);
    }
    while from < cs.len()
        invariant
            from <= cs.len(),
            next <= argv.len(),
            first == flag_views(old(flags)@),
            rest == string_views(argv@).skip(next as int),
            shorts(first, cs@, rest, k) == shorts(flag_views(flags@), cs@.skip(from as int), rest, k),
        decreases cs.len() - from,
    {
        let ghost tail = cs@.skip(from as int);
        proof {
            assert(tail[0] == cs@[from as int]);
            assert(tail.skip(1) =~= cs@.skip(from + 1));
        }
        let key = Key::Short(cs[from]);
        match find_flag(flags, &key) {
            None => {
                return missing(&key);
            },
            Some(j) => {
                if is_switch(flags, j) {
                    give_true(flags, j)?;
                } else {
                    let start: usize = if from + 1 < cs.len() && (cs[from + 1] == '=' || cs[from
                        + 1] == ':') {
                        from + 2
                    } else {
                        from + 1
                    };
                    proof {
                        if from + 1 < cs.len() {
                            assert(tail.skip(1)[0] == cs@[from + 1]);
                        }
                        assert(cs@.subrange(start as int, cs.len() as int) =~= short_inline(
                            tail.skip(1),
                        ));
                    }
                    let inline = text_of(cs, start, cs.len());
                    let name = flags[j].long.clone();
                    return feed_value(flags, j, inline.as_str(), name.as_str(), argv, next, k);
                }
            },
        }
        from += 1;
    }
    Ok(next)
}

/// Reads the positional argument `t` into the flag whose place is `k`. Returns the place of the
/// positional argument that comes next.
pub fn read_positional(flags: &mut Vec<Flag>, t: &str, k: usize) -> (r: Result<usize, LappError>)
    requires
        forall|j: int| 0 <= j < old(flags).len() ==> (#[trigger] flag_views(old(flags)@)[j]).pos
            < usize::MAX,
    ensures
        forall|rest: Seq<Seq<char>>, parsing: bool|
            {
                let st = #[trigger] positional_step(flag_views(old(flags)@), t@, rest, k, parsing);
                &&& flag_views(final(flags)@) == st.flags
                &&& error_of(r) == st.error
                &&& r matches Ok(n) ==> n == st.k
            },
{
    let key = Key::Place(k);
    match find_flag(flags, &key) {
        None => missing(&key),
        Some(j) => {
            proof {
                lemma_lookup(flag_views(flags@), key@);
                assert(flag_views(flags@)[j as int].pos == k);
            }
            let several = flags[j].is_multiple;
            give_argument(flags, j, t)?;
            if several {
                Ok(k)
            } else {
                Ok(k + 1)
            }
        },
    }
}

/// Reads the token at index `i`, and the value behind it if it takes one. Returns the index of
/// the token that is to be read next, the place of the next positional argument, and whether
/// flags are still read.
pub fn read_token(flags: &mut Vec<Flag>, argv: &Vec<String>, i: usize, k: usize, parsing: bool) -> (r:
    Result<(usize, usize, bool), LappError>)
    requires
        i < argv.len(),
        forall|j: int| 0 <= j < old(flags).len() ==> (#[trigger] flag_views(old(flags)@)[j]).pos
            < usize::MAX,
    ensures
        ({
            let st = step(
                flag_views(old(flags)@),
                string_views(argv@).skip(i as int),
                k,
                parsing,
            );
            &&& flag_views(final(flags)@) == st.flags
            &&& error_of(r) == st.error
            &&& r matches Ok(n) ==> i < n.0 <= argv.len() && st.rest == string_views(argv@).skip(
                n.0 as int,
            ) && n.1 == st.k && n.2 == st.parsing
        }),
{
    let ghost tokens = string_views(argv@).skip(i as int);
    proof {
        assert(tokens[0] == argv@[i as int]@);
        assert(tokens.drop_first() =~= string_views(argv@).skip(i + 1));
    }
    let mut s: &str = argv[i].as_str();
    if parsing && starts_with(&mut s, "--") {
        if s.unicode_len() == 0 {
            Ok((i + 1, k, false))
        } else {
            let next = read_long(flags, s, argv, i + 1, k)?;
            Ok((next, k, true))
        }
    } else if parsing && starts_with(&mut s, "-") {
        let cs = chars_of(s);
        proof {
            lemma_shorts_state(flag_views(flags@), cs@, tokens.drop_first(), k);
        }
        let next = read_shorts(flags, &cs, argv, i + 1, k)?;
        Ok((next, k, true))
    } else {
        let place = read_positional(flags, s, k)?;
        Ok((i + 1, place, parsing))
    }
}

/// Reads the command line `argv` into the flags, token by token, up to the first token that is
/// in error.
pub fn scan_tokens(flags: &mut Vec<Flag>, argv: &Vec<String>) -> (r: Result<(), LappError>)
    requires
        forall|j: int| 0 <= j < old(flags).len() ==> (#[trigger] flag_views(old(flags)@)[j]).pos
            < usize::MAX,
    ensures
        flag_views(final(flags)@) == scan(flag_views(old(flags)@), string_views(argv@), 1, true).state,
        error_of(r) == scan(flag_views(old(flags)@), string_views(argv@), 1, true).error,
{
    let ghost first = flag_views(flags@);
    let ghost all = string_views(argv@);
    let mut parsing = true;
    let mut k: usize = 1;
    let mut i: usize = 0;
    proof {
        assert(all.skip(0) =~= all);
    }
    while i < argv.len()
        invariant
            i <= argv.len(),
            all == string_views(argv@),
            first == flag_views(old(flags)@),
            follows(first, flag_views(flags@)),
            forall|j: int| 0 <= j < first.len() ==> (#[trigger] first[j]).pos < usize::MAX,
            scan(first, all, 1, true) == scan(flag_views(flags@), all.skip(i as int), k, parsing),
        decreases argv.len() - i,
    {
        let ghost before = flag_views(flags@);
        let ghost tokens = all.skip(i as int);
        proof {
            assert(tokens[0] == argv@[i as int]@);
            assert(tokens.drop_first() =~= all.skip(i + 1));
            assert(tokens.len() > 0);
            lemma_step_follows(before, tokens, k, parsing);
            lemma_follows_trans(first, before, step(before, tokens, k, parsing).flags);
            assert forall|j: int| 0 <= j < flags.len() implies (#[trigger] flag_views(
                flags@,
            )[j]).pos < usize::MAX by {
                assert(same_declaration(before[j], first[j]));
            }
        }
        let (next, place, still) = read_token(flags, argv, i, k, parsing)?;
        i = next;
        k = place;
        parsing = still;
    }
    Ok(())
}

/// Whether the help flag is there and was given.
pub fn wants_help(flags: &Vec<Flag>) -> (b: bool)
    ensures
        b == help_wanted(flag_views(flags@)),
{
    let key = Key::Long("help");
    match find_flag(flags, &key) {
        Some(j) => flags[j].is_set,
        None => false,
    }
}

/// Closes every flag: one that was not given takes its default, if it has one.
pub fn check_all(flags: &mut Vec<Flag>)
    ensures
        flag_views(final(flags)@) == all_checked(flag_views(old(flags)@)),
{
    let ghost first = flag_views(flags@);
    let mut i: usize = 0;
    while i < flags.len()
        invariant
            i <= flags.len(),
            flags.len() == first.len(),
            forall|j: int| 0 <= j < i ==> (#[trigger] flag_views(flags@)[j]) == checked(first[j]),
            forall|j: int| i <= j < flags.len() ==> (#[trigger] flag_views(flags@)[j]) == first[j],
        decreases flags.len() - i,
    {
        let ghost before = flag_views(flags@);
        proof {
            assert(flag_views(flags@)[i as int] == first[i as int]);
        }
        let _ = flags[i].check();
        proof {
            assert forall|j: int| 0 <= j < i + 1 implies (#[trigger] flag_views(flags@)[j])
                == checked(first[j]) by {
                if j < i {
                    assert(flag_views(flags@)[j] == before[j]);
                }
            }
            assert forall|j: int| i + 1 <= j < flags.len() implies (#[trigger] flag_views(
                flags@,
            )[j]) == first[j] by {
                assert(flag_views(flags@)[j] == before[j]);
            }
        }
        i += 1;
    }
    proof {
        assert(flag_views(flags@) =~= all_checked(first));
    }
}

} // verus!
