//! What holds of every usage text and every command line.

use vstd::prelude::*;
use crate::access::{
    array_at, bool_at, flag_message, float_at, found, int_at, position_of, string_at, text_at,
};
use crate::chars::{is_space, lemma_run, lemma_run_bounds, run, CharClass};
use crate::flag::{blank_flag, checked, coerced_value, with_argument, with_value, Attempt, FlagView};
use crate::grammar::{
    answers, declared, declared_all, done, flag_of_head, head_of, help_line, lemma_lookup,
    lemma_lookup_at, lookup, short_head, specified, usage_read, ArgsView, Head, KeyView,
};
use crate::matcher::{
    all_checked, help_wanted, lemma_scan_follows, matched, positional_step, same_declaration, scan,
    shorts, step,
};
use crate::strutil::{lines, skip_spaces};
use crate::types::{
    coerce, coerce_each, split_list, split_on_commas, split_on_spaces, type_of_view, Type,
    ValueView,
};

verus! {

/// A token made of a dash and the characters `s`.
pub open spec fn dashed(s: Seq<char>) -> Seq<char> {
    seq!['-'] + s
}

/// A token that begins with one dash, and not with two, is read as short flags.
pub proof fn lemma_dashed_step(flags: Seq<FlagView>, s: Seq<char>, rest: Seq<Seq<char>>, k: usize)
    requires
        s.len() > 0,
        s[0] != '-',
    ensures
        step(flags, seq![dashed(s)] + rest, k, true) == shorts(flags, s, rest, k),
{
    reveal_strlit("-");
    reveal_strlit("--");
    let tokens = seq![dashed(s)] + rest;
    let t = dashed(s);
    assert(tokens[0] == t);
    assert(tokens.drop_first() =~= rest);
    assert(t[0] == '-' && t[1] == s[0]);
    assert("-"@.is_prefix_of(t)) by {
        assert("-"@ =~= t.subrange(0, 1));
    }
    assert(!"--"@.is_prefix_of(t)) by {
        if "--"@.is_prefix_of(t) {
            assert("--"@[1] == t.subrange(0, 2)[1]);
        }
    }
    assert(t.skip(1) =~= s);
}

/// Short flags written in one token are read as if each boolean one among them stood in a
/// token of its own: where `c` is the short name of a boolean flag, the token `-c` followed by
/// `more` is read as the two tokens `-c` and `-more` are. So `-vk` is read as `-v -k` is.
pub proof fn law_short_flags_compose(
    flags: Seq<FlagView>,
    c: char,
    more: Seq<char>,
    rest: Seq<Seq<char>>,
    k: usize,
)
    requires
        c != '-',
        more.len() > 0,
        more[0] != '-',
        lookup(flags, KeyView::Short(c)) matches Some(j) && flags[j].vtype is Bool,
    ensures
        scan(flags, seq![dashed(seq![c] + more)] + rest, k, true) == scan(
            flags,
            seq![dashed(seq![c]), dashed(more)] + rest,
            k,
            true,
        ),
{
    let one = seq![dashed(seq![c] + more)] + rest;
    let tail = seq![dashed(more)] + rest;
    let two = seq![dashed(seq![c])] + tail;
    assert(two =~= seq![dashed(seq![c]), dashed(more)] + rest);
    let j = lookup(flags, KeyView::Short(c))->Some_0;
    let a = with_value(flags[j], ValueView::Bool(true));
    let next = flags.update(j, a.state);
    let both = seq![c] + more;
    assert(both[0] == c);
    assert(both.skip(1) =~= more);
    assert(seq![c].skip(1) =~= Seq::<char>::empty());
    lemma_dashed_step(flags, both, rest, k);
    lemma_dashed_step(flags, seq![c], tail, k);
    let first = shorts(flags, both, rest, k);
    let alone = shorts(flags, seq![c], tail, k);
    assert(step(flags, one, k, true) == first);
    assert(step(flags, two, k, true) == alone);
    if a.error is None {
        lemma_dashed_step(next, more, rest, k);
        let then = shorts(next, more, rest, k);
        assert(first == then);
        assert(alone == shorts(next, Seq::<char>::empty(), tail, k));
        assert(alone.error is None && alone.flags == next && alone.rest == tail && alone.k == k
            && alone.parsing);
        assert(scan(flags, two, k, true) == scan(next, tail, k, true));
        assert(step(next, tail, k, true) == then);
    }
}

/// The flags after every token of `tokens` was read as a positional argument, up to the first
/// that is in error.
pub open spec fn positionals(flags: Seq<FlagView>, tokens: Seq<Seq<char>>, k: usize) -> Attempt<
    Seq<FlagView>,
>
    decreases tokens.len(),
{
    if tokens.len() == 0 {
        done(flags)
    } else {
        let st = positional_step(flags, tokens[0], tokens.drop_first(), k, false);
        if st.error is Some {
            Attempt { state: st.flags, error: st.error }
        } else {
            positionals(st.flags, tokens.drop_first(), st.k)
        }
    }
}

/// Once flags are no longer read, every token is a positional argument, whatever it begins
/// with.
pub proof fn law_literal_mode(flags: Seq<FlagView>, tokens: Seq<Seq<char>>, k: usize)
    ensures
        scan(flags, tokens, k, false) == positionals(flags, tokens, k),
    decreases tokens.len(),
{
    if tokens.len() > 0 {
        let st = step(flags, tokens, k, false);
        assert(st == positional_step(flags, tokens[0], tokens.drop_first(), k, false));
        if st.error is None {
            law_literal_mode(st.flags, st.rest, st.k);
        }
    }
}

/// The token `--` ends the reading of flags: every token behind it is a positional argument,
/// also one that begins with a dash.
pub proof fn law_double_dash(flags: Seq<FlagView>, rest: Seq<Seq<char>>, k: usize)
    ensures
        scan(flags, seq!["--"@] + rest, k, true) == positionals(flags, rest, k),
{
    let tokens = seq!["--"@] + rest;
    assert(tokens[0] == "--"@);
    assert(tokens.drop_first() =~= rest);
    assert("--"@.is_prefix_of("--"@)) by {
        assert("--"@ =~= "--"@.subrange(0, "--"@.len() as int));
    }
    let st = step(flags, tokens, k, true);
    assert(st.flags == flags && st.error is None && st.rest == rest && st.k == k && !st.parsing);
    law_literal_mode(flags, rest, k);
}

/// The flag after the arguments `args` were given to it one after the other, up to the first
/// that is refused.
pub open spec fn with_arguments(f: FlagView, args: Seq<Seq<char>>) -> Attempt<FlagView>
    decreases args.len(),
{
    if args.len() == 0 {
        done(f)
    } else {
        let before = with_arguments(f, args.drop_last());
        if before.error is Some {
            before
        } else {
            with_argument(before.state, args.last())
        }
    }
}

/// The values that the arguments `args` give to the flag `f`, in their order.
pub open spec fn values_given(f: FlagView, args: Seq<Seq<char>>) -> Seq<ValueView> {
    Seq::new(args.len(), |i: int| coerced_value(f, args[i]))
}

/// A flag that may occur several times gathers one element for each time that it occurs, in the
/// order of the command line: its array grows by the values of the arguments, first to last,
/// and it keeps the arguments as they were written.
pub proof fn law_multiple_accumulates(f: FlagView, held: Seq<ValueView>, args: Seq<Seq<char>>)
    requires
        f.is_multiple,
        f.value == ValueView::Arr(held),
        with_arguments(f, args).error is None,
    ensures
        with_arguments(f, args).state.value == ValueView::Arr(held + values_given(f, args)),
        with_arguments(f, args).state.strings == f.strings + args,
        same_declaration(with_arguments(f, args).state, f),
    decreases args.len(),
{
    if args.len() == 0 {
        assert(held + values_given(f, args) =~= held);
        assert(f.strings + args =~= f.strings);
    } else {
        let front = args.drop_last();
        let before = with_arguments(f, front);
        law_multiple_accumulates(f, held, front);
        let g = before.state;
        assert(coerced_value(g, args.last()) == coerced_value(f, args.last()));
        assert(values_given(f, args) =~= values_given(f, front).push(
            coerced_value(f, args.last()),
        ));
        assert(held + values_given(f, args) =~= (held + values_given(f, front)).push(
            coerced_value(f, args.last()),
        ));
        assert(f.strings + args =~= (f.strings + front).push(args.last()));
    }
}

/// Whether the flags are as a usage text leaves them: none has been given, a flag that takes
/// one value holds none, and every flag is the first of its long name.
pub open spec fn untouched(flags: Seq<FlagView>) -> bool {
    forall|j: int|
        0 <= j < flags.len() ==> {
            &&& !(#[trigger] flags[j]).is_set
            &&& !flags[j].is_multiple ==> flags[j].value is Absent
            &&& lookup(flags, KeyView::Long(flags[j].long)) == Some(j)
        }
}

/// A lookup among flags with one more flag at their end finds what it found before, and the
/// new flag only where it found none.
pub proof fn lemma_lookup_push(flags: Seq<FlagView>, g: FlagView, key: KeyView)
    ensures
        lookup(flags.push(g), key) == match lookup(flags, key) {
            Some(i) => Some(i),
            None => if answers(g, key) {
                Some(flags.len() as int)
            } else {
                None
            },
        },
{
    let more = flags.push(g);
    lemma_lookup(flags, key);
    match lookup(flags, key) {
        Some(i) => {
            assert(more[i] == flags[i]);
            assert forall|j: int| 0 <= j < i implies !answers(
                #[trigger] more[j],
                key,
            ) by {
                assert(more[j] == flags[j]);
            }
            lemma_lookup_at(more, key, i);
        },
        None => {
            assert forall|j: int| 0 <= j < flags.len() implies !answers(
                #[trigger] more[j],
                key,
            ) by {
                assert(more[j] == flags[j]);
            }
            if answers(g, key) {
                assert(more[flags.len() as int] == g);
                lemma_lookup_at(more, key, flags.len() as int);
            } else {
                assert forall|j: int| 0 <= j < more.len() implies !answers(
                    #[trigger] more[j],
                    key,
                ) by {
                    if j < flags.len() {
                        assert(more[j] == flags[j]);
                    }
                }
                lemma_lookup_at(more, key, more.len() as int);
            }
        },
    }
}

/// A line of usage text leaves the flags as a usage text leaves them.
pub proof fn lemma_declared_untouched(a: ArgsView, line: Seq<char>)
    requires
        untouched(a.flags),
    ensures
        untouched(declared(a, line).state.flags),
{
    let b = declared(a, line).state;
    if b.flags != a.flags {
        let g = b.flags.last();
        assert(b.flags =~= a.flags.push(g));
        assert(lookup(a.flags, KeyView::Long(g.long)) is None);
        assert forall|j: int| 0 <= j < b.flags.len() implies {
            &&& !(#[trigger] b.flags[j]).is_set
            &&& !b.flags[j].is_multiple ==> b.flags[j].value is Absent
            &&& lookup(b.flags, KeyView::Long(b.flags[j].long)) == Some(j)
        } by {
            lemma_lookup_push(a.flags, g, KeyView::Long(b.flags[j].long));
            if j < a.flags.len() {
                assert(b.flags[j] == a.flags[j]);
            }
        }
    }
}

/// The lines of a usage text leave the flags as a usage text leaves them.
pub proof fn lemma_declared_all_untouched(a: ArgsView, ls: Seq<Seq<char>>)
    requires
        untouched(a.flags),
    ensures
        untouched(declared_all(a, ls).state.flags),
    decreases ls.len(),
{
    if ls.len() > 0 {
        lemma_declared_all_untouched(a, ls.drop_last());
        let before = declared_all(a, ls.drop_last());
        if before.error is None {
            lemma_declared_untouched(before.state, ls.last());
        }
    }
}

/// Reading a usage text into arguments that hold no flag yet leaves every flag not given, every
/// flag that takes one value without a value, and no two flags of one long name.
pub proof fn law_usage_untouched(a: ArgsView)
    requires
        untouched(a.flags),
    ensures
        untouched(usage_read(a).state.flags),
{
    let all = declared_all(a, lines(a.text));
    lemma_declared_all_untouched(a, lines(a.text));
    if all.error is None {
        lemma_declared_untouched(all.state, help_line());
    }
}

/// Flags that have the long names of others, one by one, are found by the same long names.
pub proof fn lemma_lookup_same_names(a: Seq<FlagView>, b: Seq<FlagView>, name: Seq<char>)
    requires
        a.len() == b.len(),
        forall|i: int| 0 <= i < a.len() ==> (#[trigger] a[i]).long == b[i].long,
    ensures
        lookup(a, KeyView::Long(name)) == lookup(b, KeyView::Long(name)),
{
    let key = KeyView::Long(name);
    lemma_lookup(b, key);
    match lookup(b, key) {
        Some(i) => {
            assert(a[i].long == b[i].long);
            assert forall|j: int| 0 <= j < i implies !answers(
                #[trigger] a[j],
                key,
            ) by {
                assert(a[j].long == b[j].long);
            }
            lemma_lookup_at(a, key, i);
        },
        None => {
            assert forall|j: int| 0 <= j < a.len() implies !answers(
                #[trigger] a[j],
                key,
            ) by {
                assert(a[j].long == b[j].long);
            }
            lemma_lookup_at(a, key, a.len() as int);
        },
    }
}

/// A flag that the usage text declares without a default, that takes one value and no list, and
/// that the command line does not give, has no value once the command line has been read:
/// whatever it is read as, the answer is the error that the flag is required.
pub proof fn law_required(flags: Seq<FlagView>, argv: Seq<Seq<char>>, j: int)
    requires
        untouched(flags),
        0 <= j < flags.len(),
        flags[j].defval is Absent,
        !flags[j].is_multiple,
        !(flags[j].vtype is Arr),
        matched(flags, argv).error is None,
        !help_wanted(scan(flags, argv, 1, true).state),
        !scan(flags, argv, 1, true).state[j].is_set,
    ensures
        ({
            let after = matched(flags, argv).state;
            let name = flags[j].long;
            let required = flag_message(name, "is required"@, position_of(flags[j]));
            &&& found(after, name) == Err::<int, Seq<char>>(required)
            &&& string_at(after, name) == Err::<Seq<char>, Seq<char>>(required)
            &&& int_at(after, name) == Err::<i32, Seq<char>>(required)
            &&& float_at(after, name) == Err::<Seq<char>, Seq<char>>(required)
            &&& bool_at(after, name) == Err::<bool, Seq<char>>(required)
            &&& text_at(after, name) == Err::<Seq<char>, Seq<char>>(required)
            &&& forall|kind: Seq<char>| #[trigger]
                array_at(after, name, kind) == Err::<Seq<ValueView>, Seq<char>>(required)
        }),
{
    let read = scan(flags, argv, 1, true).state;
    let after = matched(flags, argv).state;
    let name = flags[j].long;
    lemma_scan_follows(flags, argv, 1, true);
    assert(after == all_checked(read));
    assert(same_declaration(read[j], flags[j]));
    assert(after[j] == checked(read[j]));
    assert(after[j].value is Absent);
    assert forall|i: int| 0 <= i < after.len() implies (#[trigger] after[i]).long
        == flags[i].long by {
        assert(same_declaration(read[i], flags[i]));
        assert(after[i] == checked(read[i]));
    }
    lemma_lookup_same_names(after, flags, name);
    assert(lookup(after, KeyView::Long(name)) == Some(j));
    assert(position_of(after[j]) == position_of(flags[j]));
}

/// The texts `parts` with `sep` between each two of them.
pub open spec fn joined(parts: Seq<Seq<char>>, sep: char) -> Seq<char>
    decreases parts.len(),
{
    if parts.len() == 0 {
        seq![]
    } else if parts.len() == 1 {
        parts[0]
    } else {
        parts[0] + seq![sep] + joined(parts.drop_first(), sep)
    }
}

/// What separates the items of a list written in one token: a comma if the token holds one,
/// else white space.
pub open spec fn separator(s: Seq<char>) -> char {
    if s.contains(',') {
        ','
    } else {
        ' '
    }
}

/// A text that holds no white space and is not empty.
pub open spec fn is_word(w: Seq<char>) -> bool {
    w.len() > 0 && forall|i: int| 0 <= i < w.len() ==> !is_space(#[trigger] w[i])
}

/// Splitting at commas loses nothing: the parts, with commas between them, are the text.
pub proof fn lemma_commas_rejoin(s: Seq<char>)
    ensures
        split_on_commas(s).len() >= 1,
        joined(split_on_commas(s), ',') == s,
    decreases s.len(),
{
    let n = run(s, CharClass::Uncut) as int;
    lemma_run_bounds(s, CharClass::Uncut);
    if n < s.len() {
        let tail = split_on_commas(s.skip(n + 1));
        lemma_commas_rejoin(s.skip(n + 1));
        let parts = seq![s.take(n)] + tail;
        assert(parts.len() >= 2);
        assert(parts[0] == s.take(n));
        assert(parts.drop_first() =~= tail);
        assert(s[n] == ',');
        assert(s.take(n) + seq![','] + s.skip(n + 1) =~= s);
    }
}

/// The words of a text are words, and hold a comma only if the text holds one.
pub proof fn lemma_words(s: Seq<char>)
    ensures
        forall|i: int|
            0 <= i < split_on_spaces(s).len() ==> is_word(#[trigger] split_on_spaces(s)[i]),
        !s.contains(',') ==> forall|i: int|
            0 <= i < split_on_spaces(s).len() ==> !(#[trigger] split_on_spaces(s)[i]).contains(','),
    decreases s.len(),
{
    let t = skip_spaces(s);
    let n = run(t, CharClass::Visible) as int;
    lemma_run_bounds(s, CharClass::Space);
    lemma_run_bounds(t, CharClass::Visible);
    if n > 0 {
        let tail = split_on_spaces(t.skip(n));
        lemma_words(t.skip(n));
        let parts = seq![t.take(n)] + tail;
        assert(is_word(t.take(n))) by {
            assert forall|i: int| 0 <= i < n implies !is_space(#[trigger] t.take(n)[i]) by {
                assert(t.take(n)[i] == t[i]);
            }
        }
        assert forall|i: int| 0 <= i < parts.len() implies is_word(#[trigger] parts[i]) by {
            if i > 0 {
                assert(parts[i] == tail[i - 1]);
            }
        }
        if !s.contains(',') {
            assert forall|x: int| 0 <= x < t.len() implies t[x] != ',' by {
                assert(t[x] == s[x + run(s, CharClass::Space)]);
                assert(s.contains(s[x + run(s, CharClass::Space)]));
            }
            assert(!t.skip(n).contains(',')) by {
                if t.skip(n).contains(',') {
                    let x = choose|x: int| 0 <= x < t.skip(n).len() && t.skip(n)[x] == ',';
                    assert(t[x + n] == ',');
                }
            }
            assert(!t.take(n).contains(',')) by {
                if t.take(n).contains(',') {
                    let x = choose|x: int| 0 <= x < t.take(n).len() && t.take(n)[x] == ',';
                    assert(t[x] == ',');
                }
            }
            assert forall|i: int| 0 <= i < parts.len() implies !(#[trigger] parts[i]).contains(
                ',',
            ) by {
                if i > 0 {
                    assert(parts[i] == tail[i - 1]);
                }
            }
        }
    }
}

/// Words with spaces between them begin with the first character of the first word.
pub proof fn lemma_joined_front(words: Seq<Seq<char>>)
    requires
        words.len() > 0,
        forall|i: int| 0 <= i < words.len() ==> is_word(#[trigger] words[i]),
    ensures
        joined(words, ' ').len() > 0,
        joined(words, ' ')[0] == words[0][0],
{
    assert(is_word(words[0]));
}

/// Words with spaces between them hold a comma only if one of the words does.
pub proof fn lemma_joined_no_comma(words: Seq<Seq<char>>)
    requires
        forall|i: int| 0 <= i < words.len() ==> !(#[trigger] words[i]).contains(','),
    ensures
        !joined(words, ' ').contains(','),
    decreases words.len(),
{
    let j = joined(words, ' ');
    if words.len() == 1 {
        assert(!words[0].contains(','));
    } else if words.len() > 1 {
        let tail = words.drop_first();
        assert forall|i: int| 0 <= i < tail.len() implies !(#[trigger] tail[i]).contains(',') by {
            assert(tail[i] == words[i + 1]);
        }
        lemma_joined_no_comma(tail);
        assert(!words[0].contains(','));
        if j.contains(',') {
            let x = choose|x: int| 0 <= x < j.len() && j[x] == ',';
            let w = words[0];
            if x < w.len() {
                assert(w[x] == ',');
                assert(w.contains(','));
            } else if x > w.len() {
                assert(joined(tail, ' ')[x - w.len() - 1] == ',');
                assert(joined(tail, ' ').contains(','));
            }
        }
    }
}

/// Words with spaces between them split into the same words.
pub proof fn lemma_words_rejoin(words: Seq<Seq<char>>)
    requires
        forall|i: int| 0 <= i < words.len() ==> is_word(#[trigger] words[i]),
    ensures
        split_on_spaces(joined(words, ' ')) == words,
    decreases words.len(),
{
    let j = joined(words, ' ');
    let none = Seq::<char>::empty();
    assert(split_on_spaces(none) =~= Seq::<Seq<char>>::empty()) by {
        lemma_run_bounds(none, CharClass::Space);
        lemma_run_bounds(skip_spaces(none), CharClass::Visible);
    }
    if words.len() == 0 {
        assert(words =~= Seq::<Seq<char>>::empty());
    } else {
        let w = words[0];
        assert(is_word(w));
        lemma_joined_front(words);
        lemma_run(j, CharClass::Space, 0);
        assert(skip_spaces(j) =~= j);
        if words.len() == 1 {
            lemma_run(j, CharClass::Visible, w.len() as int);
            assert(j.take(w.len() as int) =~= w);
            assert(j.skip(w.len() as int) =~= none);
            assert(split_on_spaces(j) =~= seq![w] + split_on_spaces(none));
            assert(words =~= seq![w]);
        } else {
            let tail = words.drop_first();
            assert forall|i: int| 0 <= i < tail.len() implies is_word(#[trigger] tail[i]) by {
                assert(tail[i] == words[i + 1]);
            }
            let y = joined(tail, ' ');
            let x = seq![' '] + y;
            assert(j =~= w + x);
            assert forall|i: int| 0 <= i < w.len() implies CharClass::Visible.has(
                #[trigger] j[i],
            ) by {
                assert(j[i] == w[i]);
            }
            assert(j[w.len() as int] == ' ');
            assert(is_space(' '));
            lemma_run(j, CharClass::Visible, w.len() as int);
            assert(j.take(w.len() as int) =~= w);
            assert(j.skip(w.len() as int) =~= x);
            assert(split_on_spaces(j) == seq![w] + split_on_spaces(x));
            lemma_joined_front(tail);
            lemma_run(y, CharClass::Space, 0);
            assert(x.drop_first() =~= y);
            assert(run(x, CharClass::Space) == 1);
            assert(skip_spaces(x) =~= y);
            assert(skip_spaces(y) =~= y);
            assert(split_on_spaces(x) == split_on_spaces(y));
            lemma_words_rejoin(tail);
            assert(seq![w] + tail =~= words);
        }
    }
}

/// A list written in one token is split at its commas if it holds a comma, and only there;
/// else at its runs of white space. Its items, put together again with what separated them,
/// split into the same items, and so are read as the same array.
pub proof fn law_split_rejoin(t: Type, s: Seq<char>)
    ensures
        s.contains(',') ==> joined(split_list(s), ',') == s,
        !s.contains(',') ==> forall|i: int|
            0 <= i < split_list(s).len() ==> is_word(#[trigger] split_list(s)[i]),
        split_list(joined(split_list(s), separator(s))) == split_list(s),
        coerce(Type::Arr(Box::new(t)), joined(split_list(s), separator(s))) == coerce(
            Type::Arr(Box::new(t)),
            s,
        ),
{
    if s.contains(',') {
        lemma_commas_rejoin(s);
    } else {
        lemma_words(s);
        lemma_words_rejoin(split_on_spaces(s));
        lemma_joined_no_comma(split_on_spaces(s));
    }
}

/// The help flag as the usage text gets it where it declares none.
pub open spec fn help_flag() -> FlagView {
    FlagView {
        long: "help"@,
        short: 'h',
        vtype: Type::Bool,
        defval: ValueView::Bool(false),
        help: "this help"@,
        ..blank_flag()
    }
}

/// The front of the line that declares the help flag.
proof fn lemma_help_head()
    ensures
        skip_spaces(help_line()).len() > 0,
        head_of(skip_spaces(help_line())) == Ok::<Head, Seq<char>>(
            Head {
                long: "help"@,
                short: 'h',
                positional: false,
                rest: seq![' ', 't', 'h', 'i', 's', ' ', 'h', 'e', 'l', 'p'],
            },
        ),
{
    reveal_strlit("   -h,--help this help");
    reveal_strlit("-");
    reveal_strlit(",");
    reveal_strlit("--");
    reveal_strlit("help");
    let line = help_line();
    assert(line.len() == 22);
    lemma_run(line, CharClass::Space, 3);
    let s0 = line.skip(3);
    assert(skip_spaces(line) == s0);
    assert(s0 =~= seq![
        '-', 'h', ',', '-', '-', 'h', 'e', 'l', 'p', ' ', 't', 'h', 'i', 's', ' ', 'h', 'e', 'l',
        'p',
    ]);
    assert("-"@.is_prefix_of(s0)) by {
        assert("-"@ =~= s0.subrange(0, 1));
    }
    let s1 = s0.skip(1);
    assert(s1[0] == 'h');
    assert(!"-"@.is_prefix_of(s1)) by {
        if "-"@.is_prefix_of(s1) {
            assert("-"@[0] == s1.subrange(0, 1)[0]);
        }
    }
    let r1 = s1.skip(1);
    assert(r1[0] == ',');
    assert(","@.is_prefix_of(r1)) by {
        assert(","@ =~= r1.subrange(0, 1));
    }
    let r2 = r1.skip(1);
    assert(r2[0] == '-' && r2[1] == '-');
    lemma_run(r2, CharClass::Space, 0);
    assert(skip_spaces(r2) =~= r2);
    assert("--"@.is_prefix_of(r2)) by {
        assert("--"@ =~= r2.subrange(0, 2));
    }
    let s3 = r2.skip(2);
    assert(s3 =~= seq!['h', 'e', 'l', 'p', ' ', 't', 'h', 'i', 's', ' ', 'h', 'e', 'l', 'p']);
    assert(short_head(s1) == Ok::<(char, Seq<char>, bool), Seq<char>>(('h', s3, true)));
    lemma_run(s3, CharClass::Name, 4);
    assert(s3.take(4) =~= "help"@);
    assert(s3.skip(4) =~= seq![' ', 't', 'h', 'i', 's', ' ', 'h', 'e', 'l', 'p']);
    assert(s3.skip(4)[0] == ' ');
}

/// The line that declares the help flag adds that flag, and nothing else, where no flag is
/// called `help` yet.
pub proof fn law_help_declared(a: ArgsView)
    requires
        lookup(a.flags, KeyView::Long("help"@)) is None,
    ensures
        declared(a, help_line()) == done(ArgsView { flags: a.flags.push(help_flag()), ..a }),
{
    lemma_help_head();
    reveal_strlit("...");
    reveal_strlit("(");
    reveal_strlit("this help");
    let rest = seq![' ', 't', 'h', 'i', 's', ' ', 'h', 'e', 'l', 'p'];
    let h = Head { long: "help"@, short: 'h', positional: false, rest };
    reveal_strlit("help");
    assert(h.long.len() == 4);
    lemma_run(rest, CharClass::Space, 1);
    let s1 = rest.skip(1);
    assert(skip_spaces(rest) == s1);
    assert(s1[0] == 't');
    assert(!"..."@.is_prefix_of(s1)) by {
        if "..."@.is_prefix_of(s1) {
            assert("..."@[0] == s1.subrange(0, 3)[0]);
        }
    }
    assert(!"("@.is_prefix_of(s1)) by {
        if "("@.is_prefix_of(s1) {
            assert("("@[0] == s1.subrange(0, 1)[0]);
        }
    }
    lemma_run(s1, CharClass::Space, 0);
    assert(skip_spaces(s1) =~= "this help"@);
    let f = FlagView { is_multiple: false, ..flag_of_head(h, a.pos) };
    let sp = specified(f, false, a.varargs, a.user_types, s1);
    assert(sp.error is None && sp.rest == s1 && !sp.claims);
    assert(FlagView { help: skip_spaces(sp.rest), ..sp.flag } == help_flag());
}

/// Reading a usage text fails only where one of its lines is in error: adding the help flag
/// never fails. A usage text that was read holds a flag called `help`: the one that it declares,
/// or else the one that is added to it.
pub proof fn law_usage_declares_help(a: ArgsView)
    ensures
        usage_read(a).error == declared_all(a, lines(a.text)).error,
        usage_read(a).error is None ==> lookup(usage_read(a).state.flags, KeyView::Long("help"@))
            is Some,
{
    let all = declared_all(a, lines(a.text));
    if lookup(all.state.flags, KeyView::Long("help"@)) is None {
        law_help_declared(all.state);
        lemma_lookup_push(all.state.flags, help_flag(), KeyView::Long("help"@));
    }
}

/// Whether one text gives a value of the type `t`: a string, a number or a file.
pub open spec fn is_scalar(t: Type) -> bool {
    t is Str || t is Int || t is Float || t is FileIn || t is FileOut
}

/// The values that a list of texts gives for a scalar type are all of that type.
pub proof fn lemma_coerce_each_typed(t: Type, parts: Seq<Seq<char>>)
    requires
        is_scalar(t),
    ensures
        coerce_each(t, parts) matches Ok(ValueView::Arr(vs)) ==> vs.len() == parts.len()
            && forall|i: int| 0 <= i < vs.len() ==> type_of_view(#[trigger] vs[i]) == t,
    decreases parts.len(),
{
    if parts.len() > 0 {
        lemma_coerce_each_typed(t, parts.drop_last());
        if let Ok(ValueView::Arr(vs)) = coerce_each(t, parts) {
            let front = coerce_each(t, parts.drop_last())->Ok_0->Arr_0;
            let v = coerce(t, parts.last())->Ok_0;
            assert(vs == front.push(v));
            assert(type_of_view(v) == t);
            assert forall|i: int| 0 <= i < vs.len() implies type_of_view(#[trigger] vs[i])
                == t by {
                if i < front.len() {
                    assert(vs[i] == front[i]);
                }
            }
        }
    }
}

/// An array read from one argument is homogeneous: every element has the type of the elements
/// that the flag declares, and there is one element for each item of the list.
pub proof fn law_array_homogeneous(t: Type, s: Seq<char>)
    requires
        is_scalar(t),
    ensures
        coerce(Type::Arr(Box::new(t)), s) matches Ok(ValueView::Arr(vs)) ==> vs.len()
            == split_list(s).len() && forall|i: int|
            0 <= i < vs.len() ==> type_of_view(#[trigger] vs[i]) == t,
{
    lemma_coerce_each_typed(t, split_list(s));
}

} // verus!
