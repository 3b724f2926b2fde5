//! Cursor operations on text: skip, take a word, match a prefix or a suffix, search, split.

use vstd::prelude::*;
use vstd::string::*;
use crate::chars::{run, run_back, run_length, run_length_back, CharClass};
use crate::text::{chars_of, quote, quoted};
use crate::types::LappError;

verus! {

/// `s` without the white space at its front.
pub open spec fn skip_spaces(s: Seq<char>) -> Seq<char> {
    s.skip(run(s, CharClass::Space) as int)
}

/// `s` without the white space at its front and at its back.
pub open spec fn trim(s: Seq<char>) -> Seq<char> {
    let t = skip_spaces(s);
    t.take(t.len() - run_back(t, CharClass::Space))
}

/// The characters of `s` up to the first white space.
pub open spec fn first_word(s: Seq<char>) -> Seq<char> {
    s.take(run(s, CharClass::Visible) as int)
}

/// What follows the first word of `s` and the white space behind it.
pub open spec fn after_word(s: Seq<char>) -> Seq<char> {
    skip_spaces(s.skip(run(s, CharClass::Visible) as int))
}

/// Whether `needle` stands in `s` at index `i`.
pub open spec fn occurs_at(s: Seq<char>, needle: Seq<char>, i: int) -> bool {
    0 <= i && i + needle.len() <= s.len() && s.subrange(i, i + needle.len()) == needle
}

/// The first index at or after `from` where `needle` stands in `s`.
pub open spec fn find_from(s: Seq<char>, needle: Seq<char>, from: int) -> Option<int>
    decreases s.len() + 1 - from,
{
    if from < 0 || from + needle.len() > s.len() {
        None
    } else if occurs_at(s, needle, from) {
        Some(from)
    } else {
        find_from(s, needle, from + 1)
    }
}

/// The first index where `needle` stands in `s`.
pub open spec fn find(s: Seq<char>, needle: Seq<char>) -> Option<int> {
    find_from(s, needle, 0)
}

/// What `grab_upto` leaves and returns: the trimmed text before the first `sub`, and the text
/// behind that `sub`.
pub open spec fn upto(s: Seq<char>, sub: Seq<char>) -> Option<(Seq<char>, Seq<char>)> {
    match find(s, sub) {
        Some(i) => Some((trim(s.take(i)), s.skip(i + sub.len()))),
        None => None,
    }
}

/// The two sides of the first `needle` in `s`.
pub open spec fn split_around(s: Seq<char>, needle: Seq<char>) -> Option<(Seq<char>, Seq<char>)> {
    match find(s, needle) {
        Some(i) => Some((s.take(i), s.skip(i + needle.len()))),
        None => None,
    }
}

/// The message of a search that found no `sub`.
pub open spec fn no_end_message(sub: Seq<char>) -> Seq<char> {
    "cannot find end "@ + quoted(sub)
}

/// A line without the carriage return that may end it.
pub open spec fn chomp(line: Seq<char>) -> Seq<char> {
    if line.len() > 0 && line.last() == '\r' {
        line.drop_last()
    } else {
        line
    }
}

/// The lines of `s`. A line ends at a line feed; a carriage return just before that line feed is
/// no part of the line. What follows the last line feed is a line too, unless it is empty.
pub open spec fn lines(s: Seq<char>) -> Seq<Seq<char>>
    decreases s.len(),
{
    let n = run(s, CharClass::Inline) as int;
    if s.len() == 0 {
        seq![]
    } else if n >= s.len() {
        seq![s]
    } else {
        seq![chomp(s.take(n))] + lines(s.skip(n + 1))
    }
}

/// `line` without its first `pos` characters, or whole if it has fewer.
pub open spec fn dedent_line(line: Seq<char>, pos: nat) -> Seq<char> {
    if line.len() >= pos {
        line.skip(pos as int)
    } else {
        line
    }
}

/// The lines `ls`, each without its first `pos` characters and with a line feed behind it.
pub open spec fn dedent_lines(ls: Seq<Seq<char>>, pos: nat) -> Seq<char>
    decreases ls.len(),
{
    if ls.len() == 0 {
        seq![]
    } else {
        dedent_lines(ls.drop_last(), pos) + dedent_line(ls.last(), pos).push('\n')
    }
}

/// Whether a line holds nothing but white space.
pub open spec fn is_blank(line: Seq<char>) -> bool {
    run(line, CharClass::Space) == line.len()
}

/// How many lines at the front of `ls` are blank.
pub open spec fn blank_lines(ls: Seq<Seq<char>>) -> nat
    decreases ls.len(),
{
    if ls.len() > 0 && is_blank(ls[0]) {
        1 + blank_lines(ls.drop_first())
    } else {
        0
    }
}

/// The text from its first line that is not blank, every line moved left by the indent of that
/// first line.
pub open spec fn dedented(s: Seq<char>) -> Seq<char> {
    let ls = lines(s);
    let k = blank_lines(ls) as int;
    if k >= ls.len() {
        seq![]
    } else {
        dedent_lines(ls.skip(k), run(ls[k], CharClass::Space))
    }
}

/// The texts that a list of slices holds.
pub open spec fn texts(v: Seq<&str>) -> Seq<Seq<char>> {
    Seq::new(v.len(), |i: int| v[i]@)
}

/// Blank lines at the front are counted up to the first line that is not blank.
pub proof fn lemma_blank_lines(ls: Seq<Seq<char>>, n: int)
    requires
        0 <= n <= ls.len(),
        forall|j: int| 0 <= j < n ==> is_blank(#[trigger] ls[j]),
        n < ls.len() ==> !is_blank(ls[n]),
    ensures
        blank_lines(ls) == n,
    decreases n,
{
    if n > 0 {
        let t = ls.drop_first();
        assert forall|j: int| 0 <= j < n - 1 implies is_blank(#[trigger] t[j]) by {
            assert(t[j] == ls[j + 1]);
        }
        lemma_blank_lines(t, n - 1);
    }
}

/// Drops the white space at the front of `slice`.
pub fn skipws(slice: &str) -> (rest: &str)
    ensures
        rest@ == skip_spaces(slice@),
{
    let v = chars_of(slice);
    let n = run_length(&v, 0, CharClass::Space);
    assert(v@.skip(0) =~= v@);
    slice.substring_char(n, v.len())
}

/// Drops the white space at both ends of `slice`.
pub fn trimmed(slice: &str) -> (rest: &str)
    ensures
        rest@ == trim(slice@),
{
    let t = skipws(slice);
    let v = chars_of(t);
    let n = run_length_back(&v, CharClass::Space);
    t.substring_char(0, v.len() - n)
}

/// Takes the first word off `pslice`, and the white space behind it.
pub fn grab_word(pslice: &mut &str) -> (word: String)
    ensures
        word@ == first_word(old(pslice)@),
        final(pslice)@ == after_word(old(pslice)@),
{
    let s: &str = *pslice;
    let v = chars_of(s);
    let n = run_length(&v, 0, CharClass::Visible);
    assert(v@.skip(0) =~= v@);
    let word = s.substring_char(0, n).to_owned();
    *pslice = skipws(s.substring_char(n, v.len()));
    word
}

/// Whether `v` holds `needle` at index `at`.
fn holds_at(v: &Vec<char>, needle: &Vec<char>, at: usize) -> (r: bool)
    requires
        at + needle.len() <= v.len(),
    ensures
        r == occurs_at(v@, needle@, at as int),
{
    let mut j: usize = 0;
    while j < needle.len()
        invariant
            j <= needle.len(),
            at + needle.len() <= v.len(),
            forall|k: int| 0 <= k < j ==> v@[at + k] == needle@[k],
        decreases needle.len() - j,
    {
        if v[at + j] != needle[j] {
            assert(v@.subrange(at as int, at + needle.len())[j as int] == v@[at + j]);
            return false;
        }
        j += 1;
    }
    assert(v@.subrange(at as int, at + needle.len()) =~= needle@);
    true
}

/// Finds the first place in `v` where `needle` stands.
pub fn find_text(v: &Vec<char>, needle: &Vec<char>) -> (r: Option<usize>)
    ensures
        find(v@, needle@) == match r {
            Some(i) => Some(i as int),
            None => None,
        },
        r matches Some(i) ==> i + needle.len() <= v.len(),
{
    if needle.len() > v.len() {
        return None;
    }
    let last: usize = v.len() - needle.len();
    let mut i: usize = 0;
    loop
        invariant
            i <= last,
            last == v.len() - needle.len(),
            find(v@, needle@) == find_from(v@, needle@, i as int),
        decreases last - i,
    {
        if holds_at(v, needle, i) {
            return Some(i);
        }
        if i == last {
            assert(find_from(v@, needle@, i + 1) is None);
            return None;
        }
        i += 1;
    }
}

/// Whether `pslice` begins with `start`; if it does, `start` is taken off.
pub fn starts_with(pslice: &mut &str, start: &str) -> (b: bool)
    ensures
        b == start@.is_prefix_of(old(pslice)@),
        final(pslice)@ == if b {
            old(pslice)@.skip(start@.len() as int)
        } else {
            old(pslice)@
        },
{
    let s: &str = *pslice;
    let v = chars_of(s);
    let w = chars_of(start);
    if w.len() <= v.len() && holds_at(&v, &w, 0) {
        *pslice = s.substring_char(w.len(), v.len());
        true
    } else {
        false
    }
}

/// Whether `pslice` ends with `end`; if it does, `end` is taken off.
pub fn ends_with(pslice: &mut &str, end: &str) -> (b: bool)
    ensures
        b == end@.is_suffix_of(old(pslice)@),
        final(pslice)@ == if b {
            old(pslice)@.take(old(pslice)@.len() - end@.len())
        } else {
            old(pslice)@
        },
{
    let s: &str = *pslice;
    let v = chars_of(s);
    let w = chars_of(end);
    if w.len() <= v.len() && holds_at(&v, &w, v.len() - w.len()) {
        *pslice = s.substring_char(0, v.len() - w.len());
        true
    } else {
        false
    }
}

/// Takes the text before the first `sub` off `pslice`, and that `sub` with it; returns the text,
/// trimmed. Fails, and leaves `pslice` alone, where it holds no `sub`.
pub fn grab_upto(pslice: &mut &str, sub: &str) -> (r: Result<String, LappError>)
    ensures
        match upto(old(pslice)@, sub@) {
            Some((text, rest)) => r matches Ok(t) && t@ == text && final(pslice)@ == rest,
            None => r matches Err(e) && e@ == no_end_message(sub@)
                && final(pslice)@ == old(pslice)@,
        },
{
    let s: &str = *pslice;
    let v = chars_of(s);
    let w = chars_of(sub);
    match find_text(&v, &w) {
        Some(idx) => {
            let text = trimmed(s.substring_char(0, idx)).to_owned();
            *pslice = s.substring_char(idx + w.len(), v.len());
            Ok(text)
        },
        None => {
            let mut msg = String::from_str("cannot find end ");
            let q = quote(sub);
            msg.append(q.as_str());
            Err(LappError(msg))
        },
    }
}

/// Splits `slice` at the first `needle`, which belongs to neither side.
pub fn split_with<'a>(slice: &'a str, needle: &str) -> (r: Option<(&'a str, &'a str)>)
    ensures
        match split_around(slice@, needle@) {
            Some((left, right)) => r matches Some(p) && p.0@ == left && p.1@ == right,
            None => r is None,
        },
{
    let v = chars_of(slice);
    let w = chars_of(needle);
    match find_text(&v, &w) {
        Some(idx) => Some(
            (slice.substring_char(0, idx), slice.substring_char(idx + w.len(), v.len())),
        ),
        None => None,
    }
}

/// Splits `s` into its lines.
pub fn split_lines<'a>(s: &'a str) -> (ls: Vec<&'a str>)
    ensures
        texts(ls@) == lines(s@),
{
    let v = chars_of(s);
    let mut ls: Vec<&'a str> = Vec::new();
    let mut start: usize = 0;
    proof {
        assert(v@.skip(0) =~= v@);
        assert(texts(ls@) + lines(v@) =~= lines(v@));
    }
    while start < v.len()
        invariant
            start <= v.len(),
            v@ == s@,
            lines(s@) == texts(ls@) + lines(v@.skip(start as int)),
        decreases v.len() - start,
    {
        let ghost rest = v@.skip(start as int);
        let ghost before = texts(ls@);
        let n = run_length(&v, start, CharClass::Inline);
        if start + n == v.len() {
            ls.push(s.substring_char(start, v.len()));
            proof {
                assert(lines(v@.skip(v.len() as int)) =~= seq![]);
                assert(s@.subrange(start as int, v.len() as int) =~= rest);
                assert(texts(ls@) =~= before + seq![rest]);
            }
            start = v.len();
        } else {
            let mut end: usize = start + n;
            if n > 0 && v[end - 1] == '\r' {
                end -= 1;
            }
            ls.push(s.substring_char(start, end));
            proof {
                let line = rest.take(n as int);
                assert(line.len() > 0 ==> line.last() == v@[start + n - 1]);
                assert(s@.subrange(start as int, end as int) =~= chomp(line));
                assert(texts(ls@) =~= before + seq![chomp(line)]);
                assert(rest.skip(n + 1) =~= v@.skip(start + n + 1));
            }
            start = start + n + 1;
        }
    }
    proof {
        assert(lines(v@.skip(start as int)) =~= seq![]);
        assert(texts(ls@) + Seq::<Seq<char>>::empty() =~= texts(ls@));
    }
    ls
}

/// Moves the text left by the indent of its first line that is not blank, and drops the blank
/// lines before that line. A line shorter than the indent stays whole.
pub fn dedent(s: &str) -> (res: String)
    ensures
        res@ == dedented(s@),
{
    let ls = split_lines(s);
    let ghost all = lines(s@);
    let mut res = String::new();
    let mut k: usize = 0;
    let mut pos: usize = 0;
    while k < ls.len()
        invariant_except_break
            k <= ls.len(),
            forall|j: int| 0 <= j < k ==> is_blank(#[trigger] all[j]),
        invariant
            texts(ls@) == all,
        ensures
            k <= ls.len(),
            forall|j: int| 0 <= j < k ==> is_blank(#[trigger] all[j]),
            k < ls.len() ==> !is_blank(all[k as int]) && pos == run(all[k as int], CharClass::Space),
        decreases ls.len() - k,
    {
        let lv = chars_of(ls[k]);
        let n = run_length(&lv, 0, CharClass::Space);
        proof {
            assert(lv@.skip(0) =~= lv@);
            assert(all[k as int] == ls@[k as int]@);
        }
        if n < lv.len() {
            pos = n;
            break ;
        }
        k += 1;
    }
    proof {
        lemma_blank_lines(all, k as int);
    }
    let first: usize = k;
    while k < ls.len()
        invariant
            first <= k <= ls.len(),
            texts(ls@) == all,
            res@ == dedent_lines(all.subrange(first as int, k as int), pos as nat),
        decreases ls.len() - k,
    {
        let line: &str = ls[k];
        let n = line.unicode_len();
        let ghost before = res@;
        if n >= pos {
            res.append(line.substring_char(pos, n));
        } else {
            res.append(line);
        }
        res.push('\n');
        proof {
            let part = all.subrange(first as int, k + 1);
            assert(all[k as int] == line@);
            assert(part.drop_last() =~= all.subrange(first as int, k as int));
            assert(part.last() == line@);
            assert(res@ =~= before + dedent_line(line@, pos as nat).push('\n'));
        }
        k += 1;
    }
    proof {
        assert(all.subrange(first as int, ls.len() as int) =~= all.skip(first as int));
    }
    res
}

} // verus!
