//! Character classes, and runs of characters that stay within one class.

use vstd::prelude::*;

verus! {

/// White space: the code points that carry Unicode's `White_Space` property.
pub open spec fn is_space(c: char) -> bool {
    let n = c as u32;
    ||| 0x09 <= n <= 0x0D
    ||| n == 0x20
    ||| n == 0x85
    ||| n == 0xA0
    ||| n == 0x1680
    ||| 0x2000 <= n <= 0x200A
    ||| n == 0x2028
    ||| n == 0x2029
    ||| n == 0x202F
    ||| n == 0x205F
    ||| n == 0x3000
}

/// A decimal digit, `0` to `9`.
pub open spec fn is_digit(c: char) -> bool {
    '0' <= c <= '9'
}

/// The number that a decimal digit stands for.
pub open spec fn digit_value(c: char) -> int
    recommends
        is_digit(c),
{
    c as u32 - '0' as u32
}

/// An ASCII letter or digit.
pub open spec fn is_ascii_alphanumeric(c: char) -> bool {
    ||| '0' <= c <= '9'
    ||| 'a' <= c <= 'z'
    ||| 'A' <= c <= 'Z'
}

/// Whether Unicode counts `c` as a letter or as a number.
pub uninterp spec fn unicode_alphanumeric(c: char) -> bool;

/// A letter or a number: for ASCII the letters and digits, beyond it what Unicode counts as
/// one.
pub open spec fn is_alphanumeric(c: char) -> bool {
    if (c as u32) < 128 {
        is_ascii_alphanumeric(c)
    } else {
        unicode_alphanumeric(c)
    }
}

/// What a long flag name is made of: letters, numbers, `_` and `-`.
pub open spec fn is_name_char(c: char) -> bool {
    is_alphanumeric(c) || c == '_' || c == '-'
}

/// The sets of characters that the scanners tell apart.
#[derive(Clone, Copy, Debug)]
pub enum CharClass {
    /// White space.
    Space,
    /// Anything but white space.
    Visible,
    /// Letters, numbers, `_` and `-`.
    Name,
    /// Anything but `=` and `:`, the two marks that introduce an inline value.
    Unassigned,
    /// Anything but a line feed.
    Inline,
    /// Anything but a comma.
    Uncut,
    /// The decimal digits.
    Digit,
}

impl CharClass {
    /// Whether `c` belongs to the class.
    pub open spec fn has(self, c: char) -> bool {
        match self {
            CharClass::Space => is_space(c),
            CharClass::Visible => !is_space(c),
            CharClass::Name => is_name_char(c),
            CharClass::Unassigned => c != '=' && c != ':',
            CharClass::Inline => c != '\n',
            CharClass::Uncut => c != ',',
            CharClass::Digit => is_digit(c),
        }
    }

    /// Tests whether `c` belongs to the class.
    pub fn contains(self, c: char) -> (b: bool)
        ensures
            b == self.has(c),
    {
        match self {
            CharClass::Space => char_is_space(c),
            CharClass::Visible => !char_is_space(c),
            CharClass::Name => char_is_alphanumeric(c) || c == '_' || c == '-',
            CharClass::Unassigned => c != '=' && c != ':',
            CharClass::Inline => c != '\n',
            CharClass::Uncut => c != ',',
            CharClass::Digit => char_is_digit(c),
        }
    }
}

/// Tests whether `c` is white space.
pub fn char_is_space(c: char) -> (b: bool)
    ensures
        b == is_space(c),
{
    let n: u32 = c as u32;
    (0x09 <= n && n <= 0x0D) || n == 0x20 || n == 0x85 || n == 0xA0 || n == 0x1680 || (0x2000 <= n
        && n <= 0x200A) || n == 0x2028 || n == 0x2029 || n == 0x202F || n == 0x205F || n == 0x3000
}

/// Tests whether `c` is a decimal digit.
pub fn char_is_digit(c: char) -> (b: bool)
    ensures
        b == is_digit(c),
{
    '0' <= c && c <= '9'
}

/// `char::is_alphanumeric`: the answer is Unicode's, taken from the tables that std carries.
/// For ASCII the claim is exact: letters and digits, and nothing else.
#[verifier::external_body]
pub(crate) fn unicode_is_alphanumeric(c: char) -> (b: bool)
    ensures
        b == unicode_alphanumeric(c),
        (c as u32) < 128 ==> b == is_ascii_alphanumeric(c),
{
    c.is_alphanumeric()
}

/// Tests whether `c` is a letter or a number.
pub fn char_is_alphanumeric(c: char) -> (b: bool)
    ensures
        b == is_alphanumeric(c),
{
    unicode_is_alphanumeric(c)
}

/// How many characters at the front of `s` belong to `class`.
pub open spec fn run(s: Seq<char>, class: CharClass) -> nat
    decreases s.len(),
{
    if s.len() > 0 && class.has(s[0]) {
        1 + run(s.drop_first(), class)
    } else {
        0
    }
}

/// How many characters at the back of `s` belong to `class`.
pub open spec fn run_back(s: Seq<char>, class: CharClass) -> nat
    decreases s.len(),
{
    if s.len() > 0 && class.has(s.last()) {
        1 + run_back(s.drop_last(), class)
    } else {
        0
    }
}

/// A run is the one prefix length at which the class first fails, or the text ends.
pub proof fn lemma_run(s: Seq<char>, class: CharClass, n: int)
    requires
        0 <= n <= s.len(),
        forall|j: int| 0 <= j < n ==> class.has(#[trigger] s[j]),
        n < s.len() ==> !class.has(s[n]),
    ensures
        run(s, class) == n,
    decreases n,
{
    if n > 0 {
        let t = s.drop_first();
        assert forall|j: int| 0 <= j < n - 1 implies class.has(#[trigger] t[j]) by {
            assert(t[j] == s[j + 1]);
        }
        lemma_run(t, class, n - 1);
    }
}

/// What a run's length says of the text around it.
pub proof fn lemma_run_bounds(s: Seq<char>, class: CharClass)
    ensures
        run(s, class) <= s.len(),
        forall|j: int| 0 <= j < run(s, class) ==> class.has(#[trigger] s[j]),
        run(s, class) < s.len() ==> !class.has(s[run(s, class) as int]),
    decreases s.len(),
{
    if s.len() > 0 && class.has(s[0]) {
        let t = s.drop_first();
        lemma_run_bounds(t, class);
        assert forall|j: int| 0 <= j < run(s, class) implies class.has(#[trigger] s[j]) by {
            if j > 0 {
                assert(s[j] == t[j - 1]);
            }
        }
        if run(s, class) < s.len() {
            assert(s[run(s, class) as int] == t[run(t, class) as int]);
        }
    }
}

/// A run at the back is the one suffix length before which the class first fails.
pub proof fn lemma_run_back(s: Seq<char>, class: CharClass, n: int)
    requires
        0 <= n <= s.len(),
        forall|j: int| s.len() - n <= j < s.len() ==> class.has(#[trigger] s[j]),
        n < s.len() ==> !class.has(s[s.len() - n - 1]),
    ensures
        run_back(s, class) == n,
    decreases n,
{
    if n > 0 {
        let t = s.drop_last();
        assert forall|j: int| t.len() - (n - 1) <= j < t.len() implies class.has(
            #[trigger] t[j],
        ) by {
            assert(t[j] == s[j]);
        }
        lemma_run_back(t, class, n - 1);
    }
}

/// Counts the characters of `v`, from `from` on, that belong to `class`, up to the first that
/// does not.
pub fn run_length(v: &Vec<char>, from: usize, class: CharClass) -> (n: usize)
    requires
        from <= v.len(),
    ensures
        n == run(v@.skip(from as int), class),
        from + n <= v.len(),
{
    let mut i: usize = from;
    while i < v.len() && class.contains(v[i])
        invariant
            from <= i <= v.len(),
            forall|j: int| from <= j < i ==> class.has(#[trigger] v@[j]),
        decreases v.len() - i,
    {
        i += 1;
    }
    proof {
        let s = v@.skip(from as int);
        assert forall|j: int| 0 <= j < i - from implies class.has(#[trigger] s[j]) by {
            assert(s[j] == v@[from + j]);
        }
        lemma_run(s, class, i - from);
    }
    i - from
}

/// Counts the characters at the end of `v` that belong to `class`, back to the first that does
/// not.
pub fn run_length_back(v: &Vec<char>, class: CharClass) -> (n: usize)
    ensures
        n == run_back(v@, class),
        n <= v.len(),
{
    let mut i: usize = v.len();
    while i > 0 && class.contains(v[i - 1])
        invariant
            i <= v.len(),
            forall|j: int| i <= j < v.len() ==> class.has(#[trigger] v@[j]),
        decreases i,
    {
        i -= 1;
    }
    proof {
        lemma_run_back(v@, class, v.len() - i);
    }
    v.len() - i
}

} // verus!
