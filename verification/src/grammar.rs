//! The text layer of the shape grammar: pieces between separators and
//! decimal dimension literals.

use vstd::prelude::*;
use vstd::std_specs::iter::IteratorSpec;

verus! {

/// The index of the first `sep` in `s`, or the length of `s` when it holds
/// none.
pub open spec fn first_index(s: Seq<char>, sep: char) -> int
    decreases s.len(),
{
    if s.len() == 0 || s[0] == sep {
        0
    } else {
        1 + first_index(s.drop_first(), sep)
    }
}

/// The pieces of `s` between occurrences of `sep`, in order. There is always
/// at least one piece, and a piece may be empty.
pub open spec fn split(s: Seq<char>, sep: char) -> Seq<Seq<char>>
    decreases s.len(),
{
    let i = first_index(s, sep);
    if 0 <= i < s.len() {
        seq![s.take(i)] + split(s.skip(i + 1), sep)
    } else {
        seq![s]
    }
}

/// Whether `c` is one of the ten decimal digits.
pub open spec fn is_digit(c: char) -> bool {
    '0' <= c <= '9'
}

/// The value of a decimal digit.
pub open spec fn digit_value(c: char) -> nat
    recommends
        is_digit(c),
{
    (c as u32 - '0' as u32) as nat
}

/// Whether `t` consists of decimal digits only.
pub open spec fn all_digits(t: Seq<char>) -> bool {
    forall|i: int| 0 <= i < t.len() ==> is_digit(#[trigger] t[i])
}

/// The number that a sequence of decimal digits denotes in base ten.
pub open spec fn decimal_value(t: Seq<char>) -> nat
    decreases t.len(),
{
    if t.len() == 0 {
        0
    } else {
        10 * decimal_value(t.drop_last()) + digit_value(t.last())
    }
}

/// The dimension that a token denotes: a non-empty run of decimal digits
/// whose value is at least one and fits the machine word. Any other token
/// denotes none.
pub open spec fn dimension_of(t: Seq<char>) -> Option<usize> {
    if t.len() > 0 && all_digits(t) && 1 <= decimal_value(t) <= usize::MAX {
        Some(decimal_value(t) as usize)
    } else {
        None
    }
}

/// What `first_index` finds: no `sep` lies before it, and it is either the
/// place of a `sep` or the end of `s`.
pub proof fn lemma_first_index(s: Seq<char>, sep: char)
    ensures
        0 <= first_index(s, sep) <= s.len(),
        forall|j: int| 0 <= j < first_index(s, sep) ==> s[j] != sep,
        first_index(s, sep) < s.len() ==> s[first_index(s, sep)] == sep,
    decreases s.len(),
{
    if s.len() != 0 && s[0] != sep {
        let rest = s.drop_first();
        lemma_first_index(rest, sep);
        assert forall|j: int| 0 <= j < first_index(s, sep) implies s[j] != sep by {
            if j > 0 {
                assert(s[j] == rest[j - 1]);
            }
        }
        assert(first_index(s, sep) < s.len() ==> s[first_index(s, sep)] == rest[first_index(
            rest,
            sep,
        )]);
    }
}

/// An index before which no `sep` lies, and which is the place of a `sep`
/// or the end of `s`, is the first index.
pub proof fn lemma_first_index_is(s: Seq<char>, sep: char, i: int)
    requires
        0 <= i <= s.len(),
        forall|j: int| 0 <= j < i ==> s[j] != sep,
        i < s.len() ==> s[i] == sep,
    ensures
        first_index(s, sep) == i,
    decreases s.len(),
{
    if s.len() != 0 && s[0] != sep {
        let rest = s.drop_first();
        assert forall|j: int| 0 <= j < i - 1 implies rest[j] != sep by {
            assert(rest[j] == s[j + 1]);
        }
        lemma_first_index_is(rest, sep, i - 1);
    }
}

/// A longer run of digits denotes a number at least as large as each of its
/// prefixes.
pub proof fn lemma_decimal_value_prefix(t: Seq<char>, k: int)
    requires
        0 <= k <= t.len(),
    ensures
        decimal_value(t.take(k)) <= decimal_value(t),
    decreases t.len() - k,
{
    if k == t.len() {
        assert(t.take(k) =~= t);
    } else {
        lemma_decimal_value_prefix(t, k + 1);
        assert(t.take(k + 1).drop_last() =~= t.take(k));
    }
}

/// The characters of a string, one by one.
pub fn chars_of(s: &str) -> (chars: Vec<char>)
    ensures
        chars@ == s@,
{
    broadcast use vstd::string::group_string_axioms;

    let mut chars: Vec<char> = Vec::new();
    let mut it = s.chars();
    loop
        invariant
            it.obeys_prophetic_iter_laws(),
            it.decrease() is Some,
            chars@ + it.remaining() == s@,
        ensures
            chars@ == s@,
        decreases it.decrease()->0,
    {
        match it.next() {
            Some(c) => {
                chars.push(c);
            },
            None => {
                break ;
            },
        }
    }
    chars
}

/// Finds the first `sep` at or after `from` and before `to`; the result is
/// `to` when there is none.
pub(crate) fn find(chars: &Vec<char>, from: usize, to: usize, sep: char) -> (at: usize)
    requires
        from <= to <= chars.len(),
    ensures
        from <= at <= to,
        at - from == first_index(chars@.subrange(from as int, to as int), sep),
{
    let mut at: usize = from;
    while at < to && chars[at] != sep
        invariant
            from <= at <= to <= chars.len(),
            forall|j: int| from <= j < at ==> chars@[j] != sep,
        decreases to - at,
    {
        at = at + 1;
    }
    proof {
        lemma_first_index_is(chars@.subrange(from as int, to as int), sep, at - from);
    }
    at
}

/// Reads the token between `from` and `to` as a dimension.
pub(crate) fn parse_dimension(chars: &Vec<char>, from: usize, to: usize) -> (dim: Option<usize>)
    requires
        from <= to <= chars.len(),
    ensures
        dim == dimension_of(chars@.subrange(from as int, to as int)),
{
    let ghost token = chars@.subrange(from as int, to as int);
    if from == to {
        return None;
    }
    let mut value: usize = 0;
    let mut i: usize = from;
    while i < to
        invariant
            from <= i <= to <= chars.len(),
            token == chars@.subrange(from as int, to as int),
            all_digits(token.take(i - from)),
            value == decimal_value(token.take(i - from)),
        decreases to - i,
    {
        let c: char = chars[i];
        if c < '0' || c > '9' {
            assert(!is_digit(token[i - from]));
            return None;
        }
        let digit: usize = (c as u32 - '0' as u32) as usize;
        proof {
            let next = token.take(i + 1 - from);
            assert(next.drop_last() =~= token.take(i - from));
            assert(next.last() == c);
            assert(decimal_value(next) == 10 * value + digit);
            lemma_decimal_value_prefix(token, i + 1 - from);
            assert forall|j: int| 0 <= j < next.len() implies is_digit(#[trigger] next[j]) by {
                if j < i - from {
                    assert(next[j] == token.take(i - from)[j]);
                }
            }
        }
        let scaled: usize = match value.checked_mul(10) {
            Some(scaled) => scaled,
            None => {
                return None;
            },
        };
        value =
        match scaled.checked_add(digit) {
            Some(sum) => sum,
            None => {
                return None;
            },
        };
        i = i + 1;
    }
    assert(token.take(to - from) =~= token);
    if value == 0 {
        None
    } else {
        Some(value)
    }
}

} // verus!
