//! Strings as sequences of characters.

use vstd::prelude::*;
use vstd::string::*;

verus! {

/// The two strings have the same characters.
pub fn str_eq(a: &str, b: &str) -> (same: bool)
    ensures
        same == (a@ == b@),
{
    a.to_owned() == b.to_owned()
}

/// The characters of each string.
pub open spec fn views(strings: Seq<String>) -> Seq<Seq<char>> {
    Seq::new(strings.len(), |i: int| strings[i]@)
}

/// Some string of the list has the characters of `name`.
pub open spec fn lists(names: Seq<String>, name: Seq<char>) -> bool {
    exists|i: int| 0 <= i < names.len() && #[trigger] names[i]@ == name
}

pub fn contains_name(names: &[String], name: &str) -> (found: bool)
    ensures
        found == lists(names@, name@),
{
    let mut i: usize = 0;
    while i < names.len()
        invariant
            i <= names@.len(),
            forall|k: int| 0 <= k < i ==> #[trigger] names@[k]@ != name@,
        decreases names@.len() - i,
    {
        if str_eq(names[i].as_str(), name) {
            return true;
        }
        i = i + 1;
    }
    false
}

/// The text without its blanks.
pub open spec fn unspaced(s: Seq<char>) -> Seq<char>
    decreases s.len(),
{
    if s.len() == 0 {
        Seq::empty()
    } else if s.last() == ' ' {
        unspaced(s.drop_last())
    } else {
        unspaced(s.drop_last()).push(s.last())
    }
}

pub fn without_spaces(s: &str) -> (out: String)
    ensures
        out@ == unspaced(s@),
{
    let mut out = String::new();
    let n: usize = s.unicode_len();
    let mut i: usize = 0;
    assert(s@.take(0) =~= Seq::empty());
    while i < n
        invariant
            n == s@.len(),
            i <= n,
            out@ == unspaced(s@.take(i as int)),
        decreases n - i,
    {
        let ghost before = out@;
        if s.get_char(i) != ' ' {
            out.append(s.substring_char(i, i + 1));
            assert(out@ =~= before.push(s@[i as int]));
        }
        i = i + 1;
        assert(s@.take(i as int).drop_last() =~= s@.take(i - 1));
    }
    assert(s@.take(n as int) =~= s@);
    out
}

/// The decimal value of a string of digits.
pub open spec fn digits_value(s: Seq<char>) -> nat
    decreases s.len(),
{
    if s.len() == 0 {
        0
    } else {
        digits_value(s.drop_last()) * 10 + (s.last() as nat - 48) as nat
    }
}

/// The number that the digits denote, if there are digits, nothing else, and
/// the number is at most `max`.
pub open spec fn parsed_number(s: Seq<char>, max: nat) -> Option<nat> {
    if s.len() > 0 && (forall|i: int| 0 <= i < s.len() ==> '0' <= #[trigger] s[i] <= '9')
        && digits_value(s) <= max {
        Some(digits_value(s))
    } else {
        None
    }
}

proof fn lemma_digits_value_grows(s: Seq<char>, i: int)
    requires
        0 <= i <= s.len(),
    ensures
        digits_value(s.take(i)) <= digits_value(s),
    decreases s.len() - i,
{
    if i < s.len() {
        lemma_digits_value_grows(s, i + 1);
        assert(s.take(i + 1).drop_last() =~= s.take(i));
    } else {
        assert(s.take(i) =~= s);
    }
}

/// Reads a number of at most `max`.
pub fn parse_number(s: &str, max: usize) -> (value: Option<usize>)
    ensures
        value matches Some(v) ==> parsed_number(s@, max as nat) == Some(v as nat),
        value is None ==> parsed_number(s@, max as nat) is None,
{
    let n: usize = s.unicode_len();
    if n == 0 {
        return None;
    }
    let mut value: usize = 0;
    let mut i: usize = 0;
    assert(s@.take(0) =~= Seq::empty());
    while i < n
        invariant
            n == s@.len(),
            i <= n,
            value <= max,
            value == digits_value(s@.take(i as int)),
            forall|k: int| 0 <= k < i ==> '0' <= #[trigger] s@[k] <= '9',
        decreases n - i,
    {
        let c: char = s.get_char(i);
        if !('0' <= c && c <= '9') {
            return None;
        }
        let d: usize = c as usize - 48;
        proof {
            assert(s@.take(i + 1).drop_last() =~= s@.take(i as int));
            assert(digits_value(s@.take(i + 1)) == value * 10 + d);
            lemma_digits_value_grows(s@, i + 1);
        }
        if value > max / 10 || d > max - value * 10 {
            return None;
        }
        value = value * 10 + d;
        i = i + 1;
    }
    assert(s@.take(n as int) =~= s@);
    Some(value)
}

// ---------------------------------------------------------------------------
// Searching
// ---------------------------------------------------------------------------

/// `pattern` stands in `s` at place `k`.
pub open spec fn occurs_at(s: Seq<char>, pattern: Seq<char>, k: int) -> bool {
    0 <= k && k + pattern.len() <= s.len() && s.subrange(k, k + pattern.len()) == pattern
}

/// The first place at which `pattern` stands in `s`.
pub open spec fn find(s: Seq<char>, pattern: Seq<char>) -> Option<nat>
    decreases s.len(),
{
    if occurs_at(s, pattern, 0) {
        Some(0)
    } else if s.len() == 0 {
        None
    } else {
        match find(s.drop_first(), pattern) {
            Some(k) => Some(k + 1),
            None => None,
        }
    }
}

/// What stands before and after the first occurrence of `pattern`.
pub open spec fn spec_split_once(s: Seq<char>, pattern: Seq<char>) -> Option<
    (Seq<char>, Seq<char>),
> {
    match find(s, pattern) {
        Some(k) => Some((s.take(k as int), s.skip(k as int + pattern.len()))),
        None => None,
    }
}

/// `find` gives the least place at which the pattern stands, if there is one.
pub proof fn lemma_find(s: Seq<char>, pattern: Seq<char>)
    ensures
        match find(s, pattern) {
            Some(k) => occurs_at(s, pattern, k as int) && forall|i: int|
                0 <= i < k ==> !#[trigger] occurs_at(s, pattern, i),
            None => forall|i: int| !#[trigger] occurs_at(s, pattern, i),
        },
    decreases s.len(),
{
    if !occurs_at(s, pattern, 0) {
        if s.len() == 0 {
            assert forall|i: int| !#[trigger] occurs_at(s, pattern, i) by {
                if occurs_at(s, pattern, i) {
                    assert(i == 0);
                }
            }
        } else {
            let tail = s.drop_first();
            lemma_find(tail, pattern);
            assert forall|i: int| 0 < i implies #[trigger] occurs_at(s, pattern, i) == occurs_at(
                tail,
                pattern,
                i - 1,
            ) by {
                if i + pattern.len() <= s.len() {
                    assert(s.subrange(i, i + pattern.len()) =~= tail.subrange(
                        i - 1,
                        i - 1 + pattern.len(),
                    ));
                }
            }
            match find(tail, pattern) {
                Some(k) => {
                    assert(occurs_at(s, pattern, k as int + 1));
                    assert forall|i: int| 0 <= i < k + 1 implies !#[trigger] occurs_at(
                        s,
                        pattern,
                        i,
                    ) by {
                        if i > 0 {
                            assert(!occurs_at(tail, pattern, i - 1));
                        }
                    }
                },
                None => {
                    assert forall|i: int| !#[trigger] occurs_at(s, pattern, i) by {
                        if i > 0 {
                            assert(!occurs_at(tail, pattern, i - 1));
                        }
                    }
                },
            }
        }
    }
}

/// A place at which the pattern stands and before which it does not is the
/// one that `find` gives.
pub proof fn lemma_find_is(s: Seq<char>, pattern: Seq<char>, k: nat)
    requires
        occurs_at(s, pattern, k as int),
        forall|i: int| 0 <= i < k ==> !#[trigger] occurs_at(s, pattern, i),
    ensures
        find(s, pattern) == Some(k),
{
    lemma_find(s, pattern);
    match find(s, pattern) {
        Some(j) => {
            if j < k {
                assert(!occurs_at(s, pattern, j as int));
            } else if k < j {
                assert(!occurs_at(s, pattern, k as int));
            }
        },
        None => {
            assert(!occurs_at(s, pattern, k as int));
        },
    }
}

fn chars_of(s: &str) -> (chars: Vec<char>)
    ensures
        chars@ == s@,
{
    let mut chars: Vec<char> = Vec::new();
    for c in it: s.chars()
        invariant
            chars@ == it.seq().take(it.index() as int),
            it.seq() == s@,
    {
        let ghost before = chars@;
        chars.push(c);
        assert(chars@ =~= it.seq().take(it.index() + 1));
    }
    assert(chars@ =~= s@);
    chars
}

fn stands_at(s: &Vec<char>, pattern: &Vec<char>, k: usize) -> (yes: bool)
    requires
        k + pattern@.len() <= s@.len(),
    ensures
        yes == occurs_at(s@, pattern@, k as int),
{
    let n: usize = s.len();
    let mut i: usize = 0;
    while i < pattern.len()
        invariant
            i <= pattern@.len(),
            n == s@.len(),
            k + pattern@.len() <= n,
            forall|j: int| 0 <= j < i ==> s@[k + j] == #[trigger] pattern@[j],
        decreases pattern@.len() - i,
    {
        if s[k + i] != pattern[i] {
            assert(s@.subrange(k as int, k + pattern@.len())[i as int] != pattern@[i as int]);
            return false;
        }
        i = i + 1;
    }
    assert(s@.subrange(k as int, k + pattern@.len()) =~= pattern@);
    true
}

/// Splits a text at the first occurrence of a pattern.
pub fn split_once<'a>(s: &'a str, pattern: &str) -> (parts: Option<(&'a str, &'a str)>)
    ensures
        match parts {
            Some((before, after)) => spec_split_once(s@, pattern@) == Some((before@, after@)),
            None => spec_split_once(s@, pattern@) is None,
        },
{
    let text = chars_of(s);
    let wanted = chars_of(pattern);
    let n: usize = text.len();
    let m: usize = wanted.len();
    proof {
        lemma_find(s@, pattern@);
    }
    let mut k: usize = 0;
    while m <= n - k
        invariant
            text@ == s@,
            wanted@ == pattern@,
            n == s@.len(),
            m == pattern@.len(),
            k <= n,
            forall|i: int| 0 <= i < k ==> !#[trigger] occurs_at(s@, pattern@, i),
        decreases n - k,
    {
        if stands_at(&text, &wanted, k) {
            let before = s.substring_char(0, k);
            let after = s.substring_char(k + m, n);
            proof {
                lemma_find_is(s@, pattern@, k as nat);
                assert(before@ =~= s@.take(k as int));
                assert(after@ =~= s@.skip(k + m));
            }
            return Some((before, after));
        }
        proof {
            if k == n {
                assert(s@.subrange(k as int, k as int) =~= pattern@);
            }
        }
        k = k + 1;
    }
    proof {
        assert forall|i: int| !#[trigger] occurs_at(s@, pattern@, i) by {}
    }
    None
}

// ---------------------------------------------------------------------------
// Laws
// ---------------------------------------------------------------------------

/// A text splits at the first place of the pattern: the parts with the pattern
/// between them are the text, and the pattern stands at no earlier place. It
/// does not split exactly if the pattern stands nowhere in it.
pub proof fn law_texts_split_at_the_first_place(s: Seq<char>, pattern: Seq<char>)
    ensures
        match spec_split_once(s, pattern) {
            Some((before, after)) => s == before + pattern + after && forall|k: int|
                0 <= k < before.len() ==> #[trigger] s.subrange(k, k + pattern.len()) != pattern,
            None => forall|k: int|
                0 <= k && k + pattern.len() <= s.len() ==> #[trigger] s.subrange(
                    k,
                    k + pattern.len(),
                ) != pattern,
        },
{
    lemma_find(s, pattern);
    match find(s, pattern) {
        Some(k) => {
            let before = s.take(k as int);
            let after = s.skip(k as int + pattern.len());
            assert(s.subrange(k as int, k as int + pattern.len()) == pattern);
            assert(s =~= before + pattern + after) by {
                assert forall|i: int| 0 <= i < s.len() implies s[i] == (before + pattern
                    + after)[i] by {
                    if k <= i < k + pattern.len() {
                        assert(s.subrange(k as int, k as int + pattern.len())[i - k] == s[i]);
                    }
                }
            }
            assert forall|i: int| 0 <= i < before.len() implies #[trigger] s.subrange(
                i,
                i + pattern.len(),
            ) != pattern by {
                assert(!occurs_at(s, pattern, i));
            }
        },
        None => {
            assert forall|i: int| 0 <= i && i + pattern.len() <= s.len() implies #[trigger] s.subrange(
                i,
                i + pattern.len(),
            ) != pattern by {
                assert(!occurs_at(s, pattern, i));
            }
        },
    }
}

/// Leaving out the blanks of two texts that follow each other leaves out those
/// of each. A blank leaves nothing, any other character itself.
pub proof fn law_blanks_are_left_out(a: Seq<char>, b: Seq<char>, c: char)
    ensures
        unspaced(a + b) == unspaced(a) + unspaced(b),
        unspaced(seq![c]) == if c == ' ' {
            Seq::empty()
        } else {
            seq![c]
        },
    decreases b.len(),
{
    assert(seq![c].drop_last() =~= Seq::empty());
    assert(unspaced(Seq::empty()) =~= Seq::empty());
    assert(unspaced(seq![c]) =~= if c == ' ' {
        Seq::empty()
    } else {
        seq![c]
    });
    if b.len() == 0 {
        assert(a + b =~= a);
        assert(unspaced(a) + unspaced(b) =~= unspaced(a));
    } else {
        assert((a + b).drop_last() =~= a + b.drop_last());
        law_blanks_are_left_out(a, b.drop_last(), c);
        assert(unspaced(a + b) =~= unspaced(a) + unspaced(b));
    }
}

proof fn lemma_decimal_value(n: nat)
    ensures
        digits_value(crate::json::decimal(n)) == n,
    decreases n,
{
    let s = crate::json::decimal(n);
    if n >= 10 {
        lemma_decimal_value(n / 10);
        assert(s.drop_last() =~= crate::json::decimal(n / 10));
        assert(crate::json::digit(n % 10) as nat == 48 + n % 10);
    } else {
        assert(s.drop_last() =~= Seq::empty());
        assert(digits_value(Seq::empty()) == 0);
        assert(crate::json::digit(n) as nat == 48 + n);
    }
}

/// The decimal digits of a number are read as the number, if it is small
/// enough.
pub proof fn law_decimal_digits_are_read_back(n: nat, max: nat)
    ensures
        parsed_number(crate::json::decimal(n), max) == if n <= max {
            Some(n)
        } else {
            None
        },
{
    crate::json::lemma_decimal_digits(n);
    lemma_decimal_value(n);
}

/// What is read as a number is digits alone, and zeros before them do not
/// matter.
pub proof fn law_numbers_are_digits(s: Seq<char>, max: nat)
    ensures
        parsed_number(s, max) is Some ==> s.len() > 0 && forall|i: int|
            0 <= i < s.len() ==> '0' <= #[trigger] s[i] <= '9',
        s.len() > 0 ==> parsed_number(seq!['0'] + s, max) == parsed_number(s, max),
{
    let t = seq!['0'] + s;
    lemma_leading_zero(s);
    if s.len() > 0 {
        if forall|i: int| 0 <= i < s.len() ==> '0' <= #[trigger] s[i] <= '9' {
            assert forall|i: int| 0 <= i < t.len() implies '0' <= #[trigger] t[i] <= '9' by {
                if i > 0 {
                    assert(t[i] == s[i - 1]);
                }
            }
        } else {
            let i = choose|i: int| 0 <= i < s.len() && !('0' <= #[trigger] s[i] <= '9');
            assert(t[i + 1] == s[i]);
        }
    }
}

proof fn lemma_leading_zero(s: Seq<char>)
    ensures
        digits_value(seq!['0'] + s) == digits_value(s),
    decreases s.len(),
{
    let t = seq!['0'] + s;
    if s.len() == 0 {
        assert(t.drop_last() =~= Seq::empty());
        assert(digits_value(Seq::empty()) == 0);
        assert('0' as nat == 48);
    } else {
        assert(t.drop_last() =~= seq!['0'] + s.drop_last());
        lemma_leading_zero(s.drop_last());
    }
}

/// A list of names lists those names and no others.
pub proof fn law_lists_hold_their_names(names: Seq<String>, name: Seq<char>)
    ensures
        lists(names, name) == views(names).contains(name),
        views(names).len() == names.len(),
        forall|i: int| 0 <= i < names.len() ==> #[trigger] views(names)[i] == names[i]@,
{
    if lists(names, name) {
        let i = choose|i: int| 0 <= i < names.len() && #[trigger] names[i]@ == name;
        assert(views(names)[i] == name);
    }
    if views(names).contains(name) {
        let i = choose|i: int| 0 <= i < views(names).len() && views(names)[i] == name;
        assert(names[i]@ == name);
    }
}

} // verus!
