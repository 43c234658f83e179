//! Numbered layer names.
use vstd::prelude::*;
use vstd::string::*;

verus! {

/// Appends a character, as `std`'s `String::push` documents.
pub assume_specification[ String::push ](s: &mut String, c: char)
    ensures
        final(s)@ == old(s)@.push(c),
;

pub open spec fn is_digit(c: char) -> bool {
    '0' <= c <= '9'
}

/// The number that a string of digits writes in base ten.
pub open spec fn number(digits: Seq<char>) -> int
    decreases digits.len(),
{
    if digits.len() == 0 {
        0
    } else {
        number(digits.drop_last()) * 10 + (digits.last() as int - '0' as int)
    }
}

/// The character for a digit from 0 to 9.
pub open spec fn digit_char(d: int) -> char {
    ('0' as int + d) as char
}

/// A number in base ten without leading zeros.
pub open spec fn decimal(n: int) -> Seq<char>
    decreases n,
{
    if n < 10 {
        seq![digit_char(n)]
    } else {
        decimal(n / 10).push(digit_char(n % 10))
    }
}

/// The index of the last space, or -1 where there is none.
pub open spec fn last_space(name: Seq<char>) -> int
    decreases name.len(),
{
    if name.len() == 0 {
        -1
    } else if name.last() == ' ' {
        name.len() - 1
    } else {
        last_space(name.drop_last())
    }
}

/// What follows the last space.
pub open spec fn suffix(name: Seq<char>) -> Seq<char> {
    name.skip(last_space(name) + 1)
}

/// Whether the name ends in a space and a number that fits in 64 bits.
pub open spec fn is_numbered(name: Seq<char>) -> bool {
    &&& last_space(name) >= 0
    &&& suffix(name).len() > 0
    &&& forall|i: int| 0 <= i < suffix(name).len() ==> is_digit(#[trigger] suffix(name)[i])
    &&& number(suffix(name)) <= u64::MAX
}

/// The name of the next in a numbered series; other names stay as they are.
pub open spec fn incremented(name: Seq<char>) -> Seq<char> {
    if is_numbered(name) {
        name.take(last_space(name)) + seq![' '] + decimal(number(suffix(name)) + 1)
    } else {
        name
    }
}

proof fn lemma_last_space(name: Seq<char>)
    ensures
        -1 <= last_space(name) < name.len(),
        last_space(name) >= 0 ==> name[last_space(name)] == ' ',
        forall|j: int| last_space(name) < j < name.len() ==> name[j] != ' ',
    decreases name.len(),
{
    if name.len() > 0 && name.last() != ' ' {
        lemma_last_space(name.drop_last());
        assert forall|j: int| last_space(name) < j < name.len() implies name[j] != ' ' by {
            if j < name.len() - 1 {
                assert(name.drop_last()[j] == name[j]);
            }
        }
    }
}

proof fn lemma_number_grows(digits: Seq<char>, k: int)
    requires
        0 <= k <= digits.len(),
        forall|i: int| 0 <= i < digits.len() ==> is_digit(#[trigger] digits[i]),
    ensures
        0 <= number(digits.take(k)) <= number(digits),
    decreases digits.len(),
{
    if digits.len() == 0 {
        assert(digits.take(k) =~= digits);
    } else if k == digits.len() {
        assert(digits.take(k) =~= digits);
        assert(digits.drop_last().take(k - 1) =~= digits.drop_last());
        lemma_number_grows(digits.drop_last(), k - 1);
        assert(is_digit(digits[digits.len() - 1]));
    } else {
        assert(digits.drop_last().take(k) =~= digits.take(k));
        lemma_number_grows(digits.drop_last(), k);
        assert(is_digit(digits[digits.len() - 1]));
    }
}

/// Appends `n` in base ten.
pub fn push_decimal(out: &mut String, n: u64)
    ensures
        final(out)@ == old(out)@ + decimal(n as int),
    decreases n,
{
    let ghost start = out@;
    if n >= 10 {
        push_decimal(out, n / 10);
    }
    let d: u8 = (n % 10) as u8;
    out.push((48 + d) as char);
    assert(out@ =~= start + decimal(n as int));
}

/// The name for a copy: `"Frame 2"` becomes `"Frame 3"`, a name without a trailing number is kept.
///
/// The one number that has no successor in 64 bits is left out.
pub fn increment_trailing_number(name: &str) -> (r: String)
    requires
        !(is_numbered(name@) && number(suffix(name@)) == u64::MAX),
    ensures
        r@ == incremented(name@),
{
    let n: usize = name.unicode_len();
    let mut at: usize = n;
    proof {
        lemma_last_space(name@);
    }
    while at > 0 && name.get_char(at - 1) != ' '
        invariant
            at <= n,
            n == name@.len(),
            forall|j: int| at <= j < n ==> name@[j] != ' ',
        decreases at,
    {
        at -= 1;
    }
    if at == 0 {
        return name.to_owned();
    }
    let space: usize = at - 1;
    assert(last_space(name@) == space);
    let ghost digits = suffix(name@);
    if at == n {
        return name.to_owned();
    }
    let mut value: u64 = 0;
    let mut i: usize = at;
    assert(digits.take(0) =~= Seq::<char>::empty());
    while i < n
        invariant
            at <= i <= n,
            n == name@.len(),
            digits == name@.skip(at as int),
            digits == suffix(name@),
            last_space(name@) >= 0,
            forall|j: int| 0 <= j < i - at ==> is_digit(#[trigger] digits[j]),
            value == number(digits.take(i - at)),
        decreases n - i,
    {
        let c = name.get_char(i);
        assert(c == digits[i - at]);
        if !(c >= '0' && c <= '9') {
            assert(!is_digit(digits[i - at]));
            return name.to_owned();
        }
        let d: u64 = c as u64 - 48;
        let ghost k = i - at;
        assert(digits.take(k + 1).drop_last() =~= digits.take(k));
        assert(number(digits.take(k + 1)) == value * 10 + d);
        if value > (u64::MAX - d) / 10 {
            proof {
                if is_numbered(name@) {
                    lemma_number_grows(digits, k + 1);
                }
            }
            return name.to_owned();
        }
        value = value * 10 + d;
        i += 1;
    }
    assert(digits.take(n - at) =~= digits);
    let mut out: String = name.substring_char(0, space).to_owned();
    out.push(' ');
    push_decimal(&mut out, value + 1);
    assert(name@.subrange(0, space as int) =~= name@.take(space as int));
    assert(out@ =~= incremented(name@));
    out
}

/// Counting on from a numbered name gives a numbered name, unless the number runs out of range.
pub proof fn law_incremented_names_stay_numbered(name: Seq<char>)
    requires
        is_numbered(name),
        number(suffix(name)) < u64::MAX,
    ensures
        is_numbered(incremented(name)),
        number(suffix(incremented(name))) == number(suffix(name)) + 1,
        incremented(name).take(last_space(incremented(name))) == name.take(last_space(name)),
{
    lemma_last_space(name);
    lemma_number_grows(suffix(name), suffix(name).len() as int);
    assert(suffix(name).take(suffix(name).len() as int) =~= suffix(name));
    let n = number(suffix(name)) + 1;
    let base = name.take(last_space(name));
    lemma_decimal(n);
    lemma_last_space_of_suffix(base, decimal(n));
    assert(suffix(incremented(name)) =~= decimal(n));
    assert(incremented(name).take(last_space(incremented(name))) =~= base);
}

proof fn lemma_decimal(n: int)
    requires
        n >= 0,
    ensures
        decimal(n).len() > 0,
        forall|i: int| 0 <= i < decimal(n).len() ==> is_digit(#[trigger] decimal(n)[i]),
        number(decimal(n)) == n,
    decreases n,
{
    if n >= 10 {
        lemma_decimal(n / 10);
        assert(decimal(n).drop_last() =~= decimal(n / 10));
    } else {
        assert(decimal(n).drop_last() =~= Seq::<char>::empty());
        assert(number(decimal(n).drop_last()) == 0);
    }
}

proof fn lemma_last_space_of_suffix(base: Seq<char>, tail: Seq<char>)
    requires
        forall|i: int| 0 <= i < tail.len() ==> is_digit(#[trigger] tail[i]),
    ensures
        last_space(base + seq![' '] + tail) == base.len(),
    decreases tail.len(),
{
    let s = base + seq![' '] + tail;
    if tail.len() > 0 {
        assert(is_digit(tail[tail.len() - 1]));
        assert(s.last() == tail.last());
        assert(s.drop_last() =~= base + seq![' '] + tail.drop_last());
        lemma_last_space_of_suffix(base, tail.drop_last());
    } else {
        assert(s =~= base.push(' '));
        assert(s.last() == ' ');
    }
}

} // verus!
