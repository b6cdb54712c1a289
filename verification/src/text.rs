//! Numbers in decimal, and texts put together out of parts.
use vstd::prelude::*;
use vstd::string::StringExecFns;

verus! {

/// The character for a digit.
pub open spec fn digit(d: nat) -> char {
    (('0' as u32) + d) as char
}

/// A number in decimal, without leading zeros.
pub open spec fn decimal(n: nat) -> Seq<char>
    decreases n,
{
    if n < 10 {
        seq![digit(n)]
    } else {
        decimal(n / 10).push(digit(n % 10))
    }
}

/// The text that holds one digit.
fn digit_text(d: usize) -> (s: &'static str)
    requires
        d < 10,
    ensures
        s@ == seq![digit(d as nat)],
{
    proof {
        reveal_strlit("0");
        reveal_strlit("1");
        reveal_strlit("2");
        reveal_strlit("3");
        reveal_strlit("4");
        reveal_strlit("5");
        reveal_strlit("6");
        reveal_strlit("7");
        reveal_strlit("8");
        reveal_strlit("9");
    }
    let s: &'static str = match d {
        0 => "0",
        1 => "1",
        2 => "2",
        3 => "3",
        4 => "4",
        5 => "5",
        6 => "6",
        7 => "7",
        8 => "8",
        _ => "9",
    };
    assert(s@ =~= seq![digit(d as nat)]);
    s
}

/// A number in decimal, without leading zeros.
pub fn decimal_text(n: usize) -> (s: String)
    ensures
        s@ == decimal(n as nat),
    decreases n,
{
    if n < 10 {
        digit_text(n).to_owned()
    } else {
        let mut s = decimal_text(n / 10);
        s.append(digit_text(n % 10));
        assert(s@ =~= decimal(n as nat));
        s
    }
}

/// A number in decimal between two texts.
pub fn around_number(before: &str, n: usize, after: &str) -> (s: String)
    ensures
        s@ == before@ + decimal(n as nat) + after@,
{
    let mut s = before.to_owned();
    s.append(decimal_text(n).as_str());
    s.append(after);
    s
}

/// A number never has an empty text.
pub proof fn decimal_is_not_empty(n: nat)
    ensures
        decimal(n).len() >= 1,
{
}

/// Different numbers have different texts.
pub proof fn decimal_tells_numbers_apart(a: nat, b: nat)
    ensures
        decimal(a) == decimal(b) ==> a == b,
    decreases a,
{
    if decimal(a) == decimal(b) {
        if a >= 10 && b >= 10 {
            assert(decimal(a).drop_last() =~= decimal(a / 10));
            assert(decimal(b).drop_last() =~= decimal(b / 10));
            decimal_tells_numbers_apart(a / 10, b / 10);
            assert(decimal(a).last() == digit(a % 10));
            assert(decimal(b).last() == digit(b % 10));
        } else if a >= 10 {
            decimal_is_not_empty(a / 10);
            assert(decimal(a).len() >= 2);
        } else if b >= 10 {
            decimal_is_not_empty(b / 10);
            assert(decimal(b).len() >= 2);
        } else {
            assert(decimal(a)[0] == digit(a));
            assert(decimal(b)[0] == digit(b));
        }
    }
}

/// Putting a digit behind a number that is not zero puts its character behind the text of the
/// number, and a digit alone is its character.
pub proof fn digits_follow_one_another(n: nat, d: nat)
    requires
        d < 10,
    ensures
        decimal(d) == seq![((48 + d) as u32) as char],
        n >= 1 ==> decimal(10 * n + d) == decimal(n).push(((48 + d) as u32) as char),
{
    if n >= 1 {
        assert((10 * n + d) / 10 == n);
        assert((10 * n + d) % 10 == d);
    }
}

/// The text of a number holds nothing but digits, and no zero stands in front of other digits.
pub proof fn decimal_holds_digits(n: nat)
    ensures
        forall|i: int| 0 <= i < decimal(n).len() ==> '0' <= #[trigger] decimal(n)[i] <= '9',
        decimal(n)[0] == '0' <==> n == 0,
    decreases n,
{
    if n >= 10 {
        decimal_holds_digits(n / 10);
        decimal_is_not_empty(n / 10);
    }
}

} // verus!
