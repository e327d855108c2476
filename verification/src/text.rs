//! Decimal text of natural numbers.
use vstd::prelude::*;

verus! {

/// The text of one decimal digit.
pub open spec fn digit(d: nat) -> Seq<char> {
    if d == 0 {
        "0"@
    } else if d == 1 {
        "1"@
    } else if d == 2 {
        "2"@
    } else if d == 3 {
        "3"@
    } else if d == 4 {
        "4"@
    } else if d == 5 {
        "5"@
    } else if d == 6 {
        "6"@
    } else if d == 7 {
        "7"@
    } else if d == 8 {
        "8"@
    } else {
        "9"@
    }
}

/// The decimal text of `n`, without leading zeros.
pub open spec fn decimal(n: nat) -> Seq<char>
    decreases n,
{
    if n < 10 {
        digit(n)
    } else {
        decimal(n / 10) + digit(n % 10)
    }
}

/// The number that a text of decimal digits stands for.
pub open spec fn number(text: Seq<char>) -> int
    decreases text.len(),
{
    if text.len() == 0 {
        0
    } else {
        number(text.drop_last()) * 10 + (text.last() as int - '0' as int)
    }
}

/// Whether a text is one decimal digit.
pub open spec fn is_digit(text: Seq<char>) -> bool {
    text.len() == 1 && '0' <= text[0] <= '9'
}

/// The text of a digit is the digit.
proof fn lemma_digit(d: nat)
    requires
        d < 10,
    ensures
        is_digit(digit(d)),
        digit(d)[0] as int == '0' as int + d,
{
    reveal_strlit("0");
    reveal_strlit("1");
    reveal_strlit("2");
    reveal_strlit("3");
    reveal_strlit("4");
    reveal_strlit("5");
    reveal_strlit("6");
    reveal_strlit("7");
    reveal_strlit("8");
    reveal_strlit("9");
}

/// The decimal text of a number holds digits alone, stands for the number, and
/// has no leading zeros. So different numbers have different texts.
pub proof fn law_decimal(n: nat)
    ensures
        number(decimal(n)) == n,
        decimal(n).len() > 0,
        forall|i: int| 0 <= i < decimal(n).len() ==> '0' <= #[trigger] decimal(n)[i] <= '9',
        decimal(n)[0] == '0' ==> n == 0 && decimal(n).len() == 1,
    decreases n,
{
    reveal_with_fuel(number, 2);
    if n < 10 {
        lemma_digit(n);
        assert(decimal(n).drop_last() =~= Seq::<char>::empty());
    } else {
        law_decimal(n / 10);
        lemma_digit(n % 10);
        assert(decimal(n).drop_last() =~= decimal(n / 10));
        assert(decimal(n)[0] == decimal(n / 10)[0]);
    }
}

/// Appending texts one by one appends the one that they make up.
pub(crate) proof fn lemma_append(
    base: Seq<char>,
    first: Seq<char>,
    second: Seq<char>,
    third: Seq<char>,
)
    ensures
        base + first + second + third == base + (first + second + third),
{
    assert(base + first + second + third =~= base + (first + second + third));
}

/// Appends one decimal digit.
fn fmt_digit(d: u64, f: &mut String)
    requires
        d < 10,
    ensures
        final(f)@ == old(f)@ + digit(d as nat),
{
    let text = if d == 0 {
        "0"
    } else if d == 1 {
        "1"
    } else if d == 2 {
        "2"
    } else if d == 3 {
        "3"
    } else if d == 4 {
        "4"
    } else if d == 5 {
        "5"
    } else if d == 6 {
        "6"
    } else if d == 7 {
        "7"
    } else if d == 8 {
        "8"
    } else {
        "9"
    };
    f.append(text);
}

/// Appends the decimal text of `n`.
pub fn fmt_decimal(n: u64, f: &mut String)
    ensures
        final(f)@ == old(f)@ + decimal(n as nat),
    decreases n,
{
    if n < 10 {
        fmt_digit(n, f);
    } else {
        fmt_decimal(n / 10, f);
        fmt_digit(n % 10, f);
        assert(f@ =~= old(f)@ + decimal(n as nat));
    }
}

} // verus!
