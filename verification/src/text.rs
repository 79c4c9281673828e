//! Numbers in words.
use vstd::prelude::*;
use vstd::string::StringExecFns;

verus! {

/// The digit of a number below ten.
pub open spec fn digit_char(n: nat) -> char {
    (('0' as u32) + n) as char
}

/// A number in decimal, without leading zeros.
pub open spec fn digits(n: nat) -> Seq<char>
    decreases n,
{
    if n < 10 {
        seq![digit_char(n)]
    } else {
        digits(n / 10).push(digit_char(n % 10))
    }
}

/// A number in decimal, with a sign where it is negative.
pub open spec fn decimal_chars(n: int) -> Seq<char> {
    if n < 0 {
        seq!['-'] + digits((-n) as nat)
    } else {
        digits(n as nat)
    }
}

fn digit(n: u64) -> (text: &'static str)
    requires
        n < 10,
    ensures
        text@ == seq![digit_char(n as nat)],
{
    proof {
        reveal_strlit("0");
        reveal_strlit("1");
        reveal_strlit("2");
        reveal_strlit("3");
        reveal_strlit("4");
        reveal_strlit("5");
        reveal_strlit("6");
        reveal_strlit("7");
        reveal_strlit("8");
        reveal_strlit("9");
    }
    let text: &'static str = if n == 0 {
        "0"
    } else if n == 1 {
        "1"
    } else if n == 2 {
        "2"
    } else if n == 3 {
        "3"
    } else if n == 4 {
        "4"
    } else if n == 5 {
        "5"
    } else if n == 6 {
        "6"
    } else if n == 7 {
        "7"
    } else if n == 8 {
        "8"
    } else {
        "9"
    };
    assert(text@ =~= seq![digit_char(n as nat)]);
    text
}

/// Append a number in decimal.
pub fn push_unsigned(text: &mut String, n: u64)
    ensures
        final(text)@ == old(text)@ + digits(n as nat),
    decreases n,
{
    if n >= 10 {
        push_unsigned(text, n / 10);
    }
    text.append(digit(n % 10));
    assert(text@ =~= old(text)@ + digits(n as nat));
}

/// Append a number in decimal, with a sign where it is negative.
pub fn push_signed(text: &mut String, n: i32)
    ensures
        final(text)@ == old(text)@ + decimal_chars(n as int),
{
    if n < 0 {
        proof {
            reveal_strlit("-");
        }
        text.append("-");
        push_unsigned(text, (-(n as i64)) as u64);
    } else {
        push_unsigned(text, n as u64);
    }
    assert(text@ =~= old(text)@ + decimal_chars(n as int));
}

/// The number that a run of digits stands for.
pub open spec fn read_back(text: Seq<char>) -> int
    decreases text.len(),
{
    if text.len() == 0 {
        0
    } else {
        10 * read_back(text.drop_last()) + (text.last() as int - '0' as int)
    }
}

/// A number in decimal stands for that number, and is made of digits alone, of
/// which the first is not zero unless it is the only one.
pub proof fn law_digits_read_back(n: nat)
    ensures
        read_back(digits(n)) == n,
        digits(n).len() > 0,
        forall|i: int| 0 <= i < digits(n).len() ==> '0' <= #[trigger] digits(n)[i] <= '9',
        n > 0 ==> digits(n)[0] != '0',
        n == 0 ==> digits(n) == seq!['0'],
    decreases n,
{
    if n < 10 {
        let text = digits(n);
        assert(text.drop_last() =~= Seq::<char>::empty());
        assert(read_back(text.drop_last()) == 0);
    } else {
        law_digits_read_back(n / 10);
        let text = digits(n);
        assert(text.drop_last() =~= digits(n / 10));
        assert(text.last() == digit_char(n % 10));
        assert forall|i: int| 0 <= i < text.len() implies '0' <= #[trigger] text[i] <= '9' by {
            if i < text.len() - 1 {
                assert(text[i] == digits(n / 10)[i]);
            }
        }
        assert(text[0] == digits(n / 10)[0]);
    }
}

/// A number with a sign is its digits where it is not negative, and a minus in
/// front of those of its opposite where it is.
pub proof fn law_a_sign_stands_in_front(n: int)
    ensures
        n >= 0 ==> read_back(decimal_chars(n)) == n && decimal_chars(n)[0] != '-',
        n < 0 ==> {
            &&& decimal_chars(n)[0] == '-'
            &&& read_back(decimal_chars(n).drop_first()) == -n
        },
{
    if n >= 0 {
        law_digits_read_back(n as nat);
    } else {
        law_digits_read_back((-n) as nat);
        assert(decimal_chars(n).drop_first() =~= digits((-n) as nat));
    }
}

} // verus!
