//! Numbers in writing.
use vstd::prelude::*;
use vstd::string::StringExecFns;

verus! {

/// The decimal digits of a number, without leading zeros.
pub open spec fn decimal(n: nat) -> Seq<char>
    decreases n,
{
    if n < 10 {
        seq![('0' as nat + n) as char]
    } else {
        decimal(n / 10).push(('0' as nat + n % 10) as char)
    }
}

/// A single digit.
fn digit(d: u64) -> (r: &'static str)
    requires
        d < 10,
    ensures
        r@ == seq![('0' as nat + d) as char],
{
    proof {
        reveal_strlit("0");
        reveal_strlit("1");
        reveal_strlit("2");
        reveal_strlit("3");
        reveal_strlit("4");
        reveal_strlit("5");
        reveal_strlit("6");
        reveal_strlit("7");
        reveal_strlit("8");
        reveal_strlit("9");
    }
    match d {
        0 => "0",
        1 => "1",
        2 => "2",
        3 => "3",
        4 => "4",
        5 => "5",
        6 => "6",
        7 => "7",
        8 => "8",
        _ => "9",
    }
}

/// Writes a number in decimal.
pub fn to_decimal(n: u64) -> (r: String)
    ensures
        r@ == decimal(n as nat),
    decreases n,
{
    if n < 10 {
        digit(n).to_owned()
    } else {
        let mut r = to_decimal(n / 10);
        r.append(digit(n % 10));
        assert(r@ =~= decimal(n as nat));
        r
    }
}

/// The hexadecimal digit for a value, in upper case.
pub open spec fn hex_digit(d: nat) -> char {
    if d < 10 {
        ('0' as nat + d) as char
    } else {
        ('A' as nat + (d - 10)) as char
    }
}

/// The hexadecimal digits of a number, in upper case, filled up with zeros to at
/// least `width` of them.
pub open spec fn hex(n: nat, width: nat) -> Seq<char>
    decreases n + width,
{
    if n < 16 && width <= 1 {
        seq![hex_digit(n)]
    } else {
        hex(n / 16, if width > 0 {
            (width - 1) as nat
        } else {
            0
        }).push(hex_digit(n % 16))
    }
}

/// A single hexadecimal digit.
fn one_hex(d: u64) -> (r: &'static str)
    requires
        d < 16,
    ensures
        r@ == seq![hex_digit(d as nat)],
{
    proof {
        reveal_strlit("A");
        reveal_strlit("B");
        reveal_strlit("C");
        reveal_strlit("D");
        reveal_strlit("E");
        reveal_strlit("F");
    }
    match d {
        10 => "A",
        11 => "B",
        12 => "C",
        13 => "D",
        14 => "E",
        15 => "F",
        _ => digit(d),
    }
}

/// Writes a number in hexadecimal, with at least `width` digits.
pub fn to_hex(n: u64, width: u64) -> (r: String)
    ensures
        r@ == hex(n as nat, width as nat),
    decreases n + width,
{
    if n < 16 && width <= 1 {
        one_hex(n).to_owned()
    } else {
        let mut r = to_hex(n / 16, if width > 0 {
            width - 1
        } else {
            0
        });
        r.append(one_hex(n % 16));
        assert(r@ =~= hex(n as nat, width as nat));
        r
    }
}

/// The number that digits stand for, to the given base, if each stands for the
/// value that `worth` gives.
pub open spec fn value(digits: Seq<char>, base: nat, worth: spec_fn(char) -> nat) -> nat
    decreases digits.len(),
{
    if digits.len() == 0 {
        0
    } else {
        value(digits.drop_last(), base, worth) * base + worth(digits.last())
    }
}

/// What a digit from `0` to `9` is worth.
pub open spec fn decimal_worth(c: char) -> nat {
    (c as nat - '0' as nat) as nat
}

/// What a digit from `0` to `9`, or from `A` to `F`, is worth.
pub open spec fn hex_worth(c: char) -> nat {
    if c <= '9' {
        (c as nat - '0' as nat) as nat
    } else {
        (10 + c as nat - 'A' as nat) as nat
    }
}

/// A number in decimal is written with the digits from `0` to `9`, stands for that
/// number, and starts with no zero but if it is zero.
pub proof fn lemma_decimal_reads_back(n: nat)
    ensures
        value(decimal(n), 10, |c: char| decimal_worth(c)) == n,
        decimal(n).len() >= 1,
        forall|i: int| 0 <= i < decimal(n).len() ==> '0' <= #[trigger] decimal(n)[i] <= '9',
        decimal(n).len() > 1 ==> decimal(n)[0] != '0',
        n > 0 ==> decimal(n)[0] != '0',
    decreases n,
{
    let worth = |c: char| decimal_worth(c);
    let all = decimal(n);
    if n < 10 {
        assert(all.drop_last() =~= Seq::<char>::empty());
        assert(value(all.drop_last(), 10, worth) == 0);
        assert(worth(all.last()) == n);
    } else {
        lemma_decimal_reads_back(n / 10);
        assert(all.drop_last() =~= decimal(n / 10));
        assert(worth(all.last()) == n % 10);
    }
}

/// A number in hexadecimal is written with the digits from `0` to `9` and from `A`
/// to `F`, stands for that number, and has at least the width asked for; where it
/// is longer, it starts with no zero but if it is a single one.
pub proof fn lemma_hex_reads_back(n: nat, width: nat)
    ensures
        value(hex(n, width), 16, |c: char| hex_worth(c)) == n,
        hex(n, width).len() >= 1,
        hex(n, width).len() >= width,
        forall|i: int|
            0 <= i < hex(n, width).len() ==> '0' <= #[trigger] hex(n, width)[i] <= '9' || 'A'
                <= hex(n, width)[i] <= 'F',
        hex(n, width).len() > width && hex(n, width).len() > 1 ==> hex(n, width)[0] != '0',
        width <= 1 && n > 0 ==> hex(n, width)[0] != '0',
    decreases n + width,
{
    let worth = |c: char| hex_worth(c);
    let all = hex(n, width);
    if n < 16 && width <= 1 {
        assert(all.drop_last() =~= Seq::<char>::empty());
        assert(value(all.drop_last(), 16, worth) == 0);
        assert(worth(all.last()) == n);
    } else {
        let less = if width > 0 {
            (width - 1) as nat
        } else {
            0
        };
        lemma_hex_reads_back(n / 16, less);
        assert(all.drop_last() =~= hex(n / 16, less));
        assert(worth(all.last()) == n % 16);
    }
}

} // verus!
