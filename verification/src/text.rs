//! How identifiers are written.
use vstd::prelude::*;
use vstd::string::StringExecFns;

verus! {

/// The digit for a number below sixteen.
pub open spec fn digit(d: nat) -> char {
    if d < 10 {
        ('0' as int + d) as char
    } else {
        ('a' as int + d - 10) as char
    }
}

/// A number in decimal, without leading zeros.
pub open spec fn decimal(n: nat) -> Seq<char>
    decreases n,
{
    if n < 10 {
        seq![digit(n)]
    } else {
        decimal(n / 10).push(digit(n % 10))
    }
}

/// The last `width` digits of a number in hexadecimal.
pub open spec fn hex(n: nat, width: nat) -> Seq<char>
    decreases width,
{
    if width == 0 {
        Seq::empty()
    } else {
        hex(n / 16, (width - 1) as nat).push(digit(n % 16))
    }
}

/// Append one digit.
fn append_digit(text: &mut String, d: u8)
    requires
        d < 16,
    ensures
        final(text)@ == old(text)@.push(digit(d as nat)),
{
    match d {
        0 => {
            proof {
                reveal_strlit("0");
            }
            text.append("0");
        },
        1 => {
            proof {
                reveal_strlit("1");
            }
            text.append("1");
        },
        2 => {
            proof {
                reveal_strlit("2");
            }
            text.append("2");
        },
        3 => {
            proof {
                reveal_strlit("3");
            }
            text.append("3");
        },
        4 => {
            proof {
                reveal_strlit("4");
            }
            text.append("4");
        },
        5 => {
            proof {
                reveal_strlit("5");
            }
            text.append("5");
        },
        6 => {
            proof {
                reveal_strlit("6");
            }
            text.append("6");
        },
        7 => {
            proof {
                reveal_strlit("7");
            }
            text.append("7");
        },
        8 => {
            proof {
                reveal_strlit("8");
            }
            text.append("8");
        },
        9 => {
            proof {
                reveal_strlit("9");
            }
            text.append("9");
        },
        10 => {
            proof {
                reveal_strlit("a");
            }
            text.append("a");
        },
        11 => {
            proof {
                reveal_strlit("b");
            }
            text.append("b");
        },
        12 => {
            proof {
                reveal_strlit("c");
            }
            text.append("c");
        },
        13 => {
            proof {
                reveal_strlit("d");
            }
            text.append("d");
        },
        14 => {
            proof {
                reveal_strlit("e");
            }
            text.append("e");
        },
        _ => {
            proof {
                reveal_strlit("f");
            }
            text.append("f");
        },
    }
    assert(text@ =~= old(text)@.push(digit(d as nat)));
}

/// Append a number in decimal.
pub(crate) fn append_decimal(text: &mut String, n: usize)
    ensures
        final(text)@ == old(text)@ + decimal(n as nat),
    decreases n,
{
    if n >= 10 {
        append_decimal(text, n / 10);
    }
    append_digit(text, (n % 10) as u8);
    assert(text@ =~= old(text)@ + decimal(n as nat));
}

/// Append the last `width` digits of a number in hexadecimal.
pub(crate) fn append_hex(text: &mut String, n: u128, width: usize)
    ensures
        final(text)@ == old(text)@ + hex(n as nat, width as nat),
    decreases width,
{
    if width > 0 {
        append_hex(text, n / 16, width - 1);
        append_digit(text, (n % 16) as u8);
    }
    assert(text@ =~= old(text)@ + hex(n as nat, width as nat));
}

/// A text followed by another.
pub(crate) fn join(text: &str, rest: &str) -> (r: String)
    ensures
        r@ == text@ + rest@,
{
    let mut r = String::from_str(text);
    r.append(rest);
    r
}

/// The number that a digit stands for.
pub open spec fn digit_value(c: char) -> int {
    if '0' <= c && c <= '9' {
        c as int - '0' as int
    } else {
        c as int - 'a' as int + 10
    }
}

/// The number that a text stands for in the given base.
pub open spec fn value(text: Seq<char>, base: int) -> int
    decreases text.len(),
{
    if text.len() == 0 {
        0
    } else {
        value(text.drop_last(), base) * base + digit_value(text.last())
    }
}

/// A number can be read back from its decimal digits, of which there is one at least,
/// and the first is zero only for the number zero.
pub proof fn law_decimal_reads_back(n: nat)
    ensures
        value(decimal(n), 10) == n,
        decimal(n).len() > 0,
        decimal(n)[0] == '0' ==> n == 0,
        forall|i: int| 0 <= i < decimal(n).len() ==> '0' <= #[trigger] decimal(n)[i] <= '9',
    decreases n,
{
    reveal_with_fuel(value, 2);
    if n < 10 {
        assert(decimal(n).drop_last() =~= Seq::empty());
    } else {
        law_decimal_reads_back(n / 10);
        assert(decimal(n).drop_last() =~= decimal(n / 10));
        assert(decimal(n)[0] == decimal(n / 10)[0]);
        assert forall|i: int| 0 <= i < decimal(n).len() implies '0' <= #[trigger] decimal(n)[i]
            <= '9' by {
            if i < decimal(n / 10).len() {
                assert(decimal(n)[i] == decimal(n / 10)[i]);
            }
        }
    }
}

/// A number below `16` to the power `width` can be read back from its `width`
/// hexadecimal digits, which are written in lower case.
pub proof fn law_hex_reads_back(n: nat, width: nat)
    ensures
        hex(n, width).len() == width,
        n < vstd::arithmetic::power::pow(16, width) ==> value(hex(n, width), 16) == n,
        forall|i: int|
            0 <= i < width ==> '0' <= #[trigger] hex(n, width)[i] <= '9' || 'a' <= hex(n, width)[i]
                <= 'f',
    decreases width,
{
    vstd::arithmetic::power::lemma_pow0(16);
    if width > 0 {
        let w = (width - 1) as nat;
        law_hex_reads_back(n / 16, w);
        assert(hex(n, width).drop_last() =~= hex(n / 16, w));
        assert(vstd::arithmetic::power::pow(16, width) == 16 * vstd::arithmetic::power::pow(16, w))
            by {
            reveal(vstd::arithmetic::power::pow);
        }
        assert forall|i: int| 0 <= i < width implies '0' <= #[trigger] hex(n, width)[i] <= '9'
            || 'a' <= hex(n, width)[i] <= 'f' by {
            if i < w {
                assert(hex(n, width)[i] == hex(n / 16, w)[i]);
            }
        }
    }
}

} // verus!
