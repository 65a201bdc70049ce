//! Lowercase hexadecimal numerals.

use vstd::prelude::*;

verus! {

/// The lowercase hexadecimal digit of a value below sixteen.
pub open spec fn hex_digit(d: nat) -> char {
    if d == 0 {
        '0'
    } else if d == 1 {
        '1'
    } else if d == 2 {
        '2'
    } else if d == 3 {
        '3'
    } else if d == 4 {
        '4'
    } else if d == 5 {
        '5'
    } else if d == 6 {
        '6'
    } else if d == 7 {
        '7'
    } else if d == 8 {
        '8'
    } else if d == 9 {
        '9'
    } else if d == 10 {
        'a'
    } else if d == 11 {
        'b'
    } else if d == 12 {
        'c'
    } else if d == 13 {
        'd'
    } else if d == 14 {
        'e'
    } else {
        'f'
    }
}

/// Whether `c` is one of the sixteen lowercase hexadecimal digits.
pub open spec fn is_hex_digit(c: char) -> bool {
    exists|d: nat| d < 16 && c == hex_digit(d)
}

/// The hexadecimal numeral of `n` without leading zeros; that of zero is
/// the single digit `0`.
pub open spec fn lower_hex(n: nat) -> Seq<char>
    decreases n,
{
    if n < 16 {
        seq![hex_digit(n)]
    } else {
        lower_hex(n / 16).push(hex_digit(n % 16))
    }
}

/// The two hexadecimal digits of one byte, the high one first.
pub open spec fn byte_hex(b: u8) -> Seq<char> {
    seq![hex_digit(b as nat / 16), hex_digit(b as nat % 16)]
}

/// The digits of every byte of `bytes`, in order.
pub open spec fn bytes_hex(bytes: Seq<u8>) -> Seq<char>
    decreases bytes.len(),
{
    if bytes.len() == 0 {
        Seq::empty()
    } else {
        bytes_hex(bytes.drop_last()) + byte_hex(bytes.last())
    }
}

/// The digit of `d` as a string of one character.
fn digit_str(d: u32) -> (s: &'static str)
    requires
        d < 16,
    ensures
        s@ == seq![hex_digit(d as nat)],
{
    let s = if d == 0 {
        "0"
    } else if d == 1 {
        "1"
    } else if d == 2 {
        "2"
    } else if d == 3 {
        "3"
    } else if d == 4 {
        "4"
    } else if d == 5 {
        "5"
    } else if d == 6 {
        "6"
    } else if d == 7 {
        "7"
    } else if d == 8 {
        "8"
    } else if d == 9 {
        "9"
    } else if d == 10 {
        "a"
    } else if d == 11 {
        "b"
    } else if d == 12 {
        "c"
    } else if d == 13 {
        "d"
    } else if d == 14 {
        "e"
    } else {
        "f"
    };
    proof {
        reveal_strlit("0");
        reveal_strlit("1");
        reveal_strlit("2");
        reveal_strlit("3");
        reveal_strlit("4");
        reveal_strlit("5");
        reveal_strlit("6");
        reveal_strlit("7");
        reveal_strlit("8");
        reveal_strlit("9");
        reveal_strlit("a");
        reveal_strlit("b");
        reveal_strlit("c");
        reveal_strlit("d");
        reveal_strlit("e");
        reveal_strlit("f");
        assert(s@ =~= seq![hex_digit(d as nat)]);
    }
    s
}

/// Writes `n` in lowercase hexadecimal without leading zeros.
pub fn to_lower_hex(n: u32) -> (s: String)
    ensures
        s@ == lower_hex(n as nat),
    decreases n,
{
    if n < 16 {
        digit_str(n).to_owned()
    } else {
        let mut s = to_lower_hex(n / 16);
        s.append(digit_str(n % 16));
        assert(s@ =~= lower_hex(n as nat));
        s
    }
}

/// Writes every byte of `bytes` as two lowercase hexadecimal digits.
pub fn to_hex_pairs(bytes: &Vec<u8>) -> (s: String)
    ensures
        s@ == bytes_hex(bytes@),
{
    let mut s = String::new();
    let mut i: usize = 0;
    while i < bytes.len()
        invariant
            i <= bytes.len(),
            s@ == bytes_hex(bytes@.take(i as int)),
        decreases bytes.len() - i,
    {
        let b: u8 = bytes[i];
        proof {
            assert(bytes@.take(i + 1).drop_last() =~= bytes@.take(i as int));
            assert(bytes@.take(i + 1).last() == b);
        }
        s.append(digit_str((b / 16) as u32));
        s.append(digit_str((b % 16) as u32));
        assert(s@ =~= bytes_hex(bytes@.take(i + 1)));
        i += 1;
    }
    proof {
        assert(bytes@.take(bytes@.len() as int) =~= bytes@);
    }
    s
}

/// A numeral is made of hexadecimal digits only and has at least one; that
/// of a number below 2^32 has at most eight.
pub proof fn lemma_lower_hex(n: nat)
    ensures
        lower_hex(n).len() >= 1,
        n <= u32::MAX ==> lower_hex(n).len() <= 8,
        forall|i: int| 0 <= i < lower_hex(n).len() ==> is_hex_digit(#[trigger] lower_hex(n)[i]),
    decreases n,
{
    if n <= u32::MAX {
        assert(lower_hex(n).len() <= 8) by {
            reveal_with_fuel(lower_hex, 9);
        }
    }
    if n < 16 {
        assert(is_hex_digit(hex_digit(n)));
    } else {
        lemma_lower_hex(n / 16);
        assert(is_hex_digit(hex_digit(n % 16))) by {
            assert(n % 16 < 16);
        }
    }
}

/// The digits of `k` bytes are `2 * k` characters, all of them hexadecimal
/// digits.
pub proof fn lemma_bytes_hex(bytes: Seq<u8>)
    ensures
        bytes_hex(bytes).len() == 2 * bytes.len(),
        forall|i: int|
            0 <= i < bytes_hex(bytes).len() ==> is_hex_digit(#[trigger] bytes_hex(bytes)[i]),
    decreases bytes.len(),
{
    if bytes.len() > 0 {
        lemma_bytes_hex(bytes.drop_last());
        let b = bytes.last();
        assert(is_hex_digit(byte_hex(b)[0])) by {
            assert((b as nat / 16) < 16);
        }
        assert(is_hex_digit(byte_hex(b)[1])) by {
            assert((b as nat % 16) < 16);
        }
    }
}

} // verus!
