//! Hexadecimal text: the keys under which code bytes are filed in the
//! reference tables, and the digits of addresses and bytes in a listing.
use vstd::prelude::*;
use vstd::string::*;

verus! {

/// The sixteen digits in upper case, each at the index of its value.
pub open spec fn upper_digits() -> Seq<char> {
    seq!['0', '1', '2', '3', '4', '5', '6', '7', '8', '9', 'A', 'B', 'C', 'D', 'E', 'F']
}

/// The sixteen digits in lower case, each at the index of its value.
pub open spec fn lower_digits() -> Seq<char> {
    seq!['0', '1', '2', '3', '4', '5', '6', '7', '8', '9', 'a', 'b', 'c', 'd', 'e', 'f']
}

/// The key of a code byte: `0x`, then its two digits in upper case.
pub open spec fn hex_key(code: u8) -> Seq<char> {
    seq!['0', 'x', upper_digits()[code as int / 16], upper_digits()[code as int % 16]]
}

/// The code byte that a key stands for, if it is the key of one.
pub open spec fn code_of_key(key: Seq<char>) -> Option<u8> {
    if exists|c: u8| hex_key(c) == key {
        Some(choose|c: u8| hex_key(c) == key)
    } else {
        None
    }
}

/// The digits of `n` in base sixteen, lower case, no leading zero.
pub open spec fn hex_digits(n: nat) -> Seq<char>
    decreases n,
{
    if n < 16 {
        seq![lower_digits()[n as int]]
    } else {
        hex_digits(n / 16).push(lower_digits()[(n % 16) as int])
    }
}

/// The two digits of a byte, lower case, the zero of a low byte kept.
pub open spec fn hex_pair(byte: u8) -> Seq<char> {
    seq![lower_digits()[byte as int / 16], lower_digits()[byte as int % 16]]
}

/// Below a number that is not zero, a further byte adds its two digits:
/// the digits of `n * 256 + byte` are those of `n`, then the pair of
/// `byte`.
pub proof fn lemma_hex_digits_of_next_byte(n: nat, byte: u8)
    requires
        n > 0,
    ensures
        hex_digits(n * 256 + byte as nat) == hex_digits(n) + hex_pair(byte),
{
    let whole = n * 256 + byte as nat;
    let upper = n * 16 + byte as nat / 16;
    assert(whole / 16 == upper && whole % 16 == byte as nat % 16);
    assert(upper / 16 == n && upper % 16 == byte as nat / 16);
    assert(hex_digits(whole) == hex_digits(upper).push(lower_digits()[(whole % 16) as int]));
    assert(hex_digits(upper) == hex_digits(n).push(lower_digits()[(upper % 16) as int]));
    assert(hex_digits(whole) =~= hex_digits(n) + hex_pair(byte));
}

/// No two values share a lower-case digit.
proof fn lemma_lower_digits_distinct(a: int, b: int)
    requires
        0 <= a < 16,
        0 <= b < 16,
        lower_digits()[a] == lower_digits()[b],
    ensures
        a == b,
{
}

/// Two numbers with the same digits are the same number.
pub proof fn lemma_hex_digits_injective(a: nat, b: nat)
    requires
        hex_digits(a) == hex_digits(b),
    ensures
        a == b,
    decreases a,
{
    if a < 16 && b < 16 {
        assert(hex_digits(a)[0] == lower_digits()[a as int]);
        assert(hex_digits(b)[0] == lower_digits()[b as int]);
        lemma_lower_digits_distinct(a as int, b as int);
    } else if a >= 16 && b >= 16 {
        let x = hex_digits(a / 16);
        let y = hex_digits(b / 16);
        assert(hex_digits(a).drop_last() =~= x);
        assert(hex_digits(b).drop_last() =~= y);
        assert(hex_digits(a).last() == lower_digits()[(a % 16) as int]);
        assert(hex_digits(b).last() == lower_digits()[(b % 16) as int]);
        lemma_hex_digits_injective(a / 16, b / 16);
        lemma_lower_digits_distinct((a % 16) as int, (b % 16) as int);
    } else {
        lemma_hex_digits_not_empty(a / 16);
        lemma_hex_digits_not_empty(b / 16);
        assert(hex_digits(a).len() == hex_digits(b).len());
    }
}

/// Every number has a digit.
proof fn lemma_hex_digits_not_empty(n: nat)
    ensures
        hex_digits(n).len() >= 1,
    decreases n,
{
    if n >= 16 {
        lemma_hex_digits_not_empty(n / 16);
    }
}

/// No two values share an upper-case digit.
proof fn lemma_upper_digits_distinct(a: int, b: int)
    requires
        0 <= a < 16,
        0 <= b < 16,
        upper_digits()[a] == upper_digits()[b],
    ensures
        a == b,
{
}

/// Two code bytes with the same key are the same byte.
pub proof fn lemma_hex_key_injective(a: u8, b: u8)
    requires
        hex_key(a) == hex_key(b),
    ensures
        a == b,
{
    assert(hex_key(a)[2] == hex_key(b)[2]);
    assert(hex_key(a)[3] == hex_key(b)[3]);
    lemma_upper_digits_distinct(a as int / 16, b as int / 16);
    lemma_upper_digits_distinct(a as int % 16, b as int % 16);
}

/// Reading a key back gives the code byte it was made from.
pub proof fn lemma_code_of_hex_key(code: u8)
    ensures
        code_of_key(hex_key(code)) == Some(code),
{
    let c = choose|c: u8| hex_key(c) == hex_key(code);
    lemma_hex_key_injective(c, code);
}

fn upper_digit_str(d: u8) -> (r: &'static str)
    requires
        d < 16,
    ensures
        r@ == seq![upper_digits()[d as int]],
{
    let all = "0123456789ABCDEF";
    proof {
        reveal_strlit("0123456789ABCDEF");
    }
    all.substring_ascii(d as usize, d as usize + 1)
}

fn lower_digit_str(d: u8) -> (r: &'static str)
    requires
        d < 16,
    ensures
        r@ == seq![lower_digits()[d as int]],
{
    let all = "0123456789abcdef";
    proof {
        reveal_strlit("0123456789abcdef");
    }
    all.substring_ascii(d as usize, d as usize + 1)
}

/// The value of an upper-case digit, or `None` for any other character.
fn upper_digit_value(c: char) -> (r: Option<u8>)
    ensures
        match r {
            Some(d) => d < 16 && upper_digits()[d as int] == c,
            None => forall|d: int| 0 <= d < 16 ==> upper_digits()[d] != c,
        },
{
    if '0' <= c && c <= '9' {
        Some(c as u8 - 48)
    } else if 'A' <= c && c <= 'F' {
        Some(c as u8 - 55)
    } else {
        None
    }
}

/// The key of a code byte, as the reference tables write it.
pub fn to_hex(value: u8) -> (r: String)
    ensures
        r@ == hex_key(value),
{
    let mut s = String::from_str("0x");
    proof {
        reveal_strlit("0x");
    }
    s.append(upper_digit_str(value / 16));
    s.append(upper_digit_str(value % 16));
    assert(s@ =~= hex_key(value));
    s
}

/// The code byte that `key` is the key of, or `None` if it is the key of
/// none: `to_hex` read backwards.
pub fn from_hex(key: &str) -> (r: Option<u8>)
    ensures
        r == code_of_key(key@),
{
    if key.unicode_len() != 4 {
        return None;
    }
    if key.get_char(0) != '0' || key.get_char(1) != 'x' {
        return None;
    }
    match (upper_digit_value(key.get_char(2)), upper_digit_value(key.get_char(3))) {
        (Some(high), Some(low)) => {
            let code: u8 = high * 16 + low;
            proof {
                assert(key@ =~= hex_key(code));
                lemma_code_of_hex_key(code);
            }
            Some(code)
        },
        _ => {
            assert forall|c: u8| hex_key(c) != key@ by {
                if hex_key(c) == key@ {
                    assert(hex_key(c)[2] == key@[2]);
                    assert(hex_key(c)[3] == key@[3]);
                }
            }
            None
        },
    }
}

/// The two digits of a byte, lower case, the zero of a low byte kept.
pub fn lower_hex_pair(byte: u8) -> (r: String)
    ensures
        r@ == hex_pair(byte),
{
    let mut s = String::from_str(lower_digit_str(byte / 16));
    s.append(lower_digit_str(byte % 16));
    assert(s@ =~= hex_pair(byte));
    s
}

/// The digits of `n` in base sixteen, lower case, no leading zero.
pub fn lower_hex(n: usize) -> (r: String)
    ensures
        r@ == hex_digits(n as nat),
    decreases n,
{
    if n < 16 {
        String::from_str(lower_digit_str(n as u8))
    } else {
        let mut s = lower_hex(n / 16);
        s.append(lower_digit_str((n % 16) as u8));
        assert(s@ =~= hex_digits(n as nat));
        s
    }
}

} // verus!
