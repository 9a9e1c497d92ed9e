//! Messages typed and shown by hand: when no controller is reachable, the
//! bytes of the channel are read from a line of hexadecimal digits and
//! written as hexadecimal numbers.

use vstd::prelude::*;
use vstd::string::*;

verus! {

/// The value of a hexadecimal digit; nothing for any other character.
pub open spec fn hex_value(c: char) -> Option<u8> {
    if '0' <= c <= '9' {
        Some((c as u32 - '0' as u32) as u8)
    } else if 'a' <= c <= 'f' {
        Some((c as u32 - 'a' as u32 + 10) as u8)
    } else if 'A' <= c <= 'F' {
        Some((c as u32 - 'A' as u32 + 10) as u8)
    } else {
        None
    }
}

/// The values of the hexadecimal digits of a text, in order; every other
/// character is passed over.
pub open spec fn hex_digits(s: Seq<char>) -> Seq<u8>
    decreases s.len(),
{
    if s.len() == 0 {
        Seq::empty()
    } else {
        match hex_value(s.last()) {
            Some(v) => hex_digits(s.drop_last()).push(v),
            None => hex_digits(s.drop_last()),
        }
    }
}

/// The byte that the digits at places `2k` and `2k + 1` stand for; a last
/// digit without a partner stands for its own value.
pub open spec fn pair_value(d: Seq<u8>, k: int) -> u8 {
    if 2 * k + 1 < d.len() {
        (16 * d[2 * k] + d[2 * k + 1]) as u8
    } else {
        d[2 * k]
    }
}

/// How many bytes the digits stand for.
pub open spec fn pair_count(d: Seq<u8>) -> nat {
    ((d.len() + 1) / 2) as nat
}

/// The bytes that a typed line stands for, at most `limit` of them.
pub open spec fn typed_bytes(line: Seq<char>, limit: nat) -> Seq<u8> {
    let d = hex_digits(line);
    let n = if pair_count(d) < limit {
        pair_count(d)
    } else {
        limit
    };
    Seq::new(n, |k: int| pair_value(d, k))
}

/// The value of a hexadecimal digit.
fn digit_value(c: char) -> (r: Option<u8>)
    ensures
        r == hex_value(c),
        r is Some ==> r->0 < 16,
{
    if '0' <= c && c <= '9' {
        Some((c as u32 - '0' as u32) as u8)
    } else if 'a' <= c && c <= 'f' {
        Some((c as u32 - 'a' as u32 + 10) as u8)
    } else if 'A' <= c && c <= 'F' {
        Some((c as u32 - 'A' as u32 + 10) as u8)
    } else {
        None
    }
}

/// The value of a hexadecimal digit is below sixteen.
pub proof fn lemma_hex_value_small(c: char)
    ensures
        hex_value(c) is Some ==> hex_value(c)->0 < 16,
{
}

/// Every value of a hexadecimal digit is below sixteen.
pub proof fn lemma_hex_digits_small(s: Seq<char>)
    ensures
        forall|i: int| 0 <= i < hex_digits(s).len() ==> (#[trigger] hex_digits(s)[i]) < 16,
    decreases s.len(),
{
    if s.len() > 0 {
        lemma_hex_digits_small(s.drop_last());
        lemma_hex_value_small(s.last());
        let d = hex_digits(s);
        assert forall|i: int| 0 <= i < d.len() implies (#[trigger] d[i]) < 16 by {
            if i < hex_digits(s.drop_last()).len() {
                assert(d[i] == hex_digits(s.drop_last())[i]);
            }
        }
    }
}

/// Reads the bytes that a typed line stands for: its hexadecimal digits
/// two by two, at most `limit` bytes.
pub fn parse_typed_bytes(line: &str, limit: usize) -> (r: Vec<u8>)
    ensures
        r@ == typed_bytes(line@, limit as nat),
{
    let mut digits: Vec<u8> = Vec::new();
    for c in it: line.chars()
        invariant
            it.seq() == line@,
            digits@ == hex_digits(line@.take(it.index() as int)),
    {
        proof {
            let n = it.index() as int;
            assert(line@.take(n + 1).drop_last() == line@.take(n));
        }
        match digit_value(c) {
            Some(v) => {
                digits.push(v);
            },
            None => {},
        }
    }
    proof {
        assert(line@.take(line@.len() as int) == line@);
        lemma_hex_digits_small(line@);
    }
    let mut out: Vec<u8> = Vec::new();
    let mut k: usize = 0;
    while k < limit && 2 * (k as u128) < digits.len() as u128
        invariant
            digits@ == hex_digits(line@),
            forall|i: int| 0 <= i < digits@.len() ==> (#[trigger] digits@[i]) < 16,
            k <= limit,
            k <= pair_count(digits@),
            out@.len() == k,
            forall|i: int| 0 <= i < k ==> out@[i] == pair_value(digits@, i),
        decreases limit - k,
    {
        let at: usize = 2 * k;
        let b: u8 = if at + 1 < digits.len() {
            16 * digits[at] + digits[at + 1]
        } else {
            digits[at]
        };
        out.push(b);
        k = k + 1;
    }
    assert(out@ =~= typed_bytes(line@, limit as nat));
    out
}

/// The character of a hexadecimal digit, in lower case.
pub open spec fn hex_char(v: int) -> char {
    if v == 0 {
        '0'
    } else if v == 1 {
        '1'
    } else if v == 2 {
        '2'
    } else if v == 3 {
        '3'
    } else if v == 4 {
        '4'
    } else if v == 5 {
        '5'
    } else if v == 6 {
        '6'
    } else if v == 7 {
        '7'
    } else if v == 8 {
        '8'
    } else if v == 9 {
        '9'
    } else if v == 10 {
        'a'
    } else if v == 11 {
        'b'
    } else if v == 12 {
        'c'
    } else if v == 13 {
        'd'
    } else if v == 14 {
        'e'
    } else {
        'f'
    }
}

/// A byte as a hexadecimal number in lower case, without a leading zero.
pub open spec fn hex_of(b: u8) -> Seq<char> {
    if b < 16 {
        seq![hex_char(b as int)]
    } else {
        seq![hex_char(b as int / 16), hex_char(b as int % 16)]
    }
}

/// The bytes as hexadecimal numbers with a blank between each two.
pub open spec fn shown_bytes(bytes: Seq<u8>) -> Seq<char>
    decreases bytes.len(),
{
    if bytes.len() == 0 {
        Seq::empty()
    } else if bytes.len() == 1 {
        hex_of(bytes[0])
    } else {
        shown_bytes(bytes.drop_last()).push(' ') + hex_of(bytes.last())
    }
}

/// The character of a hexadecimal digit.
fn digit_char(v: u8) -> (r: char)
    requires
        v < 16,
    ensures
        r == hex_char(v as int),
{
    if v == 0 {
        '0'
    } else if v == 1 {
        '1'
    } else if v == 2 {
        '2'
    } else if v == 3 {
        '3'
    } else if v == 4 {
        '4'
    } else if v == 5 {
        '5'
    } else if v == 6 {
        '6'
    } else if v == 7 {
        '7'
    } else if v == 8 {
        '8'
    } else if v == 9 {
        '9'
    } else if v == 10 {
        'a'
    } else if v == 11 {
        'b'
    } else if v == 12 {
        'c'
    } else if v == 13 {
        'd'
    } else if v == 14 {
        'e'
    } else {
        'f'
    }
}

/// Writes bytes as hexadecimal numbers with a blank between each two.
pub fn show_bytes(bytes: &[u8]) -> (r: String)
    ensures
        r@ == shown_bytes(bytes@),
{
    let mut out = String::new();
    let mut i: usize = 0;
    proof {
        assert(bytes@.take(0) =~= Seq::<u8>::empty());
    }
    while i < bytes.len()
        invariant
            i <= bytes.len(),
            out@ == shown_bytes(bytes@.take(i as int)),
        decreases bytes.len() - i,
    {
        proof {
            assert(bytes@.take(i + 1).drop_last() =~= bytes@.take(i as int));
            assert(bytes@.take(i + 1).last() == bytes@[i as int]);
        }
        let ghost before = out@;
        if i > 0 {
            out.push(' ');
        }
        let b = bytes[i];
        if b >= 16 {
            out.push(digit_char(b / 16));
        }
        out.push(digit_char(b % 16));
        assert(out@ =~= shown_bytes(bytes@.take(i + 1)));
        i = i + 1;
    }
    proof {
        assert(bytes@.take(bytes@.len() as int) =~= bytes@);
    }
    out
}

} // verus!
