//! Little-endian integers and a printable form of raw bytes.

use vstd::arithmetic::div_mod::{
    lemma_fundamental_div_mod_converse, lemma_mod_breakdown, lemma_small_mod,
};
use vstd::prelude::*;

verus! {

/// The number that `bytes` spell in little-endian order: the first byte is
/// the least significant one.
pub open spec fn le_value(bytes: Seq<u8>) -> nat
    decreases bytes.len(),
{
    if bytes.len() == 0 {
        0
    } else {
        bytes[0] as nat + 256 * le_value(bytes.drop_first())
    }
}

/// The `width` low-order bytes of `value`, least significant first.
pub open spec fn le_bytes(value: nat, width: nat) -> Seq<u8>
    decreases width,
{
    if width == 0 {
        Seq::empty()
    } else {
        seq![(value % 256) as u8] + le_bytes(value / 256, (width - 1) as nat)
    }
}

/// How many values `width` bytes can spell: 256 to the power `width`.
pub open spec fn radix(width: nat) -> nat
    decreases width,
{
    if width == 0 {
        1
    } else {
        256 * radix((width - 1) as nat)
    }
}

/// `le_bytes` yields exactly `width` bytes.
pub proof fn lemma_le_bytes_len(value: nat, width: nat)
    ensures
        le_bytes(value, width).len() == width,
    decreases width,
{
    if width > 0 {
        lemma_le_bytes_len(value / 256, (width - 1) as nat);
    }
}

/// A little-endian number of `n` bytes is below 256 to the power `n`.
pub proof fn lemma_le_value_bound(bytes: Seq<u8>)
    ensures
        le_value(bytes) < radix(bytes.len()),
    decreases bytes.len(),
{
    if bytes.len() > 0 {
        lemma_le_value_bound(bytes.drop_first());
    }
}

/// Spelling the number that `bytes` spell, at the same width, gives `bytes`
/// back.
pub proof fn lemma_le_bytes_of_value(bytes: Seq<u8>)
    ensures
        le_bytes(le_value(bytes), bytes.len()) == bytes,
    decreases bytes.len(),
{
    if bytes.len() > 0 {
        let rest = bytes.drop_first();
        lemma_le_bytes_of_value(rest);
        lemma_fundamental_div_mod_converse(
            le_value(bytes) as int,
            256,
            le_value(rest) as int,
            bytes[0] as int,
        );
    }
}

/// Reading back the `width` low-order bytes of `value` gives `value`
/// reduced modulo 256 to the power `width`.
pub proof fn lemma_le_value_of_bytes(value: nat, width: nat)
    ensures
        le_value(le_bytes(value, width)) == value % radix(width),
        radix(width) > 0,
    decreases width,
{
    if width > 0 {
        let low = seq![(value % 256) as u8];
        let high = le_bytes(value / 256, (width - 1) as nat);
        lemma_le_value_of_bytes(value / 256, (width - 1) as nat);
        assert((low + high).drop_first() =~= high);
        lemma_mod_breakdown(value as int, 256, radix((width - 1) as nat) as int);
    }
}

/// A number below 256 to the power `width` survives the trip through its
/// `width` little-endian bytes.
pub proof fn lemma_le_round_trip(value: nat, width: nat)
    requires
        value < radix(width),
    ensures
        le_value(le_bytes(value, width)) == value,
{
    lemma_le_value_of_bytes(value, width);
    lemma_small_mod(value, radix(width));
}

/// `radix` at the two widths of the wire format.
pub proof fn lemma_radix_values()
    ensures
        radix(4) == 0x1_0000_0000,
        radix(5) == 0x100_0000_0000,
{
    reveal_with_fuel(radix, 6);
}

/// `le_value` of exactly four bytes, written out.
pub proof fn lemma_le_value_of_four(bytes: Seq<u8>)
    requires
        bytes.len() == 4,
    ensures
        le_value(bytes) == bytes[0] + 0x100 * bytes[1] + 0x1_0000 * bytes[2] + 0x100_0000
            * bytes[3],
{
    let s1 = bytes.drop_first();
    let s2 = s1.drop_first();
    let s3 = s2.drop_first();
    let s4 = s3.drop_first();
    assert(le_value(s4) == 0);
    assert(le_value(s3) == bytes[3] as nat);
    assert(le_value(s2) == bytes[2] + 256 * le_value(s3));
    assert(le_value(s1) == bytes[1] + 256 * le_value(s2));
}

/// `le_value` of exactly five bytes, written out.
pub proof fn lemma_le_value_of_five(bytes: Seq<u8>)
    requires
        bytes.len() == 5,
    ensures
        le_value(bytes) == bytes[0] + 0x100 * bytes[1] + 0x1_0000 * bytes[2] + 0x100_0000
            * bytes[3] + 0x1_0000_0000 * bytes[4],
{
    let s1 = bytes.drop_first();
    lemma_le_value_of_four(s1);
}

/// Reads the five-byte little-endian sequence number at the start of `seq`.
pub fn seq_to_u64(seq: &[u8]) -> (value: u64)
    requires
        seq@.len() >= 5,
    ensures
        value == le_value(seq@.take(5)),
        value < 0x100_0000_0000,
{
    let b0: u64 = seq[0] as u64;
    let b1: u64 = seq[1] as u64;
    let b2: u64 = seq[2] as u64;
    let b3: u64 = seq[3] as u64;
    let b4: u64 = seq[4] as u64;
    proof {
        lemma_le_value_of_five(seq@.take(5));
    }
    b0 + 0x100 * b1 + 0x1_0000 * b2 + 0x100_0000 * b3 + 0x1_0000_0000 * b4
}

/// The lower-case hexadecimal digit for `n`, which is below 16.
pub open spec fn hex_char(n: int) -> char {
    if n == 0 {
        '0'
    } else if n == 1 {
        '1'
    } else if n == 2 {
        '2'
    } else if n == 3 {
        '3'
    } else if n == 4 {
        '4'
    } else if n == 5 {
        '5'
    } else if n == 6 {
        '6'
    } else if n == 7 {
        '7'
    } else if n == 8 {
        '8'
    } else if n == 9 {
        '9'
    } else if n == 10 {
        'a'
    } else if n == 11 {
        'b'
    } else if n == 12 {
        'c'
    } else if n == 13 {
        'd'
    } else if n == 14 {
        'e'
    } else {
        'f'
    }
}

/// One byte as an escape of four characters: a backslash, `x`, and the two
/// hexadecimal digits, high nibble first.
pub open spec fn hex_escape(byte: u8) -> Seq<char> {
    seq!['\\', 'x', hex_char(byte as int / 16), hex_char(byte as int % 16)]
}

/// The escapes of all `bytes`, in order, with nothing between them.
pub open spec fn py_hex(bytes: Seq<u8>) -> Seq<char>
    decreases bytes.len(),
{
    if bytes.len() == 0 {
        Seq::empty()
    } else {
        py_hex(bytes.drop_last()) + hex_escape(bytes.last())
    }
}

/// The text is four characters per byte.
pub proof fn lemma_py_hex_len(bytes: Seq<u8>)
    ensures
        py_hex(bytes).len() == 4 * bytes.len(),
    decreases bytes.len(),
{
    if bytes.len() > 0 {
        lemma_py_hex_len(bytes.drop_last());
    }
}

fn hex_digit(n: u8) -> (digit: &'static str)
    requires
        n < 16,
    ensures
        digit@ == seq![hex_char(n as int)],
{
    proof {
        reveal_strlit("0");
        reveal_strlit("1");
        reveal_strlit("2");
        reveal_strlit("3");
        reveal_strlit("4");
        reveal_strlit("5");
        reveal_strlit("6");
        reveal_strlit("7");
        reveal_strlit("8");
        reveal_strlit("9");
        reveal_strlit("a");
        reveal_strlit("b");
        reveal_strlit("c");
        reveal_strlit("d");
        reveal_strlit("e");
        reveal_strlit("f");
    }
    if n == 0 {
        "0"
    } else if n == 1 {
        "1"
    } else if n == 2 {
        "2"
    } else if n == 3 {
        "3"
    } else if n == 4 {
        "4"
    } else if n == 5 {
        "5"
    } else if n == 6 {
        "6"
    } else if n == 7 {
        "7"
    } else if n == 8 {
        "8"
    } else if n == 9 {
        "9"
    } else if n == 10 {
        "a"
    } else if n == 11 {
        "b"
    } else if n == 12 {
        "c"
    } else if n == 13 {
        "d"
    } else if n == 14 {
        "e"
    } else {
        "f"
    }
}

/// Writes `bytes` the way a Python bytes literal escapes them: `\x` and two
/// lower-case hexadecimal digits for every byte.
pub fn u8_to_py_hex_str(bytes: &[u8]) -> (text: String)
    ensures
        text@ == py_hex(bytes@),
        text@.len() == 4 * bytes@.len(),
{
    let mut text = String::new();
    let mut i: usize = 0;
    while i < bytes.len()
        invariant
            i <= bytes@.len(),
            text@ == py_hex(bytes@.take(i as int)),
        decreases bytes@.len() - i,
    {
        let byte = bytes[i];
        proof {
            reveal_strlit("\\x");
        }
        text.append("\\x");
        text.append(hex_digit(byte / 16));
        text.append(hex_digit(byte % 16));
        proof {
            assert(bytes@.take(i as int + 1).drop_last() =~= bytes@.take(i as int));
        }
        i += 1;
    }
    proof {
        assert(bytes@.take(i as int) =~= bytes@);
        lemma_py_hex_len(bytes@);
    }
    text
}

} // verus!
