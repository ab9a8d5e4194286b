//! Canonical byte encoding.
//!
//! The same canonical JSON encoding is used for hashing a block's
//! transactions and for the bytes a sender signs, so every node must produce
//! byte-identical output for identical logical input.  The encoders here
//! build that output directly and each carries a contract equating the bytes
//! produced with a spec-level byte sequence.
use vstd::prelude::*;

verus! {

/// The bytes of an ASCII string, one byte per character.
pub open spec fn ascii_bytes(s: Seq<char>) -> Seq<u8> {
    Seq::new(s.len(), |i: int| s[i] as u8)
}

/// Decimal digits of `n`, most significant first, no leading zeroes.
pub open spec fn dec_digits(n: nat) -> Seq<u8>
    decreases n,
{
    if n < 10 {
        seq![(48 + n) as u8]
    } else {
        dec_digits(n / 10) + seq![(48 + n % 10) as u8]
    }
}

/// Decimal encoding of a signed value: a minus sign for negatives,
/// then the digits of the magnitude.
pub open spec fn dec_int(v: int) -> Seq<u8> {
    if v < 0 {
        seq![45u8] + dec_digits((-v) as nat)
    } else {
        dec_digits(v as nat)
    }
}

pub open spec fn pow10(k: nat) -> nat
    decreases k,
{
    if k == 0 {
        1
    } else {
        10 * pow10((k - 1) as nat)
    }
}

/// A value below `10^k` needs at most `k` digits.
pub proof fn lemma_dec_digits_len(n: nat, k: nat)
    requires
        k >= 1,
        n < pow10(k),
    ensures
        1 <= dec_digits(n).len() <= k,
    decreases k,
{
    if n >= 10 {
        let k1 = (k - 1) as nat;
        if k == 1 {
            assert(pow10(1) == 10) by {
                reveal_with_fuel(pow10, 2);
            };
            assert(false);
        }
        assert(pow10(k) == 10 * pow10(k1));
        assert(n / 10 < pow10(k1)) by (nonlinear_arith)
            requires
                n < 10 * pow10(k1),
        ;
        lemma_dec_digits_len(n / 10, k1);
    }
}

proof fn lemma_pow10_values()
    ensures
        pow10(19) == 10_000_000_000_000_000_000,
        pow10(20) == 100_000_000_000_000_000_000,
{
    reveal_with_fuel(pow10, 21);
}

/// Every unsigned 64-bit value fits in twenty digits.
pub proof fn lemma_dec_digits_len_u64(n: u64)
    ensures
        1 <= dec_digits(n as nat).len() <= 20,
{
    lemma_pow10_values();
    lemma_dec_digits_len(n as nat, 20);
}

/// A signed 64-bit value fits in twenty bytes, sign included.
pub proof fn lemma_dec_int_len_i64(v: i64)
    ensures
        1 <= dec_int(v as int).len() <= 20,
{
    if v < 0 {
        lemma_pow10_values();
        lemma_dec_digits_len((-(v as int)) as nat, 19);
    } else {
        lemma_dec_digits_len_u64(v as u64);
    }
}

/// Truncating one more element off a prefix gives the shorter prefix.
pub proof fn lemma_take_succ<T>(s: Seq<T>, i: int)
    requires
        0 <= i < s.len(),
    ensures
        s.take(i + 1).drop_last() =~= s.take(i),
        s.take(i + 1).last() == s[i],
{
}

/// Appends the decimal digits of `n`.
pub fn push_decimal(out: &mut Vec<u8>, n: u64)
    ensures
        final(out)@ == old(out)@ + dec_digits(n as nat),
    decreases n,
{
    if n >= 10 {
        push_decimal(out, n / 10);
        out.push(48 + (n % 10) as u8);
        assert(out@ =~= old(out)@ + dec_digits(n as nat));
    } else {
        out.push(48 + n as u8);
        assert(out@ =~= old(out)@ + dec_digits(n as nat));
    }
}

/// Appends the decimal encoding of a signed value.
pub fn push_decimal_i64(out: &mut Vec<u8>, v: i64)
    ensures
        final(out)@ == old(out)@ + dec_int(v as int),
{
    if v < 0 {
        out.push(45);
        let magnitude: u64 = (-(v as i128)) as u64;
        push_decimal(out, magnitude);
        assert(out@ =~= old(out)@ + dec_int(v as int));
    } else {
        push_decimal(out, v as u64);
    }
}

/// Appends the bytes of an ASCII string.
pub fn push_ascii(out: &mut Vec<u8>, s: &str)
    requires
        s.is_ascii(),
    ensures
        final(out)@ == old(out)@ + ascii_bytes(s@),
{
    proof {
        broadcast use vstd::string::is_ascii_spec_bytes;
    }
    let bytes = s.as_bytes();
    assert(bytes@ =~= ascii_bytes(s@));
    let n = bytes.len();
    let mut i: usize = 0;
    while i < n
        invariant
            n == bytes@.len(),
            bytes@ =~= ascii_bytes(s@),
            i <= n,
            out@ == old(out)@ + ascii_bytes(s@).take(i as int),
        decreases n - i,
    {
        let b = bytes[i];
        out.push(b);
        proof {
            lemma_take_succ(ascii_bytes(s@), i as int);
            assert(out@ =~= old(out)@ + ascii_bytes(s@).take(i + 1));
        }
        i += 1;
    }
    assert(ascii_bytes(s@).take(n as int) =~= ascii_bytes(s@));
}

/// The comma-separated decimal items of a JSON array of bytes.
pub open spec fn byte_array_items(s: Seq<u8>) -> Seq<u8>
    decreases s.len(),
{
    if s.len() == 0 {
        Seq::empty()
    } else if s.len() == 1 {
        dec_digits(s[0] as nat)
    } else {
        byte_array_items(s.drop_last()) + ascii_bytes(","@) + dec_digits(s.last() as nat)
    }
}

/// The JSON encoding of a byte vector: its bytes as a decimal array.
pub open spec fn byte_array_bytes(s: Seq<u8>) -> Seq<u8> {
    ascii_bytes("["@) + byte_array_items(s) + ascii_bytes("]"@)
}

/// Appends the JSON encoding of `bytes`.
pub fn push_byte_array(out: &mut Vec<u8>, bytes: &Vec<u8>)
    ensures
        final(out)@ == old(out)@ + byte_array_bytes(bytes@),
{
    proof {
        reveal_strlit("[");
        reveal_strlit("]");
        reveal_strlit(",");
    }
    push_ascii(out, "[");
    let ghost opened = out@;
    let n = bytes.len();
    let mut i: usize = 0;
    while i < n
        invariant
            n == bytes@.len(),
            i <= n,
            out@ == opened + byte_array_items(bytes@.take(i as int)),
            opened == old(out)@ + ascii_bytes("["@),
        decreases n - i,
    {
        proof {
            reveal_strlit(",");
        }
        if i > 0 {
            push_ascii(out, ",");
        }
        push_decimal(out, bytes[i] as u64);
        proof {
            lemma_take_succ(bytes@, i as int);
            let t = bytes@.take(i + 1);
            if i == 0 {
                assert(t.len() == 1);
                assert(t[0] == bytes@[0]);
                assert(out@ =~= opened + byte_array_items(t));
            } else {
                assert(t.len() >= 2);
                assert(out@ =~= opened + byte_array_items(t));
            }
        }
        i += 1;
    }
    proof {
        assert(bytes@.take(n as int) =~= bytes@);
    }
    push_ascii(out, "]");
    assert(out@ =~= old(out)@ + byte_array_bytes(bytes@));
}

} // verus!
