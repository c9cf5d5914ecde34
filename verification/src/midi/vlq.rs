//! Variable-length quantities: big-endian base-128 numbers in which every byte
//! but the last has its top bit set.

use crate::errors::SynthrsError;
use vstd::prelude::*;

verus! {

/// The value after one more byte: seven more bits below those already read.
pub open spec fn vlq_push(acc: nat, byte: u8) -> nat {
    acc * 128 + (byte % 128) as nat
}

/// Reads on from `at` with `acc` already accumulated: the full value and the
/// position after the quantity's last byte, or `None` if the input ends first.
pub open spec fn vlq_from(bytes: Seq<u8>, at: int, acc: nat) -> Option<(nat, int)>
    decreases bytes.len() - at,
{
    if 0 <= at < bytes.len() {
        if bytes[at] >= 0x80 {
            vlq_from(bytes, at + 1, vlq_push(acc, bytes[at]))
        } else {
            Some((vlq_push(acc, bytes[at]), at + 1))
        }
    } else {
        None
    }
}

/// What a machine word keeps of a value: its low bits.
pub open spec fn word(v: nat) -> usize {
    (v % (usize::MAX as nat + 1)) as usize
}

/// The quantity that starts at `at`, kept in a machine word, and the position
/// after it; `None` if the input ends before the quantity does.
pub open spec fn spec_read_variable_number(bytes: Seq<u8>, at: int) -> Option<(usize, int)> {
    match vlq_from(bytes, at, 0) {
        Some((v, next)) => Some((word(v), next)),
        None => None,
    }
}

/// A quantity ends inside the input, after its start.
pub proof fn lemma_vlq_from_bounds(bytes: Seq<u8>, at: int, acc: nat)
    ensures
        vlq_from(bytes, at, acc) matches Some((v, next)) ==> 0 <= at < next <= bytes.len(),
    decreases bytes.len() - at,
{
    if 0 <= at < bytes.len() && bytes[at] >= 0x80 {
        lemma_vlq_from_bounds(bytes, at + 1, vlq_push(acc, bytes[at]));
    }
}

/// The low bits of the accumulator alone decide the low bits of the result.
pub proof fn lemma_word_push(acc: nat, byte: u8)
    ensures
        word(vlq_push(word(acc) as nat, byte)) == word(vlq_push(acc, byte)),
{
    let m = usize::MAX as nat + 1;
    let low = (byte % 128) as nat;
    vstd::arithmetic::div_mod::lemma_mul_mod_noop_left(acc as int, 128, m as int);
    vstd::arithmetic::div_mod::lemma_add_mod_noop(
        (acc * 128) as int,
        low as int,
        m as int,
    );
    vstd::arithmetic::div_mod::lemma_add_mod_noop(
        ((acc % m) * 128) as int,
        low as int,
        m as int,
    );
}

/// Reads the variable-length quantity that starts at `pos`.
///
/// Returns the value and the position of the byte after it. Groups beyond the
/// width of a machine word are shifted out. Fails with an end-of-input error
/// when the bytes run out before a byte without the continuation bit.
pub fn read_variable_number(bytes: &[u8], pos: usize) -> (r: Result<(usize, usize), SynthrsError>)
    ensures
        match spec_read_variable_number(bytes@, pos as int) {
            Some((v, next)) => r matches Ok((value, after)) && value == v && after == next,
            None => r == Err::<(usize, usize), SynthrsError>(SynthrsError::eof()),
        },
        r matches Ok((_, after)) ==> pos < after <= bytes@.len(),
{
    let mut at: usize = pos;
    let mut value: usize = 0;
    let ghost mut acc: nat = 0;
    loop
        invariant
            pos <= at,
            value == word(acc),
            vlq_from(bytes@, pos as int, 0) == vlq_from(bytes@, at as int, acc),
        decreases bytes@.len() - at,
    {
        if at >= bytes.len() {
            return Err(SynthrsError::Io(crate::errors::IoErrorKind::UnexpectedEof));
        }
        let octet: u8 = bytes[at];
        let low: usize = (octet & 0x7f) as usize;
        proof {
            assert(octet & 0x7f == octet % 128) by (bit_vector);
            lemma_word_push(acc, octet);
            lemma_word_step(value, octet);
        }
        value = value.wrapping_mul(128) + low;
        proof {
            acc = vlq_push(acc, octet);
        }
        at = at + 1;
        if octet < 0x80 {
            proof {
                lemma_vlq_from_bounds(bytes@, pos as int, 0);
            }
            return Ok((value, at));
        }
    }
}

/// Shifting a word left by seven bits, dropping what leaves it, and adding a
/// seven-bit group is one step of the accumulation, kept in a word.
proof fn lemma_word_step(value: usize, byte: u8)
    ensures
        (value as nat * 128) % (usize::MAX as nat + 1) + (byte % 128) <= usize::MAX,
        (value as nat * 128) % (usize::MAX as nat + 1) + (byte % 128) == word(
            vlq_push(value as nat, byte),
        ),
{
    let m: int = usize::MAX as int + 1;
    assert(m == 0x1_0000_0000 || m == 0x1_0000_0000_0000_0000) by {
        assert(usize::BITS == 32 || usize::BITS == 64);
    }
    let k: int = m / 128;
    assert(m == 128 * k);
    let x: int = value as int * 128;
    let low: int = (byte % 128) as int;
    vstd::arithmetic::div_mod::lemma_truncate_middle(value as int, 128, k);
    assert(x % m == 128 * ((value as int) % k));
    assert(0 <= (value as int) % k < k);
    assert(x % m + low < m);
    vstd::arithmetic::div_mod::lemma_add_mod_noop(x, low, m);
    vstd::arithmetic::div_mod::lemma_small_mod(low as nat, m as nat);
    vstd::arithmetic::div_mod::lemma_small_mod((x % m + low) as nat, m as nat);
    assert((x + low) % m == x % m + low);
}

/// The continuation bytes that carry `v`, most significant group first; none
/// for zero.
pub open spec fn vlq_prefix(v: nat) -> Seq<u8>
    decreases v,
{
    if v == 0 {
        Seq::<u8>::empty()
    } else {
        vlq_prefix(v / 128).push((128 + v % 128) as u8)
    }
}

/// The shortest encoding of `v`: continuation bytes for all but the lowest
/// seven bits, then one final byte.
pub open spec fn spec_write_variable_number(v: nat) -> Seq<u8> {
    vlq_prefix(v / 128).push((v % 128) as u8)
}

/// Reading through the continuation bytes of `u` from a fresh start leaves `u`
/// accumulated.
pub proof fn lemma_read_prefix(bytes: Seq<u8>, at: int, u: nat)
    requires
        0 <= at,
        at + vlq_prefix(u).len() <= bytes.len(),
        bytes.subrange(at, at + vlq_prefix(u).len()) == vlq_prefix(u),
    ensures
        vlq_from(bytes, at, 0) == vlq_from(bytes, at + vlq_prefix(u).len(), u),
    decreases u,
{
    if u != 0 {
        let head = vlq_prefix(u / 128);
        let n = head.len() as int;
        let last = (128 + u % 128) as u8;
        assert(vlq_prefix(u) == head.push(last));
        assert(bytes.subrange(at, at + n) =~= head) by {
            assert forall|i: int| 0 <= i < n implies bytes.subrange(at, at + n)[i] == head[i] by {
                assert(bytes.subrange(at, at + n + 1)[i] == vlq_prefix(u)[i]);
            }
        }
        lemma_read_prefix(bytes, at, u / 128);
        assert(bytes[at + n] == last) by {
            assert(bytes.subrange(at, at + n + 1)[n] == vlq_prefix(u)[n]);
        }
        assert(last >= 0x80);
        assert(last % 128 == u % 128);
        assert(vlq_push(u / 128, last) == u);
    }
}

/// Decoding inverts encoding: wherever the encoding of `v` stands in a byte
/// stream, reading at its start yields `v` and the position just after it.
/// This holds for every value of a machine word, so for all below 2^28.
pub proof fn lemma_variable_number_round_trip(bytes: Seq<u8>, at: int, v: usize)
    requires
        0 <= at,
        at + spec_write_variable_number(v as nat).len() <= bytes.len(),
        bytes.subrange(at, at + spec_write_variable_number(v as nat).len())
            == spec_write_variable_number(v as nat),
    ensures
        spec_read_variable_number(bytes, at) == Some(
            (v, at + spec_write_variable_number(v as nat).len()),
        ),
{
    let u = v as nat / 128;
    let head = vlq_prefix(u);
    let n = head.len() as int;
    let last = (v as nat % 128) as u8;
    let code = spec_write_variable_number(v as nat);
    assert(code == head.push(last));
    assert(bytes.subrange(at, at + n) =~= head) by {
        assert forall|i: int| 0 <= i < n implies bytes.subrange(at, at + n)[i] == head[i] by {
            assert(bytes.subrange(at, at + n + 1)[i] == code[i]);
        }
    }
    lemma_read_prefix(bytes, at, u);
    assert(bytes[at + n] == last) by {
        assert(bytes.subrange(at, at + n + 1)[n] == code[n]);
    }
    assert(vlq_push(u, last) == v as nat);
    assert(vlq_from(bytes, at + n, u) == Some((v as nat, at + n + 1)));
    vstd::arithmetic::div_mod::lemma_small_mod(v as nat, usize::MAX as nat + 1);
}

/// Appends the continuation bytes of `v` to `out`.
fn push_prefix(v: usize, out: &mut Vec<u8>)
    ensures
        final(out)@ == old(out)@ + vlq_prefix(v as nat),
    decreases v,
{
    if v != 0 {
        push_prefix(v / 128, out);
        let group: u8 = (v % 128) as u8;
        out.push(128 + group);
        assert(final(out)@ =~= old(out)@ + vlq_prefix(v as nat)) by {
            assert(vlq_prefix(v as nat) == vlq_prefix(v as nat / 128).push((128 + v % 128) as u8));
        }
    }
}

/// Encodes `value` as a variable-length quantity in as few bytes as possible.
pub fn write_variable_number(value: usize) -> (out: Vec<u8>)
    ensures
        out@ == spec_write_variable_number(value as nat),
{
    let mut out: Vec<u8> = Vec::new();
    push_prefix(value / 128, &mut out);
    out.push((value % 128) as u8);
    assert(out@ =~= spec_write_variable_number(value as nat));
    out
}

} // verus!
