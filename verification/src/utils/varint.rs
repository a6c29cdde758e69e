//! Variable-length encoding of unsigned 64-bit integers.
//!
//! A number is written in base 128, least significant digit first, one digit
//! per byte. Every byte but the last has its high bit set.
use vstd::prelude::*;

verus! {

/// Why a buffer does not start with a number.
#[derive(Debug, Clone, Copy, PartialEq, Eq, Structural)]
pub enum VarIntError {
    /// The buffer ends before a byte with a clear high bit is reached.
    Malformed,
    /// The digits read so far already exceed 64 bits.
    Overflow,
}

/// The encoding of `u`.
pub open spec fn spec_varint_encode(u: nat) -> Seq<u8>
    decreases u,
{
    if u < 128 {
        seq![u as u8]
    } else {
        seq![(u % 128 + 128) as u8] + spec_varint_encode(u / 128)
    }
}

/// The number of leading bytes of `buf` that belong to its first number: the
/// bytes with a set high bit at the front and, if there is one, the byte that
/// follows them.
pub open spec fn leading_group_len(buf: Seq<u8>) -> nat
    decreases buf.len(),
{
    if buf.len() == 0 {
        0
    } else if buf[0] < 128 {
        1
    } else {
        1 + leading_group_len(buf.skip(1))
    }
}

/// The number whose base-128 digits, least significant first, are the low
/// seven bits of the bytes of `digits`.
pub open spec fn base128_value(digits: Seq<u8>) -> nat
    decreases digits.len(),
{
    if digits.len() == 0 {
        0
    } else {
        (digits[0] % 128) as nat + 128 * base128_value(digits.skip(1))
    }
}

/// What decoding makes of `buf`: the number at its front and the count of
/// bytes the number takes, or the reason there is none.
pub open spec fn spec_varint_decode(buf: Seq<u8>) -> Result<(u64, nat), VarIntError> {
    let group = buf.take(leading_group_len(buf) as int);
    if base128_value(group) > u64::MAX {
        Err(VarIntError::Overflow)
    } else if group.len() == 0 || group.last() >= 128 {
        Err(VarIntError::Malformed)
    } else {
        Ok((base128_value(group) as u64, group.len()))
    }
}

/// `128` to the power of `n`.
pub open spec fn pow128(n: nat) -> nat
    decreases n,
{
    if n == 0 {
        1
    } else {
        128 * pow128((n - 1) as nat)
    }
}

pub proof fn lemma_group_len_bound(buf: Seq<u8>)
    ensures
        leading_group_len(buf) <= buf.len(),
        leading_group_len(buf) == 0 <==> buf.len() == 0,
        forall|i: int| 0 <= i < leading_group_len(buf) - 1 ==> buf[i] >= 128,
        leading_group_len(buf) < buf.len() ==> buf[leading_group_len(buf) - 1] < 128,
    decreases buf.len(),
{
    if buf.len() > 0 && buf[0] >= 128 {
        let rest = buf.skip(1);
        lemma_group_len_bound(rest);
        assert forall|i: int| 0 <= i < leading_group_len(buf) - 1 implies buf[i] >= 128 by {
            if i > 0 {
                assert(rest[i - 1] == buf[i]);
            }
        }
        if leading_group_len(buf) < buf.len() {
            assert(rest[leading_group_len(rest) - 1] == buf[leading_group_len(buf) - 1]);
        }
    }
}

/// Appending one digit adds it at the next power of 128.
pub proof fn lemma_base128_push(digits: Seq<u8>, b: u8)
    ensures
        base128_value(digits.push(b)) == base128_value(digits) + (b % 128) * pow128(digits.len()),
    decreases digits.len(),
{
    if digits.len() == 0 {
        assert(digits.push(b).skip(1) =~= Seq::<u8>::empty());
        assert(base128_value(digits.push(b).skip(1)) == 0);
        assert(pow128(0) == 1);
    } else {
        let rest = digits.skip(1);
        lemma_base128_push(rest, b);
        assert(digits.push(b).skip(1) =~= rest.push(b));
        assert(pow128(digits.len()) == 128 * pow128(rest.len()));
        assert(128 * ((b % 128) * pow128(rest.len())) == (b % 128) * (128 * pow128(rest.len())))
            by (nonlinear_arith);
    }
}

/// A byte sequence that extends `buf` has the same first number as soon as
/// `buf` holds that number whole.
pub proof fn lemma_group_len_extend(buf: Seq<u8>, more: Seq<u8>)
    requires
        leading_group_len(buf) > 0,
        buf[leading_group_len(buf) - 1] < 128,
    ensures
        leading_group_len(buf + more) == leading_group_len(buf),
        (buf + more).take(leading_group_len(buf) as int) == buf.take(leading_group_len(buf) as int),
    decreases buf.len(),
{
    lemma_group_len_bound(buf);
    let whole = buf + more;
    assert(whole[0] == buf[0]);
    if buf[0] >= 128 {
        let rest = buf.skip(1);
        assert(whole.skip(1) =~= rest + more);
        lemma_group_len_bound(rest);
        assert(rest[leading_group_len(rest) - 1] == buf[leading_group_len(buf) - 1]);
        lemma_group_len_extend(rest, more);
    }
    assert(whole.take(leading_group_len(buf) as int) =~= buf.take(leading_group_len(buf) as int));
}

/// Decoding reads no further than the number it returns: a successful decode
/// stays the same when bytes are appended to the buffer.
pub proof fn lemma_decode_extend(buf: Seq<u8>, more: Seq<u8>)
    requires
        spec_varint_decode(buf) is Ok,
    ensures
        spec_varint_decode(buf + more) == spec_varint_decode(buf),
        spec_varint_decode(buf).unwrap().1 <= buf.len(),
        spec_varint_decode(buf).unwrap().1 >= 1,
{
    lemma_group_len_bound(buf);
    let n = leading_group_len(buf);
    assert(buf.take(n as int).last() == buf[n - 1]);
    lemma_group_len_extend(buf, more);
}

/// The encoding of a number is one whole group of digits for that number.
pub proof fn lemma_encode_shape(u: nat)
    ensures
        spec_varint_encode(u).len() >= 1,
        leading_group_len(spec_varint_encode(u)) == spec_varint_encode(u).len(),
        spec_varint_encode(u).last() < 128,
        base128_value(spec_varint_encode(u)) == u,
        u <= u64::MAX ==> spec_varint_encode(u).len() <= 10,
    decreases u,
{
    let e = spec_varint_encode(u);
    if u < 128 {
        assert(e.skip(1) =~= Seq::<u8>::empty());
        assert(base128_value(e.skip(1)) == 0);
    } else {
        let rest = spec_varint_encode(u / 128);
        lemma_encode_shape(u / 128);
        assert(e.skip(1) =~= rest);
        assert(e[0] == (u % 128 + 128) as u8);
        assert(e[0] >= 128);
        assert(e[0] % 128 == u % 128);
        assert(e.last() == rest.last());
        if u <= u64::MAX {
            lemma_encode_len(u);
        }
    }
}

/// How long the encoding of `u` is.
pub open spec fn spec_varint_len(u: nat) -> nat
    decreases u,
{
    if u < 128 {
        1
    } else {
        1 + spec_varint_len(u / 128)
    }
}

pub proof fn lemma_encode_len(u: nat)
    ensures
        spec_varint_encode(u).len() == spec_varint_len(u),
        u <= u64::MAX ==> spec_varint_len(u) <= 10,
    decreases u,
{
    if u >= 128 {
        lemma_encode_len(u / 128);
    }
    if u <= u64::MAX {
        reveal_with_fuel(spec_varint_len, 11);
    }
}

/// Decoding the encoding of a number gives the number back, and consumes the
/// whole encoding.
pub proof fn lemma_varint_round_trip(u: u64)
    ensures
        spec_varint_decode(spec_varint_encode(u as nat)) == Ok::<(u64, nat), VarIntError>(
            (u, spec_varint_encode(u as nat).len()),
        ),
{
    let e = spec_varint_encode(u as nat);
    lemma_encode_shape(u as nat);
    assert(e.take(e.len() as int) =~= e);
}

/// Encodes `value`.
pub fn varint_encode(value: u64) -> (out: Vec<u8>)
    ensures
        out@ == spec_varint_encode(value as nat),
        1 <= out@.len() <= 10,
        spec_varint_decode(out@) == Ok::<(u64, nat), VarIntError>((value, out@.len())),
{
    let mut out: Vec<u8> = Vec::new();
    let mut rest: u64 = value;
    while rest >= 128
        invariant
            out@ + spec_varint_encode(rest as nat) == spec_varint_encode(value as nat),
        decreases rest,
    {
        let digit: u8 = (rest % 128) as u8;
        let ghost before = out@;
        out.push(digit + 128);
        assert(out@ + spec_varint_encode((rest / 128) as nat) =~= before + spec_varint_encode(
            rest as nat,
        ));
        rest = rest / 128;
    }
    let ghost before = out@;
    out.push(rest as u8);
    assert(out@ =~= before + spec_varint_encode(rest as nat));
    proof {
        lemma_encode_shape(value as nat);
        lemma_varint_round_trip(value);
    }
    out
}

/// Decodes the number at the front of `data`, and says how many bytes it takes.
pub fn varint_decode(data: &[u8]) -> (result: Result<(u64, usize), VarIntError>)
    ensures
        match result {
            Ok((value, used)) => spec_varint_decode(data@) == Ok::<(u64, nat), VarIntError>(
                (value, used as nat),
            ),
            Err(e) => spec_varint_decode(data@) == Err::<(u64, nat), VarIntError>(e),
        },
{
    let mut value: u64 = 0;
    let mut scale: u128 = 1;
    let mut i: usize = 0;
    proof {
        lemma_group_len_bound(data@);
        assert(data@.take(0) =~= Seq::<u8>::empty());
    }
    while i < data.len()
        invariant
            i <= data@.len(),
            i <= leading_group_len(data@),
            forall|j: int| 0 <= j < i ==> data@[j] >= 128,
            value == base128_value(data@.take(i as int)),
            scale == pow128(i as nat) || (scale > u64::MAX && pow128(i as nat) > u64::MAX),
            scale <= 0x1_0000_0000_0000_0000_0000,
            scale >= 1,
        decreases data.len() - i,
    {
        let byte: u8 = data[i];
        let digit: u8 = byte % 128;
        proof {
            lemma_group_step(data@, i as nat);
            assert(data@.take(i + 1) =~= data@.take(i as int).push(byte));
            lemma_base128_push(data@.take(i as int), byte);
            lemma_group_prefix_value(data@, (i + 1) as nat);
        }
        if digit != 0 {
            if scale > u64::MAX as u128 {
                proof {
                    assert(digit * pow128(i as nat) >= pow128(i as nat)) by (nonlinear_arith)
                        requires
                            digit >= 1,
                    ;
                }
                return Err(VarIntError::Overflow);
            }
            assert(digit * scale <= 127 * 0xffff_ffff_ffff_ffff) by (nonlinear_arith)
                requires
                    digit <= 127,
                    scale <= 0xffff_ffff_ffff_ffff,
            ;
            let total: u128 = value as u128 + (digit as u128) * scale;
            if total > u64::MAX as u128 {
                return Err(VarIntError::Overflow);
            }
            value = total as u64;
        } else {
            assert(digit * pow128(i as nat) == 0) by (nonlinear_arith)
                requires
                    digit == 0,
            ;
        }
        if byte < 128 {
            proof {
                lemma_group_end(data@, i as nat);
                assert(data@.take(i + 1).last() == byte);
            }
            return Ok((value, i + 1));
        }
        if scale <= u64::MAX as u128 {
            scale = scale * 128;
        }
        proof {
            assert(pow128((i + 1) as nat) == 128 * pow128(i as nat));
        }
        i = i + 1;
    }
    proof {
        lemma_group_all(data@);
        assert(data@.take(data@.len() as int) =~= data@);
    }
    Err(VarIntError::Malformed)
}

/// While every byte before `i` has its high bit set, byte `i` belongs to the
/// first group.
proof fn lemma_group_step(buf: Seq<u8>, i: nat)
    requires
        i < buf.len(),
        forall|j: int| 0 <= j < i ==> buf[j] >= 128,
    ensures
        leading_group_len(buf) >= i + 1,
    decreases i,
{
    if i > 0 {
        let rest = buf.skip(1);
        assert forall|j: int| 0 <= j < i - 1 implies rest[j] >= 128 by {
            assert(rest[j] == buf[j + 1]);
        }
        lemma_group_step(rest, (i - 1) as nat);
    }
}

/// The first byte with a clear high bit ends the first group.
proof fn lemma_group_end(buf: Seq<u8>, i: nat)
    requires
        i < buf.len(),
        forall|j: int| 0 <= j < i ==> buf[j] >= 128,
        buf[i as int] < 128,
    ensures
        leading_group_len(buf) == i + 1,
    decreases i,
{
    if i > 0 {
        let rest = buf.skip(1);
        assert forall|j: int| 0 <= j < i - 1 implies rest[j] >= 128 by {
            assert(rest[j] == buf[j + 1]);
        }
        assert(rest[i - 1] == buf[i as int]);
        lemma_group_end(rest, (i - 1) as nat);
    }
}

/// A buffer of bytes that all have their high bit set is one unfinished group.
proof fn lemma_group_all(buf: Seq<u8>)
    requires
        forall|j: int| 0 <= j < buf.len() ==> buf[j] >= 128,
    ensures
        leading_group_len(buf) == buf.len(),
    decreases buf.len(),
{
    if buf.len() > 0 {
        let rest = buf.skip(1);
        assert forall|j: int| 0 <= j < rest.len() implies rest[j] >= 128 by {
            assert(rest[j] == buf[j + 1]);
        }
        lemma_group_all(rest);
    }
}

/// The value of a group is at least the value of each of its prefixes.
proof fn lemma_group_prefix_value(buf: Seq<u8>, n: nat)
    requires
        n <= leading_group_len(buf),
    ensures
        base128_value(buf.take(n as int)) <= base128_value(
            buf.take(leading_group_len(buf) as int),
        ),
    decreases n,
{
    lemma_group_len_bound(buf);
    let g = leading_group_len(buf);
    if n == 0 {
        assert(buf.take(0) =~= Seq::<u8>::empty());
    } else {
        let rest = buf.skip(1);
        assert(buf.take(n as int).skip(1) =~= rest.take(n - 1));
        assert(buf.take(g as int).skip(1) =~= rest.take(g - 1));
        if buf[0] >= 128 {
            lemma_group_prefix_value(rest, (n - 1) as nat);
        } else {
            assert(n == 1 && g == 1);
        }
    }
}


/// Decoding looks at no byte behind the number it returns: a successful decode
/// stays the same when the buffer is cut right behind the number, or anywhere
/// after that.
pub proof fn lemma_decode_cut(buf: Seq<u8>, keep: int)
    requires
        spec_varint_decode(buf) is Ok,
        spec_varint_decode(buf).unwrap().1 <= keep <= buf.len(),
    ensures
        spec_varint_decode(buf.take(keep)) == spec_varint_decode(buf),
{
    lemma_group_len_bound(buf);
    let n = leading_group_len(buf);
    let short = buf.take(keep);
    assert(buf.take(n as int).last() == buf[n - 1]);
    assert forall|j: int| 0 <= j < n - 1 implies short[j] >= 128 by {
        assert(short[j] == buf[j]);
    }
    assert(short[n - 1] == buf[n - 1]);
    lemma_group_end(short, (n - 1) as nat);
    assert(short.take(n as int) =~= buf.take(n as int));
}

/// The encoding of a number that is cut before its last byte is no number:
/// decoding finds that the buffer ends too early.
pub proof fn lemma_decode_torn(u: u64, keep: int)
    requires
        0 <= keep < spec_varint_encode(u as nat).len(),
    ensures
        spec_varint_decode(spec_varint_encode(u as nat).take(keep)) == Err::<
            (u64, nat),
            VarIntError,
        >(VarIntError::Malformed),
{
    let whole = spec_varint_encode(u as nat);
    let torn = whole.take(keep);
    lemma_encode_shape(u as nat);
    lemma_group_len_bound(whole);
    assert forall|j: int| 0 <= j < torn.len() implies torn[j] >= 128 by {
        assert(torn[j] == whole[j]);
    }
    lemma_group_all(torn);
    assert(torn.take(torn.len() as int) =~= torn);
    lemma_group_prefix_value(whole, keep as nat);
    assert(whole.take(whole.len() as int) =~= whole);
}

} // verus!
