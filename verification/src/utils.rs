use vstd::prelude::*;
use crate::error::{IoError, IoErrorKind};
use crate::stream::MemStream;
use crate::text::{ascii_chars, all_ascii, ascii_string, decimal_string, decimal_bytes, digit_byte, lemma_digits_ascii};
use std::time::{Duration, SystemTime, UNIX_EPOCH};

verus! {

/// The unsigned value of a big-endian byte sequence.
pub open spec fn be_value(s: Seq<u8>) -> nat
    decreases s.len(),
{
    if s.len() == 0 {
        0
    } else {
        be_value(s.drop_last()) * 256 + s.last() as nat
    }
}

/// The `n`-byte big-endian encoding of `v` (the low `n` bytes of `v`).
pub open spec fn be_bytes(v: nat, n: nat) -> Seq<u8>
    decreases n,
{
    if n == 0 {
        Seq::<u8>::empty()
    } else {
        be_bytes(v / 256, (n - 1) as nat).push((v % 256) as u8)
    }
}

/// 256 to the power `n`.
pub open spec fn pow256(n: nat) -> nat
    decreases n,
{
    if n == 0 {
        1
    } else {
        256 * pow256((n - 1) as nat)
    }
}

/// An `n`-byte encoding has `n` bytes.
pub proof fn lemma_be_bytes_len(v: nat, n: nat)
    ensures
        be_bytes(v, n).len() == n,
    decreases n,
{
    if n > 0 {
        lemma_be_bytes_len(v / 256, (n - 1) as nat);
    }
}

/// The value of `k` bytes is less than 256 to the power `k`.
pub proof fn lemma_be_value_bound(s: Seq<u8>)
    ensures
        be_value(s) < pow256(s.len()),
    decreases s.len(),
{
    if s.len() > 0 {
        lemma_be_value_bound(s.drop_last());
    }
}

/// Decoding an encoding gives back the value, when the value fits in `n` bytes.
pub proof fn lemma_be_value_of_bytes(v: nat, n: nat)
    requires
        v < pow256(n),
    ensures
        be_value(be_bytes(v, n)) == v,
    decreases n,
{
    if n > 0 {
        assert(v / 256 < pow256((n - 1) as nat)) by (nonlinear_arith)
            requires
                v < 256 * pow256((n - 1) as nat),
        ;
        lemma_be_value_of_bytes(v / 256, (n - 1) as nat);
        lemma_be_bytes_len(v / 256, (n - 1) as nat);
        let s = be_bytes(v, n);
        assert(s.drop_last() =~= be_bytes(v / 256, (n - 1) as nat));
    }
}

/// What a writer of `n` big-endian bytes writes, a reader of `n` bytes reads back,
/// whatever follows it: for the 16-, 32- and 64-bit readers and writers, reading
/// the bytes of `write_uN_be(v)` gives `v`.
pub proof fn lemma_be_roundtrip(v: nat, n: nat, rest: Seq<u8>)
    requires
        v < pow256(n),
    ensures
        be_value((be_bytes(v, n) + rest).take(n as int)) == v,
{
    lemma_be_bytes_len(v, n);
    assert((be_bytes(v, n) + rest).take(n as int) =~= be_bytes(v, n));
    lemma_be_value_of_bytes(v, n);
}

/// Encoding the value of a byte sequence in as many bytes gives back the sequence.
pub proof fn lemma_be_bytes_of_value(s: Seq<u8>)
    ensures
        be_bytes(be_value(s), s.len()) == s,
    decreases s.len(),
{
    if s.len() > 0 {
        let p = s.drop_last();
        lemma_be_bytes_of_value(p);
        let v = be_value(s);
        assert(v / 256 == be_value(p));
        assert(v % 256 == s.last());
        assert(be_bytes(v, s.len()) =~= p.push(s.last()));
        assert(p.push(s.last()) =~= s);
    }
}

/// The value of two bytes, spelled out.
pub proof fn lemma_be_value2(s: Seq<u8>)
    requires
        s.len() == 2,
    ensures
        be_value(s) == s[0] as nat * 256 + s[1] as nat,
{
    reveal_with_fuel(be_value, 3);
    assert(s.drop_last().drop_last().len() == 0);
    assert(s.drop_last().last() == s[0]);
    assert(be_value(s.drop_last().drop_last()) == 0);
}

/// The value of four bytes, spelled out.
pub proof fn lemma_be_value4(s: Seq<u8>)
    requires
        s.len() == 4,
    ensures
        be_value(s) == ((s[0] as nat * 256 + s[1] as nat) * 256 + s[2] as nat) * 256 + s[3] as nat,
{
    let s3 = s.drop_last();
    let s2 = s3.drop_last();
    lemma_be_value2(s2);
    assert(s2[0] == s[0] && s2[1] == s[1]);
    assert(s3.last() == s[2]);
    assert(be_value(s) == be_value(s3) * 256 + s[3] as nat);
    assert(be_value(s3) == be_value(s2) * 256 + s[2] as nat);
}

/// The value of a concatenation, split at `k` bytes from the start.
pub proof fn lemma_be_value_split(s: Seq<u8>, k: int)
    requires
        0 <= k <= s.len(),
    ensures
        be_value(s) == be_value(s.take(k)) * pow256((s.len() - k) as nat) + be_value(s.skip(k)),
    decreases s.len() - k,
{
    if k == s.len() {
        assert(s.take(k) =~= s);
        assert(s.skip(k).len() == 0);
        assert(be_value(s.skip(k)) == 0);
        assert(pow256(0) == 1);
        assert(be_value(s) * 1 == be_value(s));
    } else {
        let p = s.drop_last();
        lemma_be_value_split(p, k);
        assert(p.take(k) =~= s.take(k));
        assert(s.skip(k).drop_last() =~= p.skip(k));
        assert(s.skip(k).last() == s.last());
        assert(be_value(s) == be_value(p) * 256 + s.last() as nat);
        assert(be_value(s.skip(k)) == be_value(p.skip(k)) * 256 + s.last() as nat);
        let a = be_value(s.take(k));
        let b = be_value(p.skip(k));
        let m = pow256((p.len() - k) as nat);
        assert(pow256((s.len() - k) as nat) == 256 * m);
        assert((a * m + b) * 256 + s.last() as nat == a * (256 * m) + (b * 256 + s.last() as nat))
            by (nonlinear_arith);
    }
}

/// The value of the 8-byte big-endian sequence `s`, as a sum of its bytes.
pub proof fn lemma_be_value8_bytes(s: Seq<u8>)
    requires
        s.len() == 8,
    ensures
        be_value(s) == ((((((s[0] as nat * 256 + s[1] as nat) * 256 + s[2] as nat) * 256
            + s[3] as nat) * 256 + s[4] as nat) * 256 + s[5] as nat) * 256 + s[6] as nat) * 256
            + s[7] as nat,
{
    lemma_be_value_split(s, 4);
    lemma_be_value4(s.take(4));
    lemma_be_value4(s.skip(4));
    reveal_with_fuel(pow256, 5);
    let a = ((s[0] as nat * 256 + s[1] as nat) * 256 + s[2] as nat) * 256 + s[3] as nat;
    let b = ((s[4] as nat * 256 + s[5] as nat) * 256 + s[6] as nat) * 256 + s[7] as nat;
    assert(be_value(s) == a * 4294967296 + b);
}

/// Reads a 16-bit unsigned integer in big-endian byte order.
pub fn read_u16_be(reader: &mut MemStream) -> (r: Result<u16, IoError>)
    ensures
        final(reader).written() == old(reader).written(),
        old(reader).unread().len() >= 2 ==> {
            &&& r matches Ok(v) && v as nat == be_value(old(reader).unread().take(2))
            &&& final(reader).unread() == old(reader).unread().skip(2)
        },
        old(reader).unread().len() < 2 ==> {
            &&& r matches Err(e) && e.kind == IoErrorKind::UnexpectedEof
            &&& final(reader).unread().len() == 0
        },
{
    let b = reader.read_exact(2)?;
    let b0 = b[0];
    let b1 = b[1];
    proof {
        lemma_be_value2(b@);
        assert(((b0 as u16) << 8u16) | (b1 as u16) == b0 * 256 + b1) by (bit_vector);
    }
    Ok(((b0 as u16) << 8u16) | (b1 as u16))
}

/// Reads a 32-bit unsigned integer in big-endian byte order.
pub fn read_u32_be(reader: &mut MemStream) -> (r: Result<u32, IoError>)
    ensures
        final(reader).written() == old(reader).written(),
        old(reader).unread().len() >= 4 ==> {
            &&& r matches Ok(v) && v as nat == be_value(old(reader).unread().take(4))
            &&& final(reader).unread() == old(reader).unread().skip(4)
        },
        old(reader).unread().len() < 4 ==> {
            &&& r matches Err(e) && e.kind == IoErrorKind::UnexpectedEof
            &&& final(reader).unread().len() == 0
        },
{
    let b = reader.read_exact(4)?;
    let b0 = b[0];
    let b1 = b[1];
    let b2 = b[2];
    let b3 = b[3];
    let v = ((b0 as u32) << 24u32) | ((b1 as u32) << 16u32) | ((b2 as u32) << 8u32) | (b3 as u32);
    proof {
        lemma_be_value4(b@);
        assert(((b0 as u32) << 24u32) | ((b1 as u32) << 16u32) | ((b2 as u32) << 8u32) | (b3 as u32)
            == ((b0 * 256 + b1) * 256 + b2) * 256 + b3) by (bit_vector);
    }
    Ok(v)
}

/// Reads a 64-bit unsigned integer in big-endian byte order.
pub fn read_u64_be(reader: &mut MemStream) -> (r: Result<u64, IoError>)
    ensures
        final(reader).written() == old(reader).written(),
        old(reader).unread().len() >= 8 ==> {
            &&& r matches Ok(v) && v as nat == be_value(old(reader).unread().take(8))
            &&& final(reader).unread() == old(reader).unread().skip(8)
        },
        old(reader).unread().len() < 8 ==> {
            &&& r matches Err(e) && e.kind == IoErrorKind::UnexpectedEof
            &&& final(reader).unread().len() == 0
        },
{
    let b = reader.read_exact(8)?;
    let b0 = b[0];
    let b1 = b[1];
    let b2 = b[2];
    let b3 = b[3];
    let b4 = b[4];
    let b5 = b[5];
    let b6 = b[6];
    let b7 = b[7];
    let v = ((b0 as u64) << 56u64) | ((b1 as u64) << 48u64) | ((b2 as u64) << 40u64) | ((b3 as u64)
        << 32u64) | ((b4 as u64) << 24u64) | ((b5 as u64) << 16u64) | ((b6 as u64) << 8u64) | (b7 as u64);
    proof {
        lemma_be_value8_bytes(b@);
        assert(((b0 as u64) << 56u64) | ((b1 as u64) << 48u64) | ((b2 as u64) << 40u64) | ((b3 as u64)
            << 32u64) | ((b4 as u64) << 24u64) | ((b5 as u64) << 16u64) | ((b6 as u64) << 8u64) | (
        b7 as u64) == ((((((b0 * 256 + b1) * 256 + b2) * 256 + b3) * 256 + b4) * 256 + b5) * 256 + b6)
            * 256 + b7) by (bit_vector);
    }
    Ok(v)
}

/// The big-endian bytes of a 16-bit unsigned integer.
pub fn write_u16_be(value: u16) -> (r: [u8; 2])
    ensures
        r@ == be_bytes(value as nat, 2),
{
    let r = [(value >> 8u16) as u8, value as u8];
    proof {
        let h = (value >> 8u16) as u8;
        let l = value as u8;
        assert(h * 256 + l == value) by (bit_vector)
            requires
                h == (value >> 8u16) as u8,
                l == value as u8,
        ;
        lemma_be_value2(r@);
        lemma_be_bytes_of_value(r@);
    }
    r
}

/// The big-endian bytes of a 32-bit unsigned integer.
pub fn write_u32_be(value: u32) -> (r: [u8; 4])
    ensures
        r@ == be_bytes(value as nat, 4),
{
    let r = [(value >> 24u32) as u8, (value >> 16u32) as u8, (value >> 8u32) as u8, value as u8];
    proof {
        let b0 = (value >> 24u32) as u8;
        let b1 = (value >> 16u32) as u8;
        let b2 = (value >> 8u32) as u8;
        let b3 = value as u8;
        assert(((b0 * 256 + b1) * 256 + b2) * 256 + b3 == value) by (bit_vector)
            requires
                b0 == (value >> 24u32) as u8,
                b1 == (value >> 16u32) as u8,
                b2 == (value >> 8u32) as u8,
                b3 == value as u8,
        ;
        lemma_be_value4(r@);
        lemma_be_bytes_of_value(r@);
    }
    r
}

/// The big-endian bytes of a 64-bit unsigned integer.
pub fn write_u64_be(value: u64) -> (r: [u8; 8])
    ensures
        r@ == be_bytes(value as nat, 8),
{
    let r = [
        (value >> 56u64) as u8,
        (value >> 48u64) as u8,
        (value >> 40u64) as u8,
        (value >> 32u64) as u8,
        (value >> 24u64) as u8,
        (value >> 16u64) as u8,
        (value >> 8u64) as u8,
        value as u8,
    ];
    proof {
        let b0 = (value >> 56u64) as u8;
        let b1 = (value >> 48u64) as u8;
        let b2 = (value >> 40u64) as u8;
        let b3 = (value >> 32u64) as u8;
        let b4 = (value >> 24u64) as u8;
        let b5 = (value >> 16u64) as u8;
        let b6 = (value >> 8u64) as u8;
        let b7 = value as u8;
        assert(((((((b0 * 256 + b1) * 256 + b2) * 256 + b3) * 256 + b4) * 256 + b5) * 256 + b6) * 256
            + b7 == value) by (bit_vector)
            requires
                b0 == (value >> 56u64) as u8,
                b1 == (value >> 48u64) as u8,
                b2 == (value >> 40u64) as u8,
                b3 == (value >> 32u64) as u8,
                b4 == (value >> 24u64) as u8,
                b5 == (value >> 16u64) as u8,
                b6 == (value >> 8u64) as u8,
                b7 == value as u8,
        ;
        lemma_be_value8_bytes(r@);
        lemma_be_bytes_of_value(r@);
    }
    r
}

/// The sum of the bytes of `s`.
pub open spec fn byte_sum(s: Seq<u8>) -> nat
    decreases s.len(),
{
    if s.len() == 0 {
        0
    } else {
        byte_sum(s.drop_last()) + s.last() as nat
    }
}

/// A simple checksum: the sum of the bytes, modulo 0x10000.
pub fn checksum(data: &[u8]) -> (r: u16)
    ensures
        r as nat == byte_sum(data@) % 0x10000,
{
    let mut sum: u32 = 0;
    let mut i: usize = 0;
    while i < data.len()
        invariant
            i <= data@.len(),
            sum as nat == byte_sum(data@.take(i as int)) % 0x10000,
        decreases data@.len() - i,
    {
        let ghost prev = data@.take(i as int);
        let b = data[i];
        sum = (sum + b as u32) % 0x10000;
        i = i + 1;
        proof {
            let cur = data@.take(i as int);
            assert(cur.drop_last() =~= prev);
            assert(byte_sum(cur) == byte_sum(prev) + b as nat);
            assert((byte_sum(prev) % 0x10000 + b as nat) % 0x10000 == (byte_sum(prev) + b as nat)
                % 0x10000) by (nonlinear_arith);
        }
    }
    assert(data@.take(data@.len() as int) =~= data@);
    sum as u16
}

/// The milliseconds from `start` to `end`, or zero when `end` is not after `start`.
pub fn duration_ms(start: u64, end: u64) -> (r: u64)
    ensures
        r == if end > start { (end - start) as u64 } else { 0u64 },
{
    if end > start {
        end - start
    } else {
        0
    }
}

/// Splits `data` into consecutive chunks of `chunk_size` elements; the last chunk
/// holds what is left and may be shorter.
pub fn chunk_vector<T: Clone>(data: &[T], chunk_size: usize) -> (r: Vec<Vec<T>>)
    requires
        chunk_size > 0,
    ensures
        r@.len() == (data@.len() + chunk_size - 1) / chunk_size as int,
        forall|i: int|
            0 <= i < r@.len() ==> #[trigger] r@[i]@.len() == if data@.len() - i * chunk_size
                < chunk_size {
                data@.len() - i * chunk_size
            } else {
                chunk_size as int
            },
        forall|i: int, k: int|
            0 <= i < r@.len() && 0 <= k < r@[i]@.len() ==> cloned::<T>(
                data@[i * chunk_size + k],
                #[trigger] r@[i]@[k],
            ),
{
    let mut out: Vec<Vec<T>> = Vec::new();
    let mut start: usize = 0;
    assert(out@.len() * chunk_size == 0) by (nonlinear_arith)
        requires
            out@.len() == 0,
    ;
    while start < data.len()
        invariant
            chunk_size > 0,
            start <= data@.len(),
            start == if out@.len() * chunk_size <= data@.len() {
                out@.len() * chunk_size
            } else {
                data@.len() as int
            },
            out@.len() == 0 || (out@.len() - 1) * chunk_size < data@.len(),
            forall|i: int|
                0 <= i < out@.len() ==> #[trigger] out@[i]@.len() == if data@.len() - i * chunk_size
                    < chunk_size {
                    data@.len() - i * chunk_size
                } else {
                    chunk_size as int
                },
            forall|i: int, k: int|
                0 <= i < out@.len() && 0 <= k < out@[i]@.len() ==> cloned::<T>(
                    data@[i * chunk_size + k],
                    #[trigger] out@[i]@[k],
                ),
        decreases data@.len() - start,
    {
        let ghost n = out@.len();
        assert(start == n * chunk_size);
        let end: usize = if data.len() - start < chunk_size {
            data.len()
        } else {
            start + chunk_size
        };
        let mut chunk: Vec<T> = Vec::new();
        let mut j: usize = start;
        while j < end
            invariant
                start <= j <= end,
                end <= data@.len(),
                chunk@.len() == j - start,
                forall|k: int|
                    0 <= k < chunk@.len() ==> cloned::<T>(data@[start + k], #[trigger] chunk@[k]),
            decreases end - j,
        {
            let x = data[j].clone();
            chunk.push(x);
            j = j + 1;
        }
        out.push(chunk);
        proof {
            assert forall|i: int, k: int|
                0 <= i < out@.len() && 0 <= k < out@[i]@.len() implies cloned::<T>(
                data@[i * chunk_size + k],
                #[trigger] out@[i]@[k],
            ) by {
                if i == n {
                    assert(out@[i] == chunk);
                }
            }
            assert((n + 1) * chunk_size == n * chunk_size + chunk_size) by (nonlinear_arith);
        }
        start = end;
    }
    proof {
        let n = out@.len();
        let len = data@.len();
        let c = chunk_size as int;
        assert(n * c >= len);
        assert(n == (len + c - 1) / c) by (nonlinear_arith)
            requires
                c > 0,
                n * c >= len,
                n == 0 || (n - 1) * c < len,
        ;
    }
    out
}

/// The two upper-case hexadecimal digits of a byte, as ASCII codes.
pub open spec fn hex_pair(b: u8) -> Seq<u8> {
    seq![digit_byte((b / 16) as nat), digit_byte((b % 16) as nat)]
}

/// The hexadecimal digit pairs of the bytes of `s`, separated by single spaces, as ASCII codes.
pub open spec fn hex_join(s: Seq<u8>) -> Seq<u8>
    decreases s.len(),
{
    if s.len() == 0 {
        Seq::<u8>::empty()
    } else if s.len() == 1 {
        hex_pair(s[0])
    } else {
        hex_join(s.drop_last()) + seq![32u8] + hex_pair(s.last())
    }
}

/// The hex dump of `data` that `bytes_to_hex` writes: every byte when there are at most
/// 128 of them; otherwise the first 32 and the last 32, with the count of the others between.
pub open spec fn hex_dump(data: Seq<u8>) -> Seq<char> {
    if data.len() > 128 {
        ascii_chars(hex_join(data.take(32))) + " ... ["@ + ascii_chars(
            decimal_bytes((data.len() - 64) as nat),
        ) + " bytes omitted] ... "@ + ascii_chars(hex_join(data.skip(data.len() - 32)))
    } else {
        ascii_chars(hex_join(data))
    }
}

/// A hex dump is ASCII text.
pub proof fn lemma_hex_join_ascii(s: Seq<u8>)
    ensures
        all_ascii(hex_join(s)),
    decreases s.len(),
{
    if s.len() > 1 {
        lemma_hex_join_ascii(s.drop_last());
        let a = hex_join(s.drop_last());
        let t = a + seq![32u8] + hex_pair(s.last());
        assert forall|i: int| 0 <= i < t.len() implies #[trigger] t[i] < 128 by {
            if i < a.len() {
                assert(t[i] == a[i]);
            }
        }
    }
}

/// Appends the hexadecimal digit pairs of `data[from..to]`, separated by spaces, to `out`.
fn push_hex_join(data: &[u8], from: usize, to: usize, out: &mut Vec<u8>)
    requires
        from <= to <= data@.len(),
    ensures
        final(out)@ == old(out)@ + hex_join(data@.subrange(from as int, to as int)),
{
    let ghost start = out@;
    let mut i: usize = from;
    assert(data@.subrange(from as int, from as int).len() == 0);
    assert(start + hex_join(data@.subrange(from as int, from as int)) =~= start);
    while i < to
        invariant
            from <= i <= to,
            to <= data@.len(),
            out@ == start + hex_join(data@.subrange(from as int, i as int)),
        decreases to - i,
    {
        let ghost prev = data@.subrange(from as int, i as int);
        let b = data[i];
        if i > from {
            out.push(32u8);
        }
        let hi = b / 16;
        let lo = b % 16;
        out.push(if hi < 10 { 48 + hi } else { 55 + hi });
        out.push(if lo < 10 { 48 + lo } else { 55 + lo });
        i = i + 1;
        proof {
            let cur = data@.subrange(from as int, i as int);
            assert(cur.drop_last() =~= prev);
            assert(cur.last() == b);
            if prev.len() == 0 {
                assert(hex_join(cur) == hex_pair(b));
            }
            assert(out@ =~= start + hex_join(cur));
        }
    }
}

/// Formats bytes as upper-case hexadecimal pairs separated by spaces; more than 128
/// bytes are shortened to the first and last 32 with the count of those left out.
pub fn bytes_to_hex(data: &[u8]) -> (r: String)
    ensures
        r@ == hex_dump(data@),
{
    let len = data.len();
    if len > 128 {
        let mut a: Vec<u8> = Vec::new();
        push_hex_join(data, 0, 32, &mut a);
        let mut b: Vec<u8> = Vec::new();
        push_hex_join(data, len - 32, len, &mut b);
        proof {
            assert(data@.subrange(0, 32) =~= data@.take(32));
            assert(data@.subrange(len - 32, len as int) =~= data@.skip(len - 32));
            assert(a@ =~= hex_join(data@.take(32)));
            assert(b@ =~= hex_join(data@.skip(len - 32)));
            lemma_hex_join_ascii(data@.take(32));
            lemma_hex_join_ascii(data@.skip(len - 32));
        }
        let mut r = ascii_string(a);
        r.append(" ... [");
        let n = decimal_string((len - 64) as u64);
        r.append(n.as_str());
        r.append(" bytes omitted] ... ");
        let t = ascii_string(b);
        r.append(t.as_str());
        r
    } else {
        let mut a: Vec<u8> = Vec::new();
        push_hex_join(data, 0, len, &mut a);
        proof {
            assert(data@.subrange(0, len as int) =~= data@);
            assert(a@ =~= hex_join(data@));
            lemma_hex_join_ascii(data@);
        }
        ascii_string(a)
    }
}

/// The system clock's time type, `std::time::SystemTime`, carried opaquely.
#[verifier::external_type_specification]
#[verifier::external_body]
pub struct ExSystemTime(std::time::SystemTime);

/// The current system time, from `SystemTime::now`.
#[verifier::external_body]
fn system_time_now() -> SystemTime {
    SystemTime::now()
}

/// The time since the Unix epoch, from `SystemTime::duration_since`; `None` when the
/// clock reads earlier than the epoch.
#[verifier::external_body]
fn since_unix_epoch(t: &SystemTime) -> Option<Duration> {
    match t.duration_since(UNIX_EPOCH) {
        Ok(d) => Some(d),
        Err(_) => None,
    }
}

/// The whole milliseconds of a duration, from `Duration::as_millis`.
#[verifier::external_body]
fn duration_as_millis(d: &Duration) -> u128 {
    d.as_millis()
}

/// A timestamp from the milliseconds since the Unix epoch: their low 64 bits, or 0
/// when the clock reads earlier than the epoch (`None`).
pub fn timestamp_from(since_epoch_millis: Option<u128>) -> (r: u64)
    ensures
        r == match since_epoch_millis {
            Some(m) => m as u64,
            None => 0u64,
        },
{
    match since_epoch_millis {
        Some(m) => m as u64,
        None => 0,
    }
}

/// The current time in milliseconds since the Unix epoch (see `timestamp_from`).
/// It reads the system clock, so nothing is stated of the value itself.
pub fn get_timestamp() -> u64 {
    let now = system_time_now();
    let millis = match since_unix_epoch(&now) {
        Some(d) => Some(duration_as_millis(&d)),
        None => None,
    };
    timestamp_from(millis)
}

} // verus!
