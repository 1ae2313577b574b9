use vstd::prelude::*;
use vstd::utf8::{valid_utf8, decode_utf8, encode_utf8, is_ascii_chars};

verus! {

/// The characters of a sequence of ASCII bytes.
pub open spec fn ascii_chars(s: Seq<u8>) -> Seq<char> {
    s.map_values(|b: u8| b as char)
}

/// Every byte is an ASCII code.
pub open spec fn all_ascii(s: Seq<u8>) -> bool {
    forall|i: int| 0 <= i < s.len() ==> #[trigger] s[i] < 128
}

/// The ASCII code of the decimal digit or upper-case hexadecimal digit `d`.
pub open spec fn digit_byte(d: nat) -> u8 {
    if d < 10 {
        (48 + d) as u8
    } else {
        (55 + d) as u8
    }
}

/// The digits of `n` in base `base`, most significant first, without leading zeros
/// (a single `0` for zero), as ASCII codes.
pub open spec fn digits_bytes(n: nat, base: nat) -> Seq<u8>
    recommends
        2 <= base <= 16,
    decreases n,
{
    if n < base || base < 2 {
        seq![digit_byte(n % base)]
    } else {
        proof {
            assert(n / base < n) by (nonlinear_arith)
                requires
                    n >= base,
                    base >= 2,
            ;
        }
        digits_bytes(n / base, base).push(digit_byte(n % base))
    }
}

/// The decimal text of `n`, as ASCII codes (as `n.to_string()` writes it).
pub open spec fn decimal_bytes(n: nat) -> Seq<u8> {
    digits_bytes(n, 10)
}

/// The upper-case hexadecimal text of `n`, left-padded with zeros to at least
/// `width` digits, as ASCII codes (as `format!("{:0w$X}", n)` writes it).
pub open spec fn hex_bytes_padded(n: nat, width: nat) -> Seq<u8> {
    let d = digits_bytes(n, 16);
    if d.len() < width {
        Seq::new((width - d.len()) as nat, |i: int| 48u8) + d
    } else {
        d
    }
}

/// The digits of a number are ASCII, and there is at least one.
pub proof fn lemma_digits_ascii(n: nat, base: nat)
    requires
        2 <= base <= 16,
    ensures
        all_ascii(digits_bytes(n, base)),
        digits_bytes(n, base).len() >= 1,
    decreases n,
{
    if n >= base {
        assert(n / base < n) by (nonlinear_arith)
            requires
                n >= base,
                base >= 2,
        ;
        lemma_digits_ascii(n / base, base);
    }
}

/// ASCII bytes are valid UTF-8, and they decode to the characters with the same codes.
pub proof fn lemma_ascii_utf8(s: Seq<u8>)
    requires
        all_ascii(s),
    ensures
        valid_utf8(s),
        decode_utf8(s) == ascii_chars(s),
{
    let c = ascii_chars(s);
    assert(is_ascii_chars(c)) by {
        assert forall|i: int| 0 <= i < c.len() implies '\0' <= #[trigger] c[i] <= '\u{7f}' by {
            assert(s[i] < 128);
        }
    }
    vstd::utf8::is_ascii_chars_encode_utf8(c);
    assert(encode_utf8(c) =~= s) by {
        assert forall|i: int| 0 <= i < s.len() implies encode_utf8(c)[i] == s[i] by {
            assert(c[i] as u8 == encode_utf8(c)[i]);
            assert(s[i] < 128);
            assert((s[i] as char) as u8 == s[i]);
        }
    }
    vstd::utf8::encode_utf8_valid_utf8(c);
    vstd::utf8::encode_utf8_decode_utf8(c);
}

/// Decodes UTF-8 bytes with `String::from_utf8`. On invalid input, the error
/// carries the text that std's `FromUtf8Error` displays.
#[verifier::external_body]
pub(crate) fn string_from_utf8(bytes: Vec<u8>) -> (r: Result<String, String>)
    ensures
        r is Ok <==> valid_utf8(bytes@),
        r matches Ok(s) ==> s@ == decode_utf8(bytes@),
{
    match String::from_utf8(bytes) {
        Ok(s) => Ok(s),
        Err(e) => Err(format!("{}", e)),
    }
}

/// The string of the ASCII bytes `bytes`.
pub fn ascii_string(bytes: Vec<u8>) -> (r: String)
    requires
        all_ascii(bytes@),
    ensures
        r@ == ascii_chars(bytes@),
{
    proof {
        lemma_ascii_utf8(bytes@);
    }
    match string_from_utf8(bytes) {
        Ok(s) => s,
        Err(_) => String::new(),
    }
}

/// Appends the digits of `n` in base `base` to `out`.
pub fn push_digits(n: u64, base: u64, out: &mut Vec<u8>)
    requires
        2 <= base <= 16,
    ensures
        final(out)@ == old(out)@ + digits_bytes(n as nat, base as nat),
    decreases n,
{
    if n >= base {
        assert(n / base < n) by (nonlinear_arith)
            requires
                n >= base,
                base >= 2,
        ;
        push_digits(n / base, base, out);
    }
    let d = n % base;
    let c: u8 = if d < 10 { 48 + d as u8 } else { 55 + d as u8 };
    out.push(c);
    proof {
        assert(digits_bytes(n as nat, base as nat) =~= if n < base {
            seq![digit_byte((n % base) as nat)]
        } else {
            digits_bytes((n / base) as nat, base as nat).push(digit_byte((n % base) as nat))
        });
    }
}

/// The decimal text of `n`.
pub fn decimal_string(n: u64) -> (r: String)
    ensures
        r@ == ascii_chars(decimal_bytes(n as nat)),
{
    let mut v: Vec<u8> = Vec::new();
    push_digits(n, 10, &mut v);
    proof {
        lemma_digits_ascii(n as nat, 10);
        assert(v@ =~= decimal_bytes(n as nat));
    }
    ascii_string(v)
}

/// The upper-case hexadecimal text of `n`, left-padded with zeros to at least `width` digits.
pub fn hex_string_padded(n: u64, width: usize) -> (r: String)
    ensures
        r@ == ascii_chars(hex_bytes_padded(n as nat, width as nat)),
{
    let mut d: Vec<u8> = Vec::new();
    push_digits(n, 16, &mut d);
    proof {
        lemma_digits_ascii(n as nat, 16);
        assert(d@ =~= digits_bytes(n as nat, 16));
    }
    let mut v: Vec<u8> = Vec::new();
    if d.len() < width {
        let pad = width - d.len();
        let mut i: usize = 0;
        while i < pad
            invariant
                i <= pad,
                v@ == Seq::new(i as nat, |k: int| 48u8),
            decreases pad - i,
        {
            v.push(48u8);
            i = i + 1;
            assert(v@ =~= Seq::new(i as nat, |k: int| 48u8));
        }
    }
    let ghost prefix = v@;
    let mut j: usize = 0;
    while j < d.len()
        invariant
            j <= d@.len(),
            v@ == prefix + d@.take(j as int),
        decreases d@.len() - j,
    {
        v.push(d[j]);
        j = j + 1;
        assert(v@ =~= prefix + d@.take(j as int));
    }
    proof {
        assert(d@.take(d@.len() as int) =~= d@);
        assert(v@ =~= hex_bytes_padded(n as nat, width as nat));
        assert(all_ascii(v@)) by {
            assert forall|i: int| 0 <= i < v@.len() implies #[trigger] v@[i] < 128 by {
                if i >= prefix.len() {
                    assert(v@[i] == d@[i - prefix.len()]);
                }
            }
        }
    }
    ascii_string(v)
}

/// `s` without the leading characters that satisfy `p`.
pub open spec fn trim_start_where(s: Seq<char>, p: spec_fn(char) -> bool) -> Seq<char>
    decreases s.len(),
{
    if s.len() > 0 && p(s[0]) {
        trim_start_where(s.drop_first(), p)
    } else {
        s
    }
}

/// `s` without the trailing characters that satisfy `p`.
pub open spec fn trim_end_where(s: Seq<char>, p: spec_fn(char) -> bool) -> Seq<char>
    decreases s.len(),
{
    if s.len() > 0 && p(s.last()) {
        trim_end_where(s.drop_last(), p)
    } else {
        s
    }
}

/// `s` without the leading and trailing characters that satisfy `p`.
pub open spec fn trim_where(s: Seq<char>, p: spec_fn(char) -> bool) -> Seq<char> {
    trim_end_where(trim_start_where(s, p), p)
}

/// Trimming the start stops at the first character that does not satisfy `p`.
pub proof fn lemma_trim_start(s: Seq<char>, p: spec_fn(char) -> bool, k: int)
    requires
        0 <= k <= s.len(),
        forall|i: int| 0 <= i < k ==> p(#[trigger] s[i]),
        k == s.len() || !p(s[k]),
    ensures
        trim_start_where(s, p) == s.skip(k),
    decreases k,
{
    if k == 0 {
        assert(s.skip(0) =~= s);
    } else {
        let t = s.drop_first();
        assert forall|i: int| 0 <= i < k - 1 implies p(#[trigger] t[i]) by {
            assert(t[i] == s[i + 1]);
        }
        if k - 1 < t.len() {
            assert(t[k - 1] == s[k]);
        }
        lemma_trim_start(t, p, k - 1);
        assert(t.skip(k - 1) =~= s.skip(k));
    }
}

/// Trimming the end stops at the last character that does not satisfy `p`.
pub proof fn lemma_trim_end(s: Seq<char>, p: spec_fn(char) -> bool, k: int)
    requires
        0 <= k <= s.len(),
        forall|i: int| k <= i < s.len() ==> p(#[trigger] s[i]),
        k == 0 || !p(s[k - 1]),
    ensures
        trim_end_where(s, p) == s.take(k),
    decreases s.len() - k,
{
    if k == s.len() {
        assert(s.take(k) =~= s);
    } else {
        let t = s.drop_last();
        assert forall|i: int| k <= i < t.len() implies p(#[trigger] t[i]) by {
            assert(t[i] == s[i]);
        }
        if k > 0 {
            assert(t[k - 1] == s[k - 1]);
        }
        assert(p(s[s.len() - 1]));
        lemma_trim_end(t, p, k);
        assert(t.take(k) =~= s.take(k));
    }
}

} // verus!
