//! Text helpers: UTF-8 conversion and byte-level search.

use vstd::prelude::*;
use vstd::utf8::*;

verus! {

/// The UTF-8 bytes of `s`.
pub open spec fn utf8(s: Seq<char>) -> Seq<u8> {
    encode_utf8(s)
}

/// Makes a `String` of `bytes` when they are valid UTF-8.
///
/// Trusted: calls `String::from_utf8`, whose documentation says it succeeds
/// exactly on valid UTF-8 and then keeps the bytes as the string's contents;
/// the contract states this over vstd's UTF-8 definitions.
#[verifier::external_body]
pub(crate) fn string_from_utf8(bytes: Vec<u8>) -> (res: Option<String>)
    ensures
        res is Some <==> valid_utf8(bytes@),
        res matches Some(s) ==> s@ == decode_utf8(bytes@),
{
    String::from_utf8(bytes).ok()
}


/// `needle` occurs in `hay` starting at index `i`.
pub open spec fn occurs_at(hay: Seq<u8>, needle: Seq<u8>, i: int) -> bool {
    0 <= i && i + needle.len() <= hay.len() && hay.subrange(i, i + needle.len()) == needle
}

/// `needle` occurs somewhere in `hay`: what `str::contains` tests of the
/// UTF-8 bytes of two strings.
pub open spec fn contains_bytes(hay: Seq<u8>, needle: Seq<u8>) -> bool {
    exists|i: int| #[trigger] occurs_at(hay, needle, i)
}

/// `hay` begins with `prefix`.
pub open spec fn starts_with_bytes(hay: Seq<u8>, prefix: Seq<u8>) -> bool {
    occurs_at(hay, prefix, 0)
}

/// Whether `needle` occurs in `hay` at index `i`.
pub fn occurs_at_exec(hay: &[u8], needle: &[u8], i: usize) -> (res: bool)
    ensures
        res == occurs_at(hay@, needle@, i as int),
{
    if i > hay.len() || needle.len() > hay.len() - i {
        return false;
    }
    let mut k: usize = 0;
    while k < needle.len()
        invariant
            i + needle@.len() <= hay@.len(),
            hay@.len() == hay.len(),
            k <= needle@.len(),
            forall|j: int| 0 <= j < k ==> hay@[i + j] == needle@[j],
        decreases needle@.len() - k,
    {
        if hay[i + k] != needle[k] {
            assert(hay@.subrange(i as int, i + needle@.len())[k as int] != needle@[k as int]);
            return false;
        }
        k = k + 1;
    }
    assert(hay@.subrange(i as int, i + needle@.len()) =~= needle@);
    true
}

/// Whether `needle` occurs anywhere in `hay`.
pub fn contains_slice(hay: &[u8], needle: &[u8]) -> (res: bool)
    ensures
        res == contains_bytes(hay@, needle@),
{
    if needle.len() > hay.len() {
        assert forall|i: int| !#[trigger] occurs_at(hay@, needle@, i) by {}
        return false;
    }
    let last: usize = hay.len() - needle.len();
    let mut i: usize = 0;
    loop
        invariant
            i <= last,
            last + needle@.len() == hay@.len(),
            forall|j: int| 0 <= j < i ==> !#[trigger] occurs_at(hay@, needle@, j),
        ensures
            forall|j: int| 0 <= j <= last ==> !#[trigger] occurs_at(hay@, needle@, j),
        decreases last - i,
    {
        if occurs_at_exec(hay, needle, i) {
            return true;
        }
        if i == last {
            break;
        }
        i = i + 1;
    }
    assert forall|j: int| !#[trigger] occurs_at(hay@, needle@, j) by {}
    false
}

/// Whether `hay` begins with `prefix`.
pub fn starts_with_slice(hay: &[u8], prefix: &[u8]) -> (res: bool)
    ensures
        res == starts_with_bytes(hay@, prefix@),
{
    occurs_at_exec(hay, prefix, 0)
}

/// The ASCII decimal digits of `n`, most significant first, without
/// leading zeros.
pub open spec fn decimal_digits(n: nat) -> Seq<u8>
    decreases n,
{
    if n < 10 {
        seq![('0' as u8 + n) as u8]
    } else {
        decimal_digits(n / 10).push(('0' as u8 + n % 10) as u8)
    }
}

/// The decimal notation of `n`, as `Display` writes an integer: a minus
/// sign for a negative number, then the digits of its magnitude.
pub open spec fn decimal(n: int) -> Seq<u8> {
    if n < 0 {
        seq!['-' as u8] + decimal_digits((-n) as nat)
    } else {
        decimal_digits(n as nat)
    }
}

/// Appends the decimal digits of `n` to `out`.
pub fn put_digits(out: &mut Vec<u8>, n: u64)
    ensures
        final(out)@ == old(out)@ + decimal_digits(n as nat),
    decreases n,
{
    if n >= 10 {
        put_digits(out, n / 10);
    }
    out.push(('0' as u8) + (n % 10) as u8);
}

/// Appends the decimal notation of `n` to `out`.
pub fn put_decimal(out: &mut Vec<u8>, n: i64)
    ensures
        final(out)@ == old(out)@ + decimal(n as int),
{
    if n < 0 {
        out.push('-' as u8);
        let magnitude: u64 = if n == i64::MIN {
            (i64::MAX as u64) + 1
        } else {
            (-n) as u64
        };
        put_digits(out, magnitude);
    } else {
        put_digits(out, n as u64);
    }
}


/// Whether two strings are equal, compared by their UTF-8 bytes.
pub fn str_eq(a: &str, b: &str) -> (res: bool)
    ensures
        res == (a@ == b@),
{
    let x = a.as_bytes();
    let y = b.as_bytes();
    let same = x.len() == y.len() && occurs_at_exec(x, y, 0);
    proof {
        broadcast use encode_utf8_decode_utf8, encode_utf8_valid_utf8;

        if same {
            assert(x@ =~= y@);
            assert(a@ == decode_utf8(encode_utf8(a@)));
            assert(b@ == decode_utf8(encode_utf8(b@)));
        }
        if a@ == b@ {
            assert(x@.subrange(0, y@.len() as int) =~= y@);
        }
    }
    same
}


/// The decimal notation of `n` as characters.
pub open spec fn decimal_text(n: int) -> Seq<char> {
    decimal(n).map_values(|b: u8| b as char)
}

proof fn lemma_decimal_digits_ascii(n: nat)
    ensures
        forall|i: int|
            0 <= i < decimal_digits(n).len() ==> '0' as u8 <= #[trigger] decimal_digits(n)[i]
                <= '9' as u8,
    decreases n,
{
    if n >= 10 {
        lemma_decimal_digits_ascii(n / 10);
        let prev = decimal_digits(n / 10);
        assert forall|i: int| 0 <= i < decimal_digits(n).len() implies '0' as u8
            <= #[trigger] decimal_digits(n)[i] <= '9' as u8 by {
            if i < prev.len() {
                assert(decimal_digits(n)[i] == prev[i]);
            }
        }
    }
}

/// The decimal notation of `n`, as `n.to_string()` writes it.
pub fn decimal_string(n: i64) -> (s: String)
    ensures
        s@ == decimal_text(n as int),
{
    let mut out = Vec::new();
    put_decimal(&mut out, n);
    let ghost bytes = out@;
    let ghost chars = decimal_text(n as int);
    proof {
        let m: nat = if n < 0 {
            (-n) as nat
        } else {
            n as nat
        };
        lemma_decimal_digits_ascii(m);
        assert(forall|i: int| 0 <= i < bytes.len() ==> #[trigger] bytes[i] < 128) by {
            assert forall|i: int| 0 <= i < bytes.len() implies #[trigger] bytes[i] < 128 by {
                if n < 0 && i > 0 {
                    assert(bytes[i] == decimal_digits(m)[i - 1]);
                }
            }
        }
        assert(is_ascii_chars(chars));
        is_ascii_chars_encode_utf8(chars);
        assert(encode_utf8(chars) =~= bytes);
        encode_utf8_valid_utf8(chars);
        encode_utf8_decode_utf8(chars);
    }
    string_from_utf8(out).unwrap()
}


/// The number that ASCII decimal digits stand for, most significant first.
pub open spec fn digits_value(d: Seq<u8>) -> int
    decreases d.len(),
{
    if d.len() == 0 {
        0
    } else {
        digits_value(d.drop_last()) * 10 + (d.last() - '0' as u8)
    }
}

/// The digits of `n` are decimal digits that stand for `n`, with no leading
/// zero.
pub proof fn lemma_decimal_digits_value(n: nat)
    ensures
        digits_value(decimal_digits(n)) == n,
        decimal_digits(n).len() >= 1,
        n > 0 ==> decimal_digits(n)[0] != '0' as u8,
        forall|i: int|
            0 <= i < decimal_digits(n).len() ==> '0' as u8 <= #[trigger] decimal_digits(n)[i]
                <= '9' as u8,
    decreases n,
{
    lemma_decimal_digits_ascii(n);
    let d = decimal_digits(n);
    if n >= 10 {
        lemma_decimal_digits_value(n / 10);
        let prev = decimal_digits(n / 10);
        assert(d.drop_last() =~= prev);
        assert(d[0] == prev[0]);
        assert(d.last() == ('0' as u8 + n % 10) as u8);
        assert(d.last() - '0' as u8 == n % 10);
        assert(digits_value(d) == digits_value(prev) * 10 + (d.last() - '0' as u8));
    } else {
        assert(d.drop_last() =~= Seq::<u8>::empty());
        assert(digits_value(d.drop_last()) == 0);
        assert(d.last() - '0' as u8 == n);
    }
}

} // verus!
