//! Identifier and time codec: hex-encoded OTLP trace/span identifiers,
//! the 128-bit identifier value that stands for a UUID, and unsigned
//! nanosecond strings parsed into wall-clock timestamps.

use vstd::prelude::*;

use crate::text::{trim_spaces, str_chars, trim_chars};

verus! {

// --- hex decoding -----------------------------------------------------

/// The value of one hex digit, case-insensitive; `None` for any other
/// character.
pub open spec fn hex_digit_value(c: char) -> Option<u8> {
    if '0' <= c && c <= '9' {
        Some(((c as u32) - 48) as u8)
    } else if 'a' <= c && c <= 'f' {
        Some(((c as u32) - 87) as u8)
    } else if 'A' <= c && c <= 'F' {
        Some(((c as u32) - 55) as u8)
    } else {
        None
    }
}

/// Every character of `s` is a hex digit.
pub open spec fn all_hex_digits(s: Seq<char>) -> bool {
    forall|i: int| 0 <= i < s.len() ==> #[trigger] hex_digit_value(s[i]) is Some
}

/// The byte written as `s[2*i], s[2*i+1]`.
pub open spec fn hex_byte_at(s: Seq<char>, i: int) -> u8 {
    (hex_digit_value(s[2 * i]).unwrap() * 16 + hex_digit_value(s[2 * i + 1]).unwrap()) as u8
}

/// The bytes of an even-length hex string.
pub open spec fn hex_decoded(s: Seq<char>) -> Seq<u8> {
    Seq::new(s.len() / 2, |i: int| hex_byte_at(s, i))
}

/// Whether a character sequence is a well-formed hex encoding: even length,
/// hex digits throughout.
pub open spec fn is_hex_encoding(s: Seq<char>) -> bool {
    s.len() % 2 == 0 && all_hex_digits(s)
}

fn hex_val(c: char) -> (r: Option<u8>)
    ensures
        r == hex_digit_value(c),
{
    if '0' <= c && c <= '9' {
        Some(((c as u32) - 48) as u8)
    } else if 'a' <= c && c <= 'f' {
        Some(((c as u32) - 87) as u8)
    } else if 'A' <= c && c <= 'F' {
        Some(((c as u32) - 55) as u8)
    } else {
        None
    }
}

/// Decodes a hex string, ignoring surrounding ASCII whitespace. Returns the
/// bytes exactly when the trimmed text has even length and holds hex digits
/// only; rejects anything else.
pub fn decode_hex(s: &str) -> (r: Option<Vec<u8>>)
    ensures
        ({
            let t = trim_spaces(s@);
            match r {
                Some(v) => is_hex_encoding(t) && v@ == hex_decoded(t),
                None => !is_hex_encoding(t),
            }
        }),
{
    let chars = str_chars(s);
    let t = trim_chars(&chars);
    let n = t.len();
    if n % 2 != 0 {
        return None;
    }
    let mut out: Vec<u8> = Vec::new();
    let mut i: usize = 0;
    while i < n
        invariant
            0 <= i <= n,
            i % 2 == 0,
            n % 2 == 0,
            n == t@.len(),
            t@ == trim_spaces(s@),
            forall|j: int| 0 <= j < i ==> #[trigger] hex_digit_value(t@[j]) is Some,
            out@.len() == i / 2,
            forall|j: int| 0 <= j < i / 2 ==> out@[j] == #[trigger] hex_byte_at(t@, j),
        decreases n - i,
    {
        let hi = match hex_val(t[i]) {
            Some(v) => v,
            None => {
                proof {
                    assert(hex_digit_value(t@[i as int]) is None);
                    assert(!all_hex_digits(t@));
                }
                return None;
            },
        };
        let lo = match hex_val(t[i + 1]) {
            Some(v) => v,
            None => {
                proof {
                    assert(hex_digit_value(t@[i + 1]) is None);
                    assert(!all_hex_digits(t@));
                }
                return None;
            },
        };
        out.push(hi * 16 + lo);
        i = i + 2;
    }
    proof {
        assert(out@ =~= hex_decoded(t@));
    }
    Some(out)
}

// --- the identifier value ---------------------------------------------

/// The value of a byte string read as one big-endian number.
pub open spec fn be_val(s: Seq<u8>) -> nat
    decreases s.len(),
{
    if s.len() == 0 {
        0
    } else {
        (be_val(s.drop_last()) * 256 + s.last()) as nat
    }
}

/// The value of a byte string read as one little-endian number.
pub open spec fn le_val(s: Seq<u8>) -> nat
    decreases s.len(),
{
    if s.len() == 0 {
        0
    } else {
        (s.first() + 256 * le_val(s.drop_first())) as nat
    }
}

/// 256 to the power `n`.
pub open spec fn pow256(n: nat) -> nat
    decreases n,
{
    if n == 0 {
        1nat
    } else {
        256 * pow256((n - 1) as nat)
    }
}

pub proof fn lemma_be_val_bound(s: Seq<u8>)
    ensures
        be_val(s) < pow256(s.len()),
    decreases s.len(),
{
    if s.len() > 0 {
        lemma_be_val_bound(s.drop_last());
    }
}

proof fn lemma_le_val_push(s: Seq<u8>, x: u8)
    ensures
        le_val(s.push(x)) == le_val(s) + x * pow256(s.len()),
    decreases s.len(),
{
    if s.len() == 0 {
        assert(s.push(x).drop_first() =~= Seq::<u8>::empty());
        assert(s.push(x).first() == x);
        assert(s.push(x).len() == 1);
        assert(le_val(s.push(x).drop_first()) == 0);
        assert(le_val(s.push(x)) == x);
        assert(pow256(0nat) == 1nat);
        assert(le_val(s) == 0);
        assert(x * pow256(s.len()) == x) by (nonlinear_arith)
            requires pow256(s.len()) == 1;
    } else {
        assert(s.push(x).drop_first() =~= s.drop_first().push(x));
        assert(s.push(x).first() == s.first());
        assert(s.push(x).len() == s.len() + 1);
        lemma_le_val_push(s.drop_first(), x);
        assert(le_val(s.push(x)) ==
            s.first() + 256 * (le_val(s.drop_first()) + x * pow256(s.drop_first().len())));
        assert(s.drop_first().len() == (s.len() - 1) as nat);
        assert(256 * (x * pow256((s.len() - 1) as nat)) == x * pow256(s.len())) by (nonlinear_arith)
            requires pow256(s.len()) == 256 * pow256((s.len() - 1) as nat);
        assert(le_val(s.push(x)) == s.first() + 256 * le_val(s.drop_first()) + x * pow256(s.len()))
            by (nonlinear_arith)
            requires
                le_val(s.push(x)) ==
                    s.first() + 256 * (le_val(s.drop_first()) + x * pow256(s.drop_first().len())),
                s.drop_first().len() == (s.len() - 1) as nat,
                256 * (x * pow256((s.len() - 1) as nat)) == x * pow256(s.len());
        assert(le_val(s) == s.first() + 256 * le_val(s.drop_first()));
    }
}

proof fn lemma_le_val_is_be_val_reversed(s: Seq<u8>)
    ensures
        be_val(s.reverse()) == le_val(s),
    decreases s.len(),
{
    if s.len() > 0 {
        lemma_le_val_is_be_val_reversed(s.drop_first());
        assert(s.reverse().drop_last() =~= s.drop_first().reverse());
        assert(s.reverse().last() == s.first());
    }
}

/// A big-endian value determines its bytes: two byte strings of one length
/// with the same value are the same string. This is the heart of the
/// identifier round-trip law.
pub proof fn lemma_be_val_injective(a: Seq<u8>, b: Seq<u8>)
    requires
        a.len() == b.len(),
        be_val(a) == be_val(b),
    ensures
        a == b,
    decreases a.len(),
{
    if a.len() > 0 {
        let qa = be_val(a.drop_last());
        let qb = be_val(b.drop_last());
        assert(qa * 256 + a.last() == qb * 256 + b.last());
        vstd::arithmetic::div_mod::lemma_fundamental_div_mod_converse(
            be_val(a) as int, 256, qa as int, a.last() as int);
        vstd::arithmetic::div_mod::lemma_fundamental_div_mod_converse(
            be_val(b) as int, 256, qb as int, b.last() as int);
        lemma_be_val_injective(a.drop_last(), b.drop_last());
        assert(a =~= a.drop_last().push(a.last()));
        assert(b =~= b.drop_last().push(b.last()));
    }
}

/// The identifier under which traces and observations are stored: the value
/// of a 16-byte UUID, read big-endian.
#[derive(Clone, Copy, PartialEq, Eq, Structural, Hash, Debug)]
pub struct UuidVal {
    pub value: u128,
}

impl UuidVal {
    /// Builds the identifier from its 16 bytes.
    pub fn from_bytes(b: &Vec<u8>) -> (r: UuidVal)
        requires
            b@.len() == 16,
        ensures
            r.value == be_val(b@),
    {
        let mut acc: u128 = 0;
        let mut i: usize = 0;
        while i < 16
            invariant
                0 <= i <= 16,
                b@.len() == 16,
                acc as nat == be_val(b@.take(i as int)),
                (acc as nat) < pow256(i as nat),
            decreases 16 - i,
        {
            proof {
                assert(b@.take(i + 1).drop_last() =~= b@.take(i as int));
                assert(b@.take(i + 1).last() == b@[i as int]);
                assert(pow256((i + 1) as nat) == 256 * pow256(i as nat));
                assert(pow256(16nat) == 0x1_0000_0000_0000_0000_0000_0000_0000_0000nat) by {
                    reveal_with_fuel(pow256, 17);
                }
            }
            assert((acc as nat) * 256 + 255nat < pow256((i + 1) as nat));
            assert(pow256((i + 1) as nat) <= pow256(16nat)) by {
                lemma_pow256_increases(((i + 1) as nat), 16nat);
            }
            acc = acc * 256 + (b[i] as u128);
            i = i + 1;
        }
        proof {
            assert(b@.take(16) =~= b@);
        }
        UuidVal { value: acc }
    }

    /// The 16 bytes of the identifier, big-endian.
    pub fn to_bytes(&self) -> (r: Vec<u8>)
        ensures
            r@.len() == 16,
            be_val(r@) == self.value,
    {
        let mut rev: Vec<u8> = Vec::new();
        let mut v: u128 = self.value;
        proof {
            assert(pow256(0nat) == 1nat);
            assert(le_val(rev@) == 0);
        }
        let mut i: usize = 0;
        while i < 16
            invariant
                0 <= i <= 16,
                rev@.len() == i,
                le_val(rev@) + v as nat * pow256(i as nat) == self.value,
            decreases 16 - i,
        {
            let d: u8 = (v % 256) as u8;
            proof {
                lemma_le_val_push(rev@, d);
                vstd::arithmetic::div_mod::lemma_fundamental_div_mod(v as int, 256);
                assert((v as nat / 256nat) * pow256((i + 1) as nat) + d * pow256(i as nat)
                    == v as nat * pow256(i as nat)) by (nonlinear_arith)
                    requires
                        pow256((i + 1) as nat) == 256 * pow256(i as nat),
                        v as nat == 256 * (v as nat / 256nat) + (v as nat % 256nat),
                        d == v as nat % 256nat;
            }
            rev.push(d);
            v = v / 256;
            i = i + 1;
        }
        proof {
            assert(pow256(16nat) == 0x1_0000_0000_0000_0000_0000_0000_0000_0000nat) by {
                reveal_with_fuel(pow256, 17);
            }
            assert((v as nat) * pow256(16nat) >= pow256(16nat) || v == 0) by (nonlinear_arith);
        }
        let mut out: Vec<u8> = Vec::new();
        let mut j: usize = 16;
        while j > 0
            invariant
                0 <= j <= 16,
                rev@.len() == 16,
                out@.len() == 16 - j,
                forall|k: int| 0 <= k < 16 - j ==> out@[k] == rev@[15 - k],
            decreases j,
        {
            out.push(rev[j - 1]);
            j = j - 1;
        }
        proof {
            assert(out@ =~= rev@.reverse());
            lemma_le_val_is_be_val_reversed(rev@);
        }
        out
    }
}

proof fn lemma_pow256_increases(m: nat, n: nat)
    requires
        m <= n,
    ensures
        pow256(m) <= pow256(n),
    decreases n,
{
    if m < n {
        lemma_pow256_increases(m, (n - 1) as nat);
        assert(pow256((n - 1) as nat) <= 256 * pow256((n - 1) as nat)) by (nonlinear_arith)
            requires pow256((n - 1) as nat) >= 0;
    }
}

// --- OTLP identifiers --------------------------------------------------

/// Sixteen zero bytes followed by `s` — how an 8-byte span id is widened to
/// a 16-byte identifier. (Eight zero bytes, then the eight of the span.)
pub open spec fn zero_padded8(s: Seq<u8>) -> Seq<u8> {
    Seq::new(8, |i: int| 0u8) + s
}

pub proof fn lemma_be_val_zero_prefix(s: Seq<u8>)
    ensures
        be_val(zero_padded8(s)) == be_val(s),
    decreases s.len(),
{
    if s.len() == 0 {
        lemma_be_val_all_zero(zero_padded8(s));
    } else {
        assert(zero_padded8(s).drop_last() =~= zero_padded8(s.drop_last()));
        lemma_be_val_zero_prefix(s.drop_last());
        assert(zero_padded8(s).last() == s.last());
    }
}

proof fn lemma_be_val_all_zero(s: Seq<u8>)
    requires
        forall|i: int| 0 <= i < s.len() ==> s[i] == 0,
    ensures
        be_val(s) == 0,
    decreases s.len(),
{
    if s.len() > 0 {
        lemma_be_val_all_zero(s.drop_last());
    }
}

/// Converts a hex OTLP trace id to the trace identifier. Succeeds exactly
/// when the trimmed text is a hex encoding of 16 bytes.
pub fn otlp_trace_id_to_uuid(trace_id: &str) -> (r: Option<UuidVal>)
    ensures
        ({
            let t = trim_spaces(trace_id@);
            match r {
                Some(u) => is_hex_encoding(t) && t.len() == 32 && u.value == be_val(hex_decoded(t)),
                None => !(is_hex_encoding(t) && t.len() == 32),
            }
        }),
{
    let raw = match decode_hex(trace_id) {
        Some(v) => v,
        None => {
            return None;
        },
    };
    if raw.len() != 16 {
        return None;
    }
    Some(UuidVal::from_bytes(&raw))
}

/// Converts a hex OTLP span id to an observation identifier, widening its 8
/// bytes with a zero prefix. Succeeds exactly when the trimmed text is a hex
/// encoding of 8 bytes.
pub fn otlp_span_id_to_uuid(span_id: &str) -> (r: Option<UuidVal>)
    ensures
        ({
            let t = trim_spaces(span_id@);
            match r {
                Some(u) => is_hex_encoding(t) && t.len() == 16
                    && u.value == be_val(hex_decoded(t))
                    && u.value == be_val(zero_padded8(hex_decoded(t))),
                None => !(is_hex_encoding(t) && t.len() == 16),
            }
        }),
{
    let raw = match decode_hex(span_id) {
        Some(v) => v,
        None => {
            return None;
        },
    };
    if raw.len() != 8 {
        return None;
    }
    let mut padded: Vec<u8> = Vec::new();
    let mut i: usize = 0;
    while i < 8
        invariant
            0 <= i <= 8,
            padded@.len() == i,
            forall|k: int| 0 <= k < i ==> padded@[k] == 0u8,
        decreases 8 - i,
    {
        padded.push(0u8);
        i = i + 1;
    }
    let mut j: usize = 0;
    while j < 8
        invariant
            0 <= j <= 8,
            raw@.len() == 8,
            padded@.len() == 8 + j,
            forall|k: int| 0 <= k < 8 ==> padded@[k] == 0u8,
            forall|k: int| 0 <= k < j ==> padded@[8 + k] == raw@[k],
        decreases 8 - j,
    {
        padded.push(raw[j]);
        j = j + 1;
    }
    proof {
        assert(padded@ =~= zero_padded8(raw@));
        lemma_be_val_zero_prefix(raw@);
    }
    Some(UuidVal::from_bytes(&padded))
}

/// A value read from at most 16 bytes fits the 128-bit identifier.
pub proof fn lemma_be_val_fits_u128(s: Seq<u8>)
    requires
        s.len() <= 16,
    ensures
        be_val(s) < 0x1_0000_0000_0000_0000_0000_0000_0000_0000nat,
{
    lemma_be_val_bound(s);
    lemma_pow256_increases(s.len(), 16nat);
    assert(pow256(16nat) == 0x1_0000_0000_0000_0000_0000_0000_0000_0000nat) by {
        reveal_with_fuel(pow256, 17);
    }
}

/// Law: decoding a 32-hex trace id, reading the bytes as an identifier and
/// serializing the identifier back yields the original bytes; an identifier
/// obtained from an 8-byte span id has its first 8 bytes zero.
pub proof fn lemma_uuid_round_trip(b: Seq<u8>, r: Seq<u8>)
    requires
        b.len() == 16,
        r.len() == 16,
        be_val(r) == be_val(b),
    ensures
        r == b,
{
    lemma_be_val_injective(r, b);
}

/// Law, span half: the 16 bytes of an identifier whose value came from 8
/// span bytes begin with 8 zero bytes and end with those span bytes.
pub proof fn lemma_span_uuid_padding(s: Seq<u8>, r: Seq<u8>)
    requires
        s.len() == 8,
        r.len() == 16,
        be_val(r) == be_val(zero_padded8(s)),
    ensures
        forall|i: int| 0 <= i < 8 ==> r[i] == 0,
        r.skip(8) == s,
{
    lemma_be_val_injective(r, zero_padded8(s));
    assert(forall|i: int| 0 <= i < 8 ==> r[i] == zero_padded8(s)[i]);
    assert(r.skip(8) =~= s);
}

// --- decimal integers ---------------------------------------------------

/// A decimal digit.
pub open spec fn is_dec_digit(c: char) -> bool {
    '0' <= c && c <= '9'
}

/// The value of a decimal digit.
pub open spec fn digit_val(c: char) -> int {
    (c as u32) - 48
}

/// Every character of `s` is a decimal digit.
pub open spec fn all_dec_digits(s: Seq<char>) -> bool {
    forall|i: int| 0 <= i < s.len() ==> #[trigger] is_dec_digit(s[i])
}

/// The value of a digit string, most significant digit first.
pub open spec fn dec_val(s: Seq<char>) -> int
    decreases s.len(),
{
    if s.len() == 0 {
        0
    } else {
        dec_val(s.drop_last()) * 10 + digit_val(s.last())
    }
}

/// The value a signed decimal integer literal denotes: an optional sign
/// followed by at least one digit. `None` when the text is no such literal.
pub open spec fn int_literal_value(s: Seq<char>) -> Option<int> {
    if s.len() > 0 && (s[0] == '+' || s[0] == '-') {
        let d = s.drop_first();
        if d.len() > 0 && all_dec_digits(d) {
            Some(if s[0] == '-' { -dec_val(d) } else { dec_val(d) })
        } else {
            None
        }
    } else if s.len() > 0 && all_dec_digits(s) {
        Some(dec_val(s))
    } else {
        None
    }
}

pub proof fn lemma_dec_val_nonneg(s: Seq<char>)
    requires
        all_dec_digits(s),
    ensures
        dec_val(s) >= 0,
    decreases s.len(),
{
    if s.len() > 0 {
        assert(all_dec_digits(s.drop_last()));
        lemma_dec_val_nonneg(s.drop_last());
        assert(is_dec_digit(s.last()));
    }
}

/// A digit string is worth at least any of its prefixes.
pub proof fn lemma_dec_val_take_bound(s: Seq<char>, k: int)
    requires
        all_dec_digits(s),
        0 <= k <= s.len(),
    ensures
        dec_val(s.take(k)) <= dec_val(s),
    decreases s.len() - k,
{
    if k < s.len() {
        assert(all_dec_digits(s.drop_last()));
        assert(s.drop_last().take(k) =~= s.take(k));
        lemma_dec_val_take_bound(s.drop_last(), k);
        lemma_dec_val_nonneg(s.drop_last());
        assert(is_dec_digit(s.last()));
        assert(dec_val(s.drop_last()) * 10 >= dec_val(s.drop_last())) by (nonlinear_arith)
            requires dec_val(s.drop_last()) >= 0;
    } else {
        assert(s.take(k) =~= s);
    }
}

fn dec_digit(c: char) -> (r: Option<u8>)
    ensures
        r is Some <==> is_dec_digit(c),
        r is Some ==> r.unwrap() == digit_val(c),
{
    if '0' <= c && c <= '9' {
        Some(((c as u32) - 48) as u8)
    } else {
        None
    }
}

/// Parses the digits of `v` from `start` on as an unsigned number, refusing
/// any value above `limit`. Succeeds exactly when there is at least one
/// character, all are digits, and the value is within the limit.
fn parse_digits_u128(v: &Vec<char>, start: usize, limit: u128) -> (r: Option<u128>)
    requires
        start <= v@.len(),
    ensures
        ({
            let d = v@.skip(start as int);
            match r {
                Some(m) => d.len() > 0 && all_dec_digits(d) && m == dec_val(d) && m <= limit,
                None => !(d.len() > 0 && all_dec_digits(d) && dec_val(d) <= limit),
            }
        }),
{
    let ghost d = v@.skip(start as int);
    let n = v.len();
    if start >= n {
        return None;
    }
    let mut acc: u128 = 0;
    let mut i: usize = start;
    while i < n
        invariant
            start <= i <= n,
            n == v@.len(),
            d == v@.skip(start as int),
            all_dec_digits(v@.subrange(start as int, i as int)),
            acc == dec_val(v@.subrange(start as int, i as int)),
            acc <= limit,
        decreases n - i,
    {
        let dv = match dec_digit(v[i]) {
            Some(x) => x,
            None => {
                proof {
                    assert(!is_dec_digit(d[i - start]));
                    assert(!all_dec_digits(d));
                }
                return None;
            },
        };
        proof {
            assert(v@.subrange(start as int, i + 1).drop_last()
                =~= v@.subrange(start as int, i as int));
            assert(v@.subrange(start as int, i + 1).last() == v@[i as int]);
            assert(forall|j: int| 0 <= j < i + 1 - start
                ==> #[trigger] is_dec_digit(v@.subrange(start as int, i + 1)[j]));
        }
        let dvl = dv as u128;
        if dvl > limit || acc > (limit - dvl) / 10 {
            proof {
                if dvl <= limit {
                    vstd::arithmetic::div_mod::lemma_fundamental_div_mod(
                        (limit - dvl) as int, 10);
                }
                assert(10 * acc + dvl > limit);
                if all_dec_digits(d) {
                    lemma_dec_val_take_bound(d, i + 1 - start);
                    assert(d.take(i + 1 - start) =~= v@.subrange(start as int, i + 1));
                    assert(dec_val(d) > limit);
                }
            }
            return None;
        }
        acc = acc * 10 + (dv as u128);
        i = i + 1;
    }
    proof {
        assert(v@.subrange(start as int, n as int) =~= d);
    }
    Some(acc)
}

/// The magnitude of `i128::MIN`.
const I128_MIN_MAGNITUDE: u128 = 0x8000_0000_0000_0000_0000_0000_0000_0000;

/// Parses a signed decimal integer. Succeeds exactly when the characters are
/// an integer literal whose value fits in an `i128`.
pub fn parse_i128_chars(v: &Vec<char>) -> (r: Option<i128>)
    ensures
        ({
            let lit = int_literal_value(v@);
            match r {
                Some(m) => lit == Some(m as int),
                None => !(lit is Some && i128::MIN <= lit.unwrap() <= i128::MAX),
            }
        }),
{
    if v.len() == 0 {
        return None;
    }
    let c0 = v[0];
    let neg = c0 == '-';
    let signed = neg || c0 == '+';
    let start: usize = if signed { 1 } else { 0 };
    let limit: u128 = if neg { I128_MIN_MAGNITUDE } else { I128_MIN_MAGNITUDE - 1 };
    let ghost d = v@.skip(start as int);
    proof {
        if signed {
            assert(d =~= v@.drop_first());
        } else {
            assert(d =~= v@);
        }
    }
    let m = match parse_digits_u128(v, start, limit) {
        Some(m) => m,
        None => {
            return None;
        },
    };
    if neg {
        if m == I128_MIN_MAGNITUDE {
            Some(i128::MIN)
        } else {
            Some(-(m as i128))
        }
    } else {
        Some(m as i128)
    }
}

/// Parses a signed decimal integer that must fit in an `i64`.
pub fn parse_i64_chars(v: &Vec<char>) -> (r: Option<i64>)
    ensures
        ({
            let lit = int_literal_value(v@);
            match r {
                Some(m) => lit == Some(m as int),
                None => !(lit is Some && i64::MIN <= lit.unwrap() <= i64::MAX),
            }
        }),
{
    match parse_i128_chars(v) {
        Some(n) => {
            if n >= i64::MIN as i128 && n <= i64::MAX as i128 {
                Some(n as i64)
            } else {
                None
            }
        },
        None => None,
    }
}

// --- timestamps ---------------------------------------------------------

/// An instant: seconds since the Unix epoch plus sub-second nanoseconds.
#[derive(Clone, Copy, PartialEq, Eq, Structural, Hash, Debug)]
pub struct Timestamp {
    pub secs: i64,
    pub nanos: u32,
}

/// The last second of the calendar range the service stores (the upper bound
/// of the chrono `DateTime<Utc>` range, year 262142).
pub const MAX_INSTANT_SECS: i64 = 8_210_266_876_799;

/// The largest nanosecond count accepted by the time codec.
pub const MAX_INSTANT_NANOS: i128 = 8_210_266_876_799_999_999_999;

impl Timestamp {
    /// Sub-second part in range.
    pub open spec fn wf(self) -> bool {
        self.nanos < 1_000_000_000
    }

    /// The instant as nanoseconds since the epoch.
    pub open spec fn as_nanos(self) -> int {
        self.secs * 1_000_000_000 + self.nanos
    }
}

/// The instant a positive nanosecond count denotes.
pub open spec fn ts_of_nanos(n: int) -> Timestamp {
    Timestamp { secs: (n / 1_000_000_000) as i64, nanos: (n % 1_000_000_000) as u32 }
}

/// Strict order on instants: seconds, then sub-second nanoseconds.
pub open spec fn ts_lt(a: Timestamp, b: Timestamp) -> bool {
    a.secs < b.secs || (a.secs == b.secs && a.nanos < b.nanos)
}

/// Weak order on instants.
pub open spec fn ts_le(a: Timestamp, b: Timestamp) -> bool {
    a.secs < b.secs || (a.secs == b.secs && a.nanos <= b.nanos)
}

/// Compares two instants strictly.
pub fn ts_before(a: Timestamp, b: Timestamp) -> (r: bool)
    ensures
        r == ts_lt(a, b),
{
    a.secs < b.secs || (a.secs == b.secs && a.nanos < b.nanos)
}

/// Parses an unsigned-nanosecond string into an instant. Absent exactly when
/// the trimmed text is no integer literal, or its value is zero or negative
/// ("unset"), or it lies beyond the calendar range.
pub fn parse_unix_nano(s: &str) -> (r: Option<Timestamp>)
    ensures
        ({
            let lit = int_literal_value(trim_spaces(s@));
            match r {
                Some(ts) => lit is Some && 0 < lit.unwrap() <= MAX_INSTANT_NANOS
                    && ts.wf() && ts.as_nanos() == lit.unwrap() && ts == ts_of_nanos(lit.unwrap()),
                None => !(lit is Some && 0 < lit.unwrap() <= MAX_INSTANT_NANOS),
            }
        }),
{
    let chars = str_chars(s);
    let t = trim_chars(&chars);
    let n = match parse_i128_chars(&t) {
        Some(n) => n,
        None => {
            return None;
        },
    };
    if n <= 0 || n > MAX_INSTANT_NANOS {
        return None;
    }
    let m = n as u128;
    let secs = (m / 1_000_000_000) as i64;
    let nanos = (m % 1_000_000_000) as u32;
    proof {
        vstd::arithmetic::div_mod::lemma_fundamental_div_mod(m as int, 1_000_000_000);
        assert(m / 1_000_000_000 <= (MAX_INSTANT_NANOS as u128) / 1_000_000_000) by {
            vstd::arithmetic::div_mod::lemma_div_is_ordered(
                m as int, MAX_INSTANT_NANOS as int, 1_000_000_000);
        }
    }
    Some(Timestamp { secs, nanos })
}

// --- canonical identifier text -------------------------------------------

/// One lower-case hex digit.
pub open spec fn hex_char(n: u8) -> char {
    if n < 10 {
        ((48 + n) as u8) as char
    } else {
        ((87 + n) as u8) as char
    }
}

/// The two hex digits of a byte.
pub open spec fn hex_pair(b: u8) -> Seq<char> {
    seq![hex_char(b / 16), hex_char(b % 16)]
}

/// The lower-case hex text of a byte string.
pub open spec fn hex_str(bytes: Seq<u8>) -> Seq<char>
    decreases bytes.len(),
{
    if bytes.len() == 0 {
        Seq::empty()
    } else {
        hex_pair(bytes.first()) + hex_str(bytes.drop_first())
    }
}

/// The canonical hyphenated text of a 16-byte identifier:
/// 8-4-4-4-12 lower-case hex digits.
pub open spec fn uuid_hyphenated_of_bytes(bytes: Seq<u8>) -> Seq<char> {
    let h = hex_str(bytes);
    h.subrange(0, 8) + seq!['-'] + h.subrange(8, 12) + seq!['-'] + h.subrange(12, 16)
        + seq!['-'] + h.subrange(16, 20) + seq!['-'] + h.subrange(20, 32)
}

/// The `n` low-order base-256 digits of a number, most significant first.
pub open spec fn nat_bytes(v: nat, n: nat) -> Seq<u8>
    decreases n,
{
    if n == 0 {
        Seq::empty()
    } else {
        nat_bytes(v / 256, (n - 1) as nat).push((v % 256) as u8)
    }
}

/// The canonical hyphenated text of an identifier value.
pub open spec fn uuid_string_of(v: u128) -> Seq<char> {
    uuid_hyphenated_of_bytes(nat_bytes(v as nat, 16))
}

proof fn lemma_nat_bytes_val(v: nat, n: nat)
    ensures
        nat_bytes(v, n).len() == n,
        be_val(nat_bytes(v, n)) == v % pow256(n),
    decreases n,
{
    if n == 0 {
        assert(pow256(0nat) == 1nat);
        assert(v % 1nat == 0) by (nonlinear_arith);
    } else {
        lemma_nat_bytes_val(v / 256, (n - 1) as nat);
        lemma_pow256_increases(0nat, (n - 1) as nat);
        assert(pow256((n - 1) as nat) >= 1);
        let rest = nat_bytes(v / 256, (n - 1) as nat);
        assert(rest.push((v % 256) as u8).drop_last() =~= rest);
        assert(rest.push((v % 256) as u8).last() == (v % 256) as u8);
        vstd::arithmetic::div_mod::lemma_breakdown(v as int, 256, pow256((n - 1) as nat) as int);
        assert(256 * pow256((n - 1) as nat) == pow256(n));
        assert(v % pow256(n) == 256 * ((v / 256) % pow256((n - 1) as nat)) + v % 256);
        assert(be_val(nat_bytes(v, n)) == be_val(rest) * 256 + v % 256);
    }
}

proof fn lemma_hex_str_snoc(bytes: Seq<u8>, i: int)
    requires
        0 <= i < bytes.len(),
    ensures
        hex_str(bytes.take(i + 1)) == hex_str(bytes.take(i)) + hex_pair(bytes[i]),
    decreases i,
{
    if i == 0 {
        assert(bytes.take(1).first() == bytes[0]);
        assert(bytes.take(1).drop_first() =~= Seq::<u8>::empty());
        assert(hex_str(bytes.take(0)) =~= Seq::<char>::empty());
        assert(hex_str(bytes.take(1).drop_first()) =~= Seq::<char>::empty());
        assert(hex_str(bytes.take(1)) == hex_pair(bytes.take(1).first()) + hex_str(
            bytes.take(1).drop_first(),
        ));
        assert(hex_str(bytes.take(1)) =~= hex_str(bytes.take(0)) + hex_pair(bytes[0]));
    } else {
        lemma_hex_str_snoc(bytes.drop_first(), i - 1);
        assert(bytes.take(i + 1).first() == bytes[0]);
        assert(bytes.take(i + 1).drop_first() =~= bytes.drop_first().take(i));
        assert(bytes.take(i).first() == bytes[0]);
        assert(bytes.take(i).drop_first() =~= bytes.drop_first().take(i - 1));
        assert(bytes.drop_first()[i - 1] == bytes[i]);
        assert(hex_str(bytes.take(i + 1)) =~= hex_str(bytes.take(i)) + hex_pair(bytes[i]));
    }
}

fn hex_digit_char(n: u8) -> (r: char)
    requires
        n < 16,
    ensures
        r == hex_char(n),
{
    if n < 10 {
        (48 + n) as char
    } else {
        (87 + n) as char
    }
}

fn push_subrange(dst: &mut Vec<char>, src: &Vec<char>, from: usize, to: usize)
    requires
        from <= to <= src@.len(),
    ensures
        final(dst)@ == old(dst)@ + src@.subrange(from as int, to as int),
{
    let mut i: usize = from;
    proof {
        assert(old(dst)@ + src@.subrange(from as int, from as int) =~= old(dst)@);
    }
    while i < to
        invariant
            from <= i <= to <= src@.len(),
            dst@ == old(dst)@ + src@.subrange(from as int, i as int),
        decreases to - i,
    {
        dst.push(src[i]);
        proof {
            assert(dst@ =~= old(dst)@ + src@.subrange(from as int, i + 1));
        }
        i = i + 1;
    }
}

impl UuidVal {
    /// The canonical hyphenated text of this identifier.
    pub fn hyphenated(&self) -> (r: String)
        ensures
            r@ == uuid_string_of(self.value),
    {
        let bytes = self.to_bytes();
        proof {
            lemma_nat_bytes_val(self.value as nat, 16nat);
            assert(pow256(16nat) == 0x1_0000_0000_0000_0000_0000_0000_0000_0000nat) by {
                reveal_with_fuel(pow256, 17);
            }
            vstd::arithmetic::div_mod::lemma_small_mod(
                self.value as nat,
                pow256(16nat),
            );
            lemma_be_val_injective(bytes@, nat_bytes(self.value as nat, 16nat));
        }
        let mut hex: Vec<char> = Vec::new();
        let mut i: usize = 0;
        proof {
            assert(hex@ =~= hex_str(bytes@.take(0)));
        }
        while i < 16
            invariant
                0 <= i <= 16,
                bytes@.len() == 16,
                hex@ == hex_str(bytes@.take(i as int)),
                hex@.len() == 2 * i,
            decreases 16 - i,
        {
            proof {
                lemma_hex_str_snoc(bytes@, i as int);
            }
            let b = bytes[i];
            hex.push(hex_digit_char(b / 16));
            hex.push(hex_digit_char(b % 16));
            proof {
                assert(hex@ =~= hex_str(bytes@.take(i as int)) + hex_pair(bytes@[i as int]));
            }
            i = i + 1;
        }
        proof {
            assert(bytes@.take(16) =~= bytes@);
        }
        let mut out: Vec<char> = Vec::new();
        push_subrange(&mut out, &hex, 0, 8);
        out.push('-');
        push_subrange(&mut out, &hex, 8, 12);
        out.push('-');
        push_subrange(&mut out, &hex, 12, 16);
        out.push('-');
        push_subrange(&mut out, &hex, 16, 20);
        out.push('-');
        push_subrange(&mut out, &hex, 20, 32);
        proof {
            assert(out@ =~= uuid_hyphenated_of_bytes(bytes@));
        }
        crate::text::string_from_chars(&out)
    }
}

} // verus!
