//! Text encodings shared by client and server: lowercase hexadecimal and
//! decimal renderings of numbers and bytes, and the password derivation.
use vstd::prelude::*;
use vstd::string::{StringExecFns, StringSliceAdditionalSpecFns};

verus! {

/// The lowercase hexadecimal digit of `n` (`n < 16`).
pub open spec fn hex_digit(n: u8) -> char {
    if n < 10 {
        (48 + n) as char
    } else {
        (87 + n) as char
    }
}

/// The two lowercase hexadecimal digits of a byte, as `{:02x}` renders it.
pub open spec fn hex_byte(b: u8) -> Seq<char> {
    seq![hex_digit(b / 16), hex_digit(b % 16)]
}

/// The bytes rendered as lowercase hexadecimal, two digits each, with no separator.
pub open spec fn hex_lower(s: Seq<u8>) -> Seq<char>
    decreases s.len(),
{
    if s.len() == 0 {
        Seq::empty()
    } else {
        hex_lower(s.drop_last()) + hex_byte(s.last())
    }
}

/// The bytes rendered as two-digit lowercase hexadecimal, separated by commas.
pub open spec fn hex_comma_joined(s: Seq<u8>) -> Seq<char>
    decreases s.len(),
{
    if s.len() == 0 {
        Seq::empty()
    } else if s.len() == 1 {
        hex_byte(s[0])
    } else {
        hex_comma_joined(s.drop_last()) + seq![','] + hex_byte(s.last())
    }
}

/// Compares two strings by their UTF-8 bytes, which are equal exactly when
/// the characters are.
pub(crate) fn str_eq(a: &str, b: &str) -> (r: bool)
    ensures
        r == (a@ == b@),
{
    let x = a.as_bytes();
    let y = b.as_bytes();
    let mut same = x.len() == y.len();
    let mut i: usize = 0;
    while same && i < x.len()
        invariant
            x@ == a.spec_bytes(),
            y@ == b.spec_bytes(),
            same ==> x@.len() == y@.len(),
            same ==> forall|j: int| 0 <= j < i ==> x@[j] == y@[j],
            !same ==> x@ != y@,
            i <= x@.len(),
        decreases x@.len() - i, (if same { 1int } else { 0int }),
    {
        if x[i] != y[i] {
            same = false;
        } else {
            i = i + 1;
        }
    }
    proof {
        if same {
            assert(x@ =~= y@);
        }
        vstd::utf8::encode_utf8_decode_utf8(a@);
        vstd::utf8::encode_utf8_decode_utf8(b@);
    }
    same
}

/// The one-character string of the hexadecimal digit `n`.
pub fn hex_digit_str(n: u8) -> (r: &'static str)
    requires
        n < 16,
    ensures
        r@ == seq![hex_digit(n)],
{
    proof {
        reveal_strlit("0");
        reveal_strlit("1");
        reveal_strlit("2");
        reveal_strlit("3");
        reveal_strlit("4");
        reveal_strlit("5");
        reveal_strlit("6");
        reveal_strlit("7");
        reveal_strlit("8");
        reveal_strlit("9");
        reveal_strlit("a");
        reveal_strlit("b");
        reveal_strlit("c");
        reveal_strlit("d");
        reveal_strlit("e");
        reveal_strlit("f");
    }
    match n {
        0 => "0",
        1 => "1",
        2 => "2",
        3 => "3",
        4 => "4",
        5 => "5",
        6 => "6",
        7 => "7",
        8 => "8",
        9 => "9",
        10 => "a",
        11 => "b",
        12 => "c",
        13 => "d",
        14 => "e",
        _ => "f",
    }
}

/// Appends the two hexadecimal digits of `b` to `out`.
pub fn push_hex_byte(out: &mut String, b: u8)
    ensures
        final(out)@ == old(out)@ + hex_byte(b),
{
    out.append(hex_digit_str(b / 16));
    out.append(hex_digit_str(b % 16));
}

/// Renders bytes as lowercase hexadecimal with no separator (`{:x}` of a digest).
pub fn to_hex_lower(bytes: &[u8]) -> (r: String)
    ensures
        r@ == hex_lower(bytes@),
{
    let mut out = String::new();
    let n = bytes.len();
    let mut i: usize = 0;
    while i < n
        invariant
            n == bytes@.len(),
            i <= n,
            out@ == hex_lower(bytes@.subrange(0, i as int)),
        decreases n - i,
    {
        push_hex_byte(&mut out, bytes[i]);
        proof {
            let s = bytes@.subrange(0, i + 1);
            assert(s.drop_last() =~= bytes@.subrange(0, i as int));
        }
        i = i + 1;
    }
    assert(bytes@.subrange(0, n as int) =~= bytes@);
    out
}

/// Renders bytes as two-digit lowercase hexadecimal numbers joined by commas.
pub fn hex2str(hex: &[u8]) -> (r: String)
    ensures
        r@ == hex_comma_joined(hex@),
{
    let mut out = String::new();
    let n = hex.len();
    let mut i: usize = 0;
    while i < n
        invariant
            n == hex@.len(),
            i <= n,
            out@ == hex_comma_joined(hex@.subrange(0, i as int)),
        decreases n - i,
    {
        if i > 0 {
            out.append(",");
            proof {
                reveal_strlit(",");
            }
        }
        push_hex_byte(&mut out, hex[i]);
        proof {
            let s = hex@.subrange(0, i + 1);
            assert(s.drop_last() =~= hex@.subrange(0, i as int));
        }
        i = i + 1;
    }
    assert(hex@.subrange(0, n as int) =~= hex@);
    out
}

/// The decimal digit character of `n` (`n < 10`).
pub open spec fn dec_digit(n: nat) -> char {
    (48 + n) as char
}

/// The decimal rendering of a natural number, as `{}` prints an unsigned integer.
pub open spec fn dec_nat(n: nat) -> Seq<char>
    decreases n,
{
    if n < 10 {
        seq![dec_digit(n)]
    } else {
        dec_nat(n / 10) + seq![dec_digit(n % 10)]
    }
}

/// The decimal rendering of a signed integer, with a leading `-` when negative.
pub open spec fn dec_int(n: int) -> Seq<char> {
    if n < 0 {
        seq!['-'] + dec_nat((-n) as nat)
    } else {
        dec_nat(n as nat)
    }
}

/// The one-character string of the decimal digit `n`.
pub fn dec_digit_str(n: u64) -> (r: &'static str)
    requires
        n < 10,
    ensures
        r@ == seq![dec_digit(n as nat)],
{
    proof {
        reveal_strlit("0");
        reveal_strlit("1");
        reveal_strlit("2");
        reveal_strlit("3");
        reveal_strlit("4");
        reveal_strlit("5");
        reveal_strlit("6");
        reveal_strlit("7");
        reveal_strlit("8");
        reveal_strlit("9");
    }
    match n {
        0 => "0",
        1 => "1",
        2 => "2",
        3 => "3",
        4 => "4",
        5 => "5",
        6 => "6",
        7 => "7",
        8 => "8",
        _ => "9",
    }
}

/// Appends the decimal rendering of `n` to `out`.
pub fn push_decimal(out: &mut String, n: u64)
    ensures
        final(out)@ == old(out)@ + dec_nat(n as nat),
    decreases n,
{
    if n >= 10 {
        push_decimal(out, n / 10);
        out.append(dec_digit_str(n % 10));
        proof {
            assert(old(out)@ + dec_nat(n as nat) =~= old(out)@ + dec_nat((n / 10) as nat) + seq![dec_digit((n % 10) as nat)]);
        }
    } else {
        out.append(dec_digit_str(n));
    }
}

/// The decimal rendering of an unsigned integer (`to_string` of a `u64`).
pub fn u64_to_decimal(n: u64) -> (r: String)
    ensures
        r@ == dec_nat(n as nat),
{
    let mut out = String::new();
    push_decimal(&mut out, n);
    assert(out@ =~= dec_nat(n as nat));
    out
}

/// The decimal rendering of a signed integer (`to_string` of an `i64`).
pub fn i64_to_decimal(n: i64) -> (r: String)
    ensures
        r@ == dec_int(n as int),
{
    let mut out = String::new();
    if n < 0 {
        out.append("-");
        proof {
            reveal_strlit("-");
        }
        let m: u64 = ((-(n + 1)) as u64) + 1;
        push_decimal(&mut out, m);
        assert(out@ =~= dec_int(n as int));
    } else {
        push_decimal(&mut out, n as u64);
        assert(out@ =~= dec_int(n as int));
    }
    out
}

/// Whether a byte is an ASCII decimal digit.
pub open spec fn is_dec_digit(c: u8) -> bool {
    48 <= c <= 57
}

/// The number that a sequence of ASCII decimal digits spells.
pub open spec fn dec_value(d: Seq<u8>) -> nat
    decreases d.len(),
{
    if d.len() == 0 {
        0
    } else {
        dec_value(d.drop_last()) * 10 + (d.last() - 48) as nat
    }
}

/// The digits that std's integer parser reads: an optional leading `+` is
/// skipped, unless it is the whole text.
pub open spec fn unsigned_digits(s: Seq<u8>) -> Seq<u8> {
    if s.len() >= 2 && s[0] == 43 {
        s.drop_first()
    } else {
        s
    }
}

/// What `str::parse::<u16>` gives for text with bytes `s`.
pub open spec fn parse_u16_spec(s: Seq<u8>) -> Option<u16> {
    let d = unsigned_digits(s);
    if d.len() > 0 && (forall|i: int| 0 <= i < d.len() ==> is_dec_digit(#[trigger] d[i]))
        && dec_value(d) <= u16::MAX {
        Some(dec_value(d) as u16)
    } else {
        None
    }
}

proof fn lemma_dec_value_monotone(d: Seq<u8>, k: int)
    requires
        0 <= k <= d.len(),
        forall|i: int| 0 <= i < d.len() ==> is_dec_digit(#[trigger] d[i]),
    ensures
        dec_value(d.subrange(0, k)) <= dec_value(d),
    decreases d.len() - k,
{
    if k < d.len() {
        let t = d.subrange(0, k + 1);
        assert(t.drop_last() =~= d.subrange(0, k));
        lemma_dec_value_monotone(d, k + 1);
    } else {
        assert(d.subrange(0, k) =~= d);
    }
}

/// Parses a decimal `u16` as `str::parse::<u16>` does: an optional `+`, then
/// at least one ASCII digit, with a value no larger than `u16::MAX`.
pub fn parse_u16(s: &[u8]) -> (r: Option<u16>)
    ensures
        r == parse_u16_spec(s@),
{
    let n = s.len();
    let start: usize = if n >= 2 && s[0] == 43 { 1 } else { 0 };
    let ghost d = unsigned_digits(s@);
    assert(d =~= s@.subrange(start as int, n as int));
    if start >= n {
        return None;
    }
    let mut v: u32 = 0;
    let mut i: usize = start;
    while i < n
        invariant
            start <= i <= n,
            n == s@.len(),
            d =~= s@.subrange(start as int, n as int),
            d == unsigned_digits(s@),
            forall|j: int| 0 <= j < i - start ==> is_dec_digit(#[trigger] d[j]),
            v as nat == dec_value(d.subrange(0, i - start)),
            v <= 65535,
        decreases n - i,
    {
        let c = s[i];
        if c < 48 || c > 57 {
            assert(!is_dec_digit(d[i - start]));
            return None;
        }
        let ghost t = d.subrange(0, i - start + 1);
        proof {
            assert(t.drop_last() =~= d.subrange(0, i - start));
            assert(t.last() == c);
        }
        let nv: u32 = v * 10 + (c - 48) as u32;
        assert(nv as nat == dec_value(t));
        if nv > 65535 {
            proof {
                if forall|j: int| 0 <= j < d.len() ==> is_dec_digit(#[trigger] d[j]) {
                    lemma_dec_value_monotone(d, i - start + 1);
                }
            }
            return None;
        }
        v = nv;
        i = i + 1;
    }
    assert(d.subrange(0, n - start) =~= d);
    Some(v as u16)
}

/// The 16-byte password derived from `seed`: its bytes repeated cyclically.
pub open spec fn cycled_password(seed: Seq<u8>) -> Seq<u8> {
    Seq::new(16, |i: int| seed[i % seed.len() as int])
}

/// Derives the 16-byte data password from `seed` (an instance id or a
/// token) by repeating its bytes.
pub fn cycle_password(seed: &[u8]) -> (r: Vec<u8>)
    requires
        seed@.len() > 0,
    ensures
        r@ == cycled_password(seed@),
{
    let len = seed.len();
    let mut buf: Vec<u8> = Vec::new();
    let mut i: usize = 0;
    while i < 16
        invariant
            len == seed@.len(),
            len > 0,
            i <= 16,
            buf@.len() == i,
            forall|j: int| 0 <= j < i ==> buf@[j] == seed@[j % len as int],
        decreases 16 - i,
    {
        buf.push(seed[i % len]);
        i = i + 1;
    }
    assert(buf@ =~= cycled_password(seed@));
    buf
}

/// The characters of `hex_lower(s)`: two per byte, high digit first.
pub proof fn lemma_hex_lower_chars(s: Seq<u8>)
    ensures
        hex_lower(s).len() == 2 * s.len(),
        forall|k: int| 0 <= k < s.len() ==> #[trigger] hex_lower(s)[2 * k] == hex_digit(s[k] / 16)
            && hex_lower(s)[2 * k + 1] == hex_digit(s[k] % 16),
    decreases s.len(),
{
    if s.len() > 0 {
        lemma_hex_lower_chars(s.drop_last());
        let h = hex_lower(s);
        let p = hex_lower(s.drop_last());
        assert(h == p + hex_byte(s.last()));
        assert forall|k: int| 0 <= k < s.len() implies #[trigger] h[2 * k] == hex_digit(s[k] / 16)
            && h[2 * k + 1] == hex_digit(s[k] % 16) by {
            assert(p.len() == 2 * (s.len() - 1));
            if k < s.len() - 1 {
                assert(s.drop_last()[k] == s[k]);
                assert(h[2 * k] == p[2 * k]);
                assert(h[2 * k + 1] == p[2 * k + 1]);
            } else {
                assert(k == s.len() - 1);
                assert(h[2 * k] == hex_byte(s.last())[0]);
                assert(h[2 * k + 1] == hex_byte(s.last())[1]);
            }
        }
        assert(forall|k: int| 0 <= k < s.len() ==> #[trigger] hex_lower(s)[2 * k] == hex_digit(s[k] / 16)
            && hex_lower(s)[2 * k + 1] == hex_digit(s[k] % 16));
    }
}

/// A lowercase hexadecimal digit: `0`-`9` or `a`-`f`.
pub open spec fn is_lower_hex_char(c: char) -> bool {
    (48 <= (c as u32) <= 57) || (97 <= (c as u32) <= 102)
}

/// The lowercase hexadecimal rendering of `s` has two digits per byte, each
/// `0`-`9` or `a`-`f`.
pub proof fn lemma_hex_lower_is_lower_hex(s: Seq<u8>)
    ensures
        hex_lower(s).len() == 2 * s.len(),
        forall|i: int| 0 <= i < hex_lower(s).len() ==> is_lower_hex_char(#[trigger] hex_lower(s)[i]),
{
    lemma_hex_lower_chars(s);
    assert forall|i: int| 0 <= i < hex_lower(s).len() implies is_lower_hex_char(#[trigger] hex_lower(s)[i]) by {
        let k = i / 2;
        assert(i == 2 * k || i == 2 * k + 1);
        assert(hex_lower(s)[2 * k] == hex_digit(s[k] / 16));
        assert(hex_lower(s)[2 * k + 1] == hex_digit(s[k] % 16));
    }
}

/// The value that ASCII decimal text gives, extended by one more digit.
proof fn lemma_dec_value_push(d: Seq<u8>, c: u8)
    ensures
        dec_value(d.push(c)) == dec_value(d) * 10 + (c - 48) as nat,
{
    assert(d.push(c).drop_last() =~= d);
}

/// The bytes of the decimal rendering of `n`.
pub open spec fn dec_bytes(n: nat) -> Seq<u8>
    decreases n,
{
    if n < 10 {
        seq![(48 + n) as u8]
    } else {
        dec_bytes(n / 10).push((48 + n % 10) as u8)
    }
}

/// The decimal rendering of `n` is ASCII text whose bytes are `dec_bytes(n)`,
/// all decimal digits, spelling `n`.
pub proof fn lemma_dec_bytes(n: nat)
    ensures
        vstd::utf8::encode_utf8(dec_nat(n)) == dec_bytes(n),
        dec_bytes(n).len() > 0,
        forall|i: int| 0 <= i < dec_bytes(n).len() ==> is_dec_digit(#[trigger] dec_bytes(n)[i]),
        dec_value(dec_bytes(n)) == n,
    decreases n,
{
    lemma_dec_is_ascii(n);
    vstd::utf8::is_ascii_chars_encode_utf8(dec_nat(n));
    if n < 10 {
        assert(dec_bytes(n).drop_last() =~= Seq::<u8>::empty());
        assert(vstd::utf8::encode_utf8(dec_nat(n)) =~= dec_bytes(n));
        assert(dec_bytes(n).last() == (48 + n) as u8);
        assert(((48 + n) as u8 - 48) as nat == n);
        let d = dec_bytes(n);
        assert(d.len() == 1);
        assert(dec_value(d.drop_last()) == 0) by {
            assert(d.drop_last() =~= Seq::<u8>::empty());
        }
        assert(dec_value(d) == dec_value(d.drop_last()) * 10 + (d.last() - 48) as nat);
    } else {
        lemma_dec_bytes(n / 10);
        lemma_dec_value_push(dec_bytes(n / 10), (48 + n % 10) as u8);
        assert((((48 + n % 10) as u8) - 48) as nat == n % 10);
        assert(dec_value(dec_bytes(n)) == (n / 10) * 10 + n % 10);
        assert(dec_value(dec_bytes(n)) == n);
        lemma_dec_is_ascii(n / 10);
        vstd::utf8::is_ascii_chars_encode_utf8(dec_nat(n / 10));
        let e = vstd::utf8::encode_utf8(dec_nat(n));
        let e2 = vstd::utf8::encode_utf8(dec_nat(n / 10));
        assert forall|i: int| 0 <= i < e.len() implies e[i] == dec_bytes(n)[i] by {
            if i < e.len() - 1 {
                assert(dec_nat(n)[i] == dec_nat(n / 10)[i]);
                assert(e2[i] == dec_nat(n / 10)[i] as u8);
            }
        }
        assert(e =~= dec_bytes(n));
        assert forall|i: int| 0 <= i < dec_bytes(n).len() implies is_dec_digit(#[trigger] dec_bytes(n)[i]) by {
            if i < dec_bytes(n).len() - 1 {
                assert(dec_bytes(n)[i] == dec_bytes(n / 10)[i]);
            }
        }
    }
}

proof fn lemma_dec_is_ascii(n: nat)
    ensures
        vstd::utf8::is_ascii_chars(dec_nat(n)),
        dec_nat(n).len() > 0,
        forall|i: int| 0 <= i < dec_nat(n).len() ==> 48 <= #[trigger] (dec_nat(n)[i] as u32) <= 57,
    decreases n,
{
    if n >= 10 {
        lemma_dec_is_ascii(n / 10);
        assert forall|i: int| 0 <= i < dec_nat(n).len() implies 48 <= #[trigger] (dec_nat(n)[i] as u32) <= 57 by {
            if i < dec_nat(n).len() - 1 {
                assert(dec_nat(n)[i] == dec_nat(n / 10)[i]);
            }
        }
    }
}

/// A port written in decimal by the client (`to_string`) is read back by the
/// server's `str::parse::<u16>` as the same port.
pub proof fn lemma_port_text_roundtrip(p: u16)
    ensures
        parse_u16_spec(vstd::utf8::encode_utf8(dec_nat(p as nat))) == Some(p),
{
    lemma_dec_bytes(p as nat);
    let b = dec_bytes(p as nat);
    assert(b[0] != 43);
    assert(unsigned_digits(b) == b);
}

} // verus!
