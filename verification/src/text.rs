//! Text: its bytes, and building messages out of literals and numbers.

use vstd::prelude::*;
#[allow(unused_imports)]
use vstd::utf8::{decode_utf8, encode_utf8, valid_utf8};

verus! {

/// The character that stands for digit `d` (0..=15, lower case).
pub open spec fn digit_char(d: int) -> char {
    if d < 10 {
        (('0' as u32) + d) as char
    } else {
        (('a' as u32) + (d - 10)) as char
    }
}

/// The digits of `n` in the given base, most significant first, without
/// leading zeros (`0` is the single digit zero).
pub open spec fn numeral(n: nat, base: nat) -> Seq<char>
    recommends
        base >= 2,
    decreases n,
{
    if n < base || base < 2 {
        seq![digit_char(n as int)]
    } else {
        proof {
            assert(n / base < n) by (nonlinear_arith)
                requires
                    n >= base,
                    base >= 2,
            ;
        }
        numeral(n / base, base).push(digit_char((n % base) as int))
    }
}

/// `n` in decimal.
pub open spec fn decimal(n: nat) -> Seq<char> {
    numeral(n, 10)
}

/// The low `width` hexadecimal digits of `n`, zero-padded.
pub open spec fn fixed_hex(n: nat, width: nat) -> Seq<char>
    decreases width,
{
    if width == 0 {
        Seq::empty()
    } else {
        fixed_hex(n / 16, (width - 1) as nat).push(digit_char((n % 16) as int))
    }
}

fn digit_str(d: u64) -> (s: &'static str)
    requires
        d < 16,
    ensures
        s@ == seq![digit_char(d as int)],
{
    proof {
        reveal_strlit("0");
        reveal_strlit("1");
        reveal_strlit("2");
        reveal_strlit("3");
        reveal_strlit("4");
        reveal_strlit("5");
        reveal_strlit("6");
        reveal_strlit("7");
        reveal_strlit("8");
        reveal_strlit("9");
        reveal_strlit("a");
        reveal_strlit("b");
        reveal_strlit("c");
        reveal_strlit("d");
        reveal_strlit("e");
        reveal_strlit("f");
    }
    match d {
        0 => "0",
        1 => "1",
        2 => "2",
        3 => "3",
        4 => "4",
        5 => "5",
        6 => "6",
        7 => "7",
        8 => "8",
        9 => "9",
        10 => "a",
        11 => "b",
        12 => "c",
        13 => "d",
        14 => "e",
        _ => "f",
    }
}

fn numeral_text(n: u64, base: u64) -> (s: String)
    requires
        2 <= base <= 16,
    ensures
        s@ == numeral(n as nat, base as nat),
    decreases n,
{
    if n < base {
        digit_str(n).to_owned()
    } else {
        proof {
            assert(n / base < n) by (nonlinear_arith)
                requires
                    n >= base,
                    base >= 2,
            ;
        }
        let head = numeral_text(n / base, base);
        let out = cat(head.as_str(), digit_str(n % base));
        assert(out@ =~= numeral(n as nat, base as nat));
        out
    }
}

/// `n` in decimal.
pub fn decimal_text(n: u64) -> (s: String)
    ensures
        s@ == decimal(n as nat),
{
    numeral_text(n, 10)
}

/// `n` in lower-case hexadecimal, without a prefix or leading zeros.
pub fn hex_text(n: u64) -> (s: String)
    ensures
        s@ == numeral(n as nat, 16),
{
    numeral_text(n, 16)
}

/// The low `width` hexadecimal digits of `n`, zero-padded.
pub fn fixed_hex_text(n: u64, width: u8) -> (s: String)
    ensures
        s@ == fixed_hex(n as nat, width as nat),
    decreases width,
{
    if width == 0 {
        String::new()
    } else {
        let head = fixed_hex_text(n / 16, width - 1);
        let out = cat(head.as_str(), digit_str(n % 16));
        assert(out@ =~= fixed_hex(n as nat, width as nat));
        out
    }
}

/// `a` followed by `b`.
pub fn cat(a: &str, b: &str) -> (s: String)
    ensures
        s@ == a@ + b@,
{
    a.to_owned().concat(b)
}

/// `a`, `b` and `c` in a row.
pub fn cat3(a: &str, b: &str, c: &str) -> (s: String)
    ensures
        s@ == a@ + b@ + c@,
{
    a.to_owned().concat(b).concat(c)
}

/// `a`, `b`, `c` and `d` in a row.
pub fn cat4(a: &str, b: &str, c: &str, d: &str) -> (s: String)
    ensures
        s@ == a@ + b@ + c@ + d@,
{
    a.to_owned().concat(b).concat(c).concat(d)
}

/// `a`, `b`, `c`, `d` and `e` in a row.
pub fn cat5(a: &str, b: &str, c: &str, d: &str, e: &str) -> (s: String)
    ensures
        s@ == a@ + b@ + c@ + d@ + e@,
{
    a.to_owned().concat(b).concat(c).concat(d).concat(e)
}

/// Whether two texts are the same.
pub fn same_text(a: &str, b: &str) -> (same: bool)
    ensures
        same == (a@ == b@),
{
    broadcast use vstd::utf8::encode_utf8_decode_utf8;

    let x = a.as_bytes();
    let y = b.as_bytes();
    if x.len() != y.len() {
        return false;
    }
    let mut i: usize = 0;
    while i < x.len()
        invariant
            i <= x@.len(),
            x@.len() == y@.len(),
            x@ == encode_utf8(a@),
            y@ == encode_utf8(b@),
            forall|k: int| 0 <= k < i ==> x@[k] == y@[k],
        decreases x@.len() - i,
    {
        if x[i] != y[i] {
            return false;
        }
        i = i + 1;
    }
    assert(x@ =~= y@);
    assert(decode_utf8(encode_utf8(a@)) == decode_utf8(encode_utf8(b@)));
    true
}

/// The words in which the standard library rejects bytes that are no UTF-8.
pub uninterp spec fn utf8_fault_text(bytes: Seq<u8>) -> Seq<char>;

/// The text that `bytes` encode, by `std::str::from_utf8`. It succeeds exactly
/// on valid UTF-8, and the text's encoding is `bytes` again. The error is that
/// function's own text for these bytes.
#[verifier::external_body]
pub(crate) fn utf8_text(bytes: &[u8]) -> (r: core::result::Result<String, String>)
    ensures
        match r {
            Ok(s) => valid_utf8(bytes@) && encode_utf8(s@) == bytes@,
            Err(e) => !valid_utf8(bytes@) && e@ == utf8_fault_text(bytes@),
        },
{
    match std::str::from_utf8(bytes) {
        Ok(s) => Ok(s.to_owned()),
        Err(e) => Err(e.to_string()),
    }
}

/// A text in quotes, with escapes, as the standard library shows it for
/// debugging.
pub uninterp spec fn quoted(s: Seq<char>) -> Seq<char>;

/// `s` in quotes, by the `Debug` formatting of `str`.
#[verifier::external_body]
pub(crate) fn quoted_text(s: &str) -> (r: String)
    ensures
        r@ == quoted(s@),
{
    format!("{:?}", s)
}

/// The text that the standard library makes of bytes, valid or not.
pub uninterp spec fn lossy(bytes: Seq<u8>) -> Seq<char>;

/// The text that `bytes` encode, by `String::from_utf8_lossy`, which puts a
/// replacement character for what is no UTF-8. Valid UTF-8 is decoded as it is;
/// what becomes of other bytes is named, not stated.
#[verifier::external_body]
pub(crate) fn lossy_text(bytes: &[u8]) -> (s: String)
    ensures
        s@ == lossy(bytes@),
        valid_utf8(bytes@) ==> s@ == decode_utf8(bytes@),
{
    String::from_utf8_lossy(bytes).into_owned()
}

/// Whether `c` is a decimal digit.
pub open spec fn is_digit(c: char) -> bool {
    '0' <= c <= '9'
}

/// The number that decimal digits write.
pub open spec fn decimal_value(s: Seq<char>) -> nat
    decreases s.len(),
{
    if s.len() == 0 {
        0
    } else {
        10 * decimal_value(s.drop_last()) + (s.last() as int - '0' as int) as nat
    }
}

/// The 16-bit number that a text is: an optional plus sign followed by one or
/// more decimal digits and nothing else.
pub open spec fn port_in(s: Seq<char>) -> Option<u16> {
    let digits = without_plus(s);
    if digits.len() > 0 && all_digits(digits) && decimal_value(digits) <= u16::MAX {
        Some(decimal_value(digits) as u16)
    } else {
        None
    }
}

/// A text without the plus sign that it may start with.
pub open spec fn without_plus(s: Seq<char>) -> Seq<char> {
    if s.len() > 0 && s[0] == '+' {
        s.subrange(1, s.len() as int)
    } else {
        s
    }
}

/// Whether a text holds decimal digits only.
pub open spec fn all_digits(s: Seq<char>) -> bool {
    forall|i: int| 0 <= i < s.len() ==> is_digit(#[trigger] s[i])
}

/// The words in which the standard library rejects a text that is no 16-bit
/// number.
pub uninterp spec fn port_fault_text(s: Seq<char>) -> Seq<char>;

/// The 16-bit number that `s` is, by `str::parse::<u16>`. It succeeds exactly on
/// an optional plus sign and decimal digits whose value fits. The error is that
/// function's own text for `s`.
#[verifier::external_body]
pub(crate) fn port_number(s: &str) -> (r: core::result::Result<u16, String>)
    ensures
        match r {
            Ok(n) => port_in(s@) == Some(n),
            Err(e) => port_in(s@) is None && e@ == port_fault_text(s@),
        },
{
    match s.parse::<u16>() {
        Ok(n) => Ok(n),
        Err(e) => Err(e.to_string()),
    }
}

proof fn lemma_decimal_digits(n: nat)
    ensures
        decimal(n).len() > 0,
        forall|i: int| 0 <= i < decimal(n).len() ==> is_digit(#[trigger] decimal(n)[i]),
        decimal_value(decimal(n)) == n,
    decreases n,
{
    let s = decimal(n);
    if n < 10 {
        assert(s =~= seq![digit_char(n as int)]);
        assert(s.drop_last() =~= Seq::empty());
        reveal_with_fuel(decimal_value, 2);
    } else {
        lemma_decimal_digits(n / 10);
        assert(s =~= decimal(n / 10).push(digit_char((n % 10) as int)));
        assert(s.drop_last() =~= decimal(n / 10));
    }
}

/// A number that was written in decimal is read back.
pub proof fn lemma_port_of_decimal(n: u16)
    ensures
        port_in(decimal(n as nat)) == Some(n),
        forall|i: int|
            0 <= i < decimal(n as nat).len() ==> is_digit(#[trigger] decimal(n as nat)[i]),
{
    lemma_decimal_digits(n as nat);
    let s = decimal(n as nat);
    assert(is_digit(s[0]));
}

/// A number in decimal is made of digits, the first of which is no zero unless the number
/// is, and has the value of the number.
pub proof fn law_decimal_is_the_number(n: nat)
    ensures
        decimal(n).len() > 0,
        forall|i: int| 0 <= i < decimal(n).len() ==> '0' <= #[trigger] decimal(n)[i] <= '9',
        n > 0 ==> decimal(n)[0] != '0',
        n < 10 ==> decimal(n).len() == 1 && decimal(n)[0] as int == '0' as int + n,
        n >= 10 ==> decimal(n).drop_last() == decimal(n / 10) && decimal(n).last() as int
            == '0' as int + n % 10,
    decreases n,
{
    lemma_decimal_digits(n);
    if n >= 10 {
        law_decimal_is_the_number(n / 10);
        assert(decimal(n).drop_last() =~= decimal(n / 10));
        assert(decimal(n)[0] == decimal(n).drop_last()[0]);
    }
}

/// A number in hexadecimal has lower-case digits, the most significant first; where the
/// width is fixed there are so many.
pub proof fn law_hexadecimal_digits(n: nat, width: nat)
    ensures
        n < 10 ==> numeral(n, 16) == seq![('0' as int + n) as char],
        10 <= n < 16 ==> numeral(n, 16) == seq![('a' as int + n - 10) as char],
        n >= 16 ==> numeral(n, 16) == numeral(n / 16, 16) + numeral(n % 16, 16),
        fixed_hex(n, width).len() == width,
        width > 0 ==> fixed_hex(n, width) == fixed_hex(n / 16, (width - 1) as nat) + numeral(
            n % 16,
            16,
        ),
    decreases width,
{
    if width > 0 {
        law_hexadecimal_digits(n / 16, (width - 1) as nat);
        assert(fixed_hex(n, width) =~= fixed_hex(n / 16, (width - 1) as nat) + numeral(n % 16, 16));
    }
    if n >= 16 {
        assert(numeral(n, 16) =~= numeral(n / 16, 16) + numeral(n % 16, 16));
    }
}

proof fn lemma_leading_zero(s: Seq<char>)
    ensures
        decimal_value(seq!['0'] + s) == decimal_value(s),
    decreases s.len(),
{
    let z = seq!['0'] + s;
    if s.len() == 0 {
        assert(z.drop_last() =~= s);
    } else {
        lemma_leading_zero(s.drop_last());
        assert(z.drop_last() =~= seq!['0'] + s.drop_last());
    }
}

/// A port is written in digits, with or without a plus sign and leading zeros, and is at
/// most 65535; any other character makes it none.
pub proof fn law_ports(n: nat, s: Seq<char>, i: int)
    ensures
        n <= 65535 ==> port_in(decimal(n)) == Some(n as u16) && port_in(seq!['+'] + decimal(n))
            == Some(n as u16) && port_in(seq!['0'] + decimal(n)) == Some(n as u16),
        n > 65535 ==> port_in(decimal(n)) is None && port_in(seq!['+'] + decimal(n)) is None,
        port_in(Seq::empty()) is None,
        port_in(seq!['+']) is None,
        0 <= i < s.len() && !('0' <= s[i] <= '9') && (i > 0 || s[i] != '+') ==> port_in(s) is None,
{
    lemma_decimal_digits(n);
    let d = decimal(n);
    assert(is_digit(d[0]));
    assert(without_plus(seq!['+'] + d) =~= d);
    lemma_leading_zero(d);
    let z = seq!['0'] + d;
    assert forall|k: int| 0 <= k < z.len() implies is_digit(#[trigger] z[k]) by {
        if k > 0 {
            assert(z[k] == d[k - 1]);
        }
    }
    assert(without_plus(seq!['+']) =~= Seq::empty());
    if 0 <= i < s.len() && !is_digit(s[i]) && (i > 0 || s[i] != '+') {
        let w = without_plus(s);
        if s[0] == '+' {
            assert(w[i - 1] == s[i]);
        } else {
            assert(w[i] == s[i]);
        }
    }
}

/// Numbers are written with their digits, texts are joined in order, and two texts are the
/// same if their characters are.
pub proof fn law_texts(
    n: u64,
    width: u8,
    a: &str,
    b: &str,
    d: String,
    h: String,
    f: String,
    ab: String,
    same: bool,
)
    requires
        call_ensures(decimal_text, (n,), d),
        call_ensures(hex_text, (n,), h),
        call_ensures(fixed_hex_text, (n, width), f),
        call_ensures(cat, (a, b), ab),
        call_ensures(same_text, (a, b), same),
    ensures
        d@ == decimal(n as nat),
        h@ == numeral(n as nat, 16),
        f@ == fixed_hex(n as nat, width as nat),
        ab@ == a@ + b@,
        same <==> a@ == b@,
{
}

} // verus!
