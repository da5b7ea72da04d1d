//! The text side of `veil` and `reply`: the port a veil listens on when it is
//! given as text, and the HTTP response a reply sends.
use vstd::prelude::*;
use crate::lexer::{str_chars, string_from_chars};
use crate::text::append_chars;

verus! {

pub open spec fn is_digit(c: char) -> bool {
    '0' <= c && c <= '9'
}

pub open spec fn digit_value(c: char) -> nat {
    ((c as u32) - ('0' as u32)) as nat
}

/// The number that a run of decimal digits writes.
pub open spec fn digits_value(s: Seq<char>) -> nat
    decreases s.len(),
{
    if s.len() == 0 {
        0
    } else {
        digits_value(s.drop_last()) * 10 + digit_value(s.last())
    }
}

pub open spec fn all_digits(s: Seq<char>) -> bool {
    forall|i: int| 0 <= i < s.len() ==> is_digit(#[trigger] s[i])
}

/// What std's `str::parse::<u16>` accepts: an optional `+`, then at least one
/// decimal digit, for a value that fits in 16 bits.
pub open spec fn parse_u16_spec(s: Seq<char>) -> Option<u16> {
    let d = if s.len() > 0 && s[0] == '+' {
        s.drop_first()
    } else {
        s
    };
    if d.len() > 0 && all_digits(d) && digits_value(d) <= 65535 {
        Some(digits_value(d) as u16)
    } else {
        None
    }
}

/// The port of a veil given as text: the number it writes, else 8080.
pub open spec fn port_from_text_spec(s: Seq<char>) -> u16 {
    match parse_u16_spec(s) {
        Some(p) => p,
        None => 8080,
    }
}

/// The number a text writes as a 16-bit port, if it writes one.
pub fn parse_u16(text: &str) -> (r: Option<u16>)
    ensures
        r == parse_u16_spec(text@),
{
    let s = str_chars(text);
    let mut i: usize = 0;
    if s.len() > 0 && s[0] == '+' {
        i = 1;
    }
    let ghost d = s@.skip(i as int);
    assert(d =~= (if s@.len() > 0 && s@[0] == '+' {
        s@.drop_first()
    } else {
        s@
    }));
    let start = i;
    let mut acc: u32 = 0;
    let mut big = false;
    while i < s.len()
        invariant
            start <= i <= s.len(),
            d == s@.skip(start as int),
            s@ == text@,
            d == (if s@.len() > 0 && s@[0] == '+' {
                s@.drop_first()
            } else {
                s@
            }),
            all_digits(s@.subrange(start as int, i as int)),
            !big ==> acc == digits_value(s@.subrange(start as int, i as int)),
            big ==> digits_value(s@.subrange(start as int, i as int)) > 65535,
            acc <= 65535,
        decreases s.len() - i,
    {
        let c = s[i];
        let ghost pre = s@.subrange(start as int, i as int);
        assert(s@.subrange(start as int, i + 1) =~= pre.push(c));
        assert(pre.push(c).drop_last() =~= pre);
        if !('0' <= c && c <= '9') {
            assert(!all_digits(d)) by {
                assert(d[i - start] == c);
                assert(!is_digit(d[i - start]));
            }
            assert(d.len() > 0);
            return None;
        }
        let dv = (c as u32) - ('0' as u32);
        if !big {
            let next = acc * 10 + dv;
            if next > 65535 {
                big = true;
            } else {
                acc = next;
            }
        }
        i = i + 1;
    }
    assert(s@.subrange(start as int, i as int) =~= d);
    if i == start || big {
        None
    } else {
        Some(acc as u16)
    }
}

/// The port of a veil given as text: the number it writes, else 8080.
pub fn port_from_text(text: &str) -> (p: u16)
    ensures
        p == port_from_text_spec(text@),
{
    match parse_u16(text) {
        Some(p) => p,
        None => 8080,
    }
}

/// The decimal digit for `d` (below 10).
pub open spec fn digit_char(d: nat) -> char {
    seq!['0', '1', '2', '3', '4', '5', '6', '7', '8', '9'][d as int]
}

/// `n` written in decimal.
pub open spec fn decimal(n: nat) -> Seq<char>
    decreases n,
{
    if n < 10 {
        seq![digit_char(n)]
    } else {
        decimal(n / 10).push(digit_char(n % 10))
    }
}

proof fn lemma_digit_char(d: nat)
    requires
        d < 10,
    ensures
        is_digit(digit_char(d)),
        digit_value(digit_char(d)) == d,
{
    let ds = seq!['0', '1', '2', '3', '4', '5', '6', '7', '8', '9'];
    assert(('0' as u32) == 48 && ('1' as u32) == 49 && ('2' as u32) == 50 && ('3' as u32) == 51);
    assert(('4' as u32) == 52 && ('5' as u32) == 53 && ('6' as u32) == 54 && ('7' as u32) == 55);
    assert(('8' as u32) == 56 && ('9' as u32) == 57);
    assert(digit_char(d) == ds[d as int]);
}

/// `decimal(n)` is the base-10 numeral of `n`: it is made of digits only,
/// reads back as `n`, and has no leading zero unless `n` is zero.
pub proof fn law_decimal_reads_back(n: nat)
    ensures
        all_digits(decimal(n)),
        digits_value(decimal(n)) == n,
        decimal(n).len() > 0,
        decimal(n)[0] == '0' ==> n == 0,
    decreases n,
{
    if n < 10 {
        lemma_digit_char(n);
        let s = decimal(n);
        assert(s.drop_last() =~= Seq::<char>::empty());
        assert(digits_value(Seq::<char>::empty()) == 0);
        if s[0] == '0' {
            assert(('0' as u32) == 48);
            assert(digit_value(s[0]) == 0);
        }
    } else {
        law_decimal_reads_back(n / 10);
        lemma_digit_char(n % 10);
        let s = decimal(n);
        let t = decimal(n / 10);
        assert(s == t.push(digit_char(n % 10)));
        assert(s.drop_last() =~= t);
        assert(all_digits(s)) by {
            assert forall|i: int| 0 <= i < s.len() implies is_digit(#[trigger] s[i]) by {
                if i < t.len() {
                    assert(s[i] == t[i]);
                }
            }
        }
        assert(digits_value(s) == digits_value(t) * 10 + digit_value(digit_char(n % 10)));
        assert((n / 10) * 10 + n % 10 == n) by (nonlinear_arith);
        assert(s[0] == t[0]);
        assert(n / 10 > 0) by (nonlinear_arith)
            requires
                n >= 10,
        ;
    }
}

/// A port written in decimal reads back as that port.
pub proof fn law_port_text_round_trip(p: u16)
    ensures
        parse_u16_spec(decimal(p as nat)) == Some(p),
        port_from_text_spec(decimal(p as nat)) == p,
{
    law_decimal_reads_back(p as nat);
    let s = decimal(p as nat);
    assert(s[0] != '+') by {
        assert(is_digit(s[0]));
    }
}

/// A number too large for a port is refused: its decimal text parses to
/// nothing, and a veil given that text listens on 8080.
pub proof fn law_port_text_too_large(n: nat)
    requires
        n > 65535,
    ensures
        parse_u16_spec(decimal(n)) is None,
        port_from_text_spec(decimal(n)) == 8080,
{
    law_decimal_reads_back(n);
    let s = decimal(n);
    assert(s[0] != '+') by {
        assert(is_digit(s[0]));
    }
}

fn digit_char_exec(d: usize) -> (c: char)
    requires
        d < 10,
    ensures
        c == digit_char(d as nat),
{
    let digits = ['0', '1', '2', '3', '4', '5', '6', '7', '8', '9'];
    assert(digits@ =~= seq!['0', '1', '2', '3', '4', '5', '6', '7', '8', '9']);
    digits[d]
}

/// `n` written in decimal.
pub fn decimal_chars(n: usize) -> (r: Vec<char>)
    ensures
        r@ == decimal(n as nat),
    decreases n,
{
    if n < 10 {
        let mut v: Vec<char> = Vec::new();
        v.push(digit_char_exec(n));
        assert(v@ =~= seq![digit_char(n as nat)]);
        v
    } else {
        let mut v = decimal_chars(n / 10);
        v.push(digit_char_exec(n % 10));
        v
    }
}

/// The start of a reply, up to the length of the body.
pub open spec fn reply_head() -> Seq<char> {
    "HTTP/1.1 200 OK\r\nContent-Type: text/plain\r\nAccess-Control-Allow-Origin: *\r\nContent-Length: "@
}

/// What comes between the length of the body and the body.
pub open spec fn reply_after_length() -> Seq<char> {
    "\r\nConnection: close\r\n\r\n"@
}

/// The HTTP response that `reply` sends for a body: a `200 OK` plain-text
/// response whose `Content-Length` is the body's length in bytes.
pub open spec fn reply_response_spec(body: &str) -> Seq<char> {
    reply_head() + decimal(body.len() as nat) + reply_after_length() + body@
}

/// The HTTP response that `reply` sends for a body.
pub fn reply_response(body: &str) -> (r: String)
    ensures
        r@ == reply_response_spec(body),
{
    let mut out = str_chars(
        "HTTP/1.1 200 OK\r\nContent-Type: text/plain\r\nAccess-Control-Allow-Origin: *\r\nContent-Length: ",
    );
    let n = body.len();
    append_chars(&mut out, &decimal_chars(n));
    append_chars(&mut out, &str_chars("\r\nConnection: close\r\n\r\n"));
    append_chars(&mut out, &str_chars(body));
    string_from_chars(&out)
}

/// A reply is a `200 OK` plain-text HTTP response that ends with the body,
/// and its `Content-Length` is a decimal numeral that reads back as the
/// body's length in bytes.
pub proof fn law_reply_frame(body: &str)
    ensures
        ({
            let n = decimal(body.len() as nat);
            &&& reply_response_spec(body)
                == "HTTP/1.1 200 OK\r\nContent-Type: text/plain\r\nAccess-Control-Allow-Origin: *\r\nContent-Length: "@
                + n + "\r\nConnection: close\r\n\r\n"@ + body@
            &&& all_digits(n)
            &&& digits_value(n) == body.len()
        }),
{
    law_decimal_reads_back(body.len() as nat);
}

/// A port text with anything but digits after an optional leading `+` is
/// refused, and the veil listens on 8080.
pub proof fn law_port_text_needs_digits(s: Seq<char>, k: int)
    requires
        0 <= k < s.len(),
        !is_digit(s[k]),
        !(k == 0 && s[0] == '+'),
    ensures
        parse_u16_spec(s) is None,
        port_from_text_spec(s) == 8080,
{
    if s.len() > 0 && s[0] == '+' {
        let d = s.drop_first();
        assert(!is_digit(d[k - 1]));
    } else {
        assert(!is_digit(s[k]));
    }
}

} // verus!
