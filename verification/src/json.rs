//! The canonical JSON form of protocol messages, at the specification
//! level: an encoder, a parser for exactly the form the encoder writes, and
//! the proof that the parser inverts the encoder.
//!
//! The envelope is an object whose first member is the tag `"type"`, with
//! the struct fields following in declaration order; optional fields are
//! omitted when absent; strings escape `"`, `\` and control characters (as
//! `\u00` and two lowercase hex digits); no insignificant whitespace.

use vstd::prelude::*;
use crate::messages::{
    Message, MessageV, CliRequest, CliRequestV, CliResponse, CliResponseV, HttpRequest,
    HttpRequestV, HttpResponse, HttpResponseV, SseEvent, SseEventV, ErrorMessage, ErrorMessageV,
    PingPong, PingPongV, PairsV, pairs_view, msg_wf,
};

verus! {

/// One of the sixteen lowercase hex digits.
pub open spec fn hex_digit(n: int) -> char {
    if n == 0 {
        '0'
    } else if n == 1 {
        '1'
    } else if n == 2 {
        '2'
    } else if n == 3 {
        '3'
    } else if n == 4 {
        '4'
    } else if n == 5 {
        '5'
    } else if n == 6 {
        '6'
    } else if n == 7 {
        '7'
    } else if n == 8 {
        '8'
    } else if n == 9 {
        '9'
    } else if n == 10 {
        'a'
    } else if n == 11 {
        'b'
    } else if n == 12 {
        'c'
    } else if n == 13 {
        'd'
    } else if n == 14 {
        'e'
    } else {
        'f'
    }
}

/// The value of a lowercase hex digit, or 16 for any other character.
pub open spec fn hex_val(c: char) -> int {
    if c == '0' {
        0
    } else if c == '1' {
        1
    } else if c == '2' {
        2
    } else if c == '3' {
        3
    } else if c == '4' {
        4
    } else if c == '5' {
        5
    } else if c == '6' {
        6
    } else if c == '7' {
        7
    } else if c == '8' {
        8
    } else if c == '9' {
        9
    } else if c == 'a' {
        10
    } else if c == 'b' {
        11
    } else if c == 'c' {
        12
    } else if c == 'd' {
        13
    } else if c == 'e' {
        14
    } else if c == 'f' {
        15
    } else {
        16
    }
}

/// How one character is written inside a JSON string.
pub open spec fn esc_char(c: char) -> Seq<char> {
    if c == '"' {
        seq!['\\', '"']
    } else if c == '\\' {
        seq!['\\', '\\']
    } else if (c as u32) < 0x20 {
        seq!['\\', 'u', '0', '0', hex_digit((c as u32) as int / 16), hex_digit(
            (c as u32) as int % 16,
        )]
    } else {
        seq![c]
    }
}

/// A string's characters, escaped.
pub open spec fn esc_str(s: Seq<char>) -> Seq<char>
    decreases s.len(),
{
    if s.len() == 0 {
        Seq::empty()
    } else {
        esc_char(s[0]) + esc_str(s.drop_first())
    }
}

/// A JSON string: quoted, escaped contents.
pub open spec fn enc_str(s: Seq<char>) -> Seq<char> {
    seq!['"'] + esc_str(s) + seq!['"']
}

/// Whether `s[i]` exists and is `c`.
pub open spec fn at(s: Seq<char>, i: int, c: char) -> bool {
    0 <= i < s.len() && s[i] == c
}

/// Consumes the literal `lit` at position `i`.
pub open spec fn parse_lit(s: Seq<char>, i: int, lit: Seq<char>) -> Option<int> {
    if 0 <= i && i + lit.len() <= s.len() && s.subrange(i, i + lit.len()) == lit {
        Some(i + lit.len())
    } else {
        None
    }
}

/// Parses the body of a JSON string up to and including its closing quote.
pub open spec fn parse_str_body(s: Seq<char>, i: int) -> Option<(Seq<char>, int)>
    decreases s.len() - i,
    when 0 <= i
{
    if i >= s.len() {
        None
    } else if s[i] == '"' {
        Some((Seq::empty(), i + 1))
    } else if s[i] == '\\' {
        if i + 1 < s.len() && (s[i + 1] == '"' || s[i + 1] == '\\') {
            match parse_str_body(s, i + 2) {
                Some((v, j)) => Some((seq![s[i + 1]] + v, j)),
                None => None,
            }
        } else if i + 5 < s.len() && s[i + 1] == 'u' && s[i + 2] == '0' && s[i + 3] == '0'
            && hex_val(s[i + 4]) < 16 && hex_val(s[i + 5]) < 16 && hex_val(s[i + 4]) * 16 + hex_val(
            s[i + 5],
        ) < 0x20 {
            match parse_str_body(s, i + 6) {
                Some((v, j)) => Some(
                    (seq![((hex_val(s[i + 4]) * 16 + hex_val(s[i + 5])) as u8) as char] + v, j),
                ),
                None => None,
            }
        } else {
            None
        }
    } else if (s[i] as u32) < 0x20 {
        None
    } else {
        match parse_str_body(s, i + 1) {
            Some((v, j)) => Some((seq![s[i]] + v, j)),
            None => None,
        }
    }
}

/// Parses a JSON string starting at its opening quote.
pub open spec fn parse_string(s: Seq<char>, i: int) -> Option<(Seq<char>, int)> {
    if at(s, i, '"') {
        parse_str_body(s, i + 1)
    } else {
        None
    }
}

/// Splitting a concatenation found inside `s` into its two halves.
pub proof fn lemma_concat_at(s: Seq<char>, i: int, x: Seq<char>, y: Seq<char>)
    requires
        0 <= i,
        i + x.len() + y.len() <= s.len(),
        s.subrange(i, i + x.len() + y.len()) == x + y,
    ensures
        s.subrange(i, i + x.len()) == x,
        s.subrange(i + x.len(), i + x.len() + y.len()) == y,
{
    assert forall|k: int| 0 <= k < x.len() implies s.subrange(i, i + x.len())[k] == x[k] by {
        assert(s.subrange(i, i + x.len() + y.len())[k] == (x + y)[k]);
    }
    assert(s.subrange(i, i + x.len()) =~= x);
    assert forall|k: int| 0 <= k < y.len() implies s.subrange(
        i + x.len(),
        i + x.len() + y.len(),
    )[k] == y[k] by {
        assert(s.subrange(i + x.len(), i + x.len() + y.len())[k] == s[i + x.len() + k]);
        assert(s.subrange(i, i + x.len() + y.len())[x.len() + k] == s[i + x.len() + k]);
        assert((x + y)[x.len() + k] == y[k]);
    }
    assert(s.subrange(i + x.len(), i + x.len() + y.len()) =~= y);
}

/// A literal found inside `s` parses as itself.
pub proof fn lemma_parse_lit(s: Seq<char>, i: int, lit: Seq<char>)
    requires
        0 <= i,
        i + lit.len() <= s.len(),
        s.subrange(i, i + lit.len()) == lit,
    ensures
        parse_lit(s, i, lit) == Some(i + lit.len()),
{
}

/// The escape of one character never begins with an unescaped quote, so the
/// parser cannot end a string early.
proof fn lemma_esc_char_len(c: char)
    ensures
        1 <= esc_char(c).len() <= 6,
        esc_char(c)[0] != '"',
{
    vstd::utf8::char_is_scalar(c);
}

/// The string-body parser inverts the escaper: wherever `esc_str(v)` and a
/// closing quote sit in `s`, the body parser returns `v` and stops after
/// the quote.
pub proof fn lemma_parse_str_body(s: Seq<char>, i: int, v: Seq<char>)
    requires
        0 <= i,
        i + esc_str(v).len() + 1 <= s.len(),
        s.subrange(i, i + esc_str(v).len() + 1) == esc_str(v).push('"'),
    ensures
        parse_str_body(s, i) == Some((v, i + esc_str(v).len() + 1)),
    decreases v.len(),
{
    broadcast use vstd::utf8::char_u32_cast;
    broadcast use vstd::utf8::char_is_scalar;

    if v.len() == 0 {
        assert(esc_str(v).len() == 0);
        assert(s.subrange(i, i + 1)[0] == '"');
        assert(s[i] == '"');
    } else {
        let c = v[0];
        let e = esc_char(c);
        let rest = esc_str(v.drop_first());
        assert(esc_str(v) == e + rest);
        lemma_esc_char_len(c);
        assert(esc_str(v).push('"') =~= e + rest.push('"'));
        lemma_concat_at(s, i, e, rest.push('"'));
        let j = i + e.len();
        assert(s.subrange(j, j + rest.len() + 1) == rest.push('"'));
        lemma_parse_str_body(s, j, v.drop_first());
        assert forall|k: int| 0 <= k < e.len() implies s[i + k] == e[k] by {
            assert(s.subrange(i, i + e.len())[k] == s[i + k]);
        }
        if c == '"' {
            assert(e =~= seq!['\\', '"']);
            assert(s[i] == '\\' && s[i + 1] == '"');
            assert(seq![s[i + 1]] + v.drop_first() =~= v);
        } else if c == '\\' {
            assert(e =~= seq!['\\', '\\']);
            assert(s[i] == '\\' && s[i + 1] == '\\');
            assert(seq![s[i + 1]] + v.drop_first() =~= v);
        } else if (c as u32) < 0x20 {
            let n = (c as u32) as int;
            assert(e.len() == 6);
            assert(e[0] == '\\' && e[1] == 'u' && e[2] == '0' && e[3] == '0');
            assert(e[4] == hex_digit(n / 16) && e[5] == hex_digit(n % 16));
            assert(s[i] == '\\' && s[i + 1] == 'u' && s[i + 2] == '0' && s[i + 3] == '0');
            assert(s[i + 4] == hex_digit(n / 16));
            assert(s[i + 5] == hex_digit(n % 16));
            assert(0 <= n < 0x20);
            assert(0 <= n / 16 <= 1 && 0 <= n % 16 < 16 && (n / 16) * 16 + n % 16 == n) by {
                vstd::arithmetic::div_mod::lemma_fundamental_div_mod(n, 16);
            }
            assert(hex_val(hex_digit(n / 16)) == n / 16);
            assert(hex_val(hex_digit(n % 16)) == n % 16);
            let ch = (n as u8) as char;
            assert(ch as u32 == n);
            vstd::utf8::char_u32_cast(ch, (ch as u32) as u32);
            vstd::utf8::char_u32_cast(c, (c as u32) as u32);
            assert(ch == c);
            assert(seq![((n as u8) as char)] + v.drop_first() =~= v);
        } else {
            assert(e =~= seq![c]);
            assert(s[i] == c);
            assert(s[i] != '"' && s[i] != '\\' && !((s[i] as u32) < 0x20));
            assert(seq![s[i]] + v.drop_first() =~= v);
        }
    }
}

/// A JSON string encoding found inside `s` parses as the string it
/// encodes.
pub proof fn lemma_parse_string(s: Seq<char>, i: int, v: Seq<char>)
    requires
        0 <= i,
        i + enc_str(v).len() <= s.len(),
        s.subrange(i, i + enc_str(v).len()) == enc_str(v),
    ensures
        parse_string(s, i) == Some((v, i + enc_str(v).len())),
{
    assert(enc_str(v) =~= seq!['"'] + esc_str(v).push('"'));
    lemma_concat_at(s, i, seq!['"'], esc_str(v).push('"'));
    assert(s.subrange(i, i + 1)[0] == '"');
    assert(s[i] == '"');
    lemma_parse_str_body(s, i + 1, v);
}

/// The parser always lands after its starting point and inside the text.
pub proof fn lemma_parse_str_body_bounds(s: Seq<char>, i: int)
    requires
        0 <= i,
    ensures
        parse_str_body(s, i) matches Some(r) ==> i < r.1 <= s.len(),
    decreases s.len() - i,
{
    if i < s.len() {
        if s[i] == '"' {
        } else if s[i] == '\\' {
            if i + 1 < s.len() && (s[i + 1] == '"' || s[i + 1] == '\\') {
                lemma_parse_str_body_bounds(s, i + 2);
            } else if i + 5 < s.len() && s[i + 1] == 'u' && s[i + 2] == '0' && s[i + 3] == '0'
                && hex_val(s[i + 4]) < 16 && hex_val(s[i + 5]) < 16 && hex_val(s[i + 4]) * 16
                + hex_val(s[i + 5]) < 0x20 {
                lemma_parse_str_body_bounds(s, i + 6);
            }
        } else if (s[i] as u32) < 0x20 {
        } else {
            lemma_parse_str_body_bounds(s, i + 1);
        }
    }
}

/// String parses start after their opening position and stay in bounds.
pub proof fn lemma_parse_string_bounds(s: Seq<char>, i: int)
    requires
        0 <= i,
    ensures
        parse_string(s, i) matches Some(r) ==> i < r.1 <= s.len(),
{
    if at(s, i, '"') {
        lemma_parse_str_body_bounds(s, i + 1);
    }
}

/// The decimal form of a natural number, most significant digit first.
pub open spec fn dec_nat(n: nat) -> Seq<char>
    decreases n,
{
    if n < 10 {
        seq![hex_digit(n as int)]
    } else {
        dec_nat(n / 10) + seq![hex_digit((n % 10) as int)]
    }
}

/// Whether `c` is a decimal digit.
pub open spec fn is_digit(c: char) -> bool {
    hex_val(c) < 10
}

/// End of the run of digits starting at `i`.
pub open spec fn digits_end(s: Seq<char>, i: int) -> int
    decreases s.len() - i,
    when 0 <= i
{
    if i < s.len() && is_digit(s[i]) {
        digits_end(s, i + 1)
    } else {
        i
    }
}

/// The value of the digits `s[i..j]`, read as a decimal number.
pub open spec fn digits_val(s: Seq<char>, i: int, j: int) -> int
    decreases j - i,
{
    if j <= i {
        0
    } else {
        digits_val(s, i, j - 1) * 10 + hex_val(s[j - 1])
    }
}

/// Parses a run of digits as a number no larger than `bound`.
pub open spec fn parse_number(s: Seq<char>, i: int, bound: int) -> Option<(int, int)> {
    let j = digits_end(s, i);
    if j > i && digits_val(s, i, j) <= bound {
        Some((digits_val(s, i, j), j))
    } else {
        None
    }
}

/// Parses an optionally signed number within the i32 range.
pub open spec fn parse_i32_num(s: Seq<char>, i: int) -> Option<(int, int)> {
    if at(s, i, '-') {
        match parse_number(s, i + 1, 0x8000_0000) {
            Some((n, j)) => Some((-n, j)),
            None => None,
        }
    } else {
        parse_number(s, i, 0x7fff_ffff)
    }
}

/// The decimal form of an i32: a minus sign for negatives, then digits.
pub open spec fn enc_i32(v: i32) -> Seq<char> {
    if v < 0 {
        seq!['-'] + dec_nat((-(v as int)) as nat)
    } else {
        dec_nat(v as nat)
    }
}

/// Decimal forms are non-empty and all digits.
pub proof fn lemma_dec_nat_digits(n: nat)
    ensures
        dec_nat(n).len() >= 1,
        forall|k: int| 0 <= k < dec_nat(n).len() ==> is_digit(#[trigger] dec_nat(n)[k]),
    decreases n,
{
    if n >= 10 {
        lemma_dec_nat_digits(n / 10);
        assert forall|k: int| 0 <= k < dec_nat(n).len() implies is_digit(
            #[trigger] dec_nat(n)[k],
        ) by {
            if k < dec_nat(n / 10).len() {
                assert(dec_nat(n)[k] == dec_nat(n / 10)[k]);
            } else {
                assert(dec_nat(n)[k] == hex_digit((n % 10) as int));
            }
        }
    }
}

/// Where the digit run ends when the digits of `n` sit at `i` and the next
/// character is not a digit.
pub proof fn lemma_digits_end(s: Seq<char>, i: int, l: int)
    requires
        0 <= i,
        0 <= l,
        i + l <= s.len(),
        forall|k: int| i <= k < i + l ==> is_digit(#[trigger] s[k]),
        i + l == s.len() || !is_digit(s[i + l]),
    ensures
        digits_end(s, i) == i + l,
    decreases l,
{
    if l > 0 {
        assert(is_digit(s[i]));
        lemma_digits_end(s, i + 1, l - 1);
    }
}

/// The value of the digits of `n` is `n`.
proof fn lemma_digits_val(s: Seq<char>, i: int, n: nat)
    requires
        0 <= i,
        i + dec_nat(n).len() <= s.len(),
        s.subrange(i, i + dec_nat(n).len()) == dec_nat(n),
    ensures
        digits_val(s, i, i + dec_nat(n).len()) == n,
    decreases n,
{
    let l = dec_nat(n).len() as int;
    assert forall|k: int| 0 <= k < l implies s[i + k] == dec_nat(n)[k] by {
        assert(s.subrange(i, i + l)[k] == s[i + k]);
    }
    if n < 10 {
        assert(s.subrange(i, i + l)[0] == s[i]);
        assert(dec_nat(n)[0] == hex_digit(n as int));
        assert(s[i] == hex_digit(n as int));
        assert(hex_val(hex_digit(n as int)) == n);
        assert(digits_val(s, i, i + 1) == digits_val(s, i, i) * 10 + hex_val(s[i]));
    } else {
        let pre = dec_nat(n / 10);
        let last = seq![hex_digit((n % 10) as int)];
        assert(dec_nat(n) == pre + last);
        lemma_concat_at(s, i, pre, last);
        lemma_digits_val(s, i, n / 10);
        assert(s.subrange(i + pre.len(), i + l)[0] == s[i + l - 1]);
        assert(s[i + l - 1] == hex_digit((n % 10) as int));
        assert(hex_val(s[i + l - 1]) == n % 10);
        assert(digits_val(s, i, i + l) == digits_val(s, i, i + l - 1) * 10 + hex_val(
            s[i + l - 1],
        ));
        assert((n / 10) * 10 + n % 10 == n) by {
            vstd::arithmetic::div_mod::lemma_fundamental_div_mod(n as int, 10);
        }
    }
}

/// The digits of `n`, followed by a non-digit, parse back to `n`.
pub proof fn lemma_parse_number(s: Seq<char>, i: int, n: nat, bound: int)
    requires
        0 <= i,
        i + dec_nat(n).len() <= s.len(),
        s.subrange(i, i + dec_nat(n).len()) == dec_nat(n),
        i + dec_nat(n).len() == s.len() || !is_digit(s[i + dec_nat(n).len()]),
        n <= bound,
    ensures
        parse_number(s, i, bound) == Some((n as int, i + dec_nat(n).len())),
{
    let l = dec_nat(n).len() as int;
    lemma_dec_nat_digits(n);
    assert forall|k: int| i <= k < i + l implies is_digit(#[trigger] s[k]) by {
        assert(s.subrange(i, i + l)[k - i] == s[k]);
        assert(dec_nat(n)[k - i] == s[k]);
    }
    lemma_digits_end(s, i, l);
    lemma_digits_val(s, i, n);
}

/// Encoded string lists, as written inside an array.
pub open spec fn enc_str_list(a: Seq<Seq<char>>) -> Seq<char>
    decreases a.len(),
{
    if a.len() == 0 {
        Seq::empty()
    } else if a.len() == 1 {
        enc_str(a[0])
    } else {
        enc_str(a[0]) + seq![','] + enc_str_list(a.drop_first())
    }
}

/// A JSON array of strings.
pub open spec fn enc_arr(a: Seq<Seq<char>>) -> Seq<char> {
    seq!['['] + enc_str_list(a) + seq![']']
}

/// Parses the non-empty item list of a string array, including the closing
/// bracket.
pub open spec fn parse_str_items(s: Seq<char>, i: int) -> Option<(Seq<Seq<char>>, int)>
    decreases s.len() - i,
    when 0 <= i
{
    match parse_string(s, i) {
        Some((v, j)) => if at(s, j, ',') {
            if i < j {
                match parse_str_items(s, j + 1) {
                    Some((vs, l)) => Some((seq![v] + vs, l)),
                    None => None,
                }
            } else {
                None
            }
        } else if at(s, j, ']') {
            Some((seq![v], j + 1))
        } else {
            None
        },
        None => None,
    }
}

/// Parses a JSON array of strings.
pub open spec fn parse_str_array(s: Seq<char>, i: int) -> Option<(Seq<Seq<char>>, int)> {
    if at(s, i, '[') {
        if at(s, i + 1, ']') {
            Some((Seq::empty(), i + 2))
        } else {
            parse_str_items(s, i + 1)
        }
    } else {
        None
    }
}

/// A non-empty encoded item list followed by `]` parses back to itself.
proof fn lemma_parse_str_items(s: Seq<char>, i: int, a: Seq<Seq<char>>)
    requires
        0 <= i,
        a.len() >= 1,
        i + enc_str_list(a).len() + 1 <= s.len(),
        s.subrange(i, i + enc_str_list(a).len() + 1) == enc_str_list(a).push(']'),
    ensures
        parse_str_items(s, i) == Some((a, i + enc_str_list(a).len() + 1)),
    decreases a.len(),
{
    let e0 = enc_str(a[0]);
    if a.len() == 1 {
        assert(enc_str_list(a) == e0);
        assert(enc_str_list(a).push(']') =~= e0 + seq![']']);
        lemma_concat_at(s, i, e0, seq![']']);
        lemma_parse_string(s, i, a[0]);
        let j = i + e0.len();
        assert(s.subrange(j, j + 1)[0] == s[j]);
        assert(s[j] == ']');
        assert(seq![a[0]] =~= a);
    } else {
        let rest = enc_str_list(a.drop_first());
        assert(enc_str_list(a) == e0 + seq![','] + rest);
        assert(enc_str_list(a).push(']') =~= e0 + (seq![','] + rest.push(']')));
        lemma_concat_at(s, i, e0, seq![','] + rest.push(']'));
        lemma_parse_string(s, i, a[0]);
        let j = i + e0.len();
        lemma_concat_at(s, j, seq![','], rest.push(']'));
        assert(s.subrange(j, j + 1)[0] == s[j]);
        assert(s[j] == ',');
        assert(e0.len() >= 2);
        lemma_parse_str_items(s, j + 1, a.drop_first());
        assert(seq![a[0]] + a.drop_first() =~= a);
    }
}

/// An encoded string array parses back to itself.
pub proof fn lemma_parse_str_array(s: Seq<char>, i: int, a: Seq<Seq<char>>)
    requires
        0 <= i,
        i + enc_arr(a).len() <= s.len(),
        s.subrange(i, i + enc_arr(a).len()) == enc_arr(a),
    ensures
        parse_str_array(s, i) == Some((a, i + enc_arr(a).len())),
{
    assert(enc_arr(a) =~= seq!['['] + enc_str_list(a).push(']'));
    lemma_concat_at(s, i, seq!['['], enc_str_list(a).push(']'));
    assert(s.subrange(i, i + 1)[0] == s[i]);
    assert(s[i] == '[');
    if a.len() == 0 {
        assert(s.subrange(i + 1, i + 2)[0] == s[i + 1]);
        assert(s[i + 1] == ']');
    } else {
        lemma_esc_char_len(a[0][0]);
        assert(s.subrange(i + 1, i + enc_arr(a).len())[0] == s[i + 1]);
        assert(enc_str_list(a)[0] == '"') by {
            if a.len() == 1 {
                assert(enc_str_list(a) == enc_str(a[0]));
            }
            assert(enc_str(a[0])[0] == '"');
        }
        assert(s[i + 1] == '"');
        lemma_parse_str_items(s, i + 1, a);
    }
}

/// One encoded key-value pair, as written inside an object.
pub open spec fn enc_pair(p: (Seq<char>, Seq<char>)) -> Seq<char> {
    enc_str(p.0) + seq![':'] + enc_str(p.1)
}

/// Encoded pair lists, as written inside an object.
pub open spec fn enc_pair_list(m: PairsV) -> Seq<char>
    decreases m.len(),
{
    if m.len() == 0 {
        Seq::empty()
    } else if m.len() == 1 {
        enc_pair(m[0])
    } else {
        enc_pair(m[0]) + seq![','] + enc_pair_list(m.drop_first())
    }
}

/// A JSON object of string members.
pub open spec fn enc_obj(m: PairsV) -> Seq<char> {
    seq!['{'] + enc_pair_list(m) + seq!['}']
}

/// Parses one `"key":"value"` pair.
pub open spec fn parse_pair(s: Seq<char>, i: int) -> Option<((Seq<char>, Seq<char>), int)> {
    match parse_string(s, i) {
        Some((k, j)) => if at(s, j, ':') {
            match parse_string(s, j + 1) {
                Some((v, l)) => Some(((k, v), l)),
                None => None,
            }
        } else {
            None
        },
        None => None,
    }
}

/// Parses the non-empty member list of an object, including the closing
/// brace.
pub open spec fn parse_pair_items(s: Seq<char>, i: int) -> Option<(PairsV, int)>
    decreases s.len() - i,
    when 0 <= i
{
    match parse_pair(s, i) {
        Some((p, j)) => if at(s, j, ',') {
            if i < j {
                match parse_pair_items(s, j + 1) {
                    Some((ps, l)) => Some((seq![p] + ps, l)),
                    None => None,
                }
            } else {
                None
            }
        } else if at(s, j, '}') {
            Some((seq![p], j + 1))
        } else {
            None
        },
        None => None,
    }
}

/// Parses a JSON object of string members; duplicate keys are rejected.
pub open spec fn parse_pairs_obj(s: Seq<char>, i: int) -> Option<(PairsV, int)> {
    if at(s, i, '{') {
        if at(s, i + 1, '}') {
            Some((Seq::empty(), i + 2))
        } else {
            match parse_pair_items(s, i + 1) {
                Some((ps, j)) => if crate::strmap::unique_keys(ps) {
                    Some((ps, j))
                } else {
                    None
                },
                None => None,
            }
        }
    } else {
        None
    }
}

/// An encoded pair parses back to itself.
proof fn lemma_parse_pair(s: Seq<char>, i: int, p: (Seq<char>, Seq<char>))
    requires
        0 <= i,
        i + enc_pair(p).len() <= s.len(),
        s.subrange(i, i + enc_pair(p).len()) == enc_pair(p),
    ensures
        parse_pair(s, i) == Some((p, i + enc_pair(p).len())),
{
    let ek = enc_str(p.0);
    let ev = enc_str(p.1);
    assert(enc_pair(p) =~= ek + (seq![':'] + ev));
    lemma_concat_at(s, i, ek, seq![':'] + ev);
    lemma_parse_string(s, i, p.0);
    let j = i + ek.len();
    lemma_concat_at(s, j, seq![':'], ev);
    assert(s.subrange(j, j + 1)[0] == s[j]);
    assert(s[j] == ':');
    lemma_parse_string(s, j + 1, p.1);
}

/// A non-empty encoded member list with unique keys, followed by `}`,
/// parses back to itself.
proof fn lemma_parse_pair_items(s: Seq<char>, i: int, m: PairsV)
    requires
        0 <= i,
        m.len() >= 1,
        crate::strmap::unique_keys(m),
        i + enc_pair_list(m).len() + 1 <= s.len(),
        s.subrange(i, i + enc_pair_list(m).len() + 1) == enc_pair_list(m).push('}'),
    ensures
        parse_pair_items(s, i) == Some((m, i + enc_pair_list(m).len() + 1)),
    decreases m.len(),
{
    let e0 = enc_pair(m[0]);
    if m.len() == 1 {
        assert(enc_pair_list(m) == e0);
        assert(enc_pair_list(m).push('}') =~= e0 + seq!['}']);
        lemma_concat_at(s, i, e0, seq!['}']);
        lemma_parse_pair(s, i, m[0]);
        let j = i + e0.len();
        assert(s.subrange(j, j + 1)[0] == s[j]);
        assert(s[j] == '}');
        assert(seq![m[0]] =~= m);
    } else {
        let rest = enc_pair_list(m.drop_first());
        assert(enc_pair_list(m) == e0 + seq![','] + rest);
        assert(enc_pair_list(m).push('}') =~= e0 + (seq![','] + rest.push('}')));
        lemma_concat_at(s, i, e0, seq![','] + rest.push('}'));
        lemma_parse_pair(s, i, m[0]);
        let j = i + e0.len();
        lemma_concat_at(s, j, seq![','], rest.push('}'));
        assert(s.subrange(j, j + 1)[0] == s[j]);
        assert(s[j] == ',');
        assert(e0.len() >= 5);
        assert forall|a: int, b: int|
            0 <= a < b < m.drop_first().len() implies (#[trigger] m.drop_first()[a]).0 != (
        #[trigger] m.drop_first()[b]).0 by {
            assert(m.drop_first()[a] == m[a + 1]);
            assert(m.drop_first()[b] == m[b + 1]);
        }
        lemma_parse_pair_items(s, j + 1, m.drop_first());
        assert(seq![m[0]] + m.drop_first() =~= m);
    }
}

/// An encoded object with unique keys parses back to itself.
pub proof fn lemma_parse_pairs_obj(s: Seq<char>, i: int, m: PairsV)
    requires
        0 <= i,
        crate::strmap::unique_keys(m),
        i + enc_obj(m).len() <= s.len(),
        s.subrange(i, i + enc_obj(m).len()) == enc_obj(m),
    ensures
        parse_pairs_obj(s, i) == Some((m, i + enc_obj(m).len())),
{
    assert(enc_obj(m) =~= seq!['{'] + enc_pair_list(m).push('}'));
    lemma_concat_at(s, i, seq!['{'], enc_pair_list(m).push('}'));
    assert(s.subrange(i, i + 1)[0] == s[i]);
    assert(s[i] == '{');
    if m.len() == 0 {
        assert(s.subrange(i + 1, i + 2)[0] == s[i + 1]);
        assert(s[i + 1] == '}');
    } else {
        assert(s.subrange(i + 1, i + enc_obj(m).len())[0] == s[i + 1]);
        assert(enc_pair_list(m)[0] == '"') by {
            if m.len() == 1 {
                assert(enc_pair_list(m) == enc_pair(m[0]));
            }
            assert(enc_pair(m[0])[0] == '"');
        }
        assert(s[i + 1] == '"');
        lemma_parse_pair_items(s, i + 1, m);
    }
}

/// A literal member name followed by a string value.
pub open spec fn parse_field_str(s: Seq<char>, i: int, lit: Seq<char>) -> Option<(Seq<char>, int)> {
    match parse_lit(s, i, lit) {
        Some(j) => parse_string(s, j),
        None => None,
    }
}

/// A literal member name followed by a string array.
pub open spec fn parse_field_arr(s: Seq<char>, i: int, lit: Seq<char>) -> Option<(Seq<Seq<char>>, int)> {
    match parse_lit(s, i, lit) {
        Some(j) => parse_str_array(s, j),
        None => None,
    }
}

/// A literal member name followed by an object of string members.
pub open spec fn parse_field_obj(s: Seq<char>, i: int, lit: Seq<char>) -> Option<(PairsV, int)> {
    match parse_lit(s, i, lit) {
        Some(j) => parse_pairs_obj(s, j),
        None => None,
    }
}

/// A literal member name followed by an unsigned number within `bound`.
pub open spec fn parse_field_num(s: Seq<char>, i: int, lit: Seq<char>, bound: int) -> Option<(int, int)> {
    match parse_lit(s, i, lit) {
        Some(j) => parse_number(s, j, bound),
        None => None,
    }
}

/// A literal member name followed by a signed 32-bit number.
pub open spec fn parse_field_i32(s: Seq<char>, i: int, lit: Seq<char>) -> Option<(int, int)> {
    match parse_lit(s, i, lit) {
        Some(j) => parse_i32_num(s, j),
        None => None,
    }
}

/// An encoded string member parses back to its value.
proof fn lemma_parse_field_str(s: Seq<char>, i: int, lit: Seq<char>, v: Seq<char>)
    requires
        0 <= i,
        i + lit.len() + enc_str(v).len() <= s.len(),
        s.subrange(i, i + lit.len()) == lit,
        s.subrange(i + lit.len(), i + lit.len() + enc_str(v).len()) == enc_str(v),
    ensures
        parse_field_str(s, i, lit) == Some((v, i + lit.len() + enc_str(v).len())),
{
    lemma_parse_lit(s, i, lit);
    lemma_parse_string(s, i + lit.len(), v);
}

/// An encoded array member parses back to its value.
proof fn lemma_parse_field_arr(s: Seq<char>, i: int, lit: Seq<char>, v: Seq<Seq<char>>)
    requires
        0 <= i,
        i + lit.len() + enc_arr(v).len() <= s.len(),
        s.subrange(i, i + lit.len()) == lit,
        s.subrange(i + lit.len(), i + lit.len() + enc_arr(v).len()) == enc_arr(v),
    ensures
        parse_field_arr(s, i, lit) == Some((v, i + lit.len() + enc_arr(v).len())),
{
    lemma_parse_lit(s, i, lit);
    lemma_parse_str_array(s, i + lit.len(), v);
}

/// An encoded object member with unique keys parses back to its value.
proof fn lemma_parse_field_obj(s: Seq<char>, i: int, lit: Seq<char>, v: PairsV)
    requires
        0 <= i,
        crate::strmap::unique_keys(v),
        i + lit.len() + enc_obj(v).len() <= s.len(),
        s.subrange(i, i + lit.len()) == lit,
        s.subrange(i + lit.len(), i + lit.len() + enc_obj(v).len()) == enc_obj(v),
    ensures
        parse_field_obj(s, i, lit) == Some((v, i + lit.len() + enc_obj(v).len())),
{
    lemma_parse_lit(s, i, lit);
    lemma_parse_pairs_obj(s, i + lit.len(), v);
}

/// An encoded unsigned member followed by a non-digit parses back.
proof fn lemma_parse_field_num(s: Seq<char>, i: int, lit: Seq<char>, n: nat, bound: int)
    requires
        0 <= i,
        n <= bound,
        i + lit.len() + dec_nat(n).len() <= s.len(),
        s.subrange(i, i + lit.len()) == lit,
        s.subrange(i + lit.len(), i + lit.len() + dec_nat(n).len()) == dec_nat(n),
        i + lit.len() + dec_nat(n).len() == s.len() || !is_digit(s[i + lit.len() + dec_nat(n).len()]),
    ensures
        parse_field_num(s, i, lit, bound) == Some((n as int, i + lit.len() + dec_nat(n).len())),
{
    lemma_parse_lit(s, i, lit);
    lemma_parse_number(s, i + lit.len(), n, bound);
}

/// An encoded i32 member followed by a non-digit parses back.
proof fn lemma_parse_field_i32(s: Seq<char>, i: int, lit: Seq<char>, v: i32)
    requires
        0 <= i,
        i + lit.len() + enc_i32(v).len() <= s.len(),
        s.subrange(i, i + lit.len()) == lit,
        s.subrange(i + lit.len(), i + lit.len() + enc_i32(v).len()) == enc_i32(v),
        i + lit.len() + enc_i32(v).len() == s.len() || !is_digit(s[i + lit.len() + enc_i32(v).len()]),
    ensures
        parse_field_i32(s, i, lit) == Some((v as int, i + lit.len() + enc_i32(v).len())),
{
    lemma_parse_lit(s, i, lit);
    let j = i + lit.len();
    if v < 0 {
        let n = (-(v as int)) as nat;
        assert(enc_i32(v) =~= seq!['-'] + dec_nat(n));
        lemma_concat_at(s, j, seq!['-'], dec_nat(n));
        assert(s.subrange(j, j + 1)[0] == s[j]);
        assert(s[j] == '-');
        lemma_parse_number(s, j + 1, n, 0x8000_0000);
    } else {
        let n = v as nat;
        lemma_dec_nat_digits(n);
        assert(s.subrange(j, j + dec_nat(n).len())[0] == s[j]);
        assert(s[j] == dec_nat(n)[0]);
        assert(is_digit(s[j]));
        assert(s[j] != '-');
        lemma_parse_number(s, j, n, 0x7fff_ffff);
    }
}

/// An optional string value: absent when the text continues otherwise.
pub open spec fn enc_opt_field(lit: Seq<char>, v: Option<Seq<char>>) -> Seq<char> {
    match v {
        Some(x) => lit + enc_str(x),
        None => Seq::empty(),
    }
}

/// The canonical text of a message.
pub open spec fn enc_cli_request(r: CliRequestV) -> Seq<char> {
    "{\"type\":"@ + enc_str("cli_request"@) + ",\"id\":"@ + enc_str(r.id) + ",\"tool\":"@
        + enc_str(r.tool) + ",\"argv\":"@ + enc_arr(r.argv) + ",\"env\":"@ + enc_obj(r.env)
        + enc_opt_field(",\"stdin\":"@, r.stdin) + ",\"cwd\":"@ + enc_str(r.cwd) + "}"@
}

/// The canonical text of a CLI response.
pub open spec fn enc_cli_response(r: CliResponseV) -> Seq<char> {
    "{\"type\":"@ + enc_str("cli_response"@) + ",\"id\":"@ + enc_str(r.id) + ",\"exit_code\":"@
        + enc_i32(r.exit_code) + ",\"stdout\":"@ + enc_str(r.stdout) + ",\"stderr\":"@
        + enc_str(r.stderr) + "}"@
}

/// The canonical text of an HTTP request.
pub open spec fn enc_http_request(r: HttpRequestV) -> Seq<char> {
    "{\"type\":"@ + enc_str("http_request"@) + ",\"id\":"@ + enc_str(r.id) + ",\"tool\":"@
        + enc_str(r.tool) + ",\"method\":"@ + enc_str(r.method) + ",\"path\":"@ + enc_str(r.path)
        + ",\"headers\":"@ + enc_obj(r.headers) + enc_opt_field(",\"body\":"@, r.body) + "}"@
}

/// The canonical text of an HTTP response.
pub open spec fn enc_http_response(r: HttpResponseV) -> Seq<char> {
    "{\"type\":"@ + enc_str("http_response"@) + ",\"id\":"@ + enc_str(r.id) + ",\"status\":"@
        + dec_nat(r.status as nat) + ",\"headers\":"@ + enc_obj(r.headers) + enc_opt_field(
        ",\"body\":"@,
        r.body,
    ) + "}"@
}

/// The canonical text of an SSE event.
pub open spec fn enc_sse_event(r: SseEventV) -> Seq<char> {
    "{\"type\":"@ + enc_str("sse_event"@) + ",\"id\":"@ + enc_str(r.id) + ",\"tool\":"@
        + enc_str(r.tool) + ",\"event\":"@ + enc_str(r.event) + ",\"data\":"@ + enc_str(r.data)
        + "}"@
}

/// The canonical text of an error message; an absent id is written `null`.
pub open spec fn enc_error(r: ErrorMessageV) -> Seq<char> {
    "{\"type\":"@ + enc_str("error"@) + ",\"id\":"@ + (match r.id {
        Some(x) => enc_str(x),
        None => "null"@,
    }) + ",\"code\":"@ + enc_str(r.code) + ",\"message\":"@ + enc_str(r.message) + "}"@
}

/// The canonical text of a keepalive record under the given tag.
pub open spec fn enc_pingpong(tag: Seq<char>, r: PingPongV) -> Seq<char> {
    "{\"type\":"@ + enc_str(tag) + ",\"id\":"@ + enc_str(r.id) + ",\"timestamp\":"@ + dec_nat(
        r.timestamp as nat,
    ) + "}"@
}

/// The canonical text of any message.
pub open spec fn spec_encode_msg(m: MessageV) -> Seq<char> {
    match m {
        MessageV::CliRequest(r) => enc_cli_request(r),
        MessageV::CliResponse(r) => enc_cli_response(r),
        MessageV::HttpRequest(r) => enc_http_request(r),
        MessageV::HttpResponse(r) => enc_http_response(r),
        MessageV::SseEvent(r) => enc_sse_event(r),
        MessageV::Error(r) => enc_error(r),
        MessageV::Ping(r) => enc_pingpong("ping"@, r),
        MessageV::Pong(r) => enc_pingpong("pong"@, r),
    }
}

/// The fields of a CLI request, after its tag.
pub open spec fn parse_cli_request_fields(s: Seq<char>, i: int) -> Option<(MessageV, int)> {
    match parse_field_str(s, i, ",\"id\":"@) {
        Some((id, i)) => match parse_field_str(s, i, ",\"tool\":"@) {
            Some((tool, i)) => match parse_field_arr(s, i, ",\"argv\":"@) {
                Some((argv, i)) => match parse_field_obj(s, i, ",\"env\":"@) {
                    Some((env, i)) => {
                        let (stdin, i2) = match parse_field_str(s, i, ",\"stdin\":"@) {
                            Some((x, j)) => (Some(x), j),
                            None => (None, i),
                        };
                        match parse_field_str(s, i2, ",\"cwd\":"@) {
                            Some((cwd, i3)) => match parse_lit(s, i3, "}"@) {
                                Some(i4) => Some(
                                    (
                                        MessageV::CliRequest(
                                            CliRequestV { id, tool, argv, env, stdin, cwd },
                                        ),
                                        i4,
                                    ),
                                ),
                                None => None,
                            },
                            None => None,
                        }
                    },
                    None => None,
                },
                None => None,
            },
            None => None,
        },
        None => None,
    }
}

/// The fields of a CLI response, after its tag.
pub open spec fn parse_cli_response_fields(s: Seq<char>, i: int) -> Option<(MessageV, int)> {
    match parse_field_str(s, i, ",\"id\":"@) {
        Some((id, i)) => match parse_field_i32(s, i, ",\"exit_code\":"@) {
            Some((code, i)) => match parse_field_str(s, i, ",\"stdout\":"@) {
                Some((stdout, i)) => match parse_field_str(s, i, ",\"stderr\":"@) {
                    Some((stderr, i)) => match parse_lit(s, i, "}"@) {
                        Some(i2) => Some(
                            (
                                MessageV::CliResponse(
                                    CliResponseV { id, exit_code: code as i32, stdout, stderr },
                                ),
                                i2,
                            ),
                        ),
                        None => None,
                    },
                    None => None,
                },
                None => None,
            },
            None => None,
        },
        None => None,
    }
}

/// The fields of an HTTP request, after its tag.
pub open spec fn parse_http_request_fields(s: Seq<char>, i: int) -> Option<(MessageV, int)> {
    match parse_field_str(s, i, ",\"id\":"@) {
        Some((id, i)) => match parse_field_str(s, i, ",\"tool\":"@) {
            Some((tool, i)) => match parse_field_str(s, i, ",\"method\":"@) {
                Some((method, i)) => match parse_field_str(s, i, ",\"path\":"@) {
                    Some((path, i)) => match parse_field_obj(s, i, ",\"headers\":"@) {
                        Some((headers, i)) => {
                            let (body, i2) = match parse_field_str(s, i, ",\"body\":"@) {
                                Some((x, j)) => (Some(x), j),
                                None => (None, i),
                            };
                            match parse_lit(s, i2, "}"@) {
                                Some(i3) => Some(
                                    (
                                        MessageV::HttpRequest(
                                            HttpRequestV { id, tool, method, path, headers, body },
                                        ),
                                        i3,
                                    ),
                                ),
                                None => None,
                            }
                        },
                        None => None,
                    },
                    None => None,
                },
                None => None,
            },
            None => None,
        },
        None => None,
    }
}

/// The fields of an HTTP response, after its tag.
pub open spec fn parse_http_response_fields(s: Seq<char>, i: int) -> Option<(MessageV, int)> {
    match parse_field_str(s, i, ",\"id\":"@) {
        Some((id, i)) => match parse_field_num(s, i, ",\"status\":"@, 0xffff) {
            Some((status, i)) => match parse_field_obj(s, i, ",\"headers\":"@) {
                Some((headers, i)) => {
                    let (body, i2) = match parse_field_str(s, i, ",\"body\":"@) {
                        Some((x, j)) => (Some(x), j),
                        None => (None, i),
                    };
                    match parse_lit(s, i2, "}"@) {
                        Some(i3) => Some(
                            (
                                MessageV::HttpResponse(
                                    HttpResponseV { id, status: status as u16, headers, body },
                                ),
                                i3,
                            ),
                        ),
                        None => None,
                    }
                },
                None => None,
            },
            None => None,
        },
        None => None,
    }
}

/// The fields of an SSE event, after its tag.
pub open spec fn parse_sse_event_fields(s: Seq<char>, i: int) -> Option<(MessageV, int)> {
    match parse_field_str(s, i, ",\"id\":"@) {
        Some((id, i)) => match parse_field_str(s, i, ",\"tool\":"@) {
            Some((tool, i)) => match parse_field_str(s, i, ",\"event\":"@) {
                Some((event, i)) => match parse_field_str(s, i, ",\"data\":"@) {
                    Some((data, i)) => match parse_lit(s, i, "}"@) {
                        Some(i2) => Some(
                            (MessageV::SseEvent(SseEventV { id, tool, event, data }), i2),
                        ),
                        None => None,
                    },
                    None => None,
                },
                None => None,
            },
            None => None,
        },
        None => None,
    }
}

/// The fields of an error message, after its tag.
pub open spec fn parse_error_fields(s: Seq<char>, i: int) -> Option<(MessageV, int)> {
    match parse_lit(s, i, ",\"id\":"@) {
        Some(j) => {
            let (id, i2) = match parse_lit(s, j, "null"@) {
                Some(j2) => (Option::<Seq<char>>::None, Some(j2)),
                None => match parse_string(s, j) {
                    Some((x, j2)) => (Some(x), Some(j2)),
                    None => (None, None::<int>),
                },
            };
            match i2 {
                Some(i3) => match parse_field_str(s, i3, ",\"code\":"@) {
                    Some((code, i4)) => match parse_field_str(s, i4, ",\"message\":"@) {
                        Some((message, i5)) => match parse_lit(s, i5, "}"@) {
                            Some(i6) => Some(
                                (MessageV::Error(ErrorMessageV { id, code, message }), i6),
                            ),
                            None => None,
                        },
                        None => None,
                    },
                    None => None,
                },
                None => None,
            }
        },
        None => None,
    }
}

/// The fields of a keepalive record, after its tag.
pub open spec fn parse_pingpong_fields(s: Seq<char>, i: int, ping: bool) -> Option<(MessageV, int)> {
    match parse_field_str(s, i, ",\"id\":"@) {
        Some((id, i)) => match parse_field_num(s, i, ",\"timestamp\":"@, 0xffff_ffff_ffff_ffff) {
            Some((ts, i)) => match parse_lit(s, i, "}"@) {
                Some(i2) => {
                    let r = PingPongV { id, timestamp: ts as u64 };
                    Some((if ping { MessageV::Ping(r) } else { MessageV::Pong(r) }, i2))
                },
                None => None,
            },
            None => None,
        },
        None => None,
    }
}

/// Parses one whole message: the tagged envelope, consumed entirely.
pub open spec fn spec_parse_msg(s: Seq<char>) -> Option<MessageV> {
    let parsed = match parse_lit(s, 0, "{\"type\":"@) {
        Some(i0) => match parse_string(s, i0) {
            Some((tag, i1)) => if tag == "cli_request"@ {
                parse_cli_request_fields(s, i1)
            } else if tag == "cli_response"@ {
                parse_cli_response_fields(s, i1)
            } else if tag == "http_request"@ {
                parse_http_request_fields(s, i1)
            } else if tag == "http_response"@ {
                parse_http_response_fields(s, i1)
            } else if tag == "sse_event"@ {
                parse_sse_event_fields(s, i1)
            } else if tag == "error"@ {
                parse_error_fields(s, i1)
            } else if tag == "ping"@ {
                parse_pingpong_fields(s, i1, true)
            } else if tag == "pong"@ {
                parse_pingpong_fields(s, i1, false)
            } else {
                None
            },
            None => None,
        },
        None => None,
    };
    match parsed {
        Some((m, j)) => if j == s.len() {
            Some(m)
        } else {
            None
        },
        None => None,
    }
}



/// Chains the field results of a CLI request into the parsed message.
#[verifier::rlimit(100)]
#[verifier::spinoff_prover]
proof fn lemma_cli_request_tail(
    s: Seq<char>,
    i: int,
    r: CliRequestV,
    j1: int,
    j2: int,
    j3: int,
    j4: int,
    j5: int,
    j6: int,
    j7: int,
)
    requires
        parse_field_str(s, i, ",\"id\":"@) == Some((r.id, j1)),
        parse_field_str(s, j1, ",\"tool\":"@) == Some((r.tool, j2)),
        parse_field_arr(s, j2, ",\"argv\":"@) == Some((r.argv, j3)),
        parse_field_obj(s, j3, ",\"env\":"@) == Some((r.env, j4)),
        match r.stdin {
            Some(x) => parse_field_str(s, j4, ",\"stdin\":"@) == Some((x, j5)),
            None => parse_field_str(s, j4, ",\"stdin\":"@) is None && j5 == j4,
        },
        parse_field_str(s, j5, ",\"cwd\":"@) == Some((r.cwd, j6)),
        parse_lit(s, j6, "}"@) == Some(j7),
    ensures
        parse_cli_request_fields(s, i) == Some((MessageV::CliRequest(r), j7)),
{
}

/// Chains the field results of a CLI response into the parsed message.
#[verifier::rlimit(100)]
#[verifier::spinoff_prover]
proof fn lemma_cli_response_tail(
    s: Seq<char>,
    i: int,
    r: CliResponseV,
    j1: int,
    j2: int,
    j3: int,
    j4: int,
    j5: int,
)
    requires
        parse_field_str(s, i, ",\"id\":"@) == Some((r.id, j1)),
        parse_field_i32(s, j1, ",\"exit_code\":"@) == Some((r.exit_code as int, j2)),
        parse_field_str(s, j2, ",\"stdout\":"@) == Some((r.stdout, j3)),
        parse_field_str(s, j3, ",\"stderr\":"@) == Some((r.stderr, j4)),
        parse_lit(s, j4, "}"@) == Some(j5),
    ensures
        parse_cli_response_fields(s, i) == Some((MessageV::CliResponse(r), j5)),
{
    assert((r.exit_code as int) as i32 == r.exit_code);
}

/// Chains the field results of an HTTP request into the parsed message.
#[verifier::rlimit(100)]
#[verifier::spinoff_prover]
proof fn lemma_http_request_tail(
    s: Seq<char>,
    i: int,
    r: HttpRequestV,
    j1: int,
    j2: int,
    j3: int,
    j4: int,
    j5: int,
    j6: int,
    j7: int,
)
    requires
        parse_field_str(s, i, ",\"id\":"@) == Some((r.id, j1)),
        parse_field_str(s, j1, ",\"tool\":"@) == Some((r.tool, j2)),
        parse_field_str(s, j2, ",\"method\":"@) == Some((r.method, j3)),
        parse_field_str(s, j3, ",\"path\":"@) == Some((r.path, j4)),
        parse_field_obj(s, j4, ",\"headers\":"@) == Some((r.headers, j5)),
        match r.body {
            Some(x) => parse_field_str(s, j5, ",\"body\":"@) == Some((x, j6)),
            None => parse_field_str(s, j5, ",\"body\":"@) is None && j6 == j5,
        },
        parse_lit(s, j6, "}"@) == Some(j7),
    ensures
        parse_http_request_fields(s, i) == Some((MessageV::HttpRequest(r), j7)),
{
}

/// Concludes the whole-message parse for the `cli_request` tag.
#[verifier::rlimit(100)]
#[verifier::spinoff_prover]
proof fn lemma_dispatch_cli_request(s: Seq<char>, i0: int, i1: int, m: MessageV)
    requires
        parse_lit(s, 0, "{\"type\":"@) == Some(i0),
        parse_string(s, i0) == Some(("cli_request"@, i1)),
        parse_cli_request_fields(s, i1) == Some((m, s.len() as int)),
    ensures
        spec_parse_msg(s) == Some(m),
{
    broadcast use vstd::string::group_string_axioms;

    reveal_strlit("cli_request");

}

/// Concludes the whole-message parse for the `cli_response` tag.
#[verifier::rlimit(100)]
#[verifier::spinoff_prover]
proof fn lemma_dispatch_cli_response(s: Seq<char>, i0: int, i1: int, m: MessageV)
    requires
        parse_lit(s, 0, "{\"type\":"@) == Some(i0),
        parse_string(s, i0) == Some(("cli_response"@, i1)),
        parse_cli_response_fields(s, i1) == Some((m, s.len() as int)),
    ensures
        spec_parse_msg(s) == Some(m),
{
    broadcast use vstd::string::group_string_axioms;

    reveal_strlit("cli_request");
    reveal_strlit("cli_response");
    assert("cli_response"@.len() == 12);
    assert("cli_request"@.len() == 11);
    assert("cli_response"@ != "cli_request"@);
}

/// Concludes the whole-message parse for the `http_request` tag.
#[verifier::rlimit(100)]
#[verifier::spinoff_prover]
proof fn lemma_dispatch_http_request(s: Seq<char>, i0: int, i1: int, m: MessageV)
    requires
        parse_lit(s, 0, "{\"type\":"@) == Some(i0),
        parse_string(s, i0) == Some(("http_request"@, i1)),
        parse_http_request_fields(s, i1) == Some((m, s.len() as int)),
    ensures
        spec_parse_msg(s) == Some(m),
{
    broadcast use vstd::string::group_string_axioms;

    reveal_strlit("cli_request");
    reveal_strlit("cli_response");
    reveal_strlit("http_request");
    assert("http_request"@.len() == 12);
    assert("cli_request"@.len() == 11);
    assert("http_request"@ != "cli_request"@);
    assert("http_request"@[0] != "cli_response"@[0]);
    assert("http_request"@ != "cli_response"@);
}

/// Concludes the whole-message parse for the `http_response` tag.
#[verifier::rlimit(100)]
#[verifier::spinoff_prover]
proof fn lemma_dispatch_http_response(s: Seq<char>, i0: int, i1: int, m: MessageV)
    requires
        parse_lit(s, 0, "{\"type\":"@) == Some(i0),
        parse_string(s, i0) == Some(("http_response"@, i1)),
        parse_http_response_fields(s, i1) == Some((m, s.len() as int)),
    ensures
        spec_parse_msg(s) == Some(m),
{
    broadcast use vstd::string::group_string_axioms;

    reveal_strlit("cli_request");
    reveal_strlit("cli_response");
    reveal_strlit("http_request");
    reveal_strlit("http_response");
    assert("http_response"@.len() == 13);
    assert("cli_request"@.len() == 11);
    assert("http_response"@ != "cli_request"@);
    assert("http_response"@.len() == 13);
    assert("cli_response"@.len() == 12);
    assert("http_response"@ != "cli_response"@);
    assert("http_response"@.len() == 13);
    assert("http_request"@.len() == 12);
    assert("http_response"@ != "http_request"@);
}

/// Concludes the whole-message parse for the `sse_event` tag.
#[verifier::rlimit(100)]
#[verifier::spinoff_prover]
proof fn lemma_dispatch_sse_event(s: Seq<char>, i0: int, i1: int, m: MessageV)
    requires
        parse_lit(s, 0, "{\"type\":"@) == Some(i0),
        parse_string(s, i0) == Some(("sse_event"@, i1)),
        parse_sse_event_fields(s, i1) == Some((m, s.len() as int)),
    ensures
        spec_parse_msg(s) == Some(m),
{
    broadcast use vstd::string::group_string_axioms;

    reveal_strlit("cli_request");
    reveal_strlit("cli_response");
    reveal_strlit("http_request");
    reveal_strlit("http_response");
    reveal_strlit("sse_event");
    assert("sse_event"@.len() == 9);
    assert("cli_request"@.len() == 11);
    assert("sse_event"@ != "cli_request"@);
    assert("sse_event"@.len() == 9);
    assert("cli_response"@.len() == 12);
    assert("sse_event"@ != "cli_response"@);
    assert("sse_event"@.len() == 9);
    assert("http_request"@.len() == 12);
    assert("sse_event"@ != "http_request"@);
    assert("sse_event"@.len() == 9);
    assert("http_response"@.len() == 13);
    assert("sse_event"@ != "http_response"@);
}

/// Concludes the whole-message parse for the `error` tag.
#[verifier::rlimit(100)]
#[verifier::spinoff_prover]
proof fn lemma_dispatch_error(s: Seq<char>, i0: int, i1: int, m: MessageV)
    requires
        parse_lit(s, 0, "{\"type\":"@) == Some(i0),
        parse_string(s, i0) == Some(("error"@, i1)),
        parse_error_fields(s, i1) == Some((m, s.len() as int)),
    ensures
        spec_parse_msg(s) == Some(m),
{
    broadcast use vstd::string::group_string_axioms;

    reveal_strlit("cli_request");
    reveal_strlit("cli_response");
    reveal_strlit("http_request");
    reveal_strlit("http_response");
    reveal_strlit("sse_event");
    reveal_strlit("error");
    assert("error"@.len() == 5);
    assert("cli_request"@.len() == 11);
    assert("error"@ != "cli_request"@);
    assert("error"@.len() == 5);
    assert("cli_response"@.len() == 12);
    assert("error"@ != "cli_response"@);
    assert("error"@.len() == 5);
    assert("http_request"@.len() == 12);
    assert("error"@ != "http_request"@);
    assert("error"@.len() == 5);
    assert("http_response"@.len() == 13);
    assert("error"@ != "http_response"@);
    assert("error"@.len() == 5);
    assert("sse_event"@.len() == 9);
    assert("error"@ != "sse_event"@);
}

/// Concludes the whole-message parse for the `ping` tag.
#[verifier::rlimit(100)]
#[verifier::spinoff_prover]
proof fn lemma_dispatch_ping(s: Seq<char>, i0: int, i1: int, m: MessageV)
    requires
        parse_lit(s, 0, "{\"type\":"@) == Some(i0),
        parse_string(s, i0) == Some(("ping"@, i1)),
        parse_pingpong_fields(s, i1, true) == Some((m, s.len() as int)),
    ensures
        spec_parse_msg(s) == Some(m),
{
    broadcast use vstd::string::group_string_axioms;

    reveal_strlit("cli_request");
    reveal_strlit("cli_response");
    reveal_strlit("http_request");
    reveal_strlit("http_response");
    reveal_strlit("sse_event");
    reveal_strlit("error");
    reveal_strlit("ping");
    assert("ping"@.len() == 4);
    assert("cli_request"@.len() == 11);
    assert("ping"@ != "cli_request"@);
    assert("ping"@.len() == 4);
    assert("cli_response"@.len() == 12);
    assert("ping"@ != "cli_response"@);
    assert("ping"@.len() == 4);
    assert("http_request"@.len() == 12);
    assert("ping"@ != "http_request"@);
    assert("ping"@.len() == 4);
    assert("http_response"@.len() == 13);
    assert("ping"@ != "http_response"@);
    assert("ping"@.len() == 4);
    assert("sse_event"@.len() == 9);
    assert("ping"@ != "sse_event"@);
    assert("ping"@.len() == 4);
    assert("error"@.len() == 5);
    assert("ping"@ != "error"@);
}

/// Concludes the whole-message parse for the `pong` tag.
#[verifier::rlimit(100)]
#[verifier::spinoff_prover]
proof fn lemma_dispatch_pong(s: Seq<char>, i0: int, i1: int, m: MessageV)
    requires
        parse_lit(s, 0, "{\"type\":"@) == Some(i0),
        parse_string(s, i0) == Some(("pong"@, i1)),
        parse_pingpong_fields(s, i1, false) == Some((m, s.len() as int)),
    ensures
        spec_parse_msg(s) == Some(m),
{
    broadcast use vstd::string::group_string_axioms;

    reveal_strlit("cli_request");
    reveal_strlit("cli_response");
    reveal_strlit("http_request");
    reveal_strlit("http_response");
    reveal_strlit("sse_event");
    reveal_strlit("error");
    reveal_strlit("ping");
    reveal_strlit("pong");
    assert("pong"@[1] != "ping"@[1]);
    assert("pong"@.len() == 4);
    assert("cli_request"@.len() == 11);
    assert("pong"@ != "cli_request"@);
    assert("pong"@.len() == 4);
    assert("cli_response"@.len() == 12);
    assert("pong"@ != "cli_response"@);
    assert("pong"@.len() == 4);
    assert("http_request"@.len() == 12);
    assert("pong"@ != "http_request"@);
    assert("pong"@.len() == 4);
    assert("http_response"@.len() == 13);
    assert("pong"@ != "http_response"@);
    assert("pong"@.len() == 4);
    assert("sse_event"@.len() == 9);
    assert("pong"@ != "sse_event"@);
    assert("pong"@.len() == 4);
    assert("error"@.len() == 5);
    assert("pong"@ != "error"@);
    assert("pong"@[1] != "ping"@[1]);
    assert("pong"@ != "ping"@);
}

/// The optional `stdin` member of a CLI request parses as encoded.
#[verifier::rlimit(100)]
#[verifier::spinoff_prover]
proof fn proof_opt_cli_stdin(s: Seq<char>, i: int, e: int, e2: int, v: Option<Seq<char>>)
    requires
        0 <= i,
        e == i + enc_opt_field(",\"stdin\":"@, v).len(),
        e <= s.len(),
        s.subrange(i, e) == enc_opt_field(",\"stdin\":"@, v),
        e2 == e + ",\"cwd\":"@.len(),
        e2 <= s.len(),
        s.subrange(e, e2) == ",\"cwd\":"@,
    ensures
        v matches Some(x) ==> parse_field_str(s, i, ",\"stdin\":"@) == Some((x, e)),
        v is None ==> parse_field_str(s, i, ",\"stdin\":"@) is None,
{
    reveal_strlit(",\"stdin\":");
    reveal_strlit(",\"cwd\":");
    if v is None {
        assert(s.subrange(e, e2)[2] == s[e + 2]);
        assert(s[i + 2] == 'c');
    }
    lemma_parse_opt_field(s, i, ",\"stdin\":"@, v, 2, 'c');
}

/// The optional `body` member, last before the closing brace, parses as
/// encoded.
#[verifier::rlimit(100)]
#[verifier::spinoff_prover]
proof fn proof_opt_body(s: Seq<char>, i: int, e: int, v: Option<Seq<char>>)
    requires
        0 <= i,
        e == i + enc_opt_field(",\"body\":"@, v).len(),
        e + "}"@.len() <= s.len(),
        s.subrange(i, e) == enc_opt_field(",\"body\":"@, v),
        s.subrange(e, e + "}"@.len()) == "}"@,
    ensures
        v matches Some(x) ==> parse_field_str(s, i, ",\"body\":"@) == Some((x, e)),
        v is None ==> parse_field_str(s, i, ",\"body\":"@) is None,
{
    reveal_strlit(",\"body\":");
    reveal_strlit("}");
    if v is None {
        assert(s.subrange(e, e + 1)[0] == s[e]);
        assert(s[i] == '}');
    }
    lemma_parse_opt_field(s, i, ",\"body\":"@, v, 0, '}');
}

/// How an optional string member parses: present when encoded, and absent
/// (refuted by one differing character) when omitted.
#[verifier::rlimit(100)]
#[verifier::spinoff_prover]
proof fn lemma_parse_opt_field(
    s: Seq<char>,
    i: int,
    lit: Seq<char>,
    v: Option<Seq<char>>,
    k: int,
    c: char,
)
    requires
        0 <= i,
        i + enc_opt_field(lit, v).len() <= s.len(),
        s.subrange(i, i + enc_opt_field(lit, v).len()) == enc_opt_field(lit, v),
        v is None ==> (0 <= k < lit.len() && lit[k] != c && i + k < s.len() && s[i + k] == c),
    ensures
        v matches Some(x) ==> parse_field_str(s, i, lit) == Some(
            (x, i + enc_opt_field(lit, v).len()),
        ),
        v is None ==> parse_field_str(s, i, lit) is None,
{
    match v {
        Some(x) => {
            assert(enc_opt_field(lit, v) == lit + enc_str(x));
            lemma_concat_at(s, i, lit, enc_str(x));
            lemma_parse_lit(s, i, lit);
            lemma_parse_string(s, i + lit.len(), x);
        },
        None => {
            lemma_lit_absent(s, i, lit, k, c);
        },
    }
}

/// Refutes a member literal at a position holding a different character.
proof fn lemma_lit_absent(s: Seq<char>, i: int, lit: Seq<char>, k: int, c: char)
    requires
        0 <= i,
        0 <= k < lit.len(),
        lit[k] != c,
        i + k < s.len() && s[i + k] == c,
    ensures
        parse_lit(s, i, lit) is None,
{
    if parse_lit(s, i, lit) is Some {
        assert(s.subrange(i, i + lit.len())[k] == s[i + k]);
    }
}

/// Chains the field results of an HTTP response into the parsed message.
#[verifier::rlimit(100)]
#[verifier::spinoff_prover]
proof fn lemma_http_response_tail(
    s: Seq<char>,
    i: int,
    r: HttpResponseV,
    j1: int,
    j2: int,
    j3: int,
    j4: int,
    j5: int,
)
    requires
        parse_field_str(s, i, ",\"id\":"@) == Some((r.id, j1)),
        parse_field_num(s, j1, ",\"status\":"@, 0xffff) == Some((r.status as int, j2)),
        parse_field_obj(s, j2, ",\"headers\":"@) == Some((r.headers, j3)),
        match r.body {
            Some(x) => parse_field_str(s, j3, ",\"body\":"@) == Some((x, j4)),
            None => parse_field_str(s, j3, ",\"body\":"@) is None && j4 == j3,
        },
        parse_lit(s, j4, "}"@) == Some(j5),
    ensures
        parse_http_response_fields(s, i) == Some((MessageV::HttpResponse(r), j5)),
{
    assert((r.status as int) as u16 == r.status);
}

/// Chains the field results of an SSE event into the parsed message.
#[verifier::rlimit(100)]
#[verifier::spinoff_prover]
proof fn lemma_sse_event_tail(
    s: Seq<char>,
    i: int,
    r: SseEventV,
    j1: int,
    j2: int,
    j3: int,
    j4: int,
    j5: int,
)
    requires
        parse_field_str(s, i, ",\"id\":"@) == Some((r.id, j1)),
        parse_field_str(s, j1, ",\"tool\":"@) == Some((r.tool, j2)),
        parse_field_str(s, j2, ",\"event\":"@) == Some((r.event, j3)),
        parse_field_str(s, j3, ",\"data\":"@) == Some((r.data, j4)),
        parse_lit(s, j4, "}"@) == Some(j5),
    ensures
        parse_sse_event_fields(s, i) == Some((MessageV::SseEvent(r), j5)),
{
}

/// Chains the field results of an error message into the parsed message.
#[verifier::rlimit(100)]
#[verifier::spinoff_prover]
proof fn lemma_error_tail(
    s: Seq<char>,
    i: int,
    r: ErrorMessageV,
    j0: int,
    j1: int,
    j2: int,
    j3: int,
    j4: int,
)
    requires
        parse_lit(s, i, ",\"id\":"@) == Some(j0),
        match r.id {
            Some(x) => parse_lit(s, j0, "null"@) is None && parse_string(s, j0) == Some((x, j1)),
            None => parse_lit(s, j0, "null"@) == Some(j1),
        },
        parse_field_str(s, j1, ",\"code\":"@) == Some((r.code, j2)),
        parse_field_str(s, j2, ",\"message\":"@) == Some((r.message, j3)),
        parse_lit(s, j3, "}"@) == Some(j4),
    ensures
        parse_error_fields(s, i) == Some((MessageV::Error(r), j4)),
{
}

/// Chains the field results of a keepalive record into the parsed message.
#[verifier::rlimit(100)]
#[verifier::spinoff_prover]
proof fn lemma_pingpong_tail(
    s: Seq<char>,
    i: int,
    r: PingPongV,
    ping: bool,
    j1: int,
    j2: int,
    j3: int,
)
    requires
        parse_field_str(s, i, ",\"id\":"@) == Some((r.id, j1)),
        parse_field_num(s, j1, ",\"timestamp\":"@, 0xffff_ffff_ffff_ffff) == Some((r.timestamp as int, j2)),
        parse_lit(s, j2, "}"@) == Some(j3),
    ensures
        ping ==> parse_pingpong_fields(s, i, true) == Some((MessageV::Ping(r), j3)),
        !ping ==> parse_pingpong_fields(s, i, false) == Some((MessageV::Pong(r), j3)),
{
    assert((r.timestamp as int) as u64 == r.timestamp);
}

/// The early members of an encoded CLI request parse as encoded.
#[verifier::rlimit(100)]
#[verifier::spinoff_prover]
proof fn lemma_cli_request_lo(s: Seq<char>, r: CliRequestV)
    requires
        ({
            let a8 = "{\"type\":"@ + enc_str("cli_request"@) + ",\"id\":"@ + enc_str(r.id)
                + ",\"tool\":"@ + enc_str(r.tool) + ",\"argv\":"@ + enc_arr(r.argv);
            &&& a8.len() <= s.len()
            &&& s.subrange(0, a8.len() as int) == a8
        }),
    ensures
        ({
            let a1 = "{\"type\":"@;
            let a2 = a1 + enc_str("cli_request"@);
            let a3 = a2 + ",\"id\":"@;
            let a4 = a3 + enc_str(r.id);
            let a5 = a4 + ",\"tool\":"@;
            let a6 = a5 + enc_str(r.tool);
            let a7 = a6 + ",\"argv\":"@;
            let a8 = a7 + enc_arr(r.argv);
            &&& parse_lit(s, 0, a1) == Some(a1.len() as int)
            &&& parse_string(s, a1.len() as int) == Some(("cli_request"@, a2.len() as int))
            &&& parse_field_str(s, a2.len() as int, ",\"id\":"@) == Some((r.id, a4.len() as int))
            &&& parse_field_str(s, a4.len() as int, ",\"tool\":"@) == Some(
                (r.tool, a6.len() as int),
            )
            &&& parse_field_arr(s, a6.len() as int, ",\"argv\":"@) == Some(
                (r.argv, a8.len() as int),
            )
        }),
{
    let a1 = "{\"type\":"@;
    let a2 = a1 + enc_str("cli_request"@);
    let a3 = a2 + ",\"id\":"@;
    let a4 = a3 + enc_str(r.id);
    let a5 = a4 + ",\"tool\":"@;
    let a6 = a5 + enc_str(r.tool);
    let a7 = a6 + ",\"argv\":"@;
    let a8 = a7 + enc_arr(r.argv);
    lemma_concat_at(s, 0, a7, enc_arr(r.argv));
    lemma_concat_at(s, 0, a6, ",\"argv\":"@);
    lemma_concat_at(s, 0, a5, enc_str(r.tool));
    lemma_concat_at(s, 0, a4, ",\"tool\":"@);
    lemma_concat_at(s, 0, a3, enc_str(r.id));
    lemma_concat_at(s, 0, a2, ",\"id\":"@);
    lemma_concat_at(s, 0, a1, enc_str("cli_request"@));
    lemma_parse_lit(s, 0, a1);
    lemma_parse_string(s, a1.len() as int, "cli_request"@);
    lemma_parse_field_str(s, a2.len() as int, ",\"id\":"@, r.id);
    lemma_parse_field_str(s, a4.len() as int, ",\"tool\":"@, r.tool);
    lemma_parse_field_arr(s, a6.len() as int, ",\"argv\":"@, r.argv);
}

/// The late members of an encoded CLI request parse as encoded.
#[verifier::rlimit(100)]
#[verifier::spinoff_prover]
proof fn lemma_cli_request_hi(s: Seq<char>, r: CliRequestV)
    requires
        s == enc_cli_request(r),
        crate::strmap::unique_keys(r.env),
    ensures
        ({
            let a1 = "{\"type\":"@;
            let a2 = a1 + enc_str("cli_request"@);
            let a3 = a2 + ",\"id\":"@;
            let a4 = a3 + enc_str(r.id);
            let a5 = a4 + ",\"tool\":"@;
            let a6 = a5 + enc_str(r.tool);
            let a7 = a6 + ",\"argv\":"@;
            let a8 = a7 + enc_arr(r.argv);
            let a9 = a8 + ",\"env\":"@;
            let a10 = a9 + enc_obj(r.env);
            let a11 = a10 + enc_opt_field(",\"stdin\":"@, r.stdin);
            let a12 = a11 + ",\"cwd\":"@;
            let a13 = a12 + enc_str(r.cwd);
            &&& a8.len() <= s.len()
            &&& s.subrange(0, a8.len() as int) == a8
            &&& parse_field_obj(s, a8.len() as int, ",\"env\":"@) == Some(
                (r.env, a10.len() as int),
            )
            &&& (r.stdin matches Some(x) ==> parse_field_str(s, a10.len() as int, ",\"stdin\":"@)
                == Some((x, a11.len() as int)))
            &&& (r.stdin is None ==> parse_field_str(s, a10.len() as int, ",\"stdin\":"@) is None)
            &&& parse_field_str(s, a11.len() as int, ",\"cwd\":"@) == Some(
                (r.cwd, a13.len() as int),
            )
            &&& parse_lit(s, a13.len() as int, "}"@) == Some(s.len() as int)
        }),
{
    let a1 = "{\"type\":"@;
    let a2 = a1 + enc_str("cli_request"@);
    let a3 = a2 + ",\"id\":"@;
    let a4 = a3 + enc_str(r.id);
    let a5 = a4 + ",\"tool\":"@;
    let a6 = a5 + enc_str(r.tool);
    let a7 = a6 + ",\"argv\":"@;
    let a8 = a7 + enc_arr(r.argv);
    let a9 = a8 + ",\"env\":"@;
    let a10 = a9 + enc_obj(r.env);
    let a11 = a10 + enc_opt_field(",\"stdin\":"@, r.stdin);
    let a12 = a11 + ",\"cwd\":"@;
    let a13 = a12 + enc_str(r.cwd);
    assert(s.subrange(0, s.len() as int) =~= s);
    lemma_concat_at(s, 0, a13, "}"@);
    lemma_concat_at(s, 0, a12, enc_str(r.cwd));
    lemma_concat_at(s, 0, a11, ",\"cwd\":"@);
    lemma_concat_at(s, 0, a10, enc_opt_field(",\"stdin\":"@, r.stdin));
    lemma_concat_at(s, 0, a9, enc_obj(r.env));
    lemma_concat_at(s, 0, a8, ",\"env\":"@);
    lemma_parse_field_obj(s, a8.len() as int, ",\"env\":"@, r.env);
    let i5 = a10.len() as int;
    match r.stdin {
        Some(x) => {
            assert(enc_opt_field(",\"stdin\":"@, r.stdin) == ",\"stdin\":"@ + enc_str(x));
            lemma_concat_at(s, i5, ",\"stdin\":"@, enc_str(x));
            lemma_parse_field_str(s, i5, ",\"stdin\":"@, x);
        },
        None => {
            reveal_strlit(",\"stdin\":");
            reveal_strlit(",\"cwd\":");
            assert(s.subrange(a11.len() as int, a12.len() as int)[2] == s[i5 + 2]);
            assert(s[i5 + 2] == 'c');
            lemma_lit_absent(s, i5, ",\"stdin\":"@, 2, 'c');
        },
    }
    lemma_parse_field_str(s, a11.len() as int, ",\"cwd\":"@, r.cwd);
    lemma_parse_lit(s, a13.len() as int, "}"@);
}

/// An encoded CLI request parses back to itself.
#[verifier::rlimit(100)]
#[verifier::spinoff_prover]
proof fn lemma_parse_enc_cli_request(s: Seq<char>, r: CliRequestV)
    requires
        s == enc_cli_request(r),
        crate::strmap::unique_keys(r.env),
    ensures
        spec_parse_msg(s) == Some(MessageV::CliRequest(r)),
{
    let a1 = "{\"type\":"@;
    let a2 = a1 + enc_str("cli_request"@);
    let a3 = a2 + ",\"id\":"@;
    let a4 = a3 + enc_str(r.id);
    let a5 = a4 + ",\"tool\":"@;
    let a6 = a5 + enc_str(r.tool);
    let a7 = a6 + ",\"argv\":"@;
    let a8 = a7 + enc_arr(r.argv);
    let a9 = a8 + ",\"env\":"@;
    let a10 = a9 + enc_obj(r.env);
    let a11 = a10 + enc_opt_field(",\"stdin\":"@, r.stdin);
    let a12 = a11 + ",\"cwd\":"@;
    let a13 = a12 + enc_str(r.cwd);
    lemma_cli_request_hi(s, r);
    lemma_cli_request_lo(s, r);
    lemma_cli_request_tail(
        s,
        a2.len() as int,
        r,
        a4.len() as int,
        a6.len() as int,
        a8.len() as int,
        a10.len() as int,
        a11.len() as int,
        a13.len() as int,
        s.len() as int,
    );
    lemma_dispatch_cli_request(s, a1.len() as int, a2.len() as int, MessageV::CliRequest(r));
}

/// The early members of an encoded CLI response parse as encoded.
#[verifier::rlimit(100)]
#[verifier::spinoff_prover]
proof fn lemma_cli_response_lo(s: Seq<char>, r: CliResponseV)
    requires
        s == enc_cli_response(r),
    ensures
        ({
            let a1 = "{\"type\":"@;
            let a2 = a1 + enc_str("cli_response"@);
            let a3 = a2 + ",\"id\":"@;
            let a4 = a3 + enc_str(r.id);
            let a5 = a4 + ",\"exit_code\":"@;
            let a6 = a5 + enc_i32(r.exit_code);
            &&& parse_lit(s, 0, a1) == Some(a1.len() as int)
            &&& parse_string(s, a1.len() as int) == Some(("cli_response"@, a2.len() as int))
            &&& parse_field_str(s, a2.len() as int, ",\"id\":"@) == Some((r.id, a4.len() as int))
            &&& parse_field_i32(s, a4.len() as int, ",\"exit_code\":"@) == Some(
                (r.exit_code as int, a6.len() as int),
            )
        }),
{
    reveal_strlit(",\"stdout\":");
    let a1 = "{\"type\":"@;
    let a2 = a1 + enc_str("cli_response"@);
    let a3 = a2 + ",\"id\":"@;
    let a4 = a3 + enc_str(r.id);
    let a5 = a4 + ",\"exit_code\":"@;
    let a6 = a5 + enc_i32(r.exit_code);
    let a7 = a6 + ",\"stdout\":"@;
    let a8 = a7 + enc_str(r.stdout);
    let a9 = a8 + ",\"stderr\":"@;
    let a10 = a9 + enc_str(r.stderr);
    assert(s.subrange(0, s.len() as int) =~= s);
    lemma_concat_at(s, 0, a10, "}"@);
    lemma_concat_at(s, 0, a9, enc_str(r.stderr));
    lemma_concat_at(s, 0, a8, ",\"stderr\":"@);
    lemma_concat_at(s, 0, a7, enc_str(r.stdout));
    lemma_concat_at(s, 0, a6, ",\"stdout\":"@);
    lemma_concat_at(s, 0, a5, enc_i32(r.exit_code));
    lemma_concat_at(s, 0, a4, ",\"exit_code\":"@);
    lemma_concat_at(s, 0, a3, enc_str(r.id));
    lemma_concat_at(s, 0, a2, ",\"id\":"@);
    lemma_concat_at(s, 0, a1, enc_str("cli_response"@));
    lemma_parse_lit(s, 0, a1);
    lemma_parse_string(s, a1.len() as int, "cli_response"@);
    lemma_parse_field_str(s, a2.len() as int, ",\"id\":"@, r.id);
    assert(s.subrange(a6.len() as int, a7.len() as int)[0] == s[a6.len() as int]);
    assert(s[a6.len() as int] == ',');
    lemma_parse_field_i32(s, a4.len() as int, ",\"exit_code\":"@, r.exit_code);
}

/// The late members of an encoded CLI response parse as encoded.
#[verifier::rlimit(100)]
#[verifier::spinoff_prover]
proof fn lemma_cli_response_hi(s: Seq<char>, r: CliResponseV)
    requires
        s == enc_cli_response(r),
    ensures
        ({
            let a1 = "{\"type\":"@;
            let a2 = a1 + enc_str("cli_response"@);
            let a3 = a2 + ",\"id\":"@;
            let a4 = a3 + enc_str(r.id);
            let a5 = a4 + ",\"exit_code\":"@;
            let a6 = a5 + enc_i32(r.exit_code);
            let a7 = a6 + ",\"stdout\":"@;
            let a8 = a7 + enc_str(r.stdout);
            let a9 = a8 + ",\"stderr\":"@;
            let a10 = a9 + enc_str(r.stderr);
            &&& parse_field_str(s, a6.len() as int, ",\"stdout\":"@) == Some(
                (r.stdout, a8.len() as int),
            )
            &&& parse_field_str(s, a8.len() as int, ",\"stderr\":"@) == Some(
                (r.stderr, a10.len() as int),
            )
            &&& parse_lit(s, a10.len() as int, "}"@) == Some(s.len() as int)
        }),
{
    let a1 = "{\"type\":"@;
    let a2 = a1 + enc_str("cli_response"@);
    let a3 = a2 + ",\"id\":"@;
    let a4 = a3 + enc_str(r.id);
    let a5 = a4 + ",\"exit_code\":"@;
    let a6 = a5 + enc_i32(r.exit_code);
    let a7 = a6 + ",\"stdout\":"@;
    let a8 = a7 + enc_str(r.stdout);
    let a9 = a8 + ",\"stderr\":"@;
    let a10 = a9 + enc_str(r.stderr);
    assert(s.subrange(0, s.len() as int) =~= s);
    lemma_concat_at(s, 0, a10, "}"@);
    lemma_concat_at(s, 0, a9, enc_str(r.stderr));
    lemma_concat_at(s, 0, a8, ",\"stderr\":"@);
    lemma_concat_at(s, 0, a7, enc_str(r.stdout));
    lemma_concat_at(s, 0, a6, ",\"stdout\":"@);
    lemma_parse_field_str(s, a6.len() as int, ",\"stdout\":"@, r.stdout);
    lemma_parse_field_str(s, a8.len() as int, ",\"stderr\":"@, r.stderr);
    lemma_parse_lit(s, a10.len() as int, "}"@);
}

/// An encoded CLI response parses back to itself.
#[verifier::rlimit(100)]
#[verifier::spinoff_prover]
proof fn lemma_parse_enc_cli_response(s: Seq<char>, r: CliResponseV)
    requires
        s == enc_cli_response(r),
    ensures
        spec_parse_msg(s) == Some(MessageV::CliResponse(r)),
{
    let a1 = "{\"type\":"@;
    let a2 = a1 + enc_str("cli_response"@);
    let a3 = a2 + ",\"id\":"@;
    let a4 = a3 + enc_str(r.id);
    let a5 = a4 + ",\"exit_code\":"@;
    let a6 = a5 + enc_i32(r.exit_code);
    let a7 = a6 + ",\"stdout\":"@;
    let a8 = a7 + enc_str(r.stdout);
    let a9 = a8 + ",\"stderr\":"@;
    let a10 = a9 + enc_str(r.stderr);
    lemma_cli_response_lo(s, r);
    lemma_cli_response_hi(s, r);
    lemma_cli_response_tail(
        s,
        a2.len() as int,
        r,
        a4.len() as int,
        a6.len() as int,
        a8.len() as int,
        a10.len() as int,
        s.len() as int,
    );
    lemma_dispatch_cli_response(s, a1.len() as int, a2.len() as int, MessageV::CliResponse(r));
}

/// The early members of an encoded HTTP request parse as encoded.
#[verifier::rlimit(100)]
#[verifier::spinoff_prover]
proof fn lemma_http_request_lo(s: Seq<char>, r: HttpRequestV)
    requires
        s == enc_http_request(r),
    ensures
        ({
            let a1 = "{\"type\":"@;
            let a2 = a1 + enc_str("http_request"@);
            let a3 = a2 + ",\"id\":"@;
            let a4 = a3 + enc_str(r.id);
            let a5 = a4 + ",\"tool\":"@;
            let a6 = a5 + enc_str(r.tool);
            let a7 = a6 + ",\"method\":"@;
            let a8 = a7 + enc_str(r.method);
            &&& parse_lit(s, 0, a1) == Some(a1.len() as int)
            &&& parse_string(s, a1.len() as int) == Some(("http_request"@, a2.len() as int))
            &&& parse_field_str(s, a2.len() as int, ",\"id\":"@) == Some((r.id, a4.len() as int))
            &&& parse_field_str(s, a4.len() as int, ",\"tool\":"@) == Some(
                (r.tool, a6.len() as int),
            )
            &&& parse_field_str(s, a6.len() as int, ",\"method\":"@) == Some(
                (r.method, a8.len() as int),
            )
        }),
{
    let a1 = "{\"type\":"@;
    let a2 = a1 + enc_str("http_request"@);
    let a3 = a2 + ",\"id\":"@;
    let a4 = a3 + enc_str(r.id);
    let a5 = a4 + ",\"tool\":"@;
    let a6 = a5 + enc_str(r.tool);
    let a7 = a6 + ",\"method\":"@;
    let a8 = a7 + enc_str(r.method);
    let a9 = a8 + ",\"path\":"@;
    let a10 = a9 + enc_str(r.path);
    let a11 = a10 + ",\"headers\":"@;
    let a12 = a11 + enc_obj(r.headers);
    let a13 = a12 + enc_opt_field(",\"body\":"@, r.body);
    assert(s.subrange(0, s.len() as int) =~= s);
    lemma_concat_at(s, 0, a13, "}"@);
    lemma_concat_at(s, 0, a12, enc_opt_field(",\"body\":"@, r.body));
    lemma_concat_at(s, 0, a11, enc_obj(r.headers));
    lemma_concat_at(s, 0, a10, ",\"headers\":"@);
    lemma_concat_at(s, 0, a9, enc_str(r.path));
    lemma_concat_at(s, 0, a8, ",\"path\":"@);
    lemma_concat_at(s, 0, a7, enc_str(r.method));
    lemma_concat_at(s, 0, a6, ",\"method\":"@);
    lemma_concat_at(s, 0, a5, enc_str(r.tool));
    lemma_concat_at(s, 0, a4, ",\"tool\":"@);
    lemma_concat_at(s, 0, a3, enc_str(r.id));
    lemma_concat_at(s, 0, a2, ",\"id\":"@);
    lemma_concat_at(s, 0, a1, enc_str("http_request"@));
    lemma_parse_lit(s, 0, a1);
    lemma_parse_string(s, a1.len() as int, "http_request"@);
    lemma_parse_field_str(s, a2.len() as int, ",\"id\":"@, r.id);
    lemma_parse_field_str(s, a4.len() as int, ",\"tool\":"@, r.tool);
    lemma_parse_field_str(s, a6.len() as int, ",\"method\":"@, r.method);
}

/// The late members of an encoded HTTP request parse as encoded.
#[verifier::rlimit(100)]
#[verifier::spinoff_prover]
proof fn lemma_http_request_hi(s: Seq<char>, r: HttpRequestV)
    requires
        s == enc_http_request(r),
        crate::strmap::unique_keys(r.headers),
    ensures
        ({
            let a1 = "{\"type\":"@;
            let a2 = a1 + enc_str("http_request"@);
            let a3 = a2 + ",\"id\":"@;
            let a4 = a3 + enc_str(r.id);
            let a5 = a4 + ",\"tool\":"@;
            let a6 = a5 + enc_str(r.tool);
            let a7 = a6 + ",\"method\":"@;
            let a8 = a7 + enc_str(r.method);
            let a9 = a8 + ",\"path\":"@;
            let a10 = a9 + enc_str(r.path);
            let a11 = a10 + ",\"headers\":"@;
            let a12 = a11 + enc_obj(r.headers);
            let a13 = a12 + enc_opt_field(",\"body\":"@, r.body);
            &&& parse_field_str(s, a8.len() as int, ",\"path\":"@) == Some(
                (r.path, a10.len() as int),
            )
            &&& parse_field_obj(s, a10.len() as int, ",\"headers\":"@) == Some(
                (r.headers, a12.len() as int),
            )
            &&& (r.body matches Some(x) ==> parse_field_str(s, a12.len() as int, ",\"body\":"@)
                == Some((x, a13.len() as int)))
            &&& (r.body is None ==> parse_field_str(s, a12.len() as int, ",\"body\":"@) is None)
            &&& parse_lit(s, a13.len() as int, "}"@) == Some(s.len() as int)
        }),
{
    let a1 = "{\"type\":"@;
    let a2 = a1 + enc_str("http_request"@);
    let a3 = a2 + ",\"id\":"@;
    let a4 = a3 + enc_str(r.id);
    let a5 = a4 + ",\"tool\":"@;
    let a6 = a5 + enc_str(r.tool);
    let a7 = a6 + ",\"method\":"@;
    let a8 = a7 + enc_str(r.method);
    let a9 = a8 + ",\"path\":"@;
    let a10 = a9 + enc_str(r.path);
    let a11 = a10 + ",\"headers\":"@;
    let a12 = a11 + enc_obj(r.headers);
    let a13 = a12 + enc_opt_field(",\"body\":"@, r.body);
    assert(s.subrange(0, s.len() as int) =~= s);
    lemma_concat_at(s, 0, a13, "}"@);
    lemma_concat_at(s, 0, a12, enc_opt_field(",\"body\":"@, r.body));
    lemma_concat_at(s, 0, a11, enc_obj(r.headers));
    lemma_concat_at(s, 0, a10, ",\"headers\":"@);
    lemma_concat_at(s, 0, a9, enc_str(r.path));
    lemma_concat_at(s, 0, a8, ",\"path\":"@);
    lemma_parse_field_str(s, a8.len() as int, ",\"path\":"@, r.path);
    lemma_parse_field_obj(s, a10.len() as int, ",\"headers\":"@, r.headers);
    proof_opt_body(s, a12.len() as int, a13.len() as int, r.body);
    lemma_parse_lit(s, a13.len() as int, "}"@);
}

/// An encoded HTTP request parses back to itself.
#[verifier::rlimit(100)]
#[verifier::spinoff_prover]
proof fn lemma_parse_enc_http_request(s: Seq<char>, r: HttpRequestV)
    requires
        s == enc_http_request(r),
        crate::strmap::unique_keys(r.headers),
    ensures
        spec_parse_msg(s) == Some(MessageV::HttpRequest(r)),
{
    let a1 = "{\"type\":"@;
    let a2 = a1 + enc_str("http_request"@);
    let a3 = a2 + ",\"id\":"@;
    let a4 = a3 + enc_str(r.id);
    let a5 = a4 + ",\"tool\":"@;
    let a6 = a5 + enc_str(r.tool);
    let a7 = a6 + ",\"method\":"@;
    let a8 = a7 + enc_str(r.method);
    let a9 = a8 + ",\"path\":"@;
    let a10 = a9 + enc_str(r.path);
    let a11 = a10 + ",\"headers\":"@;
    let a12 = a11 + enc_obj(r.headers);
    let a13 = a12 + enc_opt_field(",\"body\":"@, r.body);
    lemma_http_request_lo(s, r);
    lemma_http_request_hi(s, r);
    lemma_http_request_tail(
        s,
        a2.len() as int,
        r,
        a4.len() as int,
        a6.len() as int,
        a8.len() as int,
        a10.len() as int,
        a12.len() as int,
        a13.len() as int,
        s.len() as int,
    );
    lemma_dispatch_http_request(s, a1.len() as int, a2.len() as int, MessageV::HttpRequest(r));
}

/// The early members of an encoded HTTP response parse as encoded.
#[verifier::rlimit(100)]
#[verifier::spinoff_prover]
proof fn lemma_http_response_lo(s: Seq<char>, r: HttpResponseV)
    requires
        s == enc_http_response(r),
    ensures
        ({
            let a1 = "{\"type\":"@;
            let a2 = a1 + enc_str("http_response"@);
            let a3 = a2 + ",\"id\":"@;
            let a4 = a3 + enc_str(r.id);
            let a5 = a4 + ",\"status\":"@;
            let a6 = a5 + dec_nat(r.status as nat);
            &&& parse_lit(s, 0, a1) == Some(a1.len() as int)
            &&& parse_string(s, a1.len() as int) == Some(("http_response"@, a2.len() as int))
            &&& parse_field_str(s, a2.len() as int, ",\"id\":"@) == Some((r.id, a4.len() as int))
            &&& parse_field_num(s, a4.len() as int, ",\"status\":"@, 0xffff) == Some(
                (r.status as int, a6.len() as int),
            )
        }),
{
    reveal_strlit(",\"headers\":");
    let a1 = "{\"type\":"@;
    let a2 = a1 + enc_str("http_response"@);
    let a3 = a2 + ",\"id\":"@;
    let a4 = a3 + enc_str(r.id);
    let a5 = a4 + ",\"status\":"@;
    let a6 = a5 + dec_nat(r.status as nat);
    let a7 = a6 + ",\"headers\":"@;
    let a8 = a7 + enc_obj(r.headers);
    let a9 = a8 + enc_opt_field(",\"body\":"@, r.body);
    assert(s.subrange(0, s.len() as int) =~= s);
    lemma_concat_at(s, 0, a9, "}"@);
    lemma_concat_at(s, 0, a8, enc_opt_field(",\"body\":"@, r.body));
    lemma_concat_at(s, 0, a7, enc_obj(r.headers));
    lemma_concat_at(s, 0, a6, ",\"headers\":"@);
    lemma_concat_at(s, 0, a5, dec_nat(r.status as nat));
    lemma_concat_at(s, 0, a4, ",\"status\":"@);
    lemma_concat_at(s, 0, a3, enc_str(r.id));
    lemma_concat_at(s, 0, a2, ",\"id\":"@);
    lemma_concat_at(s, 0, a1, enc_str("http_response"@));
    lemma_parse_lit(s, 0, a1);
    lemma_parse_string(s, a1.len() as int, "http_response"@);
    lemma_parse_field_str(s, a2.len() as int, ",\"id\":"@, r.id);
    assert(s.subrange(a6.len() as int, a7.len() as int)[0] == s[a6.len() as int]);
    assert(s[a6.len() as int] == ',');
    lemma_parse_field_num(s, a4.len() as int, ",\"status\":"@, r.status as nat, 0xffff);
}

/// The late members of an encoded HTTP response parse as encoded.
#[verifier::rlimit(100)]
#[verifier::spinoff_prover]
proof fn lemma_http_response_hi(s: Seq<char>, r: HttpResponseV)
    requires
        s == enc_http_response(r),
        crate::strmap::unique_keys(r.headers),
    ensures
        ({
            let a1 = "{\"type\":"@;
            let a2 = a1 + enc_str("http_response"@);
            let a3 = a2 + ",\"id\":"@;
            let a4 = a3 + enc_str(r.id);
            let a5 = a4 + ",\"status\":"@;
            let a6 = a5 + dec_nat(r.status as nat);
            let a7 = a6 + ",\"headers\":"@;
            let a8 = a7 + enc_obj(r.headers);
            let a9 = a8 + enc_opt_field(",\"body\":"@, r.body);
            &&& parse_field_obj(s, a6.len() as int, ",\"headers\":"@) == Some(
                (r.headers, a8.len() as int),
            )
            &&& (r.body matches Some(x) ==> parse_field_str(s, a8.len() as int, ",\"body\":"@)
                == Some((x, a9.len() as int)))
            &&& (r.body is None ==> parse_field_str(s, a8.len() as int, ",\"body\":"@) is None)
            &&& parse_lit(s, a9.len() as int, "}"@) == Some(s.len() as int)
        }),
{
    let a1 = "{\"type\":"@;
    let a2 = a1 + enc_str("http_response"@);
    let a3 = a2 + ",\"id\":"@;
    let a4 = a3 + enc_str(r.id);
    let a5 = a4 + ",\"status\":"@;
    let a6 = a5 + dec_nat(r.status as nat);
    let a7 = a6 + ",\"headers\":"@;
    let a8 = a7 + enc_obj(r.headers);
    let a9 = a8 + enc_opt_field(",\"body\":"@, r.body);
    assert(s.subrange(0, s.len() as int) =~= s);
    lemma_concat_at(s, 0, a9, "}"@);
    lemma_concat_at(s, 0, a8, enc_opt_field(",\"body\":"@, r.body));
    lemma_concat_at(s, 0, a7, enc_obj(r.headers));
    lemma_concat_at(s, 0, a6, ",\"headers\":"@);
    lemma_parse_field_obj(s, a6.len() as int, ",\"headers\":"@, r.headers);
    proof_opt_body(s, a8.len() as int, a9.len() as int, r.body);
    lemma_parse_lit(s, a9.len() as int, "}"@);
}

/// An encoded HTTP response parses back to itself.
#[verifier::rlimit(100)]
#[verifier::spinoff_prover]
proof fn lemma_parse_enc_http_response(s: Seq<char>, r: HttpResponseV)
    requires
        s == enc_http_response(r),
        crate::strmap::unique_keys(r.headers),
    ensures
        spec_parse_msg(s) == Some(MessageV::HttpResponse(r)),
{
    let a1 = "{\"type\":"@;
    let a2 = a1 + enc_str("http_response"@);
    let a3 = a2 + ",\"id\":"@;
    let a4 = a3 + enc_str(r.id);
    let a5 = a4 + ",\"status\":"@;
    let a6 = a5 + dec_nat(r.status as nat);
    let a7 = a6 + ",\"headers\":"@;
    let a8 = a7 + enc_obj(r.headers);
    let a9 = a8 + enc_opt_field(",\"body\":"@, r.body);
    lemma_http_response_lo(s, r);
    lemma_http_response_hi(s, r);
    lemma_http_response_tail(
        s,
        a2.len() as int,
        r,
        a4.len() as int,
        a6.len() as int,
        a8.len() as int,
        a9.len() as int,
        s.len() as int,
    );
    lemma_dispatch_http_response(s, a1.len() as int, a2.len() as int, MessageV::HttpResponse(r));
}

/// An encoded SSE event parses back to itself.
#[verifier::rlimit(100)]
#[verifier::spinoff_prover]
proof fn lemma_parse_enc_sse_event(s: Seq<char>, r: SseEventV)
    requires
        s == enc_sse_event(r),
    ensures
        spec_parse_msg(s) == Some(MessageV::SseEvent(r)),
{
    let a1 = "{\"type\":"@;
    let a2 = a1 + enc_str("sse_event"@);
    let a3 = a2 + ",\"id\":"@;
    let a4 = a3 + enc_str(r.id);
    let a5 = a4 + ",\"tool\":"@;
    let a6 = a5 + enc_str(r.tool);
    let a7 = a6 + ",\"event\":"@;
    let a8 = a7 + enc_str(r.event);
    let a9 = a8 + ",\"data\":"@;
    let a10 = a9 + enc_str(r.data);
    assert(s.subrange(0, s.len() as int) =~= s);
    lemma_concat_at(s, 0, a10, "}"@);
    lemma_concat_at(s, 0, a9, enc_str(r.data));
    lemma_concat_at(s, 0, a8, ",\"data\":"@);
    lemma_concat_at(s, 0, a7, enc_str(r.event));
    lemma_concat_at(s, 0, a6, ",\"event\":"@);
    lemma_concat_at(s, 0, a5, enc_str(r.tool));
    lemma_concat_at(s, 0, a4, ",\"tool\":"@);
    lemma_concat_at(s, 0, a3, enc_str(r.id));
    lemma_concat_at(s, 0, a2, ",\"id\":"@);
    lemma_concat_at(s, 0, a1, enc_str("sse_event"@));
    lemma_parse_lit(s, 0, a1);
    lemma_parse_string(s, a1.len() as int, "sse_event"@);
    lemma_parse_field_str(s, a2.len() as int, ",\"id\":"@, r.id);
    lemma_parse_field_str(s, a4.len() as int, ",\"tool\":"@, r.tool);
    lemma_parse_field_str(s, a6.len() as int, ",\"event\":"@, r.event);
    lemma_parse_field_str(s, a8.len() as int, ",\"data\":"@, r.data);
    lemma_parse_lit(s, a10.len() as int, "}"@);
    lemma_sse_event_tail(
        s,
        a2.len() as int,
        r,
        a4.len() as int,
        a6.len() as int,
        a8.len() as int,
        a10.len() as int,
        s.len() as int,
    );
    lemma_dispatch_sse_event(s, a1.len() as int, a2.len() as int, MessageV::SseEvent(r));
}

/// An encoded error message parses back to itself.
#[verifier::rlimit(100)]
#[verifier::spinoff_prover]
proof fn lemma_parse_enc_error(s: Seq<char>, r: ErrorMessageV)
    requires
        s == enc_error(r),
    ensures
        spec_parse_msg(s) == Some(MessageV::Error(r)),
{
    reveal_strlit("null");
    let idenc = match r.id {
        Some(x) => enc_str(x),
        None => "null"@,
    };
    let a1 = "{\"type\":"@;
    let a2 = a1 + enc_str("error"@);
    let a3 = a2 + ",\"id\":"@;
    let a4 = a3 + idenc;
    let a5 = a4 + ",\"code\":"@;
    let a6 = a5 + enc_str(r.code);
    let a7 = a6 + ",\"message\":"@;
    let a8 = a7 + enc_str(r.message);
    assert(s.subrange(0, s.len() as int) =~= s);
    lemma_concat_at(s, 0, a8, "}"@);
    lemma_concat_at(s, 0, a7, enc_str(r.message));
    lemma_concat_at(s, 0, a6, ",\"message\":"@);
    lemma_concat_at(s, 0, a5, enc_str(r.code));
    lemma_concat_at(s, 0, a4, ",\"code\":"@);
    lemma_concat_at(s, 0, a3, idenc);
    lemma_concat_at(s, 0, a2, ",\"id\":"@);
    lemma_concat_at(s, 0, a1, enc_str("error"@));
    lemma_parse_lit(s, 0, a1);
    lemma_parse_string(s, a1.len() as int, "error"@);
    lemma_parse_lit(s, a2.len() as int, ",\"id\":"@);
    let ib = a3.len() as int;
    match r.id {
        Some(x) => {
            assert(s.subrange(ib, a4.len() as int)[0] == s[ib]);
            assert(s[ib] == '"');
            if parse_lit(s, ib, "null"@) is Some {
                assert(s.subrange(ib, ib + 4)[0] == s[ib]);
                assert(false);
            }
            lemma_parse_string(s, ib, x);
        },
        None => {
            lemma_parse_lit(s, ib, "null"@);
        },
    }
    lemma_parse_field_str(s, a4.len() as int, ",\"code\":"@, r.code);
    lemma_parse_field_str(s, a6.len() as int, ",\"message\":"@, r.message);
    lemma_parse_lit(s, a8.len() as int, "}"@);
    lemma_error_tail(
        s,
        a2.len() as int,
        r,
        a3.len() as int,
        a4.len() as int,
        a6.len() as int,
        a8.len() as int,
        s.len() as int,
    );
    lemma_dispatch_error(s, a1.len() as int, a2.len() as int, MessageV::Error(r));
}

/// The members of an encoded keepalive record parse as encoded.
#[verifier::rlimit(100)]
#[verifier::spinoff_prover]
proof fn lemma_pingpong_facts(s: Seq<char>, r: PingPongV, tag: Seq<char>)
    requires
        s == enc_pingpong(tag, r),
    ensures
        ({
            let a1 = "{\"type\":"@;
            let a2 = a1 + enc_str(tag);
            let a3 = a2 + ",\"id\":"@;
            let a4 = a3 + enc_str(r.id);
            let a5 = a4 + ",\"timestamp\":"@;
            let a6 = a5 + dec_nat(r.timestamp as nat);
            &&& parse_lit(s, 0, a1) == Some(a1.len() as int)
            &&& parse_string(s, a1.len() as int) == Some((tag, a2.len() as int))
            &&& parse_field_str(s, a2.len() as int, ",\"id\":"@) == Some((r.id, a4.len() as int))
            &&& parse_field_num(s, a4.len() as int, ",\"timestamp\":"@, 0xffff_ffff_ffff_ffff)
                == Some((r.timestamp as int, a6.len() as int))
            &&& parse_lit(s, a6.len() as int, "}"@) == Some(s.len() as int)
        }),
{
    reveal_strlit("}");
    let a1 = "{\"type\":"@;
    let a2 = a1 + enc_str(tag);
    let a3 = a2 + ",\"id\":"@;
    let a4 = a3 + enc_str(r.id);
    let a5 = a4 + ",\"timestamp\":"@;
    let a6 = a5 + dec_nat(r.timestamp as nat);
    assert(s.subrange(0, s.len() as int) =~= s);
    lemma_concat_at(s, 0, a6, "}"@);
    lemma_concat_at(s, 0, a5, dec_nat(r.timestamp as nat));
    lemma_concat_at(s, 0, a4, ",\"timestamp\":"@);
    lemma_concat_at(s, 0, a3, enc_str(r.id));
    lemma_concat_at(s, 0, a2, ",\"id\":"@);
    lemma_concat_at(s, 0, a1, enc_str(tag));
    lemma_parse_lit(s, 0, a1);
    lemma_parse_string(s, a1.len() as int, tag);
    lemma_parse_field_str(s, a2.len() as int, ",\"id\":"@, r.id);
    assert(s.subrange(a6.len() as int, s.len() as int)[0] == s[a6.len() as int]);
    assert(s[a6.len() as int] == '}');
    lemma_parse_field_num(
        s,
        a4.len() as int,
        ",\"timestamp\":"@,
        r.timestamp as nat,
        0xffff_ffff_ffff_ffff,
    );
    lemma_parse_lit(s, a6.len() as int, "}"@);
}

/// An encoded keepalive record parses back to itself.
#[verifier::rlimit(100)]
#[verifier::spinoff_prover]
proof fn lemma_parse_enc_pingpong(s: Seq<char>, r: PingPongV, ping: bool)
    requires
        s == enc_pingpong(if ping { "ping"@ } else { "pong"@ }, r),
    ensures
        ping ==> spec_parse_msg(s) == Some(MessageV::Ping(r)),
        !ping ==> spec_parse_msg(s) == Some(MessageV::Pong(r)),
{
    let tag = if ping { "ping"@ } else { "pong"@ };
    let a1 = "{\"type\":"@;
    let a2 = a1 + enc_str(tag);
    let a3 = a2 + ",\"id\":"@;
    let a4 = a3 + enc_str(r.id);
    let a5 = a4 + ",\"timestamp\":"@;
    let a6 = a5 + dec_nat(r.timestamp as nat);
    lemma_pingpong_facts(s, r, tag);
    lemma_pingpong_tail(
        s,
        a2.len() as int,
        r,
        ping,
        a4.len() as int,
        a6.len() as int,
        s.len() as int,
    );
    if ping {
        lemma_dispatch_ping(s, a1.len() as int, a2.len() as int, MessageV::Ping(r));
    } else {
        lemma_dispatch_pong(s, a1.len() as int, a2.len() as int, MessageV::Pong(r));
    }
}

/// The codec inverts itself: parsing the canonical text of a well-formed
/// message yields that message.
pub proof fn lemma_parse_encode(m: MessageV)
    requires
        msg_wf(m),
    ensures
        spec_parse_msg(spec_encode_msg(m)) == Some(m),
{
    match m {
        MessageV::CliRequest(r) => lemma_parse_enc_cli_request(spec_encode_msg(m), r),
        MessageV::CliResponse(r) => lemma_parse_enc_cli_response(spec_encode_msg(m), r),
        MessageV::HttpRequest(r) => lemma_parse_enc_http_request(spec_encode_msg(m), r),
        MessageV::HttpResponse(r) => lemma_parse_enc_http_response(spec_encode_msg(m), r),
        MessageV::SseEvent(r) => lemma_parse_enc_sse_event(spec_encode_msg(m), r),
        MessageV::Error(r) => lemma_parse_enc_error(spec_encode_msg(m), r),
        MessageV::Ping(r) => lemma_parse_enc_pingpong(spec_encode_msg(m), r, true),
        MessageV::Pong(r) => lemma_parse_enc_pingpong(spec_encode_msg(m), r, false),
    }
}

} // verus!
