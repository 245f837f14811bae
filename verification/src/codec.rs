//! The executable message codec: encoding to and parsing from the canonical
//! JSON text whose grammar lives in `json`, plus the length-prefixed frame
//! layer.

use vstd::prelude::*;
use crate::ext::{bytes_to_string, chars_to_string};
use crate::json::{
    hex_digit, hex_val, esc_char, esc_str, enc_str, enc_i32, enc_arr, enc_obj, enc_pair, enc_str_list,
    enc_pair_list, dec_nat, is_digit, at, parse_lit, parse_string, parse_str_body, parse_number,
    parse_i32_num, parse_str_array, parse_str_items, parse_pair, parse_pair_items,
    parse_pairs_obj, spec_encode_msg, spec_parse_msg, enc_cli_request, enc_cli_response,
    enc_http_request, enc_http_response, enc_sse_event, enc_error, enc_pingpong,
    parse_cli_request_fields, parse_cli_response_fields, parse_http_request_fields,
    parse_http_response_fields, parse_sse_event_fields, parse_error_fields,
    parse_pingpong_fields,
};
use crate::messages::{
    Message, MessageV, CliRequest, CliResponse, HttpRequest, HttpResponse, SseEvent, ErrorMessage,
    PingPong, PairsV, pairs_view, msg_wf,
};
use crate::strmap::StrMap;
use crate::util::{push_str_chars, str_to_chars, str_eq};


verus! {

/// The decimal digit characters, as executable values.
fn digit_char(n: u8) -> (c: char)
    requires
        n < 16,
    ensures
        c == hex_digit(n as int),
{
    match n {
        0 => '0',
        1 => '1',
        2 => '2',
        3 => '3',
        4 => '4',
        5 => '5',
        6 => '6',
        7 => '7',
        8 => '8',
        9 => '9',
        10 => 'a',
        11 => 'b',
        12 => 'c',
        13 => 'd',
        14 => 'e',
        _ => 'f',
    }
}

/// Extending an escaped string by one character.
proof fn lemma_esc_str_push(s: Seq<char>, c: char)
    ensures
        esc_str(s.push(c)) == esc_str(s) + esc_char(c),
    decreases s.len(),
{
    if s.len() == 0 {
        assert(s.push(c)[0] == c);
        assert(s.push(c).drop_first() =~= Seq::<char>::empty());
        assert(esc_str(Seq::<char>::empty()) == Seq::<char>::empty());
        assert(esc_str(s.push(c)) == esc_char(c) + Seq::<char>::empty());
        assert(esc_str(s.push(c)) =~= esc_char(c));
        assert(esc_str(s) + esc_char(c) =~= esc_char(c));
    } else {
        lemma_esc_str_push(s.drop_first(), c);
        assert(s.push(c)[0] == s[0]);
        assert(s.push(c).drop_first() =~= s.drop_first().push(c));
        assert(esc_str(s.push(c)) == esc_char(s[0]) + esc_str(s.drop_first().push(c)));
        assert(esc_char(s[0]) + (esc_str(s.drop_first()) + esc_char(c)) =~= (esc_char(s[0])
            + esc_str(s.drop_first())) + esc_char(c));
    }
}

/// Appends the escaped characters of `v` to `out`.
fn push_escaped(out: &mut Vec<char>, v: &str)
    ensures
        final(out)@ == old(out)@ + esc_str(v@),
{
    broadcast use vstd::utf8::char_is_scalar;

    let chars = str_to_chars(v);
    let mut k: usize = 0;
    while k < chars.len()
        invariant
            chars@ == v@,
            0 <= k <= chars@.len(),
            out@ == old(out)@ + esc_str(v@.take(k as int)),
        decreases chars@.len() - k,
    {
        let c = chars[k];
        if c == '"' {
            out.push('\\');
            out.push('"');
        } else if c == '\\' {
            out.push('\\');
            out.push('\\');
        } else if (c as u32) < 0x20 {
            let n = c as u32;
            out.push('\\');
            out.push('u');
            out.push('0');
            out.push('0');
            out.push(digit_char((n / 16) as u8));
            out.push(digit_char((n % 16) as u8));
        } else {
            out.push(c);
        }
        proof {
            lemma_esc_str_push(v@.take(k as int), v@[k as int]);
            assert(v@.take(k + 1) =~= v@.take(k as int).push(v@[k as int]));
            assert(out@ =~= old(out)@ + esc_str(v@.take(k + 1)));
        }
        k = k + 1;
    }
    proof {
        assert(v@.take(v@.len() as int) =~= v@);
    }
}

/// Appends the JSON string form of `v` to `out`.
fn push_json_str(out: &mut Vec<char>, v: &str)
    ensures
        final(out)@ == old(out)@ + enc_str(v@),
{
    out.push('"');
    push_escaped(out, v);
    out.push('"');
    proof {
        assert(out@ =~= old(out)@ + enc_str(v@));
    }
}

/// Appends the decimal digits of `n` to `out`.
fn push_dec_u64(out: &mut Vec<char>, n: u64)
    ensures
        final(out)@ == old(out)@ + dec_nat(n as nat),
    decreases n,
{
    if n < 10 {
        out.push(digit_char(n as u8));
        proof {
            assert(out@ =~= old(out)@ + dec_nat(n as nat));
        }
    } else {
        push_dec_u64(out, n / 10);
        out.push(digit_char((n % 10) as u8));
        proof {
            assert(out@ =~= old(out)@ + dec_nat(n as nat));
        }
    }
}

/// Appends the decimal form of a signed 32-bit value to `out`.
fn push_dec_i32(out: &mut Vec<char>, v: i32)
    ensures
        final(out)@ == old(out)@ + enc_i32(v),
{
    if v < 0 {
        out.push('-');
        let mag: u64 = (-(v as i64)) as u64;
        push_dec_u64(out, mag);
        proof {
            assert(mag as nat == (-(v as int)) as nat);
            assert(out@ =~= old(out)@ + enc_i32(v));
        }
    } else {
        push_dec_u64(out, v as u64);
    }
}

/// Extending an encoded string list by one element.
proof fn lemma_enc_str_list_push(a: Seq<Seq<char>>, x: Seq<char>)
    ensures
        a.len() == 0 ==> enc_str_list(a.push(x)) == enc_str(x),
        a.len() > 0 ==> enc_str_list(a.push(x)) == enc_str_list(a) + seq![','] + enc_str(x),
    decreases a.len(),
{
    if a.len() == 0 {
        assert(a.push(x)[0] == x);
        assert(enc_str_list(a.push(x)) == enc_str(x));
    } else if a.len() == 1 {
        assert(a.push(x)[0] == a[0]);
        assert(a.push(x).drop_first() =~= seq![x]);
        assert(enc_str_list(seq![x]) == enc_str(x));
    } else {
        lemma_enc_str_list_push(a.drop_first(), x);
        assert(a.push(x)[0] == a[0]);
        assert(a.push(x).drop_first() =~= a.drop_first().push(x));
        assert(enc_str(a[0]) + seq![','] + (enc_str_list(a.drop_first()) + seq![','] + enc_str(x))
            =~= (enc_str(a[0]) + seq![','] + enc_str_list(a.drop_first())) + seq![','] + enc_str(
            x,
        ));
    }
}

/// Appends the JSON array form of `a` to `out`.
fn push_json_arr(out: &mut Vec<char>, a: &Vec<String>)
    ensures
        final(out)@ == old(out)@ + enc_arr(a.deep_view()),
{
    out.push('[');
    let mut k: usize = 0;
    while k < a.len()
        invariant
            0 <= k <= a@.len(),
            a.deep_view().len() == a@.len(),
            forall|i: int| 0 <= i < a@.len() ==> a.deep_view()[i] == a@[i]@,
            out@ == old(out)@ + seq!['['] + enc_str_list(a.deep_view().take(k as int)),
        decreases a@.len() - k,
    {
        if k > 0 {
            out.push(',');
        }
        push_json_str(out, a[k].as_str());
        proof {
            lemma_enc_str_list_push(a.deep_view().take(k as int), a.deep_view()[k as int]);
            assert(a.deep_view().take(k + 1) =~= a.deep_view().take(k as int).push(
                a.deep_view()[k as int],
            ));
            assert(out@ =~= old(out)@ + seq!['['] + enc_str_list(a.deep_view().take(k + 1)));
        }
        k = k + 1;
    }
    out.push(']');
    proof {
        assert(a.deep_view().take(a@.len() as int) =~= a.deep_view());
        assert(out@ =~= old(out)@ + enc_arr(a.deep_view()));
    }
}

/// Extending an encoded member list by one pair.
proof fn lemma_enc_pair_list_push(m: PairsV, p: (Seq<char>, Seq<char>))
    ensures
        m.len() == 0 ==> enc_pair_list(m.push(p)) == enc_pair(p),
        m.len() > 0 ==> enc_pair_list(m.push(p)) == enc_pair_list(m) + seq![','] + enc_pair(p),
    decreases m.len(),
{
    if m.len() == 0 {
        assert(m.push(p)[0] == p);
        assert(enc_pair_list(m.push(p)) == enc_pair(p));
    } else if m.len() == 1 {
        assert(m.push(p)[0] == m[0]);
        assert(m.push(p).drop_first() =~= seq![p]);
        assert(enc_pair_list(seq![p]) == enc_pair(p));
    } else {
        lemma_enc_pair_list_push(m.drop_first(), p);
        assert(m.push(p)[0] == m[0]);
        assert(m.push(p).drop_first() =~= m.drop_first().push(p));
        assert(enc_pair(m[0]) + seq![','] + (enc_pair_list(m.drop_first()) + seq![','] + enc_pair(
            p,
        )) =~= (enc_pair(m[0]) + seq![','] + enc_pair_list(m.drop_first())) + seq![','] + enc_pair(
            p,
        ));
    }
}

/// Appends the JSON object form of `m` to `out`.
fn push_json_obj(out: &mut Vec<char>, m: &StrMap<String>)
    ensures
        final(out)@ == old(out)@ + enc_obj(pairs_view(m@)),
{
    out.push('{');
    let n = m.len();
    let mut k: usize = 0;
    while k < n
        invariant
            n == m@.len(),
            0 <= k <= n,
            pairs_view(m@).len() == n,
            out@ == old(out)@ + seq!['{'] + enc_pair_list(pairs_view(m@).take(k as int)),
        decreases n - k,
    {
        if k > 0 {
            out.push(',');
        }
        let key = m.key_at(k);
        push_json_str(out, key.as_str());
        out.push(':');
        let val = m.value_at(k);
        push_json_str(out, val.as_str());
        proof {
            lemma_enc_pair_list_push(pairs_view(m@).take(k as int), pairs_view(m@)[k as int]);
            assert(pairs_view(m@).take(k + 1) =~= pairs_view(m@).take(k as int).push(
                pairs_view(m@)[k as int],
            ));
            assert(out@ =~= old(out)@ + seq!['{'] + enc_pair_list(pairs_view(m@).take(k + 1)));
        }
        k = k + 1;
    }
    out.push('}');
    proof {
        assert(pairs_view(m@).take(n as int) =~= pairs_view(m@));
        assert(out@ =~= old(out)@ + enc_obj(pairs_view(m@)));
    }
}

/// Encodes one message as its canonical JSON text.
pub fn encode_message_chars(m: &Message) -> (r: Vec<char>)
    ensures
        r@ == spec_encode_msg(m@),
{
    let mut out: Vec<char> = Vec::new();
    match m {
        Message::CliRequest(q) => {
            push_str_chars(&mut out, "{\"type\":");
            push_json_str(&mut out, "cli_request");
            push_str_chars(&mut out, ",\"id\":");
            push_json_str(&mut out, q.id.as_str());
            push_str_chars(&mut out, ",\"tool\":");
            push_json_str(&mut out, q.tool.as_str());
            push_str_chars(&mut out, ",\"argv\":");
            push_json_arr(&mut out, &q.argv);
            push_str_chars(&mut out, ",\"env\":");
            push_json_obj(&mut out, &q.env);
            match &q.stdin {
                Some(x) => {
                    push_str_chars(&mut out, ",\"stdin\":");
                    push_json_str(&mut out, x.as_str());
                },
                None => {},
            }
            push_str_chars(&mut out, ",\"cwd\":");
            push_json_str(&mut out, q.cwd.as_str());
            push_str_chars(&mut out, "}");
            proof {
                assert(out@ =~= enc_cli_request(q@));
            }
        },
        Message::CliResponse(q) => {
            push_str_chars(&mut out, "{\"type\":");
            push_json_str(&mut out, "cli_response");
            push_str_chars(&mut out, ",\"id\":");
            push_json_str(&mut out, q.id.as_str());
            push_str_chars(&mut out, ",\"exit_code\":");
            push_dec_i32(&mut out, q.exit_code);
            push_str_chars(&mut out, ",\"stdout\":");
            push_json_str(&mut out, q.stdout.as_str());
            push_str_chars(&mut out, ",\"stderr\":");
            push_json_str(&mut out, q.stderr.as_str());
            push_str_chars(&mut out, "}");
            proof {
                assert(out@ =~= enc_cli_response(q@));
            }
        },
        Message::HttpRequest(q) => {
            push_str_chars(&mut out, "{\"type\":");
            push_json_str(&mut out, "http_request");
            push_str_chars(&mut out, ",\"id\":");
            push_json_str(&mut out, q.id.as_str());
            push_str_chars(&mut out, ",\"tool\":");
            push_json_str(&mut out, q.tool.as_str());
            push_str_chars(&mut out, ",\"method\":");
            push_json_str(&mut out, q.method.as_str());
            push_str_chars(&mut out, ",\"path\":");
            push_json_str(&mut out, q.path.as_str());
            push_str_chars(&mut out, ",\"headers\":");
            push_json_obj(&mut out, &q.headers);
            match &q.body {
                Some(x) => {
                    push_str_chars(&mut out, ",\"body\":");
                    push_json_str(&mut out, x.as_str());
                },
                None => {},
            }
            push_str_chars(&mut out, "}");
            proof {
                assert(out@ =~= enc_http_request(q@));
            }
        },
        Message::HttpResponse(q) => {
            push_str_chars(&mut out, "{\"type\":");
            push_json_str(&mut out, "http_response");
            push_str_chars(&mut out, ",\"id\":");
            push_json_str(&mut out, q.id.as_str());
            push_str_chars(&mut out, ",\"status\":");
            push_dec_u64(&mut out, q.status as u64);
            push_str_chars(&mut out, ",\"headers\":");
            push_json_obj(&mut out, &q.headers);
            match &q.body {
                Some(x) => {
                    push_str_chars(&mut out, ",\"body\":");
                    push_json_str(&mut out, x.as_str());
                },
                None => {},
            }
            push_str_chars(&mut out, "}");
            proof {
                assert((q.status as u64) as nat == q.status as nat);
                assert(out@ =~= enc_http_response(q@));
            }
        },
        Message::SseEvent(q) => {
            push_str_chars(&mut out, "{\"type\":");
            push_json_str(&mut out, "sse_event");
            push_str_chars(&mut out, ",\"id\":");
            push_json_str(&mut out, q.id.as_str());
            push_str_chars(&mut out, ",\"tool\":");
            push_json_str(&mut out, q.tool.as_str());
            push_str_chars(&mut out, ",\"event\":");
            push_json_str(&mut out, q.event.as_str());
            push_str_chars(&mut out, ",\"data\":");
            push_json_str(&mut out, q.data.as_str());
            push_str_chars(&mut out, "}");
            proof {
                assert(out@ =~= enc_sse_event(q@));
            }
        },
        Message::Error(q) => {
            push_str_chars(&mut out, "{\"type\":");
            push_json_str(&mut out, "error");
            push_str_chars(&mut out, ",\"id\":");
            match &q.id {
                Some(x) => {
                    push_json_str(&mut out, x.as_str());
                },
                None => {
                    push_str_chars(&mut out, "null");
                },
            }
            push_str_chars(&mut out, ",\"code\":");
            push_json_str(&mut out, q.code.as_str());
            push_str_chars(&mut out, ",\"message\":");
            push_json_str(&mut out, q.message.as_str());
            push_str_chars(&mut out, "}");
            proof {
                assert(out@ =~= enc_error(q@));
            }
        },
        Message::Ping(q) => {
            push_str_chars(&mut out, "{\"type\":");
            push_json_str(&mut out, "ping");
            push_str_chars(&mut out, ",\"id\":");
            push_json_str(&mut out, q.id.as_str());
            push_str_chars(&mut out, ",\"timestamp\":");
            push_dec_u64(&mut out, q.timestamp);
            push_str_chars(&mut out, "}");
            proof {
                assert(out@ =~= enc_pingpong("ping"@, q@));
            }
        },
        Message::Pong(q) => {
            push_str_chars(&mut out, "{\"type\":");
            push_json_str(&mut out, "pong");
            push_str_chars(&mut out, ",\"id\":");
            push_json_str(&mut out, q.id.as_str());
            push_str_chars(&mut out, ",\"timestamp\":");
            push_dec_u64(&mut out, q.timestamp);
            push_str_chars(&mut out, "}");
            proof {
                assert(out@ =~= enc_pingpong("pong"@, q@));
            }
        },
    }
    out
}

/// Encodes one message as a JSON string.
pub fn encode_message(m: &Message) -> (r: String)
    ensures
        r@ == spec_encode_msg(m@),
{
    let chars = encode_message_chars(m);
    chars_to_string(&chars)
}

/// The value of a hex digit character, 16 when it is none.
fn hex_val_exec(c: char) -> (r: u8)
    ensures
        r as int == hex_val(c),
{
    match c {
        '0' => 0,
        '1' => 1,
        '2' => 2,
        '3' => 3,
        '4' => 4,
        '5' => 5,
        '6' => 6,
        '7' => 7,
        '8' => 8,
        '9' => 9,
        'a' => 10,
        'b' => 11,
        'c' => 12,
        'd' => 13,
        'e' => 14,
        'f' => 15,
        _ => 16,
    }
}

/// Consumes the literal `lit` at `i`, if it is there.
fn p_lit(s: &Vec<char>, i: usize, lit: &str) -> (r: Option<usize>)
    ensures
        r matches Some(j) ==> parse_lit(s@, i as int, lit@) == Some(j as int),
        r is None ==> parse_lit(s@, i as int, lit@) is None,
{
    let l = str_to_chars(lit);
    let n = s.len();
    if i > n || l.len() > n - i {
        return None;
    }
    let mut k: usize = 0;
    while k < l.len()
        invariant
            l@ == lit@,
            n == s@.len(),
            0 <= i,
            i + l@.len() <= n,
            0 <= k <= l@.len(),
            forall|j: int| 0 <= j < k ==> s@[i + j] == lit@[j],
        decreases l@.len() - k,
    {
        if s[i + k] != l[k] {
            proof {
                if parse_lit(s@, i as int, lit@) is Some {
                    assert(s@.subrange(i as int, i + lit@.len())[k as int] == s@[i + k]);
                }
            }
            return None;
        }
        k = k + 1;
    }
    proof {
        assert(s@.subrange(i as int, i + lit@.len()) =~= lit@);
    }
    Some(i + l.len())
}

/// Parses a JSON string starting at its opening quote at `i`.
fn p_string(s: &Vec<char>, i: usize) -> (r: Option<(String, usize)>)
    ensures
        r matches Some(v) ==> (parse_string(s@, i as int) == Some((v.0@, v.1 as int)) && i < v.1
            <= s@.len()),
        r is None ==> parse_string(s@, i as int) is None,
{
    let n = s.len();
    if i >= n || s[i] != '"' {
        return None;
    }
    let ghost i0 = i + 1;
    let mut acc: Vec<char> = Vec::new();
    let mut p: usize = i + 1;
    proof {
        match parse_str_body(s@, i0 as int) {
            Some((v, j)) => {
                assert(Seq::<char>::empty() + v =~= v);
            },
            None => {},
        }
    }
    loop
        invariant
            n == s@.len(),
            at(s@, i as int, '"'),
            i0 == i + 1,
            0 <= i0 <= p <= n,
            ({
                match parse_str_body(s@, p as int) {
                    Some((v, j)) => parse_str_body(s@, i0 as int) == Some((acc@ + v, j)),
                    None => parse_str_body(s@, i0 as int) is None,
                }
            }),
        decreases n - p,
    {
        if p >= n {
            return None;
        }
        let c = s[p];
        if c == '"' {
            proof {
                assert(parse_str_body(s@, p as int) == Some((Seq::<char>::empty(), p + 1)));
                assert(acc@ + Seq::<char>::empty() =~= acc@);
            }
            let v = chars_to_string(&acc);
            proof {
                crate::json::lemma_parse_string_bounds(s@, i as int);
            }
            return Some((v, p + 1));
        } else if c == '\\' {
            let rem = n - p;
            if rem > 1 && (s[p + 1] == '"' || s[p + 1] == '\\') {
                let ghost acc0 = acc@;
                acc.push(s[p + 1]);
                proof {
                    match parse_str_body(s@, p + 2) {
                        Some((v, j)) => {
                            assert(acc0 + (seq![s@[p + 1]] + v) =~= acc@ + v);
                        },
                        None => {},
                    }
                }
                p = p + 2;
            } else if rem > 5 && s[p + 1] == 'u' && s[p + 2] == '0' && s[p + 3] == '0' {
                let h1 = hex_val_exec(s[p + 4]);
                let h2 = hex_val_exec(s[p + 5]);
                if h1 < 16 && h2 < 16 && h1 * 16 + h2 < 0x20 {
                    let ghost acc0 = acc@;
                    acc.push((h1 * 16 + h2) as char);
                    proof {
                        match parse_str_body(s@, p + 6) {
                            Some((v, j)) => {
                                assert(acc0 + (seq![((hex_val(s@[p + 4]) * 16 + hex_val(
                                    s@[p + 5],
                                )) as u8) as char] + v) =~= acc@ + v);
                            },
                            None => {},
                        }
                    }
                    p = p + 6;
                } else {
                    return None;
                }
            } else {
                return None;
            }
        } else if (c as u32) < 0x20 {
            return None;
        } else {
            let ghost acc0 = acc@;
            acc.push(c);
            proof {
                match parse_str_body(s@, p + 1) {
                    Some((v, j)) => {
                        assert(acc0 + (seq![s@[p as int]] + v) =~= acc@ + v);
                    },
                    None => {},
                }
            }
            p = p + 1;
        }
    }
}

/// Parses a run of digits at `i` as a number no larger than `bound`.
fn p_number(s: &Vec<char>, i: usize, bound: u64) -> (r: Option<(u64, usize)>)
    ensures
        r matches Some(v) ==> (parse_number(s@, i as int, bound as int) == Some(
            (v.0 as int, v.1 as int),
        ) && i < v.1 <= s@.len()),
        r is None ==> parse_number(s@, i as int, bound as int) is None,
{
    let n = s.len();
    if i > n {
        return None;
    }
    let mut p: usize = i;
    let mut acc: u128 = 0;
    let mut too_big: bool = false;
    while p < n && hex_val_exec(s[p]) < 10
        invariant
            n == s@.len(),
            0 <= i <= p <= n,
            forall|k: int| i <= k < p ==> is_digit(#[trigger] s@[k]),
            p < s@.len() ==> (is_digit(s@[p as int]) <==> hex_val(s@[p as int]) < 10),
            !too_big ==> (acc as int == crate::json::digits_val(s@, i as int, p as int) && acc
                <= bound),
            too_big ==> crate::json::digits_val(s@, i as int, p as int) > bound,
        decreases n - p,
    {
        let d = hex_val_exec(s[p]);
        proof {
            assert(crate::json::digits_val(s@, i as int, p + 1) == crate::json::digits_val(
                s@,
                i as int,
                p as int,
            ) * 10 + hex_val(s@[p as int]));
        }
        if !too_big {
            let next: u128 = acc * 10 + (d as u128);
            if next > bound as u128 {
                too_big = true;
            } else {
                acc = next;
            }
            proof {
                if too_big {
                    assert(crate::json::digits_val(s@, i as int, p + 1) > bound);
                }
            }
        } else {
            proof {
                let v = crate::json::digits_val(s@, i as int, p as int);
                assert(v * 10 + hex_val(s@[p as int]) >= v);
            }
        }
        p = p + 1;
    }
    proof {
        crate::json::lemma_digits_end(s@, i as int, p - i);
    }
    if p == i || too_big {
        return None;
    }
    Some((acc as u64, p))
}

/// Parses an optionally signed number within the i32 range at `i`.
fn p_i32(s: &Vec<char>, i: usize) -> (r: Option<(i32, usize)>)
    ensures
        r matches Some(v) ==> (parse_i32_num(s@, i as int) == Some((v.0 as int, v.1 as int)) && i
            < v.1 <= s@.len()),
        r is None ==> parse_i32_num(s@, i as int) is None,
{
    if i < s.len() && s[i] == '-' {
        match p_number(s, i + 1, 0x8000_0000) {
            Some((n, j)) => {
                let v: i32 = (-(n as i64)) as i32;
                proof {
                    assert(v as int == -(n as int));
                }
                Some((v, j))
            },
            None => None,
        }
    } else {
        match p_number(s, i, 0x7fff_ffff) {
            Some((n, j)) => Some((n as i32, j)),
            None => None,
        }
    }
}

/// Parses a JSON array of strings at `i`.
fn p_str_array(s: &Vec<char>, i: usize) -> (r: Option<(Vec<String>, usize)>)
    ensures
        r matches Some(v) ==> (parse_str_array(s@, i as int) == Some(
            (v.0.deep_view(), v.1 as int),
        ) && v.1 <= s@.len()),
        r is None ==> parse_str_array(s@, i as int) is None,
{
    let n = s.len();
    if i >= n || s[i] != '[' {
        return None;
    }
    if n - i > 1 && s[i + 1] == ']' {
        let empty: Vec<String> = Vec::new();
        proof {
            assert(empty.deep_view() =~= Seq::<Seq<char>>::empty());
        }
        return Some((empty, i + 2));
    }
    let ghost i0 = i + 1;
    let mut acc: Vec<String> = Vec::new();
    let mut p: usize = i + 1;
    proof {
        assert(acc.deep_view() =~= Seq::<Seq<char>>::empty());
        match parse_str_items(s@, i0 as int) {
            Some((vs, j)) => {
                assert(Seq::<Seq<char>>::empty() + vs =~= vs);
            },
            None => {},
        }
    }
    loop
        invariant
            n == s@.len(),
            0 <= i0 <= p <= n,
            i0 == i + 1,
            at(s@, i as int, '['),
            !at(s@, i as int + 1, ']'),
            ({
                match parse_str_items(s@, p as int) {
                    Some((vs, j)) => parse_str_items(s@, i0 as int) == Some(
                        (acc.deep_view() + vs, j),
                    ),
                    None => parse_str_items(s@, i0 as int) is None,
                }
            }),
        decreases n - p,
    {
        match p_string(s, p) {
            Some((v, j)) => {
                if j < n && s[j] == ',' {
                    let ghost acc0 = acc.deep_view();
                    let ghost vv = v@;
                    acc.push(v);
                    proof {
                        assert(acc.deep_view() =~= acc0.push(vv));
                        match parse_str_items(s@, j + 1) {
                            Some((vs, l)) => {
                                assert(acc0 + (seq![vv] + vs) =~= acc.deep_view() + vs);
                            },
                            None => {},
                        }
                    }
                    p = j + 1;
                } else if j < n && s[j] == ']' {
                    let ghost acc0 = acc.deep_view();
                    let ghost vv = v@;
                    acc.push(v);
                    proof {
                        assert(acc.deep_view() =~= acc0.push(vv));
                        assert(parse_str_items(s@, p as int) == Some((seq![vv], j + 1)));
                        assert(acc0 + seq![vv] =~= acc.deep_view());
                    }
                    return Some((acc, j + 1));
                } else {
                    proof {
                        assert(!at(s@, j as int, ',') && !at(s@, j as int, ']'));
                    }
                    return None;
                }
            },
            None => {
                return None;
            },
        }
    }
}

/// Parses a JSON object of string members at `i`, rejecting duplicate
/// keys; the result keeps the member order.
fn p_obj(s: &Vec<char>, i: usize) -> (r: Option<(StrMap<String>, usize)>)
    ensures
        r matches Some(v) ==> (parse_pairs_obj(s@, i as int) == Some(
            (pairs_view(v.0@), v.1 as int),
        ) && v.0.wf() && v.1 <= s@.len()),
        r is None ==> parse_pairs_obj(s@, i as int) is None,
{
    let n = s.len();
    if i >= n || s[i] != '{' {
        return None;
    }
    if n - i > 1 && s[i + 1] == '}' {
        let m: StrMap<String> = StrMap::new();
        proof {
            assert(pairs_view(m@) =~= Seq::<(Seq<char>, Seq<char>)>::empty());
        }
        return Some((m, i + 2));
    }
    let ghost i0 = i + 1;
    let mut m: StrMap<String> = StrMap::new();
    let mut p: usize = i + 1;
    proof {
        assert(pairs_view(m@) =~= Seq::<(Seq<char>, Seq<char>)>::empty());
        match parse_pair_items(s@, i0 as int) {
            Some((ps, j)) => {
                assert(Seq::<(Seq<char>, Seq<char>)>::empty() + ps =~= ps);
            },
            None => {},
        }
    }
    loop
        invariant
            n == s@.len(),
            0 <= i0 <= p <= n,
            i0 == i + 1,
            at(s@, i as int, '{'),
            !at(s@, i as int + 1, '}'),
            m.wf(),
            ({
                match parse_pair_items(s@, p as int) {
                    Some((ps, j)) => parse_pair_items(s@, i0 as int) == Some(
                        (pairs_view(m@) + ps, j),
                    ),
                    None => parse_pair_items(s@, i0 as int) is None,
                }
            }),
        decreases n - p,
    {
        let (k, v, j) = match p_string(s, p) {
            Some((k, jk)) => {
                if jk < n && s[jk] == ':' {
                    match p_string(s, jk + 1) {
                        Some((v, jv)) => (k, v, jv),
                        None => {
                            return None;
                        },
                    }
                } else {
                    return None;
                }
            },
            None => {
                return None;
            },
        };
        proof {
            assert(parse_pair(s@, p as int) == Some(((k@, v@), j as int)));
        }
        if m.contains_key(k.as_str()) {
            proof {
                let x = choose|x: int| 0 <= x < m@.len() && m@[x].0 == k@;
                assert(pairs_view(m@)[x].0 == k@);
                lemma_dup_key_rejects(s@, i0 as int, p as int, pairs_view(m@), k@);
            }
            return None;
        }
        let ghost m0 = pairs_view(m@);
        proof {
            crate::strmap::lemma_find_key(m@, k@);
            if crate::strmap::find_key(m@, k@) is Some {
                let x = crate::strmap::find_key(m@, k@)->Some_0;
                assert(m@[x].0 == k@);
            }
        }
        m.insert(k, v);
        proof {
            assert(pairs_view(m@) =~= m0.push((m@[m@.len() - 1].0, v@)));
        }
        if j < n && s[j] == ',' {
            proof {
                match parse_pair_items(s@, j + 1) {
                    Some((ps, l)) => {
                        assert(m0 + (seq![(m@[m@.len() - 1].0, v@)] + ps) =~= pairs_view(m@) + ps);
                    },
                    None => {},
                }
            }
            p = j + 1;
        } else if j < n && s[j] == '}' {
            proof {
                assert(parse_pair_items(s@, p as int) == Some(
                    (seq![(m@[m@.len() - 1].0, v@)], j + 1),
                ));
                assert(m0 + seq![(m@[m@.len() - 1].0, v@)] =~= pairs_view(m@));
                lemma_unique_pairs_view(m@);
            }
            return Some((m, j + 1));
        } else {
            proof {
                assert(!at(s@, j as int, ',') && !at(s@, j as int, '}'));
            }
            return None;
        }
    }
}

/// A duplicate member key makes the whole object parse fail, whatever
/// follows.
proof fn lemma_dup_key_rejects(s: Seq<char>, i0: int, p: int, seen: PairsV, k: Seq<char>)
    requires
        0 <= i0 <= p <= s.len(),
        crate::strmap::has_key(seen, k),
        parse_pair(s, p) matches Some(pr) && pr.0.0 == k,
        ({
            match parse_pair_items(s, p) {
                Some((ps, j)) => parse_pair_items(s, i0) == Some((seen + ps, j)),
                None => parse_pair_items(s, i0) is None,
            }
        }),
    ensures
        ({
            match parse_pair_items(s, i0) {
                Some((ps, j)) => !crate::strmap::unique_keys(ps),
                None => true,
            }
        }),
{
    match parse_pair_items(s, p) {
        Some((ps, j)) => {
            assert(ps.len() >= 1 && ps[0].0 == k) by {
                let pr = parse_pair(s, p)->Some_0;
            }
            let x = choose|x: int| 0 <= x < seen.len() && seen[x].0 == k;
            let all = seen + ps;
            assert(all[x].0 == k);
            assert(all[seen.len() as int].0 == k);
        },
        None => {},
    }
}

/// A map's specification view keeps its keys unique.
proof fn lemma_unique_pairs_view(m: Seq<(Seq<char>, String)>)
    requires
        crate::strmap::unique_keys(m),
    ensures
        crate::strmap::unique_keys(pairs_view(m)),
{
    assert forall|a: int, b: int|
        0 <= a < b < pairs_view(m).len() implies pairs_view(m)[a].0 != pairs_view(m)[b].0 by {
        assert(pairs_view(m)[a].0 == m[a].0);
        assert(pairs_view(m)[b].0 == m[b].0);
    }
}

/// Parses the fields of a CLI request after its tag.
fn pf_cli_request(s: &Vec<char>, i: usize) -> (r: Option<(Message, usize)>)
    ensures
        r matches Some(v) ==> (parse_cli_request_fields(s@, i as int) == Some(
            (v.0@, v.1 as int),
        ) && msg_wf(v.0@)),
        r is None ==> parse_cli_request_fields(s@, i as int) is None,
{
    let j1 = match p_lit(s, i, ",\"id\":") {
        Some(j) => j,
        None => {
            return None;
        },
    };
    let (id, i1) = match p_string(s, j1) {
        Some(v) => v,
        None => {
            return None;
        },
    };
    let j2 = match p_lit(s, i1, ",\"tool\":") {
        Some(j) => j,
        None => {
            return None;
        },
    };
    let (tool, i2) = match p_string(s, j2) {
        Some(v) => v,
        None => {
            return None;
        },
    };
    let j3 = match p_lit(s, i2, ",\"argv\":") {
        Some(j) => j,
        None => {
            return None;
        },
    };
    let (argv, i3) = match p_str_array(s, j3) {
        Some(v) => v,
        None => {
            return None;
        },
    };
    let j4 = match p_lit(s, i3, ",\"env\":") {
        Some(j) => j,
        None => {
            return None;
        },
    };
    let (env, i4) = match p_obj(s, j4) {
        Some(v) => v,
        None => {
            return None;
        },
    };
    let (stdin, i5) = match p_lit(s, i4, ",\"stdin\":") {
        Some(j) => match p_string(s, j) {
            Some((x, j2)) => (Some(x), j2),
            None => (None, i4),
        },
        None => (None, i4),
    };
    let j6 = match p_lit(s, i5, ",\"cwd\":") {
        Some(j) => j,
        None => {
            return None;
        },
    };
    let (cwd, i6) = match p_string(s, j6) {
        Some(v) => v,
        None => {
            return None;
        },
    };
    let i7 = match p_lit(s, i6, "}") {
        Some(j) => j,
        None => {
            return None;
        },
    };
    proof {
        lemma_unique_pairs_view(env@);
    }
    Some((
        Message::CliRequest(CliRequest { id, tool, argv, env, stdin, cwd }),
        i7,
    ))
}

/// Parses the fields of a CLI response after its tag.
fn pf_cli_response(s: &Vec<char>, i: usize) -> (r: Option<(Message, usize)>)
    ensures
        r matches Some(v) ==> (parse_cli_response_fields(s@, i as int) == Some(
            (v.0@, v.1 as int),
        ) && msg_wf(v.0@)),
        r is None ==> parse_cli_response_fields(s@, i as int) is None,
{
    let j1 = match p_lit(s, i, ",\"id\":") {
        Some(j) => j,
        None => {
            return None;
        },
    };
    let (id, i1) = match p_string(s, j1) {
        Some(v) => v,
        None => {
            return None;
        },
    };
    let j2 = match p_lit(s, i1, ",\"exit_code\":") {
        Some(j) => j,
        None => {
            return None;
        },
    };
    let (exit_code, i2) = match p_i32(s, j2) {
        Some(v) => v,
        None => {
            return None;
        },
    };
    let j3 = match p_lit(s, i2, ",\"stdout\":") {
        Some(j) => j,
        None => {
            return None;
        },
    };
    let (stdout, i3) = match p_string(s, j3) {
        Some(v) => v,
        None => {
            return None;
        },
    };
    let j4 = match p_lit(s, i3, ",\"stderr\":") {
        Some(j) => j,
        None => {
            return None;
        },
    };
    let (stderr, i4) = match p_string(s, j4) {
        Some(v) => v,
        None => {
            return None;
        },
    };
    let i5 = match p_lit(s, i4, "}") {
        Some(j) => j,
        None => {
            return None;
        },
    };
    Some((Message::CliResponse(CliResponse { id, exit_code, stdout, stderr }), i5))
}

/// Parses the fields of an HTTP request after its tag.
fn pf_http_request(s: &Vec<char>, i: usize) -> (r: Option<(Message, usize)>)
    ensures
        r matches Some(v) ==> (parse_http_request_fields(s@, i as int) == Some(
            (v.0@, v.1 as int),
        ) && msg_wf(v.0@)),
        r is None ==> parse_http_request_fields(s@, i as int) is None,
{
    let j1 = match p_lit(s, i, ",\"id\":") {
        Some(j) => j,
        None => {
            return None;
        },
    };
    let (id, i1) = match p_string(s, j1) {
        Some(v) => v,
        None => {
            return None;
        },
    };
    let j2 = match p_lit(s, i1, ",\"tool\":") {
        Some(j) => j,
        None => {
            return None;
        },
    };
    let (tool, i2) = match p_string(s, j2) {
        Some(v) => v,
        None => {
            return None;
        },
    };
    let j3 = match p_lit(s, i2, ",\"method\":") {
        Some(j) => j,
        None => {
            return None;
        },
    };
    let (method, i3) = match p_string(s, j3) {
        Some(v) => v,
        None => {
            return None;
        },
    };
    let j4 = match p_lit(s, i3, ",\"path\":") {
        Some(j) => j,
        None => {
            return None;
        },
    };
    let (path, i4) = match p_string(s, j4) {
        Some(v) => v,
        None => {
            return None;
        },
    };
    let j5 = match p_lit(s, i4, ",\"headers\":") {
        Some(j) => j,
        None => {
            return None;
        },
    };
    let (headers, i5) = match p_obj(s, j5) {
        Some(v) => v,
        None => {
            return None;
        },
    };
    let (body, i6) = match p_lit(s, i5, ",\"body\":") {
        Some(j) => match p_string(s, j) {
            Some((x, j2)) => (Some(x), j2),
            None => (None, i5),
        },
        None => (None, i5),
    };
    let i7 = match p_lit(s, i6, "}") {
        Some(j) => j,
        None => {
            return None;
        },
    };
    proof {
        lemma_unique_pairs_view(headers@);
    }
    Some((Message::HttpRequest(HttpRequest { id, tool, method, path, headers, body }), i7))
}

/// Parses the fields of an HTTP response after its tag.
fn pf_http_response(s: &Vec<char>, i: usize) -> (r: Option<(Message, usize)>)
    ensures
        r matches Some(v) ==> (parse_http_response_fields(s@, i as int) == Some(
            (v.0@, v.1 as int),
        ) && msg_wf(v.0@)),
        r is None ==> parse_http_response_fields(s@, i as int) is None,
{
    let j1 = match p_lit(s, i, ",\"id\":") {
        Some(j) => j,
        None => {
            return None;
        },
    };
    let (id, i1) = match p_string(s, j1) {
        Some(v) => v,
        None => {
            return None;
        },
    };
    let j2 = match p_lit(s, i1, ",\"status\":") {
        Some(j) => j,
        None => {
            return None;
        },
    };
    let (status, i2) = match p_number(s, j2, 0xffff) {
        Some(v) => v,
        None => {
            return None;
        },
    };
    let j3 = match p_lit(s, i2, ",\"headers\":") {
        Some(j) => j,
        None => {
            return None;
        },
    };
    let (headers, i3) = match p_obj(s, j3) {
        Some(v) => v,
        None => {
            return None;
        },
    };
    let (body, i4) = match p_lit(s, i3, ",\"body\":") {
        Some(j) => match p_string(s, j) {
            Some((x, j2)) => (Some(x), j2),
            None => (None, i3),
        },
        None => (None, i3),
    };
    let i5 = match p_lit(s, i4, "}") {
        Some(j) => j,
        None => {
            return None;
        },
    };
    proof {
        lemma_unique_pairs_view(headers@);
    }
    Some((Message::HttpResponse(HttpResponse { id, status: status as u16, headers, body }), i5))
}

/// Parses the fields of an SSE event after its tag.
fn pf_sse_event(s: &Vec<char>, i: usize) -> (r: Option<(Message, usize)>)
    ensures
        r matches Some(v) ==> (parse_sse_event_fields(s@, i as int) == Some((v.0@, v.1 as int))
            && msg_wf(v.0@)),
        r is None ==> parse_sse_event_fields(s@, i as int) is None,
{
    let j1 = match p_lit(s, i, ",\"id\":") {
        Some(j) => j,
        None => {
            return None;
        },
    };
    let (id, i1) = match p_string(s, j1) {
        Some(v) => v,
        None => {
            return None;
        },
    };
    let j2 = match p_lit(s, i1, ",\"tool\":") {
        Some(j) => j,
        None => {
            return None;
        },
    };
    let (tool, i2) = match p_string(s, j2) {
        Some(v) => v,
        None => {
            return None;
        },
    };
    let j3 = match p_lit(s, i2, ",\"event\":") {
        Some(j) => j,
        None => {
            return None;
        },
    };
    let (event, i3) = match p_string(s, j3) {
        Some(v) => v,
        None => {
            return None;
        },
    };
    let j4 = match p_lit(s, i3, ",\"data\":") {
        Some(j) => j,
        None => {
            return None;
        },
    };
    let (data, i4) = match p_string(s, j4) {
        Some(v) => v,
        None => {
            return None;
        },
    };
    let i5 = match p_lit(s, i4, "}") {
        Some(j) => j,
        None => {
            return None;
        },
    };
    Some((Message::SseEvent(SseEvent { id, tool, event, data }), i5))
}

/// Parses the fields of an error message after its tag.
fn pf_error(s: &Vec<char>, i: usize) -> (r: Option<(Message, usize)>)
    ensures
        r matches Some(v) ==> (parse_error_fields(s@, i as int) == Some((v.0@, v.1 as int))
            && msg_wf(v.0@)),
        r is None ==> parse_error_fields(s@, i as int) is None,
{
    let j0 = match p_lit(s, i, ",\"id\":") {
        Some(j) => j,
        None => {
            return None;
        },
    };
    let (id, i1) = match p_lit(s, j0, "null") {
        Some(j) => (None, j),
        None => match p_string(s, j0) {
            Some((x, j)) => (Some(x), j),
            None => {
                return None;
            },
        },
    };
    let j2 = match p_lit(s, i1, ",\"code\":") {
        Some(j) => j,
        None => {
            return None;
        },
    };
    let (code, i2) = match p_string(s, j2) {
        Some(v) => v,
        None => {
            return None;
        },
    };
    let j3 = match p_lit(s, i2, ",\"message\":") {
        Some(j) => j,
        None => {
            return None;
        },
    };
    let (message, i3) = match p_string(s, j3) {
        Some(v) => v,
        None => {
            return None;
        },
    };
    let i4 = match p_lit(s, i3, "}") {
        Some(j) => j,
        None => {
            return None;
        },
    };
    Some((Message::Error(ErrorMessage { id, code, message }), i4))
}

/// Parses the fields of a keepalive record after its tag.
fn pf_pingpong(s: &Vec<char>, i: usize, ping: bool) -> (r: Option<(Message, usize)>)
    ensures
        r matches Some(v) ==> (parse_pingpong_fields(s@, i as int, ping) == Some(
            (v.0@, v.1 as int),
        ) && msg_wf(v.0@)),
        r is None ==> parse_pingpong_fields(s@, i as int, ping) is None,
{
    let j1 = match p_lit(s, i, ",\"id\":") {
        Some(j) => j,
        None => {
            return None;
        },
    };
    let (id, i1) = match p_string(s, j1) {
        Some(v) => v,
        None => {
            return None;
        },
    };
    let j2 = match p_lit(s, i1, ",\"timestamp\":") {
        Some(j) => j,
        None => {
            return None;
        },
    };
    let (ts, i2) = match p_number(s, j2, 0xffff_ffff_ffff_ffff) {
        Some(v) => v,
        None => {
            return None;
        },
    };
    let i3 = match p_lit(s, i2, "}") {
        Some(j) => j,
        None => {
            return None;
        },
    };
    let rec = PingPong { id, timestamp: ts };
    if ping {
        Some((Message::Ping(rec), i3))
    } else {
        Some((Message::Pong(rec), i3))
    }
}

/// Parses one whole message from its canonical JSON text.
pub fn parse_message(s: &Vec<char>) -> (r: Option<Message>)
    ensures
        r matches Some(m) ==> (spec_parse_msg(s@) == Some(m@) && msg_wf(m@)),
        r is None ==> spec_parse_msg(s@) is None,
{
    let i0 = match p_lit(s, 0, "{\"type\":") {
        Some(j) => j,
        None => {
            return None;
        },
    };
    let (tag, i1) = match p_string(s, i0) {
        Some(v) => v,
        None => {
            return None;
        },
    };
    let parsed: Option<(Message, usize)> = if str_eq(tag.as_str(), "cli_request") {
        pf_cli_request(s, i1)
    } else if str_eq(tag.as_str(), "cli_response") {
        pf_cli_response(s, i1)
    } else if str_eq(tag.as_str(), "http_request") {
        pf_http_request(s, i1)
    } else if str_eq(tag.as_str(), "http_response") {
        pf_http_response(s, i1)
    } else if str_eq(tag.as_str(), "sse_event") {
        pf_sse_event(s, i1)
    } else if str_eq(tag.as_str(), "error") {
        pf_error(s, i1)
    } else if str_eq(tag.as_str(), "ping") {
        pf_pingpong(s, i1, true)
    } else if str_eq(tag.as_str(), "pong") {
        pf_pingpong(s, i1, false)
    } else {
        return None;
    };
    match parsed {
        Some((m, j)) => {
            if j == s.len() {
                Some(m)
            } else {
                None
            }
        },
        None => None,
    }
}

/// The largest frame the codec accepts: 100 MiB.
pub const MAX_FRAME_SIZE: u32 = 100 * 1024 * 1024;

/// Errors of the frame layer.
#[derive(Debug, Clone)]
pub enum FrameError {
    /// A length prefix or payload beyond the frame cap.
    FrameTooLarge(u32),
    /// The payload was not UTF-8.
    InvalidUtf8,
    /// The payload did not parse as a message.
    InvalidMessage,
}

/// The four big-endian bytes of a 32-bit length.
pub open spec fn be32(n: u32) -> Seq<u8> {
    let r1 = n as int % 0x1000000;
    let r2 = r1 % 0x10000;
    seq![
        (n as int / 0x1000000) as u8,
        (r1 / 0x10000) as u8,
        (r2 / 0x100) as u8,
        (r2 % 0x100) as u8,
    ]
}

/// The value of four big-endian bytes.
pub open spec fn be32_val(b: Seq<u8>) -> int {
    b[0] * 0x1000000 + b[1] * 0x10000 + b[2] * 0x100 + b[3]
}

/// The length bytes decode to the length.
pub proof fn lemma_be32_round_trip(n: u32)
    ensures
        be32_val(be32(n)) == n,
        be32(n).len() == 4,
{
    let ni = n as int;
    let r1 = ni % 0x1000000;
    let r2 = r1 % 0x10000;
    vstd::arithmetic::div_mod::lemma_fundamental_div_mod(ni, 0x1000000);
    vstd::arithmetic::div_mod::lemma_fundamental_div_mod(r1, 0x10000);
    vstd::arithmetic::div_mod::lemma_fundamental_div_mod(r2, 0x100);
    assert(0 <= r1 < 0x1000000 && 0 <= r2 < 0x10000) by (nonlinear_arith)
        requires
            r1 == ni % 0x1000000,
            r2 == r1 % 0x10000,
            0 <= ni,
    ;
    assert(ni / 0x1000000 < 0x100) by (nonlinear_arith)
        requires
            0 <= ni < 0x100000000,
    ;
    assert(r1 / 0x10000 < 0x100) by (nonlinear_arith)
        requires
            0 <= r1 < 0x1000000,
    ;
    assert(r2 / 0x100 < 0x100 && 0 <= r2 % 0x100 < 0x100) by (nonlinear_arith)
        requires
            0 <= r2 < 0x10000,
    ;
}

/// The whole frame for a message: big-endian length, then the UTF-8 bytes
/// of the canonical JSON text.
pub open spec fn spec_frame(m: MessageV) -> Seq<u8> {
    let payload = vstd::utf8::encode_utf8(spec_encode_msg(m));
    be32(payload.len() as u32) + payload
}

/// Encodes one message as a frame appended to `dst`: the length prefix and
/// the complete payload are written together, so a successful return has
/// written one whole frame and nothing else.  Payloads over the cap are
/// refused with nothing written.
pub fn encode_frame(m: &Message, dst: &mut Vec<u8>) -> (r: Result<(), FrameError>)
    ensures
        r is Ok <==> vstd::utf8::encode_utf8(spec_encode_msg(m@)).len() <= MAX_FRAME_SIZE,
        r is Ok ==> final(dst)@ == old(dst)@ + spec_frame(m@),
        r is Err ==> final(dst)@ == old(dst)@,
{
    broadcast use vstd::string::group_string_axioms;

    let chars = encode_message_chars(m);
    let text = chars_to_string(&chars);
    let mut payload = text.as_str().as_bytes_vec();
    proof {
        assert(payload@ == vstd::utf8::encode_utf8(spec_encode_msg(m@)));
    }
    if payload.len() > MAX_FRAME_SIZE as usize {
        return Err(FrameError::FrameTooLarge(MAX_FRAME_SIZE));
    }
    let n: u32 = payload.len() as u32;
    let r1: u32 = n % 0x1000000;
    let r2: u32 = r1 % 0x10000;
    dst.push((n / 0x1000000) as u8);
    dst.push((r1 / 0x10000) as u8);
    dst.push((r2 / 0x100) as u8);
    dst.push((r2 % 0x100) as u8);
    let ghost mid = dst@;
    dst.append(&mut payload);
    proof {
        assert(mid =~= old(dst)@ + be32(n));
        assert(dst@ =~= old(dst)@ + spec_frame(m@));
    }
    Ok(())
}

/// Decodes one frame from the front of `buf`, consuming it only when it is
/// complete and its length prefix is within the cap.  An incomplete frame
/// yields nothing and consumes nothing; an oversized prefix is refused
/// without consuming; a complete frame is consumed and its payload must be
/// the canonical UTF-8 JSON text of one message.
pub fn decode_frame(buf: &mut Vec<u8>) -> (r: Result<Option<Message>, FrameError>)
    ensures
        old(buf)@.len() < 4 ==> (r matches Ok(o) && o is None && final(buf)@ == old(buf)@),
        old(buf)@.len() >= 4 && be32_val(old(buf)@.subrange(0, 4)) > MAX_FRAME_SIZE ==> (r is Err
            && final(buf)@ == old(buf)@),
        old(buf)@.len() >= 4 && be32_val(old(buf)@.subrange(0, 4)) <= MAX_FRAME_SIZE && old(
            buf,
        )@.len() < 4 + be32_val(old(buf)@.subrange(0, 4)) ==> (r matches Ok(o) && o is None
            && final(buf)@ == old(buf)@),
        ({
            let ln = be32_val(old(buf)@.subrange(0, 4));
            let payload = old(buf)@.subrange(4, 4 + ln);
            old(buf)@.len() >= 4 && ln <= MAX_FRAME_SIZE && old(buf)@.len() >= 4 + ln ==> {
                &&& final(buf)@ == old(buf)@.skip(4 + ln)
                &&& (vstd::utf8::valid_utf8(payload) && spec_parse_msg(
                    vstd::utf8::decode_utf8(payload),
                ) is Some ==> (r matches Ok(o) && o matches Some(m) && spec_parse_msg(
                    vstd::utf8::decode_utf8(payload),
                ) == Some(m@) && msg_wf(m@)))
                &&& (!vstd::utf8::valid_utf8(payload) || spec_parse_msg(
                    vstd::utf8::decode_utf8(payload),
                ) is None ==> r is Err)
            }
        }),
{
    broadcast use vstd::utf8::encode_utf8_decode_utf8;
    broadcast use vstd::utf8::encode_utf8_valid_utf8;

    if buf.len() < 4 {
        return Ok(None);
    }
    let b0 = buf[0] as u32;
    let b1 = buf[1] as u32;
    let b2 = buf[2] as u32;
    let b3 = buf[3] as u32;
    let ln: u32 = b0 * 0x1000000 + b1 * 0x10000 + b2 * 0x100 + b3;
    proof {
        assert(old(buf)@.subrange(0, 4)[0] == old(buf)@[0]);
        assert(old(buf)@.subrange(0, 4)[1] == old(buf)@[1]);
        assert(old(buf)@.subrange(0, 4)[2] == old(buf)@[2]);
        assert(old(buf)@.subrange(0, 4)[3] == old(buf)@[3]);
        assert(ln as int == be32_val(old(buf)@.subrange(0, 4)));
    }
    if ln > MAX_FRAME_SIZE {
        return Err(FrameError::FrameTooLarge(ln));
    }
    if buf.len() - 4 < ln as usize {
        return Ok(None);
    }
    let rest = buf.split_off(4 + ln as usize);
    let payload = buf.split_off(4);
    *buf = rest;
    proof {
        assert(buf@ =~= old(buf)@.skip(4 + ln as int));
        assert(payload@ =~= old(buf)@.subrange(4, 4 + ln as int));
    }
    let text = match bytes_to_string(payload.as_slice()) {
        Some(t) => t,
        None => {
            return Err(FrameError::InvalidUtf8);
        },
    };
    let chars = str_to_chars(text.as_str());
    proof {
        assert(vstd::utf8::encode_utf8(text@) == payload@);
        assert(vstd::utf8::decode_utf8(payload@) == text@);
    }
    match parse_message(&chars) {
        Some(m) => Ok(Some(m)),
        None => Err(FrameError::InvalidMessage),
    }
}

/// Framing is an isomorphism on well-formed messages: for every message
/// whose maps have unique keys and whose payload fits the cap, the frame's
/// payload is valid UTF-8 and parses back to exactly that message; encoding
/// refuses larger payloads, and decoding refuses larger length prefixes.
pub proof fn lemma_frame_round_trip(m: MessageV)
    requires
        msg_wf(m),
    ensures
        vstd::utf8::valid_utf8(vstd::utf8::encode_utf8(spec_encode_msg(m))),
        spec_parse_msg(vstd::utf8::decode_utf8(vstd::utf8::encode_utf8(spec_encode_msg(m))))
            == Some(m),
{
    broadcast use vstd::utf8::encode_utf8_valid_utf8;
    broadcast use vstd::utf8::encode_utf8_decode_utf8;

    crate::json::lemma_parse_encode(m);
}

/// The length-prefixed message codec: encode writes one whole frame, decode
/// consumes at most one whole frame.
pub struct MessageCodec;

impl MessageCodec {
    /// Appends the frame of `msg` to `dst`; see `encode_frame`.
    pub fn encode(&mut self, msg: &Message, dst: &mut Vec<u8>) -> (r: Result<(), FrameError>)
        ensures
            r is Ok <==> vstd::utf8::encode_utf8(spec_encode_msg(msg@)).len() <= MAX_FRAME_SIZE,
            r is Ok ==> final(dst)@ == old(dst)@ + spec_frame(msg@),
            r is Err ==> final(dst)@ == old(dst)@,
    {
        encode_frame(msg, dst)
    }

    /// Takes one complete frame off the front of `src`; see `decode_frame`
    /// for the clause-by-clause reading.
    pub fn decode(&mut self, src: &mut Vec<u8>) -> (r: Result<Option<Message>, FrameError>)
        ensures
            old(src)@.len() < 4 ==> (r matches Ok(o) && o is None && final(src)@ == old(src)@),
            old(src)@.len() >= 4 && be32_val(old(src)@.subrange(0, 4)) > MAX_FRAME_SIZE ==> (r
                is Err && final(src)@ == old(src)@),
            old(src)@.len() >= 4 && be32_val(old(src)@.subrange(0, 4)) <= MAX_FRAME_SIZE && old(
                src,
            )@.len() < 4 + be32_val(old(src)@.subrange(0, 4)) ==> (r matches Ok(o) && o is None
                && final(src)@ == old(src)@),
            ({
                let ln = be32_val(old(src)@.subrange(0, 4));
                let payload = old(src)@.subrange(4, 4 + ln);
                old(src)@.len() >= 4 && ln <= MAX_FRAME_SIZE && old(src)@.len() >= 4 + ln ==> {
                    &&& final(src)@ == old(src)@.skip(4 + ln)
                    &&& (vstd::utf8::valid_utf8(payload) && spec_parse_msg(
                        vstd::utf8::decode_utf8(payload),
                    ) is Some ==> (r matches Ok(o) && o matches Some(m) && spec_parse_msg(
                        vstd::utf8::decode_utf8(payload),
                    ) == Some(m@) && msg_wf(m@)))
                    &&& (!vstd::utf8::valid_utf8(payload) || spec_parse_msg(
                        vstd::utf8::decode_utf8(payload),
                    ) is None ==> r is Err)
                }
            }),
    {
        decode_frame(src)
    }
}

} // verus!



