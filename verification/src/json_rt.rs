//! The wire format round-trips: parsing what the encoder wrote yields
//! exactly the records it was given. Together with the store-level identity
//! of importing an export, this pins the whole transfer pipeline down.

use vstd::prelude::*;

use crate::json::{dec_digits, digit_char, digit_val, enc_char, enc_int, enc_str_body, enc_string,
    enc_tags, hex_digit, hex_val, is_digit, is_hex, is_json_ws, parse_digits, parse_int,
    parse_string, parse_string_rest, skip_ws};

verus! {

/// `t` stands at position `i` of `s`.
pub open spec fn lit_at(s: Seq<char>, i: int, t: Seq<char>) -> bool {
    0 <= i && i + t.len() <= s.len() && s.subrange(i, i + t.len()) == t
}

/// Each character of a literal in place.
pub proof fn lemma_lit_at_index(s: Seq<char>, i: int, t: Seq<char>, k: int)
    requires
        lit_at(s, i, t),
        0 <= k < t.len(),
    ensures
        s[i + k] == t[k],
{
    assert(s.subrange(i, i + t.len())[k] == s[i + k]);
}

/// A literal made of two parts stands as its parts.
pub proof fn lemma_lit_at_split(s: Seq<char>, i: int, a: Seq<char>, b: Seq<char>)
    requires
        lit_at(s, i, a + b),
    ensures
        lit_at(s, i, a),
        lit_at(s, i + a.len(), b),
{
    assert(s.subrange(i, i + a.len()) =~= a) by {
        assert forall|k: int| 0 <= k < a.len() implies s.subrange(i, i + a.len())[k] == a[k] by {
            lemma_lit_at_index(s, i, a + b, k);
            assert((a + b)[k] == a[k]);
        }
    }
    assert(s.subrange(i + a.len(), i + a.len() + b.len()) =~= b) by {
        assert forall|k: int|
            0 <= k < b.len() implies s.subrange(i + a.len(), i + a.len() + b.len())[k] == b[k] by {
            lemma_lit_at_index(s, i, a + b, a.len() + k);
            assert((a + b)[a.len() + k] == b[k]);
        }
    }
}

/// Skipping whitespace where none stands does nothing.
pub proof fn lemma_skip_ws_here(s: Seq<char>, i: int)
    requires
        0 <= i <= s.len(),
        i < s.len() ==> !is_json_ws(s[i]),
    ensures
        skip_ws(s, i) == i,
{
}

/// The hexadecimal digit characters decode to their values and are neither
/// quotes, backslashes nor whitespace.
proof fn lemma_hex_digit_facts(v: int)
    requires
        0 <= v < 16,
    ensures
        is_hex(hex_digit(v)),
        hex_val(hex_digit(v)) == v,
        hex_digit(v) != '"',
        hex_digit(v) != '\\',
{
    if v < 10 {
        assert(hex_digit(v) as int == '0' as int + v);
    } else {
        assert(hex_digit(v) as int == 'a' as int + v - 10);
    }
}

/// Parsing what the escaper wrote for a string body gives back its
/// characters and stops right after the closing quote.
proof fn lemma_rt_string_rest(s: Seq<char>, i: int, x: Seq<char>, acc: Seq<char>)
    requires
        lit_at(s, i, enc_str_body(x) + seq!['"']),
    ensures
        parse_string_rest(s, i, acc) == Some((acc + x, i + enc_str_body(x).len() + 1)),
    decreases x.len(),
{
    let body = enc_str_body(x);
    if x.len() == 0 {
        assert(body =~= Seq::<char>::empty());
        lemma_lit_at_index(s, i, body + seq!['"'], 0);
        assert(s[i] == '"');
        assert(acc + x =~= acc);
    } else {
        let c = x[0];
        let rest = enc_str_body(x.drop_first());
        assert(body == enc_char(c) + rest);
        assert(body + seq!['"'] =~= enc_char(c) + (rest + seq!['"']));
        lemma_lit_at_split(s, i, enc_char(c), rest + seq!['"']);
        let j = i + enc_char(c).len();
        if c == '"' || c == '\\' {
            assert(enc_char(c) =~= seq!['\\', c]);
            lemma_lit_at_index(s, i, enc_char(c), 0);
            lemma_lit_at_index(s, i, enc_char(c), 1);
            assert(s[i] == '\\' && s[i + 1] == c);
            lemma_rt_string_rest(s, i + 2, x.drop_first(), acc.push(c));
            assert(acc.push(c) + x.drop_first() =~= acc + x);
        } else if (c as u32) < 32 {
            broadcast use vstd::utf8::char_is_scalar;
            broadcast use vstd::utf8::char_u32_cast;

            let cu = c as u32;
            let hi = ((c as u32) / 16) as int;
            let lo = ((c as u32) % 16) as int;
            assert(0 <= hi < 2 && 0 <= lo < 16);
            assert(enc_char(c) =~= seq!['\\', 'u', '0', '0', hex_digit(hi), hex_digit(lo)]);
            lemma_lit_at_index(s, i, enc_char(c), 0);
            lemma_lit_at_index(s, i, enc_char(c), 1);
            lemma_lit_at_index(s, i, enc_char(c), 2);
            lemma_lit_at_index(s, i, enc_char(c), 3);
            lemma_lit_at_index(s, i, enc_char(c), 4);
            lemma_lit_at_index(s, i, enc_char(c), 5);
            lemma_hex_digit_facts(hi);
            lemma_hex_digit_facts(lo);
            assert(s[i] == '\\' && s[i + 1] == 'u');
            assert(s[i + 2] == '0' && s[i + 3] == '0');
            assert(is_hex(s[i + 2]) && is_hex(s[i + 3]) && is_hex(s[i + 4]) && is_hex(s[i + 5]));
            assert(hex_val('0') == 0);
            let code = hex_val(s[i + 2]) * 4096 + hex_val(s[i + 3]) * 256 + hex_val(s[i + 4]) * 16
                + hex_val(s[i + 5]);
            assert(code == hi * 16 + lo);
            assert(code == cu as int);
            assert(0 <= code < 32);
            assert((code as char) == (cu as char));
            vstd::utf8::char_u32_cast(c, cu);
            assert((cu as char) == c);
            lemma_rt_string_rest(s, i + 6, x.drop_first(), acc.push(c));
            assert(acc.push(c) + x.drop_first() =~= acc + x);
        } else {
            assert(enc_char(c) =~= seq![c]);
            lemma_lit_at_index(s, i, enc_char(c), 0);
            assert(s[i] == c);
            assert(c != '"' && c != '\\');
            lemma_rt_string_rest(s, i + 1, x.drop_first(), acc.push(c));
            assert(acc.push(c) + x.drop_first() =~= acc + x);
        }
    }
}

/// Parsing what the encoder wrote for a string literal gives back the
/// string.
pub proof fn lemma_rt_string(s: Seq<char>, i: int, x: Seq<char>)
    requires
        lit_at(s, i, enc_string(x)),
    ensures
        parse_string(s, i) == Some((x, i + enc_string(x).len())),
{
    assert(enc_string(x) =~= seq!['"'] + (enc_str_body(x) + seq!['"']));
    lemma_lit_at_split(s, i, seq!['"'], enc_str_body(x) + seq!['"']);
    lemma_lit_at_index(s, i, seq!['"'], 0);
    assert(s[i] == '"');
    lemma_rt_string_rest(s, i + 1, x, Seq::empty());
    assert(Seq::<char>::empty() + x =~= x);
}

/// Powers of ten.
pub open spec fn pow10(k: nat) -> int
    decreases k,
{
    if k == 0 {
        1
    } else {
        10 * pow10((k - 1) as nat)
    }
}

/// The decimal digits of a non-negative value: at least one, all digits.
proof fn lemma_dec_digits_facts(v: int)
    requires
        v >= 0,
    ensures
        dec_digits(v).len() >= 1,
        forall|k: int| 0 <= k < dec_digits(v).len() ==> is_digit(#[trigger] dec_digits(v)[k]),
    decreases v,
{
    if v < 10 {
        assert(digit_char(v) as int == '0' as int + v);
        assert(is_digit(dec_digits(v)[0]));
    } else {
        lemma_dec_digits_facts(v / 10);
        assert(digit_char(v % 10) as int == '0' as int + v % 10);
        assert forall|k: int| 0 <= k < dec_digits(v).len() implies is_digit(
            #[trigger] dec_digits(v)[k],
        ) by {
            if k < dec_digits(v / 10).len() {
                assert(dec_digits(v)[k] == dec_digits(v / 10)[k]);
            } else {
                assert(dec_digits(v)[k] == digit_char(v % 10));
            }
        }
    }
}

/// The value a run of digit characters stands for, most significant first.
pub open spec fn val_digits(s: Seq<char>, i: int, k: int) -> int
    decreases k,
{
    if k <= 0 {
        0
    } else {
        val_digits(s, i, k - 1) * 10 + digit_val(s[i + k - 1])
    }
}

/// Peeling the leading digit off a run.
proof fn lemma_val_digits_cons(s: Seq<char>, i: int, k: int)
    requires
        k >= 1,
    ensures
        val_digits(s, i, k) == digit_val(s[i]) * pow10((k - 1) as nat) + val_digits(s, i + 1, k - 1),
    decreases k,
{
    if k == 1 {
        assert(val_digits(s, i, 0) == 0);
        assert(val_digits(s, i + 1, 0) == 0);
        assert(pow10(0nat) == 1);
        assert(val_digits(s, i, 1) == val_digits(s, i, 0) * 10 + digit_val(s[i + 0]));
        assert(s[i + 0] == s[i]);
    } else {
        lemma_val_digits_cons(s, i, k - 1);
        assert(val_digits(s, i + 1, k - 1) == val_digits(s, i + 1, k - 2) * 10 + digit_val(
            s[i + k - 1],
        ));
        assert(digit_val(s[i]) * pow10((k - 1) as nat) == (digit_val(s[i]) * pow10(
            (k - 2) as nat,
        )) * 10) by (nonlinear_arith)
            requires
                pow10((k - 1) as nat) == 10 * pow10((k - 2) as nat),
        {
        }
    }
}

/// Folding a full digit run onto an accumulator.
proof fn lemma_parse_digits_chunk(s: Seq<char>, i: int, k: int, acc: int)
    requires
        0 <= i,
        0 <= k,
        i + k <= s.len(),
        forall|j: int| 0 <= j < k ==> is_digit(#[trigger] s[i + j]),
        i + k == s.len() || !is_digit(s[i + k]),
    ensures
        parse_digits(s, i, acc) == (acc * pow10(k as nat) + val_digits(s, i, k), i + k),
    decreases k,
{
    if k == 0 {
    } else {
        assert(s[i + 0] == s[i]);
        assert(is_digit(s[i]));
        let d0 = digit_val(s[i]);
        assert forall|j: int| 0 <= j < k - 1 implies is_digit(#[trigger] s[i + 1 + j]) by {
            assert(s[i + 1 + j] == s[i + (j + 1)]);
        }
        lemma_parse_digits_chunk(s, i + 1, k - 1, acc * 10 + d0);
        lemma_val_digits_cons(s, i, k);
        assert((acc * 10 + d0) * pow10((k - 1) as nat) == acc * pow10(k as nat) + d0 * pow10(
            (k - 1) as nat,
        )) by (nonlinear_arith)
            requires
                pow10(k as nat) == 10 * pow10((k - 1) as nat),
        {
        }
    }
}

/// The digits the encoder wrote stand for the value it was given.
proof fn lemma_val_of_dec(s: Seq<char>, i: int, v: int)
    requires
        v >= 0,
        lit_at(s, i, dec_digits(v)),
    ensures
        val_digits(s, i, dec_digits(v).len() as int) == v,
    decreases v,
{
    if v < 10 {
        lemma_lit_at_index(s, i, dec_digits(v), 0);
        assert(digit_char(v) as int == '0' as int + v);
        assert(s[i + 0] == s[i]);
        assert(val_digits(s, i, 0) == 0);
        assert(val_digits(s, i, 1) == val_digits(s, i, 0) * 10 + digit_val(s[i + 0]));
        assert(val_digits(s, i, 1) == digit_val(s[i]));
    } else {
        let d1 = dec_digits(v / 10);
        assert(dec_digits(v) =~= d1 + seq![digit_char(v % 10)]);
        lemma_lit_at_split(s, i, d1, seq![digit_char(v % 10)]);
        lemma_val_of_dec(s, i, v / 10);
        lemma_lit_at_index(s, i + d1.len(), seq![digit_char(v % 10)], 0);
        assert(s[i + d1.len()] == digit_char(v % 10));
        assert(digit_char(v % 10) as int == '0' as int + v % 10);
        assert(val_digits(s, i, dec_digits(v).len() as int) == val_digits(s, i, d1.len() as int)
            * 10 + digit_val(s[i + d1.len()]));
    }
}

/// Parsing the digits the encoder wrote gives back the value.
proof fn lemma_rt_uint(s: Seq<char>, i: int, v: int)
    requires
        v >= 0,
        lit_at(s, i, dec_digits(v)),
        i + dec_digits(v).len() == s.len() || !is_digit(s[i + dec_digits(v).len()]),
    ensures
        parse_digits(s, i, 0) == (v, i + dec_digits(v).len()),
{
    let k = dec_digits(v).len() as int;
    lemma_dec_digits_facts(v);
    assert forall|j: int| 0 <= j < k implies is_digit(#[trigger] s[i + j]) by {
        lemma_lit_at_index(s, i, dec_digits(v), j);
    }
    lemma_parse_digits_chunk(s, i, k, 0);
    lemma_val_of_dec(s, i, v);
}

/// Parsing the integer the encoder wrote gives back the value, provided the
/// character after it cannot extend a number.
pub proof fn lemma_rt_int(s: Seq<char>, i: int, n: int)
    requires
        i64::MIN <= n <= i64::MAX,
        lit_at(s, i, enc_int(n)),
        ({
            let after = i + enc_int(n).len();
            after == s.len() || !(is_digit(s[after]) || s[after] == '.' || s[after] == 'e'
                || s[after] == 'E')
        }),
    ensures
        parse_int(s, i) == Some((n, i + enc_int(n).len())),
{
    if n >= 0 {
        lemma_dec_digits_facts(n);
        lemma_lit_at_index(s, i, enc_int(n), 0);
        assert(is_digit(s[i]));
        assert(s[i] != '-') by {
            assert(('-' as int) < ('0' as int));
        }
        lemma_rt_uint(s, i, n);
    } else {
        let mag = -n;
        assert(enc_int(n) == seq!['-'] + dec_digits(mag));
        lemma_lit_at_split(s, i, seq!['-'], dec_digits(mag));
        lemma_lit_at_index(s, i, seq!['-'], 0);
        assert(s[i] == '-');
        lemma_dec_digits_facts(mag);
        lemma_lit_at_index(s, i + 1, dec_digits(mag), 0);
        assert(is_digit(s[i + 1]));
        lemma_rt_uint(s, i + 1, mag);
    }
}

/// A string of ordinary characters needs no escaping.
proof fn lemma_enc_plain(x: Seq<char>)
    requires
        forall|k: int|
            0 <= k < x.len() ==> (#[trigger] x[k]) != '"' && x[k] != '\\' && (x[k] as u32) >= 32,
    ensures
        enc_str_body(x) == x,
    decreases x.len(),
{
    if x.len() > 0 {
        assert forall|k: int|
            0 <= k < x.drop_first().len() implies (#[trigger] x.drop_first()[k]) != '"'
            && x.drop_first()[k] != '\\' && (x.drop_first()[k] as u32) >= 32 by {
            assert(x.drop_first()[k] == x[k + 1]);
        }
        lemma_enc_plain(x.drop_first());
        assert(x[0 as int] != '"');
        assert(enc_char(x[0]) =~= seq![x[0]]);
        assert(enc_str_body(x) =~= x);
    }
}

/// The tag array's text after its first element: each further element
/// preceded by a comma, then the close.
pub open spec fn enc_tags_tail(rest: Seq<Seq<char>>) -> Seq<char>
    decreases rest.len(),
{
    if rest.len() == 0 {
        seq![']']
    } else {
        seq![','] + enc_string(rest[0]) + enc_tags_tail(rest.drop_first())
    }
}

/// The tag array's body and close decompose around the first element.
proof fn lemma_tags_body_tail(tags: Seq<Seq<char>>)
    requires
        tags.len() >= 1,
    ensures
        crate::json::enc_tags_body(tags) + seq![']'] == enc_string(tags[0]) + enc_tags_tail(
            tags.drop_first(),
        ),
    decreases tags.len(),
{
    if tags.len() == 1 {
        assert(crate::json::enc_tags_body(tags) + seq![']'] =~= enc_string(tags[0])
            + enc_tags_tail(tags.drop_first()));
    } else {
        let rest = tags.drop_first();
        lemma_tags_body_tail(rest);
        assert(crate::json::enc_tags_body(tags) + seq![']'] =~= enc_string(tags[0]) + (seq![',']
            + (crate::json::enc_tags_body(rest) + seq![']'])));
        assert(seq![','] + (crate::json::enc_tags_body(rest) + seq![']']) =~= seq![',']
            + (enc_string(rest[0]) + enc_tags_tail(rest.drop_first())));
        assert(seq![','] + (enc_string(rest[0]) + enc_tags_tail(rest.drop_first()))
            =~= enc_tags_tail(rest));
        assert(enc_string(tags[0]) + (seq![','] + (crate::json::enc_tags_body(rest) + seq![']']))
            =~= enc_string(tags[0]) + enc_tags_tail(rest));
    }
}

/// The tag array's text decomposes around its first element.
proof fn lemma_enc_tags_shape(tags: Seq<Seq<char>>)
    requires
        tags.len() >= 1,
    ensures
        enc_tags(tags) == seq!['['] + enc_string(tags[0]) + enc_tags_tail(tags.drop_first()),
    decreases tags.len(),
{
    lemma_tags_body_tail(tags);
    assert(enc_tags(tags) =~= seq!['['] + (crate::json::enc_tags_body(tags) + seq![']']));
    assert(seq!['['] + (enc_string(tags[0]) + enc_tags_tail(tags.drop_first())) =~= seq!['[']
        + enc_string(tags[0]) + enc_tags_tail(tags.drop_first()));
}

/// Parsing the tail of the tag array collects the remaining tags.
proof fn lemma_rt_tags_tail(s: Seq<char>, i: int, rest: Seq<Seq<char>>, acc: Seq<Seq<char>>, fuel:
    nat)
    requires
        lit_at(s, i, enc_tags_tail(rest)),
        fuel >= rest.len() + 1,
    ensures
        crate::json::parse_string_array_tail(s, i, acc, fuel) == Some(
            (acc + rest, i + enc_tags_tail(rest).len()),
        ),
    decreases rest.len(),
{
    if rest.len() == 0 {
        lemma_lit_at_index(s, i, enc_tags_tail(rest), 0);
        assert(s[i] == ']');
        assert(acc + rest =~= acc);
    } else {
        let t0 = rest[0];
        let tail = enc_tags_tail(rest.drop_first());
        assert(enc_tags_tail(rest) =~= seq![','] + (enc_string(t0) + tail));
        lemma_lit_at_split(s, i, seq![','], enc_string(t0) + tail);
        lemma_lit_at_index(s, i, seq![','], 0);
        assert(s[i] == ',');
        lemma_lit_at_split(s, i + 1, enc_string(t0), tail);
        lemma_lit_at_index(s, i + 1, enc_string(t0), 0);
        assert(s[i + 1] == '"');
        lemma_skip_ws_here(s, i + 1);
        lemma_rt_string(s, i + 1, t0);
        let j = i + 1 + enc_string(t0).len();
        if rest.drop_first().len() == 0 {
            lemma_lit_at_index(s, j, tail, 0);
            assert(s[j] == ']');
        } else {
            lemma_lit_at_index(s, j, tail, 0);
            assert(s[j] == ',');
        }
        lemma_skip_ws_here(s, j);
        lemma_rt_tags_tail(s, j, rest.drop_first(), acc.push(t0), (fuel - 1) as nat);
        assert(acc.push(t0) + rest.drop_first() =~= acc + rest);
    }
}

/// Parsing the tag array the encoder wrote gives back the tags.
pub proof fn lemma_rt_tags(s: Seq<char>, i: int, tags: Seq<Seq<char>>, fuel: nat)
    requires
        lit_at(s, i, enc_tags(tags)),
        fuel >= tags.len() + 1,
    ensures
        crate::json::parse_string_array(s, i, fuel) == Some((tags, i + enc_tags(tags).len())),
{
    lemma_lit_at_index(s, i, enc_tags(tags), 0);
    assert(s[i] == '[');
    if tags.len() == 0 {
        assert(enc_tags(tags) =~= seq!['[', ']']);
        lemma_lit_at_index(s, i, enc_tags(tags), 1);
        assert(s[i + 1] == ']');
        lemma_skip_ws_here(s, i + 1);
        assert(Seq::<Seq<char>>::empty() =~= tags);
    } else {
        lemma_enc_tags_shape(tags);
        assert(enc_tags(tags) =~= seq!['['] + (enc_string(tags[0]) + enc_tags_tail(
            tags.drop_first(),
        )));
        lemma_lit_at_split(s, i, seq!['['], enc_string(tags[0]) + enc_tags_tail(tags.drop_first()));
        lemma_lit_at_split(s, i + 1, enc_string(tags[0]), enc_tags_tail(tags.drop_first()));
        lemma_lit_at_index(s, i + 1, enc_string(tags[0]), 0);
        assert(s[i + 1] == '"');
        assert(s[i + 1] != ']');
        lemma_skip_ws_here(s, i + 1);
        lemma_rt_string(s, i + 1, tags[0]);
        let j = i + 1 + enc_string(tags[0]).len();
        let tail = enc_tags_tail(tags.drop_first());
        if tags.drop_first().len() == 0 {
            lemma_lit_at_index(s, j, tail, 0);
        } else {
            lemma_lit_at_index(s, j, tail, 0);
        }
        lemma_skip_ws_here(s, j);
        lemma_rt_tags_tail(s, j, tags.drop_first(), seq![tags[0]], fuel);
        assert(seq![tags[0]] + tags.drop_first() =~= tags);
    }
}

/// A field key's text: quote, name, quote — and the names stay themselves
/// under escaping.
proof fn lemma_key_facts()
    ensures
        enc_string("id"@) == "\"id\""@,
        enc_string("fi"@) == "\"fi\""@,
        enc_string("tp"@) == "\"tp\""@,
        enc_string("t"@) == "\"t\""@,
        enc_string("c"@) == "\"c\""@,
        enc_string("lu"@) == "\"lu\""@,
        enc_string("ca"@) == "\"ca\""@,
{
    reveal_strlit("id");
    reveal_strlit("fi");
    reveal_strlit("tp");
    reveal_strlit("t");
    reveal_strlit("c");
    reveal_strlit("lu");
    reveal_strlit("ca");
    reveal_strlit("\"id\"");
    reveal_strlit("\"fi\"");
    reveal_strlit("\"tp\"");
    reveal_strlit("\"t\"");
    reveal_strlit("\"c\"");
    reveal_strlit("\"lu\"");
    reveal_strlit("\"ca\"");
    lemma_enc_plain("id"@);
    lemma_enc_plain("fi"@);
    lemma_enc_plain("tp"@);
    lemma_enc_plain("t"@);
    lemma_enc_plain("c"@);
    lemma_enc_plain("lu"@);
    lemma_enc_plain("ca"@);
    assert(enc_string("id"@) =~= "\"id\""@);
    assert(enc_string("fi"@) =~= "\"fi\""@);
    assert(enc_string("tp"@) =~= "\"tp\""@);
    assert(enc_string("t"@) =~= "\"t\""@);
    assert(enc_string("c"@) =~= "\"c\""@);
    assert(enc_string("lu"@) =~= "\"lu\""@);
    assert(enc_string("ca"@) =~= "\"ca\""@);
}

/// The serialized kind names parse back to their kinds, and need no
/// escaping.
proof fn lemma_kind_name_facts(ty: crate::types::EntityType)
    ensures
        crate::json::type_of_name(crate::json::kind_name(ty)) == Some(ty),
        enc_str_body(crate::json::kind_name(ty)) == crate::json::kind_name(ty),
{
    reveal_strlit("Sticker");
    reveal_strlit("Animation");
    reveal_strlit("Photo");
    reveal_strlit("Video");
    lemma_enc_plain("Sticker"@);
    lemma_enc_plain("Animation"@);
    lemma_enc_plain("Photo"@);
    lemma_enc_plain("Video"@);
    assert("Animation"@ != "Sticker"@);
    assert("Photo"@ != "Sticker"@);
    assert("Photo"@ != "Animation"@);
    assert("Video"@ != "Sticker"@);
    assert("Video"@ != "Animation"@);
    assert("Video"@ != "Photo"@) by {
        assert("Video"@[0] == 'V' && "Photo"@[0] == 'P');
    }
}

/// Parse one integer field: key, colon, value, then comma or close.
proof fn lemma_rt_int_field(
    s: Seq<char>,
    i: int,
    key: Seq<char>,
    n: int,
    rest: Seq<char>,
    p: crate::json::PartialItem,
    fuel: nat,
)
    requires
        i64::MIN <= n <= i64::MAX,
        key == "c"@ || key == "lu"@ || key == "ca"@,
        lit_at(s, i, enc_string(key) + seq![':'] + enc_int(n) + rest),
        rest.len() >= 1,
        rest[0] == ',' || rest[0] == '}',
        fuel >= 1,
        (key == "c"@ ==> p.c is None),
        (key == "lu"@ ==> p.lu is None),
        (key == "ca"@ ==> p.ca is None),
    ensures
        crate::json::parse_string(s, i) == Some((key, i + enc_string(key).len())),
        ({
            let jc = i + enc_string(key).len();
            let jv = jc + 1;
            &&& s[jc] == ':'
            &&& crate::json::parse_item_value(s, jv, key, p, (fuel - 1) as nat) matches Some(pr)
                && pr.1 == jv + enc_int(n).len() && pr.0 == (if key == "c"@ {
                crate::json::PartialItem { c: Some(n), ..p }
            } else if key == "lu"@ {
                crate::json::PartialItem { lu: Some(n), ..p }
            } else {
                crate::json::PartialItem { ca: Some(n), ..p }
            })
            &&& s[jv + enc_int(n).len()] == rest[0]
        }),
{
    lemma_key_facts();
    reveal_strlit("id");
    reveal_strlit("fi");
    reveal_strlit("tp");
    reveal_strlit("t");
    reveal_strlit("c");
    reveal_strlit("lu");
    reveal_strlit("ca");
    assert(enc_string(key) + seq![':'] + enc_int(n) + rest =~= enc_string(key) + (seq![':']
        + (enc_int(n) + rest)));
    lemma_lit_at_split(s, i, enc_string(key), seq![':'] + (enc_int(n) + rest));
    lemma_rt_string(s, i, key);
    let jc = i + enc_string(key).len();
    lemma_lit_at_split(s, jc, seq![':'], enc_int(n) + rest);
    lemma_lit_at_index(s, jc, seq![':'], 0);
    let jv = jc + 1;
    lemma_lit_at_split(s, jv, enc_int(n), rest);
    lemma_lit_at_index(s, jv + enc_int(n).len(), rest, 0);
    lemma_rt_int(s, jv, n);
    assert(key != "id"@ && key != "fi"@ && key != "tp"@ && key != "t"@);
    if key == "c"@ {
        assert(key != "lu"@ && key != "ca"@);
    } else if key == "lu"@ {
        assert(key != "c"@ && key != "ca"@);
    } else {
        assert(key != "c"@ && key != "lu"@);
    }
}

/// What a field-terminator step leaves the field parser doing: close the
/// record, or go on at the next key.
pub open spec fn fields_after(
    s: Seq<char>,
    end: int,
    p2: crate::json::PartialItem,
    fuel: nat,
) -> Option<(crate::json::ItemV, int)> {
    if s[end] == '}' {
        match crate::json::item_of_parts(p2) {
            Some(x) => Some((x, end + 1)),
            None => None,
        }
    } else {
        crate::json::parse_item_fields(s, skip_ws(s, end + 1), p2, (fuel - 1) as nat)
    }
}

/// One integer field: the parser reads the key, the colon, the value, and
/// carries on after the terminator.
proof fn lemma_rt_step_int(
    s: Seq<char>,
    i: int,
    key: Seq<char>,
    n: int,
    rest: Seq<char>,
    p: crate::json::PartialItem,
    fuel: nat,
)
    requires
        i64::MIN <= n <= i64::MAX,
        key == "c"@ || key == "lu"@ || key == "ca"@,
        lit_at(s, i, enc_string(key) + seq![':'] + enc_int(n) + rest),
        rest.len() >= 1,
        rest[0] == ',' || rest[0] == '}',
        fuel >= 1,
        (key == "c"@ ==> p.c is None),
        (key == "lu"@ ==> p.lu is None),
        (key == "ca"@ ==> p.ca is None),
    ensures
        ({
            let end = i + enc_string(key).len() + 1 + enc_int(n).len();
            let p2 = if key == "c"@ {
                crate::json::PartialItem { c: Some(n), ..p }
            } else if key == "lu"@ {
                crate::json::PartialItem { lu: Some(n), ..p }
            } else {
                crate::json::PartialItem { ca: Some(n), ..p }
            };
            crate::json::parse_item_fields(s, i, p, fuel) == fields_after(s, end, p2, fuel)
        }),
{
    lemma_rt_int_field(s, i, key, n, rest, p, fuel);
    let jc = i + enc_string(key).len();
    let jv = jc + 1;
    let end = jv + enc_int(n).len();
    lemma_skip_ws_here(s, jc);
    assert(!is_json_ws(s[jv])) by {
        assert(enc_string(key) + seq![':'] + enc_int(n) + rest =~= enc_string(key) + (seq![':'] + (
        enc_int(n) + rest)));
        lemma_lit_at_split(s, i, enc_string(key), seq![':'] + (enc_int(n) + rest));
        lemma_lit_at_split(s, jc, seq![':'], enc_int(n) + rest);
        lemma_lit_at_split(s, jv, enc_int(n), rest);
        lemma_lit_at_index(s, jv, enc_int(n), 0);
        if n >= 0 {
            lemma_dec_digits_facts(n);
            assert(is_digit(enc_int(n)[0]));
        } else {
            lemma_dec_digits_facts(-n);
            assert(enc_int(n)[0] == '-');
        }
    }
    lemma_skip_ws_here(s, jv);
    lemma_skip_ws_here(s, end);
}

/// One string field — the identifier or the file reference.
#[verifier::rlimit(100)]
#[verifier::spinoff_prover]
proof fn lemma_rt_step_string(
    s: Seq<char>,
    i: int,
    key: Seq<char>,
    x: Seq<char>,
    rest: Seq<char>,
    p: crate::json::PartialItem,
    fuel: nat,
)
    requires
        key == "id"@ || key == "fi"@,
        lit_at(s, i, enc_string(key) + seq![':'] + enc_string(x) + rest),
        rest.len() >= 1,
        rest[0] == ',' || rest[0] == '}',
        fuel >= 1,
        (key == "id"@ ==> p.id is None),
        (key == "fi"@ ==> p.fi is None),
    ensures
        ({
            let end = i + enc_string(key).len() + 1 + enc_string(x).len();
            let p2 = if key == "id"@ {
                crate::json::PartialItem { id: Some(x), ..p }
            } else {
                crate::json::PartialItem { fi: Some(x), ..p }
            };
            crate::json::parse_item_fields(s, i, p, fuel) == fields_after(s, end, p2, fuel)
        }),
{
    lemma_key_facts();
    reveal_strlit("id");
    reveal_strlit("fi");
    reveal_strlit("\"id\"");
    reveal_strlit("\"fi\"");
    assert(enc_string(key) + seq![':'] + enc_string(x) + rest =~= enc_string(key) + (seq![':'] + (
    enc_string(x) + rest)));
    lemma_lit_at_split(s, i, enc_string(key), seq![':'] + (enc_string(x) + rest));
    lemma_rt_string(s, i, key);
    let jc = i + enc_string(key).len();
    lemma_lit_at_split(s, jc, seq![':'], enc_string(x) + rest);
    lemma_lit_at_index(s, jc, seq![':'], 0);
    let jv = jc + 1;
    lemma_lit_at_split(s, jv, enc_string(x), rest);
    lemma_lit_at_index(s, jv, enc_string(x), 0);
    lemma_rt_string(s, jv, x);
    let end = jv + enc_string(x).len();
    lemma_lit_at_index(s, end, rest, 0);
    lemma_skip_ws_here(s, jc);
    lemma_skip_ws_here(s, jv);
    lemma_skip_ws_here(s, end);
    if key == "id"@ {
        assert(key != "fi"@);
    } else {
        assert(key != "id"@);
    }
}

/// The media-kind field.
proof fn lemma_rt_step_tp(
    s: Seq<char>,
    i: int,
    ty: crate::types::EntityType,
    rest: Seq<char>,
    p: crate::json::PartialItem,
    fuel: nat,
)
    requires
        lit_at(
            s,
            i,
            enc_string("tp"@) + seq![':'] + enc_string(crate::json::kind_name(ty)) + rest,
        ),
        rest.len() >= 1,
        rest[0] == ',' || rest[0] == '}',
        fuel >= 1,
        p.tp is None,
    ensures
        ({
            let end = i + enc_string("tp"@).len() + 1 + enc_string(crate::json::kind_name(ty)).len();
            let p2 = crate::json::PartialItem { tp: Some(ty), ..p };
            crate::json::parse_item_fields(s, i, p, fuel) == fields_after(s, end, p2, fuel)
        }),
{
    lemma_key_facts();
    lemma_kind_name_facts(ty);
    reveal_strlit("id");
    reveal_strlit("fi");
    reveal_strlit("tp");
    reveal_strlit("\"tp\"");
    let name = crate::json::kind_name(ty);
    assert(enc_string("tp"@) + seq![':'] + enc_string(name) + rest =~= enc_string("tp"@) + (seq![
        ':'] + (enc_string(name) + rest)));
    lemma_lit_at_split(s, i, enc_string("tp"@), seq![':'] + (enc_string(name) + rest));
    lemma_rt_string(s, i, "tp"@);
    let jc = i + enc_string("tp"@).len();
    lemma_lit_at_split(s, jc, seq![':'], enc_string(name) + rest);
    lemma_lit_at_index(s, jc, seq![':'], 0);
    let jv = jc + 1;
    lemma_lit_at_split(s, jv, enc_string(name), rest);
    lemma_lit_at_index(s, jv, enc_string(name), 0);
    lemma_rt_string(s, jv, name);
    let end = jv + enc_string(name).len();
    lemma_lit_at_index(s, end, rest, 0);
    lemma_skip_ws_here(s, jc);
    lemma_skip_ws_here(s, jv);
    lemma_skip_ws_here(s, end);
    assert("tp"@ != "id"@ && "tp"@ != "fi"@);
}

/// The tag-list field.
proof fn lemma_rt_step_tags(
    s: Seq<char>,
    i: int,
    tags: Seq<Seq<char>>,
    rest: Seq<char>,
    p: crate::json::PartialItem,
    fuel: nat,
)
    requires
        lit_at(s, i, enc_string("t"@) + seq![':'] + enc_tags(tags) + rest),
        rest.len() >= 1,
        rest[0] == ',' || rest[0] == '}',
        fuel >= tags.len() + 2,
        p.t is None,
    ensures
        ({
            let end = i + enc_string("t"@).len() + 1 + enc_tags(tags).len();
            let p2 = crate::json::PartialItem { t: Some(tags), ..p };
            crate::json::parse_item_fields(s, i, p, fuel) == fields_after(s, end, p2, fuel)
        }),
{
    lemma_key_facts();
    reveal_strlit("id");
    reveal_strlit("fi");
    reveal_strlit("tp");
    reveal_strlit("t");
    reveal_strlit("\"t\"");
    assert(enc_string("t"@) + seq![':'] + enc_tags(tags) + rest =~= enc_string("t"@) + (seq![':']
        + (enc_tags(tags) + rest)));
    lemma_lit_at_split(s, i, enc_string("t"@), seq![':'] + (enc_tags(tags) + rest));
    lemma_rt_string(s, i, "t"@);
    let jc = i + enc_string("t"@).len();
    lemma_lit_at_split(s, jc, seq![':'], enc_tags(tags) + rest);
    lemma_lit_at_index(s, jc, seq![':'], 0);
    let jv = jc + 1;
    lemma_lit_at_split(s, jv, enc_tags(tags), rest);
    lemma_lit_at_index(s, jv, enc_tags(tags), 0);
    lemma_rt_tags(s, jv, tags, (fuel - 1) as nat);
    let end = jv + enc_tags(tags).len();
    lemma_lit_at_index(s, end, rest, 0);
    lemma_skip_ws_here(s, jc);
    lemma_skip_ws_here(s, jv);
    lemma_skip_ws_here(s, end);
    assert("t"@ != "id"@ && "t"@ != "fi"@ && "t"@ != "tp"@);
}

/// Parsing the record the encoder wrote gives back the record.
#[verifier::rlimit(100)]
pub proof fn lemma_rt_item(s: Seq<char>, i: int, it: crate::json::ItemV, fuel: nat)
    requires
        i64::MIN <= it.count <= i64::MAX,
        i64::MIN <= it.last_used <= i64::MAX,
        i64::MIN <= it.created_at <= i64::MAX,
        lit_at(s, i, crate::json::enc_item(it)),
        fuel >= it.tags.len() + 9,
    ensures
        crate::json::parse_item(s, i, fuel) == Some((it, i + crate::json::enc_item(it).len())),
{
    lemma_key_facts();
    lemma_kind_name_facts(it.entity_type);
    reveal_strlit("{\"id\":");
    reveal_strlit(",\"fi\":");
    reveal_strlit(",\"tp\":");
    reveal_strlit(",\"t\":");
    reveal_strlit(",\"c\":");
    reveal_strlit(",\"lu\":");
    reveal_strlit(",\"ca\":");
    reveal_strlit("}");
    reveal_strlit("\"id\"");
    reveal_strlit("\"fi\"");
    reveal_strlit("\"tp\"");
    reveal_strlit("\"t\"");
    reveal_strlit("\"c\"");
    reveal_strlit("\"lu\"");
    reveal_strlit("\"ca\"");
    reveal_strlit("id");
    reveal_strlit("fi");
    reveal_strlit("tp");
    reveal_strlit("t");
    reveal_strlit("c");
    reveal_strlit("lu");
    reveal_strlit("ca");
    let name = crate::json::kind_name(it.entity_type);
    let c7 = enc_string("ca"@) + seq![':'] + enc_int(it.created_at) + seq!['}'];
    let r6 = seq![','] + c7;
    let c6 = enc_string("lu"@) + seq![':'] + enc_int(it.last_used) + r6;
    let r5 = seq![','] + c6;
    let c5 = enc_string("c"@) + seq![':'] + enc_int(it.count) + r5;
    let r4 = seq![','] + c5;
    let c4 = enc_string("t"@) + seq![':'] + enc_tags(it.tags) + r4;
    let r3 = seq![','] + c4;
    let c3 = enc_string("tp"@) + seq![':'] + enc_string(name) + r3;
    let r2 = seq![','] + c3;
    let c2 = enc_string("fi"@) + seq![':'] + enc_string(it.file_id) + r2;
    let r1 = seq![','] + c2;
    let c1 = enc_string("id"@) + seq![':'] + enc_string(it.entity_id) + r1;
    assert(crate::json::enc_item(it) =~= seq!['{'] + c1);
    lemma_lit_at_split(s, i, seq!['{'], c1);
    lemma_lit_at_index(s, i, seq!['{'], 0);
    assert(s[i] == '{');
    let k1 = i + 1;
    lemma_lit_at_index(s, k1, c1, 0);
    lemma_skip_ws_here(s, k1);
    // identifier
    assert(r1[0] == ',');
    lemma_rt_step_string(s, k1, "id"@, it.entity_id, r1, crate::json::no_parts(), fuel);
    let p1 = crate::json::PartialItem { id: Some(it.entity_id), ..crate::json::no_parts() };
    let e1 = k1 + enc_string("id"@).len() + 1 + enc_string(it.entity_id).len();
    assert(c1 =~= (enc_string("id"@) + seq![':'] + enc_string(it.entity_id)) + r1);
    lemma_lit_at_split(s, k1, enc_string("id"@) + seq![':'] + enc_string(it.entity_id), r1);
    assert(lit_at(s, e1, r1));
    lemma_lit_at_index(s, e1, r1, 0);
    assert(s[e1] == ',');
    lemma_lit_at_split(s, e1, seq![','], c2);
    let k2 = e1 + 1;
    lemma_lit_at_index(s, k2, c2, 0);
    lemma_skip_ws_here(s, k2);
    // file reference
    assert(r2[0] == ',');
    lemma_rt_step_string(s, k2, "fi"@, it.file_id, r2, p1, (fuel - 1) as nat);
    let p2 = crate::json::PartialItem { fi: Some(it.file_id), ..p1 };
    let e2 = k2 + enc_string("fi"@).len() + 1 + enc_string(it.file_id).len();
    assert(c2 =~= (enc_string("fi"@) + seq![':'] + enc_string(it.file_id)) + r2);
    lemma_lit_at_split(s, k2, enc_string("fi"@) + seq![':'] + enc_string(it.file_id), r2);
    assert(lit_at(s, e2, r2));
    lemma_lit_at_index(s, e2, r2, 0);
    lemma_lit_at_split(s, e2, seq![','], c3);
    let k3 = e2 + 1;
    lemma_lit_at_index(s, k3, c3, 0);
    lemma_skip_ws_here(s, k3);
    // media kind
    assert(r3[0] == ',');
    lemma_rt_step_tp(s, k3, it.entity_type, r3, p2, (fuel - 2) as nat);
    let p3 = crate::json::PartialItem { tp: Some(it.entity_type), ..p2 };
    let e3 = k3 + enc_string("tp"@).len() + 1 + enc_string(name).len();
    assert(c3 =~= (enc_string("tp"@) + seq![':'] + enc_string(name)) + r3);
    lemma_lit_at_split(s, k3, enc_string("tp"@) + seq![':'] + enc_string(name), r3);
    assert(lit_at(s, e3, r3));
    lemma_lit_at_index(s, e3, r3, 0);
    lemma_lit_at_split(s, e3, seq![','], c4);
    let k4 = e3 + 1;
    lemma_lit_at_index(s, k4, c4, 0);
    lemma_skip_ws_here(s, k4);
    // tags
    assert(r4[0] == ',');
    lemma_rt_step_tags(s, k4, it.tags, r4, p3, (fuel - 3) as nat);
    let p4 = crate::json::PartialItem { t: Some(it.tags), ..p3 };
    let e4 = k4 + enc_string("t"@).len() + 1 + enc_tags(it.tags).len();
    assert(c4 =~= (enc_string("t"@) + seq![':'] + enc_tags(it.tags)) + r4);
    lemma_lit_at_split(s, k4, enc_string("t"@) + seq![':'] + enc_tags(it.tags), r4);
    assert(lit_at(s, e4, r4));
    lemma_lit_at_index(s, e4, r4, 0);
    lemma_lit_at_split(s, e4, seq![','], c5);
    let k5 = e4 + 1;
    lemma_lit_at_index(s, k5, c5, 0);
    lemma_skip_ws_here(s, k5);
    // the three counters
    lemma_rt_item_ints(s, k5, it, p4, (fuel - 4) as nat);
    assert(crate::json::parse_item_fields(s, k1, crate::json::no_parts(), fuel) == Some(
        (it, k5 + c5.len()),
    ));
    assert(k5 + c5.len() == i + crate::json::enc_item(it).len());
}

/// Parse the three counter fields and the record's close.
#[verifier::rlimit(100)]
#[verifier::spinoff_prover]
proof fn lemma_rt_item_ints(
    s: Seq<char>,
    i: int,
    it: crate::json::ItemV,
    p: crate::json::PartialItem,
    fuel: nat,
)
    requires
        i64::MIN <= it.count <= i64::MAX,
        i64::MIN <= it.last_used <= i64::MAX,
        i64::MIN <= it.created_at <= i64::MAX,
        p == (crate::json::PartialItem {
            id: Some(it.entity_id),
            fi: Some(it.file_id),
            tp: Some(it.entity_type),
            t: Some(it.tags),
            c: None,
            lu: None,
            ca: None,
        }),
        lit_at(
            s,
            i,
            enc_string("c"@) + seq![':'] + enc_int(it.count) + (seq![','] + (enc_string("lu"@)
                + seq![':'] + enc_int(it.last_used) + (seq![','] + (enc_string("ca"@) + seq![':']
                + enc_int(it.created_at) + seq!['}'])))),
        ),
        fuel >= 3,
    ensures
        ({
            let total = enc_string("c"@).len() + 1 + enc_int(it.count).len() + 1 + enc_string(
                "lu"@,
            ).len() + 1 + enc_int(it.last_used).len() + 1 + enc_string("ca"@).len() + 1 + enc_int(
                it.created_at,
            ).len() + 1;
            crate::json::parse_item_fields(s, i, p, fuel) == Some((it, i + total))
        }),
{
    reveal_strlit("c");
    reveal_strlit("lu");
    reveal_strlit("ca");
    let c7 = enc_string("ca"@) + seq![':'] + enc_int(it.created_at) + seq!['}'];
    let r6 = seq![','] + c7;
    let c6 = enc_string("lu"@) + seq![':'] + enc_int(it.last_used) + r6;
    let r5 = seq![','] + c6;
    let c5 = enc_string("c"@) + seq![':'] + enc_int(it.count) + r5;
    assert(lit_at(s, i, c5)) by {
        assert(c5 =~= enc_string("c"@) + seq![':'] + enc_int(it.count) + (seq![','] + (enc_string(
            "lu"@,
        ) + seq![':'] + enc_int(it.last_used) + (seq![','] + (enc_string("ca"@) + seq![':']
            + enc_int(it.created_at) + seq!['}'])))));
    }
    let k5 = i;
    let p4 = p;
    assert(r5[0] == ',');
    lemma_rt_step_int(s, k5, "c"@, it.count, r5, p4, fuel);
    let p5 = crate::json::PartialItem { c: Some(it.count), ..p4 };
    let e5 = k5 + enc_string("c"@).len() + 1 + enc_int(it.count).len();
    assert(c5 =~= (enc_string("c"@) + seq![':'] + enc_int(it.count)) + r5);
    lemma_lit_at_split(s, k5, enc_string("c"@) + seq![':'] + enc_int(it.count), r5);
    assert(lit_at(s, e5, r5));
    lemma_lit_at_index(s, e5, r5, 0);
    lemma_lit_at_split(s, e5, seq![','], c6);
    let k6 = e5 + 1;
    lemma_lit_at_index(s, k6, c6, 0);
    lemma_skip_ws_here(s, k6);
    // last-used time
    assert(r6[0] == ',');
    lemma_rt_step_int(s, k6, "lu"@, it.last_used, r6, p5, (fuel - 1) as nat);
    let p6 = crate::json::PartialItem { lu: Some(it.last_used), ..p5 };
    let e6 = k6 + enc_string("lu"@).len() + 1 + enc_int(it.last_used).len();
    assert(c6 =~= (enc_string("lu"@) + seq![':'] + enc_int(it.last_used)) + r6);
    lemma_lit_at_split(s, k6, enc_string("lu"@) + seq![':'] + enc_int(it.last_used), r6);
    assert(lit_at(s, e6, r6));
    lemma_lit_at_index(s, e6, r6, 0);
    lemma_lit_at_split(s, e6, seq![','], c7);
    let k7 = e6 + 1;
    lemma_lit_at_index(s, k7, c7, 0);
    lemma_skip_ws_here(s, k7);
    // creation time, then the close
    assert(seq!['}'].len() == 1 && seq!['}'][0] == '}');
    lemma_rt_step_int(s, k7, "ca"@, it.created_at, seq!['}'], p6, (fuel - 2) as nat);
    let p7 = crate::json::PartialItem { ca: Some(it.created_at), ..p6 };
    let e7 = k7 + enc_string("ca"@).len() + 1 + enc_int(it.created_at).len();
    assert(c7 =~= (enc_string("ca"@) + seq![':'] + enc_int(it.created_at)) + seq!['}']);
    lemma_lit_at_split(s, k7, enc_string("ca"@) + seq![':'] + enc_int(it.created_at), seq!['}']);
    lemma_lit_at_index(s, e7, seq!['}'], 0);
    assert(s[e7] == '}');
    assert(crate::json::item_of_parts(p7) == Some(it)) by {
        assert(crate::json::item_of_parts(p7)->0 =~~= it);
    }
    assert(crate::json::parse_item_fields(s, i, p, fuel) == Some((it, e7 + 1)));
}
/// A record's text begins with its open brace.
proof fn lemma_enc_item_first(it: crate::json::ItemV)
    ensures
        crate::json::enc_item(it).len() >= it.tags.len() + 10,
        crate::json::enc_item(it)[0] == '{',
{
    reveal_strlit("{\"id\":");
    lemma_enc_tags_len(it.tags);
    lemma_dec_digits_facts_nonneg(it.count);
    lemma_dec_digits_facts_nonneg(it.last_used);
    lemma_dec_digits_facts_nonneg(it.created_at);
    assert(crate::json::enc_item(it)[0] == "{\"id\":"@[0]);
}

/// Integers always encode to at least one character.
proof fn lemma_dec_digits_facts_nonneg(n: int)
    ensures
        enc_int(n).len() >= 1,
{
    if n >= 0 {
        lemma_dec_digits_facts(n);
    } else {
        lemma_dec_digits_facts(-n);
    }
}

/// The tag array's text is at least as long as the tag count, plus its
/// brackets.
proof fn lemma_enc_tags_len(tags: Seq<Seq<char>>)
    ensures
        enc_tags(tags).len() >= tags.len() + 2,
    decreases tags.len(),
{
    if tags.len() == 0 {
    } else if tags.len() == 1 {
    } else {
        lemma_enc_tags_len(tags.drop_first());
    }
}

/// The payload's text after its first record.
pub open spec fn enc_items_tail(rest: Seq<crate::json::ItemV>) -> Seq<char>
    decreases rest.len(),
{
    if rest.len() == 0 {
        seq![']']
    } else {
        seq![','] + crate::json::enc_item(rest[0]) + enc_items_tail(rest.drop_first())
    }
}

/// The payload's body and close decompose around the first record.
proof fn lemma_items_body_tail(items: Seq<crate::json::ItemV>)
    requires
        items.len() >= 1,
    ensures
        crate::json::enc_items_body(items) + seq![']'] == crate::json::enc_item(items[0])
            + enc_items_tail(items.drop_first()),
    decreases items.len(),
{
    if items.len() == 1 {
        assert(crate::json::enc_items_body(items) + seq![']'] =~= crate::json::enc_item(items[0])
            + enc_items_tail(items.drop_first()));
    } else {
        let rest = items.drop_first();
        lemma_items_body_tail(rest);
        assert(crate::json::enc_items_body(items) + seq![']'] =~= crate::json::enc_item(items[0])
            + (seq![','] + (crate::json::enc_items_body(rest) + seq![']'])));
        assert(seq![','] + (crate::json::enc_items_body(rest) + seq![']']) =~= seq![','] + (
        crate::json::enc_item(rest[0]) + enc_items_tail(rest.drop_first())));
        assert(seq![','] + (crate::json::enc_item(rest[0]) + enc_items_tail(rest.drop_first()))
            =~= enc_items_tail(rest));
        assert(crate::json::enc_item(items[0]) + (seq![','] + (crate::json::enc_items_body(rest)
            + seq![']'])) =~= crate::json::enc_item(items[0]) + enc_items_tail(rest));
    }
}

/// Fuel enough to parse a record list: each record costs one, plus its tags.
pub open spec fn items_need(items: Seq<crate::json::ItemV>) -> int
    decreases items.len(),
{
    if items.len() == 0 {
        1
    } else {
        let rest = items_need(items.drop_first()) + 1;
        let own = items[0].tags.len() as int + 9;
        if rest > own {
            rest
        } else {
            own
        }
    }
}

/// The text itself is always fuel enough.
proof fn lemma_items_need_le(items: Seq<crate::json::ItemV>)
    ensures
        items_need(items) <= enc_items_tail(items).len() + 8,
    decreases items.len(),
{
    if items.len() > 0 {
        lemma_items_need_le(items.drop_first());
        lemma_enc_item_first(items[0]);
    }
}

/// Every record's counters fit their machine words.
pub open spec fn items_bounded(items: Seq<crate::json::ItemV>) -> bool {
    forall|k: int|
        0 <= k < items.len() ==> i64::MIN <= (#[trigger] items[k]).count <= i64::MAX && i64::MIN
            <= items[k].last_used <= i64::MAX && i64::MIN <= items[k].created_at <= i64::MAX
}

/// Parsing the tail of the record list collects the remaining records.
proof fn lemma_rt_items_tail(
    s: Seq<char>,
    i: int,
    rest: Seq<crate::json::ItemV>,
    acc: Seq<crate::json::ItemV>,
    fuel: nat,
)
    requires
        lit_at(s, i, enc_items_tail(rest)),
        fuel >= items_need(rest),
        items_bounded(rest),
    ensures
        crate::json::parse_items_tail(s, i, acc, fuel) == Some(
            (acc + rest, i + enc_items_tail(rest).len()),
        ),
    decreases rest.len(),
{
    if rest.len() == 0 {
        lemma_lit_at_index(s, i, enc_items_tail(rest), 0);
        assert(s[i] == ']');
        assert(acc + rest =~= acc);
    } else {
        let it0 = rest[0];
        let tail = enc_items_tail(rest.drop_first());
        assert(enc_items_tail(rest) =~= seq![','] + (crate::json::enc_item(it0) + tail));
        lemma_lit_at_split(s, i, seq![','], crate::json::enc_item(it0) + tail);
        lemma_lit_at_index(s, i, seq![','], 0);
        assert(s[i] == ',');
        lemma_lit_at_split(s, i + 1, crate::json::enc_item(it0), tail);
        lemma_enc_item_first(it0);
        lemma_lit_at_index(s, i + 1, crate::json::enc_item(it0), 0);
        assert(s[i + 1] == '{');
        lemma_skip_ws_here(s, i + 1);
        assert(items_bounded(rest.drop_first()) && i64::MIN <= it0.count <= i64::MAX && i64::MIN
            <= it0.last_used <= i64::MAX && i64::MIN <= it0.created_at <= i64::MAX) by {
            assert(rest[0] == it0);
            assert forall|k: int|
                0 <= k < rest.drop_first().len() implies i64::MIN <= (#[trigger] rest.drop_first()[
                k]).count <= i64::MAX && i64::MIN <= rest.drop_first()[k].last_used <= i64::MAX
                && i64::MIN <= rest.drop_first()[k].created_at <= i64::MAX by {
                assert(rest.drop_first()[k] == rest[k + 1]);
            }
        }
        lemma_rt_item(s, i + 1, it0, fuel);
        let j = i + 1 + crate::json::enc_item(it0).len();
        if rest.drop_first().len() == 0 {
            lemma_lit_at_index(s, j, tail, 0);
        } else {
            lemma_lit_at_index(s, j, tail, 0);
        }
        lemma_skip_ws_here(s, j);
        lemma_rt_items_tail(s, j, rest.drop_first(), acc.push(it0), (fuel - 1) as nat);
        assert(acc.push(it0) + rest.drop_first() =~= acc + rest);
    }
}

/// Parsing the whole payload the encoder wrote gives back exactly the
/// records it was given: the wire format round-trips.
#[verifier::rlimit(100)]
pub proof fn lemma_rt_export(items: Seq<crate::json::ItemV>)
    requires
        items_bounded(items),
    ensures
        crate::json::parse_export(crate::json::enc_items(items)) == Some(items),
{
    let s = crate::json::enc_items(items);
    assert(s =~= seq!['['] + (crate::json::enc_items_body(items) + seq![']']));
    assert(s[0] == '[');
    lemma_skip_ws_here(s, 0);
    let fuel = (s.len() + 2) as nat;
    if items.len() == 0 {
        assert(s =~= seq!['[', ']']);
        assert(s[1] == ']');
        lemma_skip_ws_here(s, 1);
        lemma_skip_ws_here(s, 2);
        assert(Seq::<crate::json::ItemV>::empty() =~= items);
    } else {
        lemma_items_body_tail(items);
        let it0 = items[0];
        let tail = enc_items_tail(items.drop_first());
        assert(s =~= seq!['['] + (crate::json::enc_item(it0) + tail));
        assert(lit_at(s, 0, seq!['['] + (crate::json::enc_item(it0) + tail))) by {
            assert(s.subrange(0, s.len() as int) =~= s);
        }
        lemma_lit_at_split(s, 0, seq!['['], crate::json::enc_item(it0) + tail);
        lemma_lit_at_split(s, 1, crate::json::enc_item(it0), tail);
        lemma_enc_item_first(it0);
        lemma_lit_at_index(s, 1, crate::json::enc_item(it0), 0);
        assert(s[1] == '{');
        assert(s[1] != ']');
        lemma_skip_ws_here(s, 1);
        assert(items_bounded(items.drop_first()) && i64::MIN <= it0.count <= i64::MAX && i64::MIN
            <= it0.last_used <= i64::MAX && i64::MIN <= it0.created_at <= i64::MAX) by {
            assert(items[0] == it0);
            assert forall|k: int|
                0 <= k < items.drop_first().len() implies i64::MIN <= (
                #[trigger] items.drop_first()[k]).count <= i64::MAX && i64::MIN
                <= items.drop_first()[k].last_used <= i64::MAX && i64::MIN <= items.drop_first()[
                k].created_at <= i64::MAX by {
                assert(items.drop_first()[k] == items[k + 1]);
            }
        }
        assert(fuel >= it0.tags.len() + 9 && fuel - 1 >= items_need(items.drop_first())) by {
            lemma_items_need_le(items.drop_first());
            assert(s.len() == 1 + crate::json::enc_item(it0).len() + tail.len());
            lemma_enc_item_first(it0);
        }
        lemma_rt_item(s, 1, it0, fuel);
        let j: int = 1 + crate::json::enc_item(it0).len() as int;
        if items.drop_first().len() == 0 {
            lemma_lit_at_index(s, j, tail, 0);
        } else {
            lemma_lit_at_index(s, j, tail, 0);
        }
        lemma_skip_ws_here(s, j);
        lemma_rt_items_tail(s, j, items.drop_first(), seq![it0], fuel);
        assert(seq![it0] + items.drop_first() =~= items);
        let end: int = j + tail.len() as int;
        assert(end == s.len());
        lemma_skip_ws_here(s, end);
    }
}

} // verus!
