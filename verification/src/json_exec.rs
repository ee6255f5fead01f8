//! Executable twins of the wire-format parser and encoder. Each function
//! returns exactly what its specification in [`crate::json`] says; the
//! recursions mirror the specifications one for one.

use vstd::prelude::*;
use vstd::string::StrSliceExecFns;

use crate::json::{digit_val, hex_val, is_digit, is_hex, parse_digits, parse_int, parse_string,
    parse_string_rest, skip_digits, skip_ws};

verus! {

/// Relies on char::from_u32: a Unicode scalar value converts to exactly that
/// character; a surrogate or out-of-range code converts to nothing.
#[verifier::external_body]
fn char_from_u32(c: u32) -> (r: Option<char>)
    ensures
        r == (if c < 0xD800 || (0xE000 <= c && c <= 0x10FFFF) {
            Some(c as char)
        } else {
            None::<char>
        }),
{
    char::from_u32(c)
}

/// Move past whitespace.
pub(crate) fn skip_ws_exec(v: &Vec<char>, i: usize) -> (r: usize)
    requires
        i <= v@.len(),
    ensures
        r as int == skip_ws(v@, i as int),
        i <= r <= v@.len(),
{
    let mut j = i;
    while j < v.len() && (v[j] == ' ' || v[j] == '\t' || v[j] == '\n' || v[j] == '\r')
        invariant
            i <= j <= v@.len(),
            skip_ws(v@, i as int) == skip_ws(v@, j as int),
        decreases v@.len() - j,
    {
        j = j + 1;
    }
    j
}

/// The value of a hexadecimal digit.
fn hex_val_exec(c: char) -> (r: u32)
    requires
        is_hex(c),
    ensures
        r as int == hex_val(c),
        r < 16,
{
    let n = c as u32;
    if 48 <= n && n <= 57 {
        n - 48
    } else if 97 <= n && n <= 102 {
        n - 97 + 10
    } else {
        n - 65 + 10
    }
}

/// Parse the rest of a string literal, after its opening quote.
pub(crate) fn parse_string_rest_exec(v: &Vec<char>, i: usize, acc: Vec<char>) -> (r: Option<
    (Vec<char>, usize)>)
    requires
        i <= v@.len(),
    ensures
        ({
            let sp = parse_string_rest(v@, i as int, acc@);
            match r {
                Some(p) => sp == Some((p.0@, p.1 as int)) && p.1 <= v@.len(),
                None => sp is None,
            }
        }),
    decreases v@.len() - i,
{
    let n = v.len();
    if i >= n {
        return None;
    }
    let c = v[i];
    if c == '"' {
        return Some((acc, i + 1));
    }
    if c != '\\' {
        let mut a2 = acc;
        a2.push(c);
        return parse_string_rest_exec(v, i + 1, a2);
    }
    let rem = n - i;
    if rem < 2 {
        return None;
    }
    let e = v[i + 1];
    if e == '"' || e == '\\' || e == '/' {
        let mut a2 = acc;
        a2.push(e);
        return parse_string_rest_exec(v, i + 2, a2);
    }
    if e == 'b' {
        let mut a2 = acc;
        a2.push('\u{0008}');
        return parse_string_rest_exec(v, i + 2, a2);
    }
    if e == 'f' {
        let mut a2 = acc;
        a2.push('\u{000C}');
        return parse_string_rest_exec(v, i + 2, a2);
    }
    if e == 'n' {
        let mut a2 = acc;
        a2.push('\n');
        return parse_string_rest_exec(v, i + 2, a2);
    }
    if e == 'r' {
        let mut a2 = acc;
        a2.push('\r');
        return parse_string_rest_exec(v, i + 2, a2);
    }
    if e == 't' {
        let mut a2 = acc;
        a2.push('\t');
        return parse_string_rest_exec(v, i + 2, a2);
    }
    if e != 'u' {
        return None;
    }
    if rem < 6 {
        return None;
    }
    let h2 = v[i + 2];
    let h3 = v[i + 3];
    let h4 = v[i + 4];
    let h5 = v[i + 5];
    if !(is_hex_exec(h2) && is_hex_exec(h3) && is_hex_exec(h4) && is_hex_exec(h5)) {
        return None;
    }
    let code: u32 = hex_val_exec(h2) * 4096 + hex_val_exec(h3) * 256 + hex_val_exec(h4) * 16
        + hex_val_exec(h5);
    if 0xD800 <= code && code <= 0xDBFF {
        if rem < 12 || v[i + 6] != '\\' || v[i + 7] != 'u' {
            return None;
        }
        let l8 = v[i + 8];
        let l9 = v[i + 9];
        let l10 = v[i + 10];
        let l11 = v[i + 11];
        if !(is_hex_exec(l8) && is_hex_exec(l9) && is_hex_exec(l10) && is_hex_exec(l11)) {
            return None;
        }
        let lo: u32 = hex_val_exec(l8) * 4096 + hex_val_exec(l9) * 256 + hex_val_exec(l10) * 16
            + hex_val_exec(l11);
        if !(0xDC00 <= lo && lo <= 0xDFFF) {
            return None;
        }
        let combined: u32 = 0x10000 + (code - 0xD800) * 1024 + (lo - 0xDC00);
        match char_from_u32(combined) {
            Some(ch) => {
                let mut a2 = acc;
                a2.push(ch);
                parse_string_rest_exec(v, i + 12, a2)
            },
            None => {
                proof {
                    assert(false);
                }
                None
            },
        }
    } else if 0xDC00 <= code && code <= 0xDFFF {
        None
    } else {
        match char_from_u32(code) {
            Some(ch) => {
                let mut a2 = acc;
                a2.push(ch);
                parse_string_rest_exec(v, i + 6, a2)
            },
            None => {
                proof {
                    assert(false);
                }
                None
            },
        }
    }
}

/// A hexadecimal digit — executable.
fn is_hex_exec(c: char) -> (r: bool)
    ensures
        r == is_hex(c),
{
    ('0' <= c && c <= '9') || ('a' <= c && c <= 'f') || ('A' <= c && c <= 'F')
}

/// A decimal digit — executable.
fn is_digit_exec(c: char) -> (r: bool)
    ensures
        r == is_digit(c),
{
    '0' <= c && c <= '9'
}

/// Parse a string literal at `i`.
pub(crate) fn parse_string_exec(v: &Vec<char>, i: usize) -> (r: Option<(Vec<char>, usize)>)
    requires
        i <= v@.len(),
    ensures
        ({
            let sp = parse_string(v@, i as int);
            match r {
                Some(p) => sp == Some((p.0@, p.1 as int)) && p.1 <= v@.len(),
                None => sp is None,
            }
        }),
{
    if i < v.len() && v[i] == '"' {
        let acc: Vec<char> = Vec::new();
        proof {
            assert(acc@ =~= Seq::<char>::empty());
        }
        parse_string_rest_exec(v, i + 1, acc)
    } else {
        None
    }
}

/// Digits never shrink the value they fold onto.
proof fn lemma_parse_digits_lb(s: Seq<char>, i: int, acc: int)
    requires
        acc >= 0,
    ensures
        parse_digits(s, i, acc).0 >= acc,
        parse_digits(s, i, acc).1 >= i,
    decreases s.len() - i,
{
    if 0 <= i < s.len() && is_digit(s[i]) {
        lemma_parse_digits_lb(s, i + 1, acc * 10 + digit_val(s[i]));
    }
}

/// Move past digits.
fn skip_digits_exec(v: &Vec<char>, i: usize) -> (r: usize)
    requires
        i <= v@.len(),
    ensures
        r as int == skip_digits(v@, i as int),
        i <= r <= v@.len(),
{
    let mut j = i;
    while j < v.len() && v[j] >= '0' && v[j] <= '9'
        invariant
            i <= j <= v@.len(),
            skip_digits(v@, i as int) == skip_digits(v@, j as int),
        decreases v@.len() - j,
    {
        j = j + 1;
    }
    j
}

/// Parse a JSON integer at `i` into an i64.
pub(crate) fn parse_int_exec(v: &Vec<char>, i: usize) -> (r: Option<(i64, usize)>)
    requires
        i <= v@.len(),
    ensures
        ({
            let sp = parse_int(v@, i as int);
            match r {
                Some(p) => sp == Some((p.0 as int, p.1 as int)) && p.1 <= v@.len(),
                None => sp is None,
            }
        }),
{
    let n = v.len();
    if i >= n {
        return None;
    }
    let neg = v[i] == '-';
    let d = if neg {
        i + 1
    } else {
        i
    };
    if d >= n || !is_digit_exec(v[d]) {
        return None;
    }
    let mut acc: i128 = 0;
    let mut j = d;
    let mut over = false;
    let ghost mut gacc: int = 0;
    let bound: i128 = 9223372036854775808i128;
    while j < n && v[j] >= '0' && v[j] <= '9'
        invariant
            d <= j <= n,
            n == v@.len(),
            parse_digits(v@, d as int, 0) == parse_digits(v@, j as int, gacc),
            !over ==> acc as int == gacc && 0 <= acc <= bound,
            over ==> gacc > bound as int,
            gacc >= 0,
        decreases n - j,
    {
        let c = v[j];
        let dv: i128 = (c as u32 - 48) as i128;
        proof {
            assert(dv as int == digit_val(c));
            gacc = gacc * 10 + digit_val(c);
        }
        if !over {
            if acc > bound / 10 || acc * 10 > bound - dv {
                over = true;
                proof {
                    assert(gacc > bound as int);
                }
            } else {
                acc = acc * 10 + dv;
            }
        } else {
            proof {
                assert(gacc > bound as int);
            }
        }
        j = j + 1;
    }
    proof {
        assert(parse_digits(v@, j as int, gacc) == (gacc, j as int));
        if over {
            lemma_parse_digits_lb(v@, j as int, gacc);
        }
    }
    if j < n && (v[j] == '.' || v[j] == 'e' || v[j] == 'E') {
        return None;
    }
    if over {
        return None;
    }
    if neg {
        if acc > bound {
            return None;
        }
        let m: i64 = if acc == bound {
            i64::MIN
        } else {
            -(acc as i64)
        };
        Some((m, j))
    } else {
        if acc > bound - 1 {
            return None;
        }
        Some((acc as i64, j))
    }
}

/// Are these characters exactly this literal?
fn chars_is(v: &Vec<char>, lit: &str) -> (r: bool)
    ensures
        r == (v@ == lit@),
{
    let n = lit.unicode_len();
    if v.len() != n {
        proof {
            assert(v@.len() != lit@.len());
        }
        return false;
    }
    for i in 0..n
        invariant
            n == lit@.len(),
            n == v@.len(),
            forall|j: int| 0 <= j < i ==> v@[j] == lit@[j],
    {
        if v[i] != lit.get_char(i) {
            return false;
        }
    }
    proof {
        assert(v@ =~= lit@);
    }
    true
}

/// Skip any JSON value.
pub(crate) fn skip_value_exec(v: &Vec<char>, i: usize, fuel: u128) -> (r: Option<usize>)
    requires
        i <= v@.len(),
    ensures
        ({
            let sp = crate::json::skip_value(v@, i as int, fuel as nat);
            match r {
                Some(j) => sp == Some(j as int) && j <= v@.len(),
                None => sp is None,
            }
        }),
    decreases fuel,
{
    let n = v.len();
    if fuel == 0 || i >= n {
        return None;
    }
    let c = v[i];
    if c == '"' {
        match parse_string_exec(v, i) {
            Some(p) => Some(p.1),
            None => None,
        }
    } else if c == '-' || ('0' <= c && c <= '9') {
        skip_number_exec(v, i)
    } else if c == 't' {
        if n - i >= 4 && v[i + 1] == 'r' && v[i + 2] == 'u' && v[i + 3] == 'e' {
            proof {
                reveal_strlit("true");
                assert(v@.subrange(i as int, i + 4) =~= "true"@);
            }
            Some(i + 4)
        } else {
            proof {
                reveal_strlit("true");
                if crate::json::match_lit(v@, i as int, "true"@) {
                    assert(v@.subrange(i as int, i + 4)[1] == v@[i + 1]);
                    assert(v@.subrange(i as int, i + 4)[2] == v@[i + 2]);
                    assert(v@.subrange(i as int, i + 4)[3] == v@[i + 3]);
                }
            }
            None
        }
    } else if c == 'f' {
        if n - i >= 5 && v[i + 1] == 'a' && v[i + 2] == 'l' && v[i + 3] == 's' && v[i + 4] == 'e' {
            proof {
                reveal_strlit("false");
                assert(v@.subrange(i as int, i + 5) =~= "false"@);
            }
            Some(i + 5)
        } else {
            proof {
                reveal_strlit("false");
                if crate::json::match_lit(v@, i as int, "false"@) {
                    assert(v@.subrange(i as int, i + 5)[1] == v@[i + 1]);
                    assert(v@.subrange(i as int, i + 5)[2] == v@[i + 2]);
                    assert(v@.subrange(i as int, i + 5)[3] == v@[i + 3]);
                    assert(v@.subrange(i as int, i + 5)[4] == v@[i + 4]);
                }
            }
            None
        }
    } else if c == 'n' {
        if n - i >= 4 && v[i + 1] == 'u' && v[i + 2] == 'l' && v[i + 3] == 'l' {
            proof {
                reveal_strlit("null");
                assert(v@.subrange(i as int, i + 4) =~= "null"@);
            }
            Some(i + 4)
        } else {
            proof {
                reveal_strlit("null");
                if crate::json::match_lit(v@, i as int, "null"@) {
                    assert(v@.subrange(i as int, i + 4)[1] == v@[i + 1]);
                    assert(v@.subrange(i as int, i + 4)[2] == v@[i + 2]);
                    assert(v@.subrange(i as int, i + 4)[3] == v@[i + 3]);
                }
            }
            None
        }
    } else if c == '[' {
        let j = skip_ws_exec(v, i + 1);
        if j < n && v[j] == ']' {
            Some(j + 1)
        } else {
            match skip_value_exec(v, j, fuel - 1) {
                Some(k) => skip_array_tail_exec(v, skip_ws_exec(v, k), fuel - 1),
                None => None,
            }
        }
    } else if c == '{' {
        let j = skip_ws_exec(v, i + 1);
        if j < n && v[j] == '}' {
            Some(j + 1)
        } else {
            skip_object_fields_exec(v, j, fuel - 1)
        }
    } else {
        None
    }
}

/// Skip a number token.
fn skip_number_exec(v: &Vec<char>, i: usize) -> (r: Option<usize>)
    requires
        i <= v@.len(),
    ensures
        ({
            let sp = crate::json::skip_number(v@, i as int);
            match r {
                Some(j) => sp == Some(j as int) && j <= v@.len(),
                None => sp is None,
            }
        }),
{
    let n = v.len();
    if i >= n {
        return None;
    }
    let d = if v[i] == '-' {
        i + 1
    } else {
        i
    };
    if d >= n || !is_digit_exec(v[d]) {
        return None;
    }
    let j = skip_digits_exec(v, d);
    let k: usize = if j < n && v[j] == '.' {
        if j + 1 < n && is_digit_exec(v[j + 1]) {
            skip_digits_exec(v, j + 1)
        } else {
            return None;
        }
    } else {
        j
    };
    if k < n && (v[k] == 'e' || v[k] == 'E') {
        let e = if k + 1 < n && (v[k + 1] == '-' || v[k + 1] == '+') {
            k + 2
        } else {
            k + 1
        };
        if e < n && is_digit_exec(v[e]) {
            Some(skip_digits_exec(v, e))
        } else {
            None
        }
    } else {
        Some(k)
    }
}

/// After one skipped array element.
fn skip_array_tail_exec(v: &Vec<char>, i: usize, fuel: u128) -> (r: Option<usize>)
    requires
        i <= v@.len(),
    ensures
        ({
            let sp = crate::json::skip_array_tail(v@, i as int, fuel as nat);
            match r {
                Some(j) => sp == Some(j as int) && j <= v@.len(),
                None => sp is None,
            }
        }),
    decreases fuel,
{
    let n = v.len();
    if fuel == 0 || i >= n {
        return None;
    }
    if v[i] == ']' {
        Some(i + 1)
    } else if v[i] == ',' {
        match skip_value_exec(v, skip_ws_exec(v, i + 1), fuel - 1) {
            Some(k) => skip_array_tail_exec(v, skip_ws_exec(v, k), fuel - 1),
            None => None,
        }
    } else {
        None
    }
}

/// Skip `"key": value` pairs until the object closes.
fn skip_object_fields_exec(v: &Vec<char>, i: usize, fuel: u128) -> (r: Option<usize>)
    requires
        i <= v@.len(),
    ensures
        ({
            let sp = crate::json::skip_object_fields(v@, i as int, fuel as nat);
            match r {
                Some(j) => sp == Some(j as int) && j <= v@.len(),
                None => sp is None,
            }
        }),
    decreases fuel,
{
    let n = v.len();
    if fuel == 0 {
        return None;
    }
    match parse_string_exec(v, i) {
        Some(p) => {
            let c = skip_ws_exec(v, p.1);
            if c < n && v[c] == ':' {
                match skip_value_exec(v, skip_ws_exec(v, c + 1), fuel - 1) {
                    Some(k) => {
                        let t = skip_ws_exec(v, k);
                        if t < n && v[t] == '}' {
                            Some(t + 1)
                        } else if t < n && v[t] == ',' {
                            skip_object_fields_exec(v, skip_ws_exec(v, t + 1), fuel - 1)
                        } else {
                            None
                        }
                    },
                    None => None,
                }
            } else {
                None
            }
        },
        None => None,
    }
}

/// Parse a JSON array of strings.
pub(crate) fn parse_string_array_exec(v: &Vec<char>, i: usize, fuel: u128) -> (r: Option<
    (Vec<Vec<char>>, usize)>)
    requires
        i <= v@.len(),
    ensures
        ({
            let sp = crate::json::parse_string_array(v@, i as int, fuel as nat);
            match r {
                Some(p) => sp == Some((p.0@.map_values(|x: Vec<char>| x@), p.1 as int)) && p.1
                    <= v@.len(),
                None => sp is None,
            }
        }),
{
    let n = v.len();
    if !(i < n && v[i] == '[') {
        return None;
    }
    let j = skip_ws_exec(v, i + 1);
    if j < n && v[j] == ']' {
        let out: Vec<Vec<char>> = Vec::new();
        proof {
            assert(out@.map_values(|x: Vec<char>| x@) =~= Seq::<Seq<char>>::empty());
        }
        return Some((out, j + 1));
    }
    match parse_string_exec(v, j) {
        Some(p) => {
            let mut acc: Vec<Vec<char>> = Vec::new();
            let ghost pv = p.0@;
            let k = p.1;
            acc.push(p.0);
            proof {
                assert(acc@.map_values(|x: Vec<char>| x@) =~= seq![pv]);
            }
            parse_string_array_tail_exec(v, skip_ws_exec(v, k), acc, fuel)
        },
        None => None,
    }
}

/// After one string element.
fn parse_string_array_tail_exec(v: &Vec<char>, i: usize, acc: Vec<Vec<char>>, fuel: u128) -> (r:
    Option<(Vec<Vec<char>>, usize)>)
    requires
        i <= v@.len(),
    ensures
        ({
            let sp = crate::json::parse_string_array_tail(
                v@,
                i as int,
                acc@.map_values(|x: Vec<char>| x@),
                fuel as nat,
            );
            match r {
                Some(p) => sp == Some((p.0@.map_values(|x: Vec<char>| x@), p.1 as int)) && p.1
                    <= v@.len(),
                None => sp is None,
            }
        }),
    decreases fuel,
{
    let n = v.len();
    if fuel == 0 || i >= n {
        return None;
    }
    if v[i] == ']' {
        return Some((acc, i + 1));
    }
    if v[i] != ',' {
        return None;
    }
    match parse_string_exec(v, skip_ws_exec(v, i + 1)) {
        Some(p) => {
            let ghost av = acc@.map_values(|x: Vec<char>| x@);
            let ghost pv = p.0@;
            let mut a2 = acc;
            a2.push(p.0);
            proof {
                assert(a2@.map_values(|x: Vec<char>| x@) =~= av.push(pv));
            }
            parse_string_array_tail_exec(v, skip_ws_exec(v, p.1), a2, fuel - 1)
        },
        None => None,
    }
}

/// A record's fields while they come in — executable.
pub struct ItemParts {
    pub id: Option<Vec<char>>,
    pub fi: Option<Vec<char>>,
    pub tp: Option<crate::types::EntityType>,
    pub t: Option<Vec<Vec<char>>>,
    pub c: Option<i64>,
    pub lu: Option<i64>,
    pub ca: Option<i64>,
}

impl View for ItemParts {
    type V = crate::json::PartialItem;

    open spec fn view(&self) -> crate::json::PartialItem {
        crate::json::PartialItem {
            id: match self.id {
                Some(x) => Some(x@),
                None => None,
            },
            fi: match self.fi {
                Some(x) => Some(x@),
                None => None,
            },
            tp: self.tp,
            t: match self.t {
                Some(x) => Some(x@.map_values(|y: Vec<char>| y@)),
                None => None,
            },
            c: match self.c {
                Some(x) => Some(x as int),
                None => None,
            },
            lu: match self.lu {
                Some(x) => Some(x as int),
                None => None,
            },
            ca: match self.ca {
                Some(x) => Some(x as int),
                None => None,
            },
        }
    }
}

/// Build the finished record, converting its pieces to owned strings.
fn finish_item(p: ItemParts) -> (r: Option<crate::types::ImportItem>)
    ensures
        ({
            let sp = crate::json::item_of_parts(p@);
            match r {
                Some(it) => sp == Some(it@),
                None => sp is None,
            }
        }),
{
    match (p.id, p.fi, p.tp, p.t, p.c, p.lu, p.ca) {
        (Some(id), Some(fi), Some(tp), Some(t), Some(c), Some(lu), Some(ca)) => {
            let ghost tv = t@.map_values(|y: Vec<char>| y@);
            let mut tags: Vec<String> = Vec::new();
            let tn = t.len();
            for k in 0..tn
                invariant
                    tn == t@.len(),
                    tv == t@.map_values(|y: Vec<char>| y@),
                    tags@.map_values(|s: String| s@) == tv.take(k as int),
            {
                tags.push(crate::text::chars_to_string(&t[k]));
                proof {
                    crate::seq_util::lemma_take_push(tv, k as int);
                    assert(tags@.map_values(|s: String| s@) =~= tv.take(k as int).push(
                        tv[k as int],
                    ));
                }
            }
            proof {
                crate::seq_util::lemma_take_full(tv);
            }
            let it = crate::types::ImportItem {
                entity_id: crate::text::chars_to_string(&id),
                file_id: crate::text::chars_to_string(&fi),
                entity_type: tp,
                tags,
                count: c,
                last_used: lu,
                created_at: ca,
            };
            proof {
                assert(it@ =~~= crate::json::item_of_parts(p@)->0);
            }
            Some(it)
        },
        _ => None,
    }
}

/// Parse one field's value by its key.
fn parse_item_value_exec(v: &Vec<char>, i: usize, key: &Vec<char>, p: ItemParts, fuel: u128) -> (r:
    Option<(ItemParts, usize)>)
    requires
        i <= v@.len(),
    ensures
        ({
            let sp = crate::json::parse_item_value(v@, i as int, key@, p@, fuel as nat);
            match r {
                Some(q) => sp == Some((q.0@, q.1 as int)) && q.1 <= v@.len(),
                None => sp is None,
            }
        }),
{
    if chars_is(key, "id") {
        if p.id.is_some() {
            return None;
        }
        match parse_string_exec(v, i) {
            Some(q) => Some((ItemParts { id: Some(q.0), ..p }, q.1)),
            None => None,
        }
    } else if chars_is(key, "fi") {
        if p.fi.is_some() {
            return None;
        }
        match parse_string_exec(v, i) {
            Some(q) => Some((ItemParts { fi: Some(q.0), ..p }, q.1)),
            None => None,
        }
    } else if chars_is(key, "tp") {
        if p.tp.is_some() {
            return None;
        }
        match parse_string_exec(v, i) {
            Some(q) => {
                let ty = if chars_is(&q.0, "Sticker") {
                    Some(crate::types::EntityType::Sticker)
                } else if chars_is(&q.0, "Animation") {
                    Some(crate::types::EntityType::Animation)
                } else if chars_is(&q.0, "Photo") {
                    Some(crate::types::EntityType::Photo)
                } else if chars_is(&q.0, "Video") {
                    Some(crate::types::EntityType::Video)
                } else {
                    None
                };
                match ty {
                    Some(t) => Some((ItemParts { tp: Some(t), ..p }, q.1)),
                    None => None,
                }
            },
            None => None,
        }
    } else if chars_is(key, "t") {
        if p.t.is_some() {
            return None;
        }
        match parse_string_array_exec(v, i, fuel) {
            Some(q) => Some((ItemParts { t: Some(q.0), ..p }, q.1)),
            None => None,
        }
    } else if chars_is(key, "c") {
        if p.c.is_some() {
            return None;
        }
        match parse_int_exec(v, i) {
            Some(q) => Some((ItemParts { c: Some(q.0), ..p }, q.1)),
            None => None,
        }
    } else if chars_is(key, "lu") {
        if p.lu.is_some() {
            return None;
        }
        match parse_int_exec(v, i) {
            Some(q) => Some((ItemParts { lu: Some(q.0), ..p }, q.1)),
            None => None,
        }
    } else if chars_is(key, "ca") {
        if p.ca.is_some() {
            return None;
        }
        match parse_int_exec(v, i) {
            Some(q) => Some((ItemParts { ca: Some(q.0), ..p }, q.1)),
            None => None,
        }
    } else {
        match skip_value_exec(v, i, fuel) {
            Some(j) => Some((p, j)),
            None => None,
        }
    }
}

/// Parse `"key": value` pairs until the record closes.
fn parse_item_fields_exec(v: &Vec<char>, i: usize, p: ItemParts, fuel: u128) -> (r: Option<
    (crate::types::ImportItem, usize)>)
    requires
        i <= v@.len(),
    ensures
        ({
            let sp = crate::json::parse_item_fields(v@, i as int, p@, fuel as nat);
            match r {
                Some(q) => sp == Some((q.0@, q.1 as int)) && q.1 <= v@.len(),
                None => sp is None,
            }
        }),
    decreases fuel,
{
    let n = v.len();
    if fuel == 0 {
        return None;
    }
    match parse_string_exec(v, i) {
        Some(kq) => {
            let c = skip_ws_exec(v, kq.1);
            if c < n && v[c] == ':' {
                match parse_item_value_exec(v, skip_ws_exec(v, c + 1), &kq.0, p, fuel - 1) {
                    Some(q) => {
                        let t = skip_ws_exec(v, q.1);
                        if t < n && v[t] == '}' {
                            match finish_item(q.0) {
                                Some(it) => Some((it, t + 1)),
                                None => None,
                            }
                        } else if t < n && v[t] == ',' {
                            parse_item_fields_exec(v, skip_ws_exec(v, t + 1), q.0, fuel - 1)
                        } else {
                            None
                        }
                    },
                    None => None,
                }
            } else {
                None
            }
        },
        None => None,
    }
}

/// Parse one record object.
fn parse_item_exec(v: &Vec<char>, i: usize, fuel: u128) -> (r: Option<
    (crate::types::ImportItem, usize)>)
    requires
        i <= v@.len(),
    ensures
        ({
            let sp = crate::json::parse_item(v@, i as int, fuel as nat);
            match r {
                Some(q) => sp == Some((q.0@, q.1 as int)) && q.1 <= v@.len(),
                None => sp is None,
            }
        }),
{
    if i < v.len() && v[i] == '{' {
        let p = ItemParts { id: None, fi: None, tp: None, t: None, c: None, lu: None, ca: None };
        proof {
            assert(p@ =~= crate::json::no_parts());
        }
        parse_item_fields_exec(v, skip_ws_exec(v, i + 1), p, fuel)
    } else {
        None
    }
}

/// After one record.
fn parse_items_tail_exec(
    v: &Vec<char>,
    i: usize,
    acc: Vec<crate::types::ImportItem>,
    fuel: u128,
) -> (r: Option<(Vec<crate::types::ImportItem>, usize)>)
    requires
        i <= v@.len(),
    ensures
        ({
            let sp = crate::json::parse_items_tail(
                v@,
                i as int,
                acc@.map_values(|x: crate::types::ImportItem| x@),
                fuel as nat,
            );
            match r {
                Some(q) => sp == Some(
                    (q.0@.map_values(|x: crate::types::ImportItem| x@), q.1 as int),
                ) && q.1 <= v@.len(),
                None => sp is None,
            }
        }),
    decreases fuel,
{
    let n = v.len();
    if fuel == 0 || i >= n {
        return None;
    }
    if v[i] == ']' {
        return Some((acc, i + 1));
    }
    if v[i] != ',' {
        return None;
    }
    match parse_item_exec(v, skip_ws_exec(v, i + 1), fuel) {
        Some(q) => {
            let ghost av = acc@.map_values(|x: crate::types::ImportItem| x@);
            let ghost qv = q.0@;
            let mut a2 = acc;
            a2.push(q.0);
            proof {
                assert(a2@.map_values(|x: crate::types::ImportItem| x@) =~= av.push(qv));
            }
            parse_items_tail_exec(v, skip_ws_exec(v, q.1), a2, fuel - 1)
        },
        None => None,
    }
}

/// Parse the whole transfer payload.
pub fn parse_export_exec(v: &Vec<char>) -> (r: Option<Vec<crate::types::ImportItem>>)
    ensures
        ({
            let sp = crate::json::parse_export(v@);
            match r {
                Some(items) => sp == Some(
                    items@.map_values(|x: crate::types::ImportItem| x@),
                ),
                None => sp is None,
            }
        }),
{
    let n = v.len();
    let i = skip_ws_exec(v, 0);
    if !(i < n && v[i] == '[') {
        return None;
    }
    let j = skip_ws_exec(v, i + 1);
    let fuel: u128 = (n as u128) + 2;
    let parsed: Option<(Vec<crate::types::ImportItem>, usize)> = if j < n && v[j] == ']' {
        let out: Vec<crate::types::ImportItem> = Vec::new();
        proof {
            assert(out@.map_values(|x: crate::types::ImportItem| x@) =~= Seq::<
                crate::json::ItemV,
            >::empty());
        }
        Some((out, j + 1))
    } else {
        match parse_item_exec(v, j, fuel) {
            Some(q) => {
                let mut acc: Vec<crate::types::ImportItem> = Vec::new();
                let ghost qv = q.0@;
                let k = q.1;
                acc.push(q.0);
                proof {
                    assert(acc@.map_values(|x: crate::types::ImportItem| x@) =~= seq![qv]);
                }
                parse_items_tail_exec(v, skip_ws_exec(v, k), acc, fuel)
            },
            None => None,
        }
    };
    match parsed {
        Some(q) => {
            let end = skip_ws_exec(v, q.1);
            if end == n {
                Some(q.0)
            } else {
                None
            }
        },
        None => None,
    }
}

/// A third-party record's fields while they come in — executable.
pub struct QsParts {
    pub id: Option<Vec<char>>,
    pub file_id: Option<Vec<char>>,
    pub tags: Option<Vec<Vec<char>>>,
}

impl View for QsParts {
    type V = crate::json::PartialQs;

    open spec fn view(&self) -> crate::json::PartialQs {
        crate::json::PartialQs {
            id: match self.id {
                Some(x) => Some(x@),
                None => None,
            },
            file_id: match self.file_id {
                Some(x) => Some(x@),
                None => None,
            },
            tags: match self.tags {
                Some(x) => Some(x@.map_values(|y: Vec<char>| y@)),
                None => None,
            },
        }
    }
}

/// Build the finished third-party record.
fn finish_qs(p: QsParts) -> (r: Option<crate::types::QSBotImportItem>)
    ensures
        ({
            let sp = crate::json::qs_of_parts(p@);
            match r {
                Some(it) => sp == Some(it@),
                None => sp is None,
            }
        }),
{
    match (p.id, p.file_id, p.tags) {
        (Some(id), Some(fi), Some(t)) => {
            let ghost tv = t@.map_values(|y: Vec<char>| y@);
            let mut tags: Vec<String> = Vec::new();
            let tn = t.len();
            for k in 0..tn
                invariant
                    tn == t@.len(),
                    tv == t@.map_values(|y: Vec<char>| y@),
                    tags@.map_values(|s: String| s@) == tv.take(k as int),
            {
                tags.push(crate::text::chars_to_string(&t[k]));
                proof {
                    crate::seq_util::lemma_take_push(tv, k as int);
                    assert(tags@.map_values(|s: String| s@) =~= tv.take(k as int).push(
                        tv[k as int],
                    ));
                }
            }
            proof {
                crate::seq_util::lemma_take_full(tv);
            }
            let it = crate::types::QSBotImportItem {
                id: crate::text::chars_to_string(&id),
                file_id: crate::text::chars_to_string(&fi),
                tags,
            };
            proof {
                assert(it@ =~~= crate::json::qs_of_parts(p@)->0);
            }
            Some(it)
        },
        _ => None,
    }
}

/// Parse one third-party field's value by its key.
fn parse_qs_value_exec(v: &Vec<char>, i: usize, key: &Vec<char>, p: QsParts, fuel: u128) -> (r:
    Option<(QsParts, usize)>)
    requires
        i <= v@.len(),
    ensures
        ({
            let sp = crate::json::parse_qs_value(v@, i as int, key@, p@, fuel as nat);
            match r {
                Some(q) => sp == Some((q.0@, q.1 as int)) && q.1 <= v@.len(),
                None => sp is None,
            }
        }),
{
    if chars_is(key, "id") {
        if p.id.is_some() {
            return None;
        }
        match parse_string_exec(v, i) {
            Some(q) => Some((QsParts { id: Some(q.0), ..p }, q.1)),
            None => None,
        }
    } else if chars_is(key, "fileId") {
        if p.file_id.is_some() {
            return None;
        }
        match parse_string_exec(v, i) {
            Some(q) => Some((QsParts { file_id: Some(q.0), ..p }, q.1)),
            None => None,
        }
    } else if chars_is(key, "tags") {
        if p.tags.is_some() {
            return None;
        }
        match parse_string_array_exec(v, i, fuel) {
            Some(q) => Some((QsParts { tags: Some(q.0), ..p }, q.1)),
            None => None,
        }
    } else {
        match skip_value_exec(v, i, fuel) {
            Some(j) => Some((p, j)),
            None => None,
        }
    }
}

/// Parse third-party `"key": value` pairs until the record closes.
fn parse_qs_fields_exec(v: &Vec<char>, i: usize, p: QsParts, fuel: u128) -> (r: Option<
    (crate::types::QSBotImportItem, usize)>)
    requires
        i <= v@.len(),
    ensures
        ({
            let sp = crate::json::parse_qs_fields(v@, i as int, p@, fuel as nat);
            match r {
                Some(q) => sp == Some((q.0@, q.1 as int)) && q.1 <= v@.len(),
                None => sp is None,
            }
        }),
    decreases fuel,
{
    let n = v.len();
    if fuel == 0 {
        return None;
    }
    match parse_string_exec(v, i) {
        Some(kq) => {
            let c = skip_ws_exec(v, kq.1);
            if c < n && v[c] == ':' {
                match parse_qs_value_exec(v, skip_ws_exec(v, c + 1), &kq.0, p, fuel - 1) {
                    Some(q) => {
                        let t = skip_ws_exec(v, q.1);
                        if t < n && v[t] == '}' {
                            match finish_qs(q.0) {
                                Some(it) => Some((it, t + 1)),
                                None => None,
                            }
                        } else if t < n && v[t] == ',' {
                            parse_qs_fields_exec(v, skip_ws_exec(v, t + 1), q.0, fuel - 1)
                        } else {
                            None
                        }
                    },
                    None => None,
                }
            } else {
                None
            }
        },
        None => None,
    }
}

/// Parse one third-party record object.
fn parse_qs_item_exec(v: &Vec<char>, i: usize, fuel: u128) -> (r: Option<
    (crate::types::QSBotImportItem, usize)>)
    requires
        i <= v@.len(),
    ensures
        ({
            let sp = crate::json::parse_qs_item(v@, i as int, fuel as nat);
            match r {
                Some(q) => sp == Some((q.0@, q.1 as int)) && q.1 <= v@.len(),
                None => sp is None,
            }
        }),
{
    if i < v.len() && v[i] == '{' {
        let p = QsParts { id: None, file_id: None, tags: None };
        proof {
            assert(p@ =~= crate::json::no_qs_parts());
        }
        parse_qs_fields_exec(v, skip_ws_exec(v, i + 1), p, fuel)
    } else {
        None
    }
}

/// After one third-party record.
fn parse_qs_tail_exec(
    v: &Vec<char>,
    i: usize,
    acc: Vec<crate::types::QSBotImportItem>,
    fuel: u128,
) -> (r: Option<(Vec<crate::types::QSBotImportItem>, usize)>)
    requires
        i <= v@.len(),
    ensures
        ({
            let sp = crate::json::parse_qs_tail(
                v@,
                i as int,
                acc@.map_values(|x: crate::types::QSBotImportItem| x@),
                fuel as nat,
            );
            match r {
                Some(q) => sp == Some(
                    (q.0@.map_values(|x: crate::types::QSBotImportItem| x@), q.1 as int),
                ) && q.1 <= v@.len(),
                None => sp is None,
            }
        }),
    decreases fuel,
{
    let n = v.len();
    if fuel == 0 || i >= n {
        return None;
    }
    if v[i] == ']' {
        return Some((acc, i + 1));
    }
    if v[i] != ',' {
        return None;
    }
    match parse_qs_item_exec(v, skip_ws_exec(v, i + 1), fuel) {
        Some(q) => {
            let ghost av = acc@.map_values(|x: crate::types::QSBotImportItem| x@);
            let ghost qv = q.0@;
            let mut a2 = acc;
            a2.push(q.0);
            proof {
                assert(a2@.map_values(|x: crate::types::QSBotImportItem| x@) =~= av.push(qv));
            }
            parse_qs_tail_exec(v, skip_ws_exec(v, q.1), a2, fuel - 1)
        },
        None => None,
    }
}

/// Parse a whole third-party payload.
pub fn parse_qs_export_exec(v: &Vec<char>) -> (r: Option<Vec<crate::types::QSBotImportItem>>)
    ensures
        ({
            let sp = crate::json::parse_qs_export(v@);
            match r {
                Some(items) => sp == Some(
                    items@.map_values(|x: crate::types::QSBotImportItem| x@),
                ),
                None => sp is None,
            }
        }),
{
    let n = v.len();
    let i = skip_ws_exec(v, 0);
    if !(i < n && v[i] == '[') {
        return None;
    }
    let j = skip_ws_exec(v, i + 1);
    let fuel: u128 = (n as u128) + 2;
    let parsed: Option<(Vec<crate::types::QSBotImportItem>, usize)> = if j < n && v[j] == ']' {
        let out: Vec<crate::types::QSBotImportItem> = Vec::new();
        proof {
            assert(out@.map_values(|x: crate::types::QSBotImportItem| x@) =~= Seq::<
                crate::json::QsItemV,
            >::empty());
        }
        Some((out, j + 1))
    } else {
        match parse_qs_item_exec(v, j, fuel) {
            Some(q) => {
                let mut acc: Vec<crate::types::QSBotImportItem> = Vec::new();
                let ghost qv = q.0@;
                let k = q.1;
                acc.push(q.0);
                proof {
                    assert(acc@.map_values(|x: crate::types::QSBotImportItem| x@) =~= seq![qv]);
                }
                parse_qs_tail_exec(v, skip_ws_exec(v, k), acc, fuel)
            },
            None => None,
        }
    };
    match parsed {
        Some(q) => {
            let end = skip_ws_exec(v, q.1);
            if end == n {
                Some(q.0)
            } else {
                None
            }
        },
        None => None,
    }
}

} // verus!
