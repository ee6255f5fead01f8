//! The bulk transfer wire format: a JSON array of records. The encoder
//! writes the canonical form the export produces; the parser accepts general
//! JSON — foreign files and future fields included — and is tolerant of
//! unknown object fields.
//!
//! Every parsing function exists twice: as a total specification over
//! character sequences, and as an executable twin proved to return exactly
//! what the specification says.

use vstd::prelude::*;

use crate::types::EntityType;

verus! {

/// Model of one transfer record.
#[verifier::ext_equal]
pub struct ItemV {
    pub entity_id: Seq<char>,
    pub file_id: Seq<char>,
    pub entity_type: EntityType,
    pub tags: Seq<Seq<char>>,
    pub count: int,
    pub last_used: int,
    pub created_at: int,
}

impl View for crate::types::ImportItem {
    type V = ItemV;

    open spec fn view(&self) -> ItemV {
        ItemV {
            entity_id: self.entity_id@,
            file_id: self.file_id@,
            entity_type: self.entity_type,
            tags: self.tags@.map_values(|s: String| s@),
            count: self.count as int,
            last_used: self.last_used as int,
            created_at: self.created_at as int,
        }
    }
}

/// Model of one record of the third-party exporter's format.
#[verifier::ext_equal]
pub struct QsItemV {
    pub id: Seq<char>,
    pub file_id: Seq<char>,
    pub tags: Seq<Seq<char>>,
}

impl View for crate::types::QSBotImportItem {
    type V = QsItemV;

    open spec fn view(&self) -> QsItemV {
        QsItemV {
            id: self.id@,
            file_id: self.file_id@,
            tags: self.tags@.map_values(|s: String| s@),
        }
    }
}

// ---------------------------------------------------------------- tokens

/// JSON whitespace.
pub open spec fn is_json_ws(c: char) -> bool {
    c == ' ' || c == '\t' || c == '\n' || c == '\r'
}

/// The first index at or after `i` holding something other than whitespace.
pub open spec fn skip_ws(s: Seq<char>, i: int) -> int
    decreases s.len() - i,
{
    if 0 <= i < s.len() && is_json_ws(s[i]) {
        skip_ws(s, i + 1)
    } else {
        i
    }
}

/// Skipping whitespace stays inside the string and lands after the skipped
/// run.
pub proof fn lemma_skip_ws_bounds(s: Seq<char>, i: int)
    requires
        0 <= i <= s.len(),
    ensures
        i <= skip_ws(s, i) <= s.len(),
        skip_ws(s, i) < s.len() ==> !is_json_ws(s[skip_ws(s, i)]),
    decreases s.len() - i,
{
    if i < s.len() && is_json_ws(s[i]) {
        lemma_skip_ws_bounds(s, i + 1);
    }
}

/// A decimal digit.
pub open spec fn is_digit(c: char) -> bool {
    '0' <= c && c <= '9'
}

/// Its value.
pub open spec fn digit_val(c: char) -> int {
    c as int - '0' as int
}

/// A hexadecimal digit.
pub open spec fn is_hex(c: char) -> bool {
    is_digit(c) || ('a' <= c && c <= 'f') || ('A' <= c && c <= 'F')
}

/// Its value.
pub open spec fn hex_val(c: char) -> int {
    if is_digit(c) {
        digit_val(c)
    } else if 'a' <= c && c <= 'f' {
        c as int - 'a' as int + 10
    } else {
        c as int - 'A' as int + 10
    }
}

/// Does `lit` stand at `i`?
pub open spec fn match_lit(s: Seq<char>, i: int, lit: Seq<char>) -> bool {
    0 <= i && i + lit.len() <= s.len() && s.subrange(i, i + lit.len()) == lit
}

// ---------------------------------------------------------------- strings

/// Parse the rest of a string literal, after its opening quote: the decoded
/// characters and the index after the closing quote. Handles the JSON
/// escapes, surrogate pairs included.
pub open spec fn parse_string_rest(s: Seq<char>, i: int, acc: Seq<char>) -> Option<
    (Seq<char>, int),
>
    decreases s.len() - i,
{
    if i < 0 || i >= s.len() {
        None
    } else if s[i] == '"' {
        Some((acc, i + 1))
    } else if s[i] == '\\' {
        if i + 1 >= s.len() {
            None
        } else {
            let e = s[i + 1];
            if e == '"' || e == '\\' || e == '/' {
                parse_string_rest(s, i + 2, acc.push(e))
            } else if e == 'b' {
                parse_string_rest(s, i + 2, acc.push('\u{0008}'))
            } else if e == 'f' {
                parse_string_rest(s, i + 2, acc.push('\u{000C}'))
            } else if e == 'n' {
                parse_string_rest(s, i + 2, acc.push('\n'))
            } else if e == 'r' {
                parse_string_rest(s, i + 2, acc.push('\r'))
            } else if e == 't' {
                parse_string_rest(s, i + 2, acc.push('\t'))
            } else if e == 'u' {
                if i + 6 > s.len() || !(is_hex(s[i + 2]) && is_hex(s[i + 3]) && is_hex(s[i + 4])
                    && is_hex(s[i + 5])) {
                    None
                } else {
                    let code = hex_val(s[i + 2]) * 4096 + hex_val(s[i + 3]) * 256 + hex_val(
                        s[i + 4],
                    ) * 16 + hex_val(s[i + 5]);
                    if 0xD800 <= code && code <= 0xDBFF {
                        if i + 12 > s.len() || s[i + 6] != '\\' || s[i + 7] != 'u' || !(is_hex(
                            s[i + 8],
                        ) && is_hex(s[i + 9]) && is_hex(s[i + 10]) && is_hex(s[i + 11])) {
                            None
                        } else {
                            let lo = hex_val(s[i + 8]) * 4096 + hex_val(s[i + 9]) * 256 + hex_val(
                                s[i + 10],
                            ) * 16 + hex_val(s[i + 11]);
                            if 0xDC00 <= lo && lo <= 0xDFFF {
                                let combined = 0x10000 + (code - 0xD800) * 1024 + (lo - 0xDC00);
                                parse_string_rest(s, i + 12, acc.push(combined as char))
                            } else {
                                None
                            }
                        }
                    } else if 0xDC00 <= code && code <= 0xDFFF {
                        None
                    } else {
                        parse_string_rest(s, i + 6, acc.push(code as char))
                    }
                }
            } else {
                None
            }
        }
    } else {
        parse_string_rest(s, i + 1, acc.push(s[i]))
    }
}

/// Parse a string literal at `i`.
pub open spec fn parse_string(s: Seq<char>, i: int) -> Option<(Seq<char>, int)> {
    if 0 <= i < s.len() && s[i] == '"' {
        parse_string_rest(s, i + 1, Seq::empty())
    } else {
        None
    }
}

// ---------------------------------------------------------------- numbers

/// Consume a run of digits, folding them onto `acc`.
pub open spec fn parse_digits(s: Seq<char>, i: int, acc: int) -> (int, int)
    decreases s.len() - i,
{
    if 0 <= i < s.len() && is_digit(s[i]) {
        parse_digits(s, i + 1, acc * 10 + digit_val(s[i]))
    } else {
        (acc, i)
    }
}

/// The first index at or after `i` holding a non-digit.
pub open spec fn skip_digits(s: Seq<char>, i: int) -> int
    decreases s.len() - i,
{
    if 0 <= i < s.len() && is_digit(s[i]) {
        skip_digits(s, i + 1)
    } else {
        i
    }
}

/// Parse a JSON integer at `i` into a machine word: an optional minus sign
/// and at least one digit, not followed by a fraction or exponent, with a
/// value the word can hold.
pub open spec fn parse_int(s: Seq<char>, i: int) -> Option<(int, int)> {
    if i < 0 || i >= s.len() {
        None
    } else {
        let neg = s[i] == '-';
        let d = if neg {
            i + 1
        } else {
            i
        };
        if d >= s.len() || !is_digit(s[d]) {
            None
        } else {
            let (mag, j) = parse_digits(s, d, 0);
            let n = if neg {
                -mag
            } else {
                mag
            };
            if j < s.len() && (s[j] == '.' || s[j] == 'e' || s[j] == 'E') {
                None
            } else if n < i64::MIN as int || n > i64::MAX as int {
                None
            } else {
                Some((n, j))
            }
        }
    }
}

/// Skip a JSON number token: sign, digits, optional fraction, optional
/// exponent. Nothing of its value is kept.
pub open spec fn skip_number(s: Seq<char>, i: int) -> Option<int> {
    if i < 0 || i >= s.len() {
        None
    } else {
        let d = if s[i] == '-' {
            i + 1
        } else {
            i
        };
        if d >= s.len() || !is_digit(s[d]) {
            None
        } else {
            let j = skip_digits(s, d);
            let k = if j < s.len() && s[j] == '.' {
                if j + 1 < s.len() && is_digit(s[j + 1]) {
                    skip_digits(s, j + 1)
                } else {
                    -1
                }
            } else {
                j
            };
            if k < 0 {
                None
            } else if k < s.len() && (s[k] == 'e' || s[k] == 'E') {
                let e = if k + 1 < s.len() && (s[k + 1] == '-' || s[k + 1] == '+') {
                    k + 2
                } else {
                    k + 1
                };
                if e < s.len() && is_digit(s[e]) {
                    Some(skip_digits(s, e))
                } else {
                    None
                }
            } else {
                Some(k)
            }
        }
    }
}

// ---------------------------------------------------------------- skipping

/// Skip any JSON value at `i`: the index after it. `fuel` bounds the
/// recursion into containers; every level consumes input, so the input's
/// length is always fuel enough.
pub open spec fn skip_value(s: Seq<char>, i: int, fuel: nat) -> Option<int>
    decreases fuel,
{
    if fuel == 0 || i < 0 || i >= s.len() {
        None
    } else if s[i] == '"' {
        match parse_string(s, i) {
            Some((_v, j)) => Some(j),
            None => None,
        }
    } else if s[i] == '-' || is_digit(s[i]) {
        skip_number(s, i)
    } else if s[i] == 't' {
        if match_lit(s, i, "true"@) {
            Some(i + 4)
        } else {
            None
        }
    } else if s[i] == 'f' {
        if match_lit(s, i, "false"@) {
            Some(i + 5)
        } else {
            None
        }
    } else if s[i] == 'n' {
        if match_lit(s, i, "null"@) {
            Some(i + 4)
        } else {
            None
        }
    } else if s[i] == '[' {
        let j = skip_ws(s, i + 1);
        if j < s.len() && s[j] == ']' {
            Some(j + 1)
        } else {
            match skip_value(s, j, (fuel - 1) as nat) {
                Some(k) => skip_array_tail(s, skip_ws(s, k), (fuel - 1) as nat),
                None => None,
            }
        }
    } else if s[i] == '{' {
        let j = skip_ws(s, i + 1);
        if j < s.len() && s[j] == '}' {
            Some(j + 1)
        } else {
            skip_object_fields(s, j, (fuel - 1) as nat)
        }
    } else {
        None
    }
}

/// After one array element: a comma and another element, or the close.
pub open spec fn skip_array_tail(s: Seq<char>, i: int, fuel: nat) -> Option<int>
    decreases fuel,
{
    if fuel == 0 || i < 0 || i >= s.len() {
        None
    } else if s[i] == ']' {
        Some(i + 1)
    } else if s[i] == ',' {
        match skip_value(s, skip_ws(s, i + 1), (fuel - 1) as nat) {
            Some(k) => skip_array_tail(s, skip_ws(s, k), (fuel - 1) as nat),
            None => None,
        }
    } else {
        None
    }
}

/// One or more `"key": value` pairs, then the close.
pub open spec fn skip_object_fields(s: Seq<char>, i: int, fuel: nat) -> Option<int>
    decreases fuel,
{
    if fuel == 0 {
        None
    } else {
        match parse_string(s, i) {
            Some((_k, j)) => {
                let c = skip_ws(s, j);
                if c < s.len() && s[c] == ':' {
                    match skip_value(s, skip_ws(s, c + 1), (fuel - 1) as nat) {
                        Some(k) => {
                            let t = skip_ws(s, k);
                            if t < s.len() && s[t] == '}' {
                                Some(t + 1)
                            } else if t < s.len() && s[t] == ',' {
                                skip_object_fields(s, skip_ws(s, t + 1), (fuel - 1) as nat)
                            } else {
                                None
                            }
                        },
                        None => None,
                    }
                } else {
                    None
                }
            },
            None => None,
        }
    }
}

// ---------------------------------------------------------------- arrays

/// Parse a JSON array of strings at `i` — the tag list of a record.
pub open spec fn parse_string_array(s: Seq<char>, i: int, fuel: nat) -> Option<
    (Seq<Seq<char>>, int),
> {
    if 0 <= i < s.len() && s[i] == '[' {
        let j = skip_ws(s, i + 1);
        if j < s.len() && s[j] == ']' {
            Some((Seq::empty(), j + 1))
        } else {
            match parse_string(s, j) {
                Some((v, k)) => parse_string_array_tail(s, skip_ws(s, k), seq![v], fuel),
                None => None,
            }
        }
    } else {
        None
    }
}

/// After one string element: a comma and another string, or the close.
pub open spec fn parse_string_array_tail(s: Seq<char>, i: int, acc: Seq<Seq<char>>, fuel: nat)
    -> Option<(Seq<Seq<char>>, int)>
    decreases fuel,
{
    if fuel == 0 || i < 0 || i >= s.len() {
        None
    } else if s[i] == ']' {
        Some((acc, i + 1))
    } else if s[i] == ',' {
        match parse_string(s, skip_ws(s, i + 1)) {
            Some((v, k)) => parse_string_array_tail(s, skip_ws(s, k), acc.push(v), (fuel - 1) as nat),
            None => None,
        }
    } else {
        None
    }
}

/// The media kind a record names, by the same names its serialized form
/// carries.
pub open spec fn type_of_name(name: Seq<char>) -> Option<EntityType> {
    if name == "Sticker"@ {
        Some(EntityType::Sticker)
    } else if name == "Animation"@ {
        Some(EntityType::Animation)
    } else if name == "Photo"@ {
        Some(EntityType::Photo)
    } else if name == "Video"@ {
        Some(EntityType::Video)
    } else {
        None
    }
}

// ---------------------------------------------------------------- records

/// A record while its fields come in.
#[verifier::ext_equal]
pub struct PartialItem {
    pub id: Option<Seq<char>>,
    pub fi: Option<Seq<char>>,
    pub tp: Option<EntityType>,
    pub t: Option<Seq<Seq<char>>>,
    pub c: Option<int>,
    pub lu: Option<int>,
    pub ca: Option<int>,
}

/// The empty partial record.
pub open spec fn no_parts() -> PartialItem {
    PartialItem { id: None, fi: None, tp: None, t: None, c: None, lu: None, ca: None }
}

/// A finished record, if every required field came in.
pub open spec fn item_of_parts(p: PartialItem) -> Option<ItemV> {
    if p.id is Some && p.fi is Some && p.tp is Some && p.t is Some && p.c is Some && p.lu is Some
        && p.ca is Some {
        Some(
            ItemV {
                entity_id: p.id->0,
                file_id: p.fi->0,
                entity_type: p.tp->0,
                tags: p.t->0,
                count: p.c->0,
                last_used: p.lu->0,
                created_at: p.ca->0,
            },
        )
    } else {
        None
    }
}

/// Parse one field's value, by its key: a known key fills its slot — a
/// second time is an error, as is a value of the wrong shape — and an
/// unknown key is skipped.
pub open spec fn parse_item_value(
    s: Seq<char>,
    i: int,
    key: Seq<char>,
    p: PartialItem,
    fuel: nat,
) -> Option<(PartialItem, int)> {
    if key == "id"@ {
        if p.id is Some {
            None
        } else {
            match parse_string(s, i) {
                Some((v, j)) => Some((PartialItem { id: Some(v), ..p }, j)),
                None => None,
            }
        }
    } else if key == "fi"@ {
        if p.fi is Some {
            None
        } else {
            match parse_string(s, i) {
                Some((v, j)) => Some((PartialItem { fi: Some(v), ..p }, j)),
                None => None,
            }
        }
    } else if key == "tp"@ {
        if p.tp is Some {
            None
        } else {
            match parse_string(s, i) {
                Some((v, j)) => match type_of_name(v) {
                    Some(ty) => Some((PartialItem { tp: Some(ty), ..p }, j)),
                    None => None,
                },
                None => None,
            }
        }
    } else if key == "t"@ {
        if p.t is Some {
            None
        } else {
            match parse_string_array(s, i, fuel) {
                Some((v, j)) => Some((PartialItem { t: Some(v), ..p }, j)),
                None => None,
            }
        }
    } else if key == "c"@ {
        if p.c is Some {
            None
        } else {
            match parse_int(s, i) {
                Some((v, j)) => Some((PartialItem { c: Some(v), ..p }, j)),
                None => None,
            }
        }
    } else if key == "lu"@ {
        if p.lu is Some {
            None
        } else {
            match parse_int(s, i) {
                Some((v, j)) => Some((PartialItem { lu: Some(v), ..p }, j)),
                None => None,
            }
        }
    } else if key == "ca"@ {
        if p.ca is Some {
            None
        } else {
            match parse_int(s, i) {
                Some((v, j)) => Some((PartialItem { ca: Some(v), ..p }, j)),
                None => None,
            }
        }
    } else {
        match skip_value(s, i, fuel) {
            Some(j) => Some((p, j)),
            None => None,
        }
    }
}

/// Parse `"key": value` pairs until the record closes, then demand every
/// required field.
pub open spec fn parse_item_fields(s: Seq<char>, i: int, p: PartialItem, fuel: nat) -> Option<
    (ItemV, int),
>
    decreases fuel,
{
    if fuel == 0 {
        None
    } else {
        match parse_string(s, i) {
            Some((key, j)) => {
                let c = skip_ws(s, j);
                if c < s.len() && s[c] == ':' {
                    match parse_item_value(s, skip_ws(s, c + 1), key, p, (fuel - 1) as nat) {
                        Some((p2, j2)) => {
                            let t = skip_ws(s, j2);
                            if t < s.len() && s[t] == '}' {
                                match item_of_parts(p2) {
                                    Some(it) => Some((it, t + 1)),
                                    None => None,
                                }
                            } else if t < s.len() && s[t] == ',' {
                                parse_item_fields(s, skip_ws(s, t + 1), p2, (fuel - 1) as nat)
                            } else {
                                None
                            }
                        },
                        None => None,
                    }
                } else {
                    None
                }
            },
            None => None,
        }
    }
}

/// Parse one record object at `i`.
pub open spec fn parse_item(s: Seq<char>, i: int, fuel: nat) -> Option<(ItemV, int)> {
    if 0 <= i < s.len() && s[i] == '{' {
        parse_item_fields(s, skip_ws(s, i + 1), no_parts(), fuel)
    } else {
        None
    }
}

/// After one record: a comma and another record, or the close.
pub open spec fn parse_items_tail(s: Seq<char>, i: int, acc: Seq<ItemV>, fuel: nat) -> Option<
    (Seq<ItemV>, int),
>
    decreases fuel,
{
    if fuel == 0 || i < 0 || i >= s.len() {
        None
    } else if s[i] == ']' {
        Some((acc, i + 1))
    } else if s[i] == ',' {
        match parse_item(s, skip_ws(s, i + 1), fuel) {
            Some((it, j)) => parse_items_tail(s, skip_ws(s, j), acc.push(it), (fuel - 1) as nat),
            None => None,
        }
    } else {
        None
    }
}

/// Parse the whole transfer payload: an array of records, whitespace
/// tolerated, nothing but whitespace after it.
pub open spec fn parse_export(s: Seq<char>) -> Option<Seq<ItemV>> {
    let i = skip_ws(s, 0);
    if i < s.len() && s[i] == '[' {
        let j = skip_ws(s, i + 1);
        let fuel = (s.len() + 2) as nat;
        let parsed = if j < s.len() && s[j] == ']' {
            Some((Seq::<ItemV>::empty(), j + 1))
        } else {
            match parse_item(s, j, fuel) {
                Some((it, k)) => parse_items_tail(s, skip_ws(s, k), seq![it], fuel),
                None => None,
            }
        };
        match parsed {
            Some((items, end)) => {
                if skip_ws(s, end) == s.len() {
                    Some(items)
                } else {
                    None
                }
            },
            None => None,
        }
    } else {
        None
    }
}

// ----------------------------------------------- the third-party format

/// A third-party record while its fields come in.
#[verifier::ext_equal]
pub struct PartialQs {
    pub id: Option<Seq<char>>,
    pub file_id: Option<Seq<char>>,
    pub tags: Option<Seq<Seq<char>>>,
}

/// The empty third-party partial record.
pub open spec fn no_qs_parts() -> PartialQs {
    PartialQs { id: None, file_id: None, tags: None }
}

/// A finished third-party record, if every required field came in.
pub open spec fn qs_of_parts(p: PartialQs) -> Option<QsItemV> {
    if p.id is Some && p.file_id is Some && p.tags is Some {
        Some(QsItemV { id: p.id->0, file_id: p.file_id->0, tags: p.tags->0 })
    } else {
        None
    }
}

/// Parse one third-party field's value by its key; anything but the three
/// kept fields is skipped.
pub open spec fn parse_qs_value(s: Seq<char>, i: int, key: Seq<char>, p: PartialQs, fuel: nat)
    -> Option<(PartialQs, int)> {
    if key == "id"@ {
        if p.id is Some {
            None
        } else {
            match parse_string(s, i) {
                Some((v, j)) => Some((PartialQs { id: Some(v), ..p }, j)),
                None => None,
            }
        }
    } else if key == "fileId"@ {
        if p.file_id is Some {
            None
        } else {
            match parse_string(s, i) {
                Some((v, j)) => Some((PartialQs { file_id: Some(v), ..p }, j)),
                None => None,
            }
        }
    } else if key == "tags"@ {
        if p.tags is Some {
            None
        } else {
            match parse_string_array(s, i, fuel) {
                Some((v, j)) => Some((PartialQs { tags: Some(v), ..p }, j)),
                None => None,
            }
        }
    } else {
        match skip_value(s, i, fuel) {
            Some(j) => Some((p, j)),
            None => None,
        }
    }
}

/// Parse third-party `"key": value` pairs until the record closes.
pub open spec fn parse_qs_fields(s: Seq<char>, i: int, p: PartialQs, fuel: nat) -> Option<
    (QsItemV, int),
>
    decreases fuel,
{
    if fuel == 0 {
        None
    } else {
        match parse_string(s, i) {
            Some((key, j)) => {
                let c = skip_ws(s, j);
                if c < s.len() && s[c] == ':' {
                    match parse_qs_value(s, skip_ws(s, c + 1), key, p, (fuel - 1) as nat) {
                        Some((p2, j2)) => {
                            let t = skip_ws(s, j2);
                            if t < s.len() && s[t] == '}' {
                                match qs_of_parts(p2) {
                                    Some(it) => Some((it, t + 1)),
                                    None => None,
                                }
                            } else if t < s.len() && s[t] == ',' {
                                parse_qs_fields(s, skip_ws(s, t + 1), p2, (fuel - 1) as nat)
                            } else {
                                None
                            }
                        },
                        None => None,
                    }
                } else {
                    None
                }
            },
            None => None,
        }
    }
}

/// Parse one third-party record object at `i`.
pub open spec fn parse_qs_item(s: Seq<char>, i: int, fuel: nat) -> Option<(QsItemV, int)> {
    if 0 <= i < s.len() && s[i] == '{' {
        parse_qs_fields(s, skip_ws(s, i + 1), no_qs_parts(), fuel)
    } else {
        None
    }
}

/// After one third-party record: a comma and another, or the close.
pub open spec fn parse_qs_tail(s: Seq<char>, i: int, acc: Seq<QsItemV>, fuel: nat) -> Option<
    (Seq<QsItemV>, int),
>
    decreases fuel,
{
    if fuel == 0 || i < 0 || i >= s.len() {
        None
    } else if s[i] == ']' {
        Some((acc, i + 1))
    } else if s[i] == ',' {
        match parse_qs_item(s, skip_ws(s, i + 1), fuel) {
            Some((it, j)) => parse_qs_tail(s, skip_ws(s, j), acc.push(it), (fuel - 1) as nat),
            None => None,
        }
    } else {
        None
    }
}

/// Parse a whole third-party payload.
pub open spec fn parse_qs_export(s: Seq<char>) -> Option<Seq<QsItemV>> {
    let i = skip_ws(s, 0);
    if i < s.len() && s[i] == '[' {
        let j = skip_ws(s, i + 1);
        let fuel = (s.len() + 2) as nat;
        let parsed = if j < s.len() && s[j] == ']' {
            Some((Seq::<QsItemV>::empty(), j + 1))
        } else {
            match parse_qs_item(s, j, fuel) {
                Some((it, k)) => parse_qs_tail(s, skip_ws(s, k), seq![it], fuel),
                None => None,
            }
        };
        match parsed {
            Some((items, end)) => {
                if skip_ws(s, end) == s.len() {
                    Some(items)
                } else {
                    None
                }
            },
            None => None,
        }
    } else {
        None
    }
}

// ------------------------------------------------------------ the encoder

/// A decimal digit character.
pub open spec fn digit_char(v: int) -> char {
    (('0' as int + v) as char)
}

/// A lower-case hexadecimal digit character.
pub open spec fn hex_digit(v: int) -> char {
    if v < 10 {
        digit_char(v)
    } else {
        (('a' as int + v - 10) as char)
    }
}

/// How one character is written inside a string literal: quotes and
/// backslashes escaped, control characters as four hex digits, everything
/// else as itself.
pub open spec fn enc_char(c: char) -> Seq<char> {
    if c == '"' {
        seq!['\\', '"']
    } else if c == '\\' {
        seq!['\\', '\\']
    } else if (c as u32) < 32 {
        seq!['\\', 'u', '0', '0', hex_digit(((c as u32) / 16) as int), hex_digit(
            ((c as u32) % 16) as int,
        )]
    } else {
        seq![c]
    }
}

/// The body of a string literal.
pub open spec fn enc_str_body(s: Seq<char>) -> Seq<char>
    decreases s.len(),
{
    if s.len() == 0 {
        Seq::empty()
    } else {
        enc_char(s[0]) + enc_str_body(s.drop_first())
    }
}

/// A string literal.
pub open spec fn enc_string(s: Seq<char>) -> Seq<char> {
    seq!['"'] + enc_str_body(s) + seq!['"']
}

/// The decimal digits of a non-negative value.
pub open spec fn dec_digits(v: int) -> Seq<char>
    decreases v,
{
    if v < 10 {
        seq![digit_char(v)]
    } else {
        dec_digits(v / 10).push(digit_char(v % 10))
    }
}

/// A decimal integer.
pub open spec fn enc_int(n: int) -> Seq<char> {
    if n < 0 {
        seq!['-'] + dec_digits(-n)
    } else {
        dec_digits(n)
    }
}

/// The name a media kind is written under.
pub open spec fn kind_name(t: EntityType) -> Seq<char> {
    match t {
        EntityType::Sticker => "Sticker"@,
        EntityType::Animation => "Animation"@,
        EntityType::Photo => "Photo"@,
        EntityType::Video => "Video"@,
    }
}

/// The body of the tag array: string literals joined by commas.
pub open spec fn enc_tags_body(tags: Seq<Seq<char>>) -> Seq<char>
    decreases tags.len(),
{
    if tags.len() == 0 {
        Seq::empty()
    } else if tags.len() == 1 {
        enc_string(tags[0])
    } else {
        enc_string(tags[0]) + seq![','] + enc_tags_body(tags.drop_first())
    }
}

/// The tag array.
pub open spec fn enc_tags(tags: Seq<Seq<char>>) -> Seq<char> {
    seq!['['] + enc_tags_body(tags) + seq![']']
}

/// One record, with its fields in a fixed order.
pub open spec fn enc_item(it: ItemV) -> Seq<char> {
    "{\"id\":"@ + enc_string(it.entity_id) + ",\"fi\":"@ + enc_string(it.file_id) + ",\"tp\":"@
        + enc_string(kind_name(it.entity_type)) + ",\"t\":"@ + enc_tags(it.tags) + ",\"c\":"@
        + enc_int(it.count) + ",\"lu\":"@ + enc_int(it.last_used) + ",\"ca\":"@ + enc_int(
        it.created_at,
    ) + "}"@
}

/// The body of the payload: records joined by commas.
pub open spec fn enc_items_body(items: Seq<ItemV>) -> Seq<char>
    decreases items.len(),
{
    if items.len() == 0 {
        Seq::empty()
    } else if items.len() == 1 {
        enc_item(items[0])
    } else {
        enc_item(items[0]) + seq![','] + enc_items_body(items.drop_first())
    }
}

/// The whole payload.
pub open spec fn enc_items(items: Seq<ItemV>) -> Seq<char> {
    seq!['['] + enc_items_body(items) + seq![']']
}

} // verus!
