//! The executable encoder for the transfer format: it writes exactly the
//! character sequence the specification in [`crate::json`] describes.

use vstd::prelude::*;
use vstd::string::StrSliceExecFns;

use crate::json::{dec_digits, digit_char, enc_char, enc_int, enc_item, enc_items, enc_items_body,
    enc_str_body, enc_string, enc_tags, enc_tags_body, hex_digit, kind_name, ItemV};
use crate::types::{EntityType, ImportItem};

verus! {

/// Escaping one more character extends the escaped body.
proof fn lemma_enc_str_body_snoc(s: Seq<char>, c: char)
    ensures
        enc_str_body(s.push(c)) == enc_str_body(s) + enc_char(c),
    decreases s.len(),
{
    if s.len() == 0 {
        assert(s.push(c)[0] == c);
        assert(s.push(c).drop_first() =~= s);
        assert(enc_str_body(s) == Seq::<char>::empty());
        assert(enc_str_body(s.push(c)) == enc_char(c) + enc_str_body(s));
        assert(enc_char(c) + enc_str_body(s) =~= enc_str_body(s) + enc_char(c));
    } else {
        assert(s.push(c).drop_first() =~= s.drop_first().push(c));
        lemma_enc_str_body_snoc(s.drop_first(), c);
        assert(enc_str_body(s.push(c)) =~= enc_str_body(s) + enc_char(c));
    }
}

/// Encoding one more tag extends the tag-array body.
proof fn lemma_enc_tags_body_snoc(tags: Seq<Seq<char>>, x: Seq<char>)
    ensures
        enc_tags_body(tags.push(x)) == (if tags.len() == 0 {
            enc_string(x)
        } else {
            enc_tags_body(tags) + seq![','] + enc_string(x)
        }),
    decreases tags.len(),
{
    if tags.len() == 0 {
        assert(tags.push(x)[0] == x);
        assert(enc_tags_body(tags.push(x)) =~= enc_string(x));
    } else {
        assert(tags.push(x).drop_first() =~= tags.drop_first().push(x));
        lemma_enc_tags_body_snoc(tags.drop_first(), x);
        if tags.len() == 1 {
            assert(enc_tags_body(tags.push(x)) =~= enc_tags_body(tags) + seq![','] + enc_string(
                x,
            ));
        } else {
            assert(enc_tags_body(tags.push(x)) =~= enc_tags_body(tags) + seq![','] + enc_string(
                x,
            ));
        }
    }
}

/// Encoding one more record extends the payload body.
proof fn lemma_enc_items_body_snoc(items: Seq<ItemV>, x: ItemV)
    ensures
        enc_items_body(items.push(x)) == (if items.len() == 0 {
            enc_item(x)
        } else {
            enc_items_body(items) + seq![','] + enc_item(x)
        }),
    decreases items.len(),
{
    if items.len() == 0 {
        assert(items.push(x)[0] == x);
        assert(enc_items_body(items.push(x)) =~= enc_item(x));
    } else {
        assert(items.push(x).drop_first() =~= items.drop_first().push(x));
        lemma_enc_items_body_snoc(items.drop_first(), x);
        assert(enc_items_body(items.push(x)) =~= enc_items_body(items) + seq![','] + enc_item(x));
    }
}

/// Append a literal.
fn push_lit(out: &mut Vec<char>, lit: &str)
    ensures
        final(out)@ == old(out)@ + lit@,
{
    let n = lit.unicode_len();
    for i in 0..n
        invariant
            n == lit@.len(),
            out@ == old(out)@ + lit@.take(i as int),
    {
        out.push(lit.get_char(i));
        proof {
            assert(old(out)@ + lit@.take(i + 1) =~= (old(out)@ + lit@.take(i as int)).push(
                lit@[i as int],
            ));
        }
    }
    proof {
        assert(lit@.take(n as int) =~= lit@);
    }
}

/// Append the escaped form of one character.
fn push_enc_char(out: &mut Vec<char>, c: char)
    ensures
        final(out)@ == old(out)@ + enc_char(c),
{
    if c == '"' {
        out.push('\\');
        out.push('"');
        proof {
            assert(out@ =~= old(out)@ + enc_char(c));
        }
    } else if c == '\\' {
        out.push('\\');
        out.push('\\');
        proof {
            assert(out@ =~= old(out)@ + enc_char(c));
        }
    } else if (c as u32) < 32 {
        let code = c as u32;
        let hi = code / 16;
        let lo = code % 16;
        let hc = if hi < 10 {
            ((48 + hi) as u8) as char
        } else {
            ((97 + hi - 10) as u8) as char
        };
        let lc = if lo < 10 {
            ((48 + lo) as u8) as char
        } else {
            ((97 + lo - 10) as u8) as char
        };
        out.push('\\');
        out.push('u');
        out.push('0');
        out.push('0');
        out.push(hc);
        out.push(lc);
        proof {
            assert(hc == hex_digit(((c as u32) / 16) as int));
            assert(lc == hex_digit(((c as u32) % 16) as int));
            assert(out@ =~= old(out)@ + enc_char(c));
        }
    } else {
        out.push(c);
        proof {
            assert(out@ =~= old(out)@ + enc_char(c));
        }
    }
}

/// Append a string literal: quote, escaped body, quote.
fn push_enc_string(out: &mut Vec<char>, s: &str)
    ensures
        final(out)@ == old(out)@ + enc_string(s@),
{
    out.push('"');
    let n = s.unicode_len();
    for i in 0..n
        invariant
            n == s@.len(),
            out@ == old(out)@ + seq!['"'] + enc_str_body(s@.take(i as int)),
    {
        proof {
            crate::seq_util::lemma_take_push(s@, i as int);
            lemma_enc_str_body_snoc(s@.take(i as int), s@[i as int]);
        }
        push_enc_char(out, s.get_char(i));
        proof {
            assert(out@ =~= old(out)@ + seq!['"'] + enc_str_body(s@.take(i + 1)));
        }
    }
    out.push('"');
    proof {
        assert(s@.take(n as int) =~= s@);
        assert(out@ =~= old(out)@ + enc_string(s@));
    }
}

/// Append the decimal digits of a value.
fn push_dec_digits(out: &mut Vec<char>, x: u64)
    ensures
        final(out)@ == old(out)@ + dec_digits(x as int),
    decreases x,
{
    if x < 10 {
        out.push(((48 + x) as u8) as char);
        proof {
            assert(((48 + x) as u8) as char == digit_char(x as int));
            assert(out@ =~= old(out)@ + dec_digits(x as int));
        }
    } else {
        push_dec_digits(out, x / 10);
        out.push(((48 + (x % 10)) as u8) as char);
        proof {
            assert(((48 + (x % 10)) as u8) as char == digit_char(x as int % 10));
            assert(out@ =~= old(out)@ + dec_digits(x as int));
        }
    }
}

/// Append a decimal integer.
fn push_enc_int(out: &mut Vec<char>, n: i64)
    ensures
        final(out)@ == old(out)@ + enc_int(n as int),
{
    if n < 0 {
        out.push('-');
        let mag: u64 = if n == i64::MIN {
            9223372036854775808u64
        } else {
            (-n) as u64
        };
        push_dec_digits(out, mag);
        proof {
            assert(mag as int == -(n as int));
            assert(out@ =~= old(out)@ + enc_int(n as int));
        }
    } else {
        push_dec_digits(out, n as u64);
    }
}

/// Append the tag array.
fn push_enc_tags(out: &mut Vec<char>, tags: &Vec<String>)
    ensures
        final(out)@ == old(out)@ + enc_tags(tags@.map_values(|s: String| s@)),
{
    let ghost tv = tags@.map_values(|s: String| s@);
    out.push('[');
    let n = tags.len();
    for i in 0..n
        invariant
            n == tags@.len(),
            tv == tags@.map_values(|s: String| s@),
            out@ == old(out)@ + seq!['['] + enc_tags_body(tv.take(i as int)),
    {
        proof {
            crate::seq_util::lemma_take_push(tv, i as int);
            lemma_enc_tags_body_snoc(tv.take(i as int), tv[i as int]);
        }
        if i > 0 {
            out.push(',');
        }
        push_enc_string(out, tags[i].as_str());
        proof {
            assert(out@ =~= old(out)@ + seq!['['] + enc_tags_body(tv.take(i + 1)));
        }
    }
    out.push(']');
    proof {
        assert(tv.take(n as int) =~= tv);
        assert(out@ =~= old(out)@ + enc_tags(tv));
    }
}

/// Append one record.
#[verifier::rlimit(100)]
fn push_enc_item(out: &mut Vec<char>, it: &ImportItem)
    ensures
        final(out)@ == old(out)@ + enc_item(it@),
{
    push_lit(out, "{\"id\":");
    push_enc_string(out, it.entity_id.as_str());
    push_lit(out, ",\"fi\":");
    push_enc_string(out, it.file_id.as_str());
    push_lit(out, ",\"tp\":");
    match it.entity_type {
        EntityType::Sticker => push_enc_string(out, "Sticker"),
        EntityType::Animation => push_enc_string(out, "Animation"),
        EntityType::Photo => push_enc_string(out, "Photo"),
        EntityType::Video => push_enc_string(out, "Video"),
    }
    push_lit(out, ",\"t\":");
    push_enc_tags(out, &it.tags);
    push_lit(out, ",\"c\":");
    push_enc_int(out, it.count);
    push_lit(out, ",\"lu\":");
    push_enc_int(out, it.last_used);
    push_lit(out, ",\"ca\":");
    push_enc_int(out, it.created_at);
    push_lit(out, "}");
    proof {
        assert(enc_string(kind_name(it@.entity_type)) == match it.entity_type {
            EntityType::Sticker => enc_string("Sticker"@),
            EntityType::Animation => enc_string("Animation"@),
            EntityType::Photo => enc_string("Photo"@),
            EntityType::Video => enc_string("Video"@),
        });
        assert(out@ =~= old(out)@ + enc_item(it@));
    }
}

/// Encode a whole payload.
pub fn encode_items(items: &Vec<ImportItem>) -> (r: Vec<char>)
    ensures
        r@ == enc_items(items@.map_values(|x: ImportItem| x@)),
{
    let ghost iv = items@.map_values(|x: ImportItem| x@);
    let mut out: Vec<char> = Vec::new();
    out.push('[');
    let n = items.len();
    for i in 0..n
        invariant
            n == items@.len(),
            iv == items@.map_values(|x: ImportItem| x@),
            out@ == seq!['['] + enc_items_body(iv.take(i as int)),
    {
        proof {
            crate::seq_util::lemma_take_push(iv, i as int);
            lemma_enc_items_body_snoc(iv.take(i as int), iv[i as int]);
        }
        if i > 0 {
            out.push(',');
        }
        push_enc_item(&mut out, &items[i]);
        proof {
            assert(out@ =~= seq!['['] + enc_items_body(iv.take(i + 1)));
        }
    }
    out.push(']');
    proof {
        assert(iv.take(n as int) =~= iv);
        assert(out@ =~= enc_items(iv));
    }
    out
}

} // verus!
