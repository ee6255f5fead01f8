//! Text helpers: ASCII case folding, case-insensitive prefix matching,
//! substring search, and the tag-name normalization used by bulk import.

use vstd::prelude::*;
use vstd::string::StrSliceExecFns;
use vstd::string::StringExecFns;

verus! {

/// Lower-case an ASCII letter; any other character is unchanged. This is the
/// folding the search applies, mirroring a SQL LIKE's ASCII case rule.
pub open spec fn fold_char(c: char) -> char {
    if 'A' <= c && c <= 'Z' {
        (((c as u32) + 32) as u8) as char
    } else {
        c
    }
}

/// ASCII case folding of a whole string.
pub open spec fn fold_seq(s: Seq<char>) -> Seq<char> {
    s.map_values(|c: char| fold_char(c))
}

/// A filter tag matches a stored tag when it is a case-insensitive prefix of
/// it.
pub open spec fn tag_matches(filter: Seq<char>, tag: Seq<char>) -> bool {
    fold_seq(filter).is_prefix_of(fold_seq(tag))
}

/// Executable ASCII case folding of one character.
pub fn fold_char_exec(c: char) -> (r: char)
    ensures
        r == fold_char(c),
{
    let n = c as u32;
    if 65 <= n && n <= 90 {
        ((n + 32) as u8) as char
    } else {
        c
    }
}

/// Does `filter` match `tag` as a case-insensitive prefix?
pub fn tag_matches_exec(filter: &str, tag: &str) -> (r: bool)
    ensures
        r == tag_matches(filter@, tag@),
{
    let flen = filter.unicode_len();
    let tlen = tag.unicode_len();
    if flen > tlen {
        return false;
    }
    for i in 0..flen
        invariant
            flen == filter@.len(),
            tlen == tag@.len(),
            flen <= tlen,
            forall|j: int| 0 <= j < i ==> fold_char(filter@[j]) == fold_char(tag@[j]),
    {
        let fc = fold_char_exec(filter.get_char(i));
        let tc = fold_char_exec(tag.get_char(i));
        if fc != tc {
            assert(fold_seq(filter@)[i as int] != fold_seq(tag@)[i as int]);
            return false;
        }
    }
    proof {
        assert(fold_seq(filter@) =~= fold_seq(tag@).subrange(0, flen as int));
    }
    true
}

/// `needle` occurs somewhere inside `hay`.
pub open spec fn contains_sub(hay: Seq<char>, needle: Seq<char>) -> bool {
    exists|i: int|
        0 <= i && i + needle.len() <= hay.len() && #[trigger] hay.subrange(i, i + needle.len())
            == needle
}

/// Naive substring search.
pub fn str_contains(hay: &str, needle: &str) -> (r: bool)
    ensures
        r == contains_sub(hay@, needle@),
{
    let h = string_to_chars(hay);
    let n = string_to_chars(needle);
    let hlen = h.len();
    let nlen = n.len();
    if nlen > hlen {
        return false;
    }
    if nlen == 0 {
        proof {
            let z: int = 0;
            assert(hay@.subrange(z, z + needle@.len()) =~= needle@);
        }
        return true;
    }
    for i in 0..(hlen - nlen) + 1
        invariant
            h@ == hay@,
            n@ == needle@,
            hlen == h@.len(),
            nlen == n@.len(),
            nlen <= hlen,
            forall|k: int|
                0 <= k < i ==> #[trigger] hay@.subrange(k, k + needle@.len()) != needle@,
    {
        let mut ok = true;
        for j in 0..nlen
            invariant
                h@ == hay@,
                n@ == needle@,
                hlen == h@.len(),
                nlen == n@.len(),
                i + nlen <= hlen,
                ok <==> forall|l: int| 0 <= l < j ==> hay@[i + l] == needle@[l],
        {
            if h[i + j] != n[j] {
                ok = false;
            }
        }
        if ok {
            proof {
                assert(hay@.subrange(i as int, i + needle@.len()) =~= needle@);
            }
            return true;
        }
        proof {
            assert(hay@.subrange(i as int, i + needle@.len()) != needle@) by {
                assert(exists|l: int| 0 <= l < nlen && hay@[i + l] != needle@[l]);
                let l = choose|l: int| 0 <= l < nlen && hay@[i + l] != needle@[l];
                assert(hay@.subrange(i as int, i + needle@.len())[l] == hay@[i + l]);
            }
        }
    }
    false
}

/// Collect the characters of a string into a vector.
pub fn string_to_chars(s: &str) -> (r: Vec<char>)
    ensures
        r@ == s@,
{
    let len = s.unicode_len();
    let mut r: Vec<char> = Vec::new();
    for i in 0..len
        invariant
            len == s@.len(),
            r@ == s@.take(i as int),
    {
        r.push(s.get_char(i));
        proof {
            assert(s@.take(i + 1) =~= s@.take(i as int).push(s@[i as int]));
        }
    }
    proof {
        assert(s@.take(len as int) =~= s@);
    }
    r
}

/// Relies on String::push: appends exactly the given character.
#[verifier::external_body]
pub fn push_char(s: &mut String, c: char)
    ensures
        final(s)@ == old(s)@.push(c),
{
    s.push(c);
}

/// Build a string from a sequence of characters.
pub fn chars_to_string(v: &Vec<char>) -> (r: String)
    ensures
        r@ == v@,
{
    let mut r = String::new();
    let len = v.len();
    for i in 0..len
        invariant
            len == v@.len(),
            r@ == v@.take(i as int),
    {
        push_char(&mut r, v[i]);
        proof {
            assert(v@.take(i + 1) =~= v@.take(i as int).push(v@[i as int]));
        }
    }
    proof {
        assert(v@.take(len as int) =~= v@);
    }
    r
}

/// What the platform's Unicode lower-casing returns for a string; the result
/// depends on the characters alone.
pub uninterp spec fn lower_of(s: Seq<char>) -> Seq<char>;

/// Relies on str::to_lowercase: the result depends on the characters alone.
#[verifier::external_body]
pub(crate) fn lowercase(s: &str) -> (r: String)
    ensures
        r@ == lower_of(s@),
{
    s.to_lowercase()
}

/// Characters a tag name may not contain: they separate or decorate tags.
pub open spec fn is_strip_char(c: char) -> bool {
    c == ' ' || c == ','
}

/// ASCII whitespace trimmed from the ends of a tag name.
pub open spec fn is_trim_char(c: char) -> bool {
    c == ' ' || c == '\t' || c == '\n' || c == '\r'
}

/// Remove every separator character.
pub open spec fn strip_seps(s: Seq<char>) -> Seq<char> {
    s.filter(|c: char| !is_strip_char(c))
}

/// Drop leading whitespace.
pub open spec fn trim_front(s: Seq<char>) -> Seq<char>
    decreases s.len(),
{
    if s.len() > 0 && is_trim_char(s[0]) {
        trim_front(s.drop_first())
    } else {
        s
    }
}

/// Drop trailing whitespace.
pub open spec fn trim_back(s: Seq<char>) -> Seq<char>
    decreases s.len(),
{
    if s.len() > 0 && is_trim_char(s.last()) {
        trim_back(s.drop_last())
    } else {
        s
    }
}

/// The normal form of a tag name in bulk import: lower-cased, separators
/// removed, whitespace trimmed from the ends.
pub open spec fn normal_tag(s: Seq<char>) -> Seq<char> {
    trim_back(trim_front(strip_seps(lower_of(s))))
}

/// Trimming from the front keeps a suffix: it equals `skip(k)` for the first
/// index `k` that holds a non-trimmed character.
proof fn lemma_trim_front_skip(s: Seq<char>, k: int)
    requires
        0 <= k <= s.len(),
        forall|j: int| 0 <= j < k ==> is_trim_char(s[j]),
        k == s.len() || !is_trim_char(s[k]),
    ensures
        trim_front(s) == s.skip(k),
    decreases k,
{
    if k == 0 {
        assert(s.skip(0) =~= s);
    } else {
        assert(is_trim_char(s[0]));
        lemma_trim_front_skip(s.drop_first(), k - 1);
        assert(s.drop_first().skip(k - 1) =~= s.skip(k));
    }
}

/// Trimming from the back keeps a prefix: it equals `take(m)` for the last
/// index `m` before which a non-trimmed character stands.
proof fn lemma_trim_back_take(s: Seq<char>, m: int)
    requires
        0 <= m <= s.len(),
        forall|j: int| m <= j < s.len() ==> is_trim_char(s[j]),
        m == 0 || !is_trim_char(s[m - 1]),
    ensures
        trim_back(s) == s.take(m),
    decreases s.len() - m,
{
    if m == s.len() {
        if s.len() == 0 {
            assert(s.take(0) =~= s);
        } else if is_trim_char(s.last()) {
            lemma_trim_back_take(s.drop_last(), m - 1);
            assert(s.drop_last().take(m - 1) =~= s.take(m - 1));
            assert(m - 1 == s.drop_last().len());
            assert(false);
        } else {
            assert(s.take(m) =~= s);
        }
    } else {
        assert(is_trim_char(s.last()));
        lemma_trim_back_take(s.drop_last(), m);
        assert(s.drop_last().take(m) =~= s.take(m));
    }
}

/// Normalize one tag name for bulk import.
pub fn normalize_tag(s: &str) -> (r: String)
    ensures
        r@ == normal_tag(s@),
{
    let low = lowercase(s);
    let chars = string_to_chars(low.as_str());
    let mut kept: Vec<char> = Vec::new();
    let len = chars.len();
    for i in 0..len
        invariant
            len == chars@.len(),
            kept@ == chars@.take(i as int).filter(|c: char| !is_strip_char(c)),
    {
        let c = chars[i];
        proof {
            crate::seq_util::lemma_take_push(chars@, i as int);
            crate::seq_util::lemma_filter_push(
                chars@.take(i as int),
                chars@[i as int],
                |ch: char| !is_strip_char(ch),
            );
        }
        if !(c == ' ' || c == ',') {
            kept.push(c);
        }
    }
    proof {
        assert(chars@.take(len as int) =~= chars@);
    }
    let stripped_len = kept.len();
    let mut start: usize = 0;
    while start < stripped_len && (kept[start] == ' ' || kept[start] == '\t' || kept[start] == '\n'
        || kept[start] == '\r')
        invariant
            stripped_len == kept@.len(),
            0 <= start <= stripped_len,
            forall|j: int| 0 <= j < start ==> is_trim_char(kept@[j]),
        decreases stripped_len - start,
    {
        start = start + 1;
    }
    let mut end: usize = stripped_len;
    while end > start && (kept[end - 1] == ' ' || kept[end - 1] == '\t' || kept[end - 1] == '\n'
        || kept[end - 1] == '\r')
        invariant
            stripped_len == kept@.len(),
            start <= end <= stripped_len,
            forall|j: int| end <= j < stripped_len ==> is_trim_char(kept@[j]),
        decreases end,
    {
        end = end - 1;
    }
    let mut out: Vec<char> = Vec::new();
    let mut i = start;
    while i < end
        invariant
            stripped_len == kept@.len(),
            start <= i <= end <= stripped_len,
            out@ == kept@.subrange(start as int, i as int),
        decreases end - i,
    {
        out.push(kept[i]);
        proof {
            assert(kept@.subrange(start as int, i + 1) =~= kept@.subrange(
                start as int,
                i as int,
            ).push(kept@[i as int]));
        }
        i = i + 1;
    }
    proof {
        let stripped = strip_seps(lower_of(s@));
        assert(kept@ == stripped);
        if start == stripped_len {
            lemma_trim_front_skip(stripped, start as int);
            assert(trim_front(stripped) =~= Seq::<char>::empty());
            assert(trim_back(trim_front(stripped)) == trim_front(stripped));
            assert(out@ =~= normal_tag(s@));
        } else {
            lemma_trim_front_skip(stripped, start as int);
            let mid = stripped.skip(start as int);
            assert(end > start ==> !is_trim_char(kept@[end - 1]));
            lemma_trim_back_take(mid, end - start);
            assert(mid.take(end - start) =~= kept@.subrange(start as int, end as int));
            assert(out@ == normal_tag(s@));
        }
    }
    chars_to_string(&out)
}

} // verus!
