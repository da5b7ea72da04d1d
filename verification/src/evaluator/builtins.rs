//! The text built-ins of the runtime: truthiness of text, `json_extract`,
//! `clean`, `str_replace`, and the fence stripping that `parse_json` does
//! before it hands text to the JSON reader.
use vstd::prelude::*;
use crate::lexer::{str_chars, string_from_chars, chars_between};
use crate::text::{
    trim_ws, trim_start_ws, trim_chars, trim_start_chars, trim_matches_spec, trim_matches_chars,
    replace, replace_spec, is_whitespace, trim_end_ws, trim_start_spec, trim_end_spec,
};

verus! {

/// Whether a text counts as true in a condition: it is not empty, `false`, or
/// the idle marker `EMPTY_PING`.
pub open spec fn text_truthy(s: Seq<char>) -> bool {
    s.len() > 0 && s != "false"@ && s != "EMPTY_PING"@
}

/// Executable `text_truthy`.
pub fn text_is_truthy(s: &str) -> (b: bool)
    ensures
        b == text_truthy(s@),
{
    let t = String::from_str(s);
    let empty = t == String::new();
    proof {
        if s@.len() == 0 {
            assert(s@ =~= Seq::<char>::empty());
        }
    }
    !empty && !(t == String::from_str("false")) && !(t == String::from_str("EMPTY_PING"))
}

/// Whether `pat` occurs in `s` at index `i`.
pub open spec fn occurs_at(s: Seq<char>, pat: Seq<char>, i: int) -> bool {
    0 <= i && i + pat.len() <= s.len() && s.subrange(i, i + pat.len()) == pat
}

/// The first index at or after `i` where `pat` occurs.
pub open spec fn find_from(s: Seq<char>, pat: Seq<char>, i: int) -> Option<int>
    decreases s.len() + 1 - i,
{
    if i < 0 || i + pat.len() > s.len() {
        None
    } else if occurs_at(s, pat, i) {
        Some(i)
    } else {
        find_from(s, pat, i + 1)
    }
}

/// The part of `s` before its first `,` or `}` (all of `s` if neither occurs).
pub open spec fn before_delimiter(s: Seq<char>) -> Seq<char>
    decreases s.len(),
{
    if s.len() == 0 || s[0] == ',' || s[0] == '}' {
        Seq::empty()
    } else {
        seq![s[0]] + before_delimiter(s.drop_first())
    }
}

/// The key pattern `"key":` that `json_extract` looks for.
pub open spec fn json_key_pattern(key: Seq<char>) -> Seq<char> {
    seq!['"'] + key + seq!['"', ':']
}

/// The raw value of `key` in a JSON text, read the simple way: the text after
/// the first `"key":`, up to the next `,` or `}`, trimmed, without quotes.
pub open spec fn json_extract_spec(json: Seq<char>, key: Seq<char>) -> Option<Seq<char>> {
    let pat = json_key_pattern(key);
    match find_from(json, pat, 0) {
        None => None,
        Some(i) => Some(
            trim_matches_spec(
                trim_ws(before_delimiter(trim_start_ws(json.skip(i + pat.len())))),
                '"',
            ),
        ),
    }
}

proof fn lemma_before_delimiter_closed(v: Seq<char>)
    requires
        forall|i: int| 0 <= i < v.len() ==> v[i] != ',' && v[i] != '}',
    ensures
        before_delimiter(v + seq!['}']) == v,
    decreases v.len(),
{
    if v.len() > 0 {
        assert((v + seq!['}']).drop_first() =~= v.drop_first() + seq!['}']);
        lemma_before_delimiter_closed(v.drop_first());
        assert(v =~= seq![v[0]] + v.drop_first());
    } else {
        assert(v + seq!['}'] =~= seq!['}']);
    }
}

/// A value written under a key is what reading that key gives back: for any
/// key, and a value with no `,`, `}` or `"` in it and no whitespace at its
/// ends, `json_extract` of `{"key": value}` is the value.
pub proof fn law_json_read_after_write(key: Seq<char>, value: Seq<char>)
    requires
        forall|i: int|
            0 <= i < value.len() ==> value[i] != ',' && value[i] != '}' && value[i] != '"',
        value.len() > 0 ==> !is_whitespace(value[0]) && !is_whitespace(value.last()),
    ensures
        json_extract_spec(
            seq!['{'] + json_key_pattern(key) + seq![' '] + value + seq!['}'],
            key,
        ) == Some(value),
{
    let pat = json_key_pattern(key);
    let json = seq!['{'] + pat + seq![' '] + value + seq!['}'];
    assert(!occurs_at(json, pat, 0)) by {
        assert(json.subrange(0, pat.len() as int)[0] == '{');
    }
    assert(json.subrange(1, 1 + pat.len() as int) =~= pat);
    assert(find_from(json, pat, 1) == Some(1int));
    assert(find_from(json, pat, 0) == Some(1int));
    let rest = json.skip(1 + pat.len() as int);
    assert(rest =~= seq![' '] + value + seq!['}']);
    assert(rest.drop_first() =~= value + seq!['}']);
    assert(trim_start_ws(rest) == trim_start_ws(value + seq!['}']));
    if value.len() > 0 {
        assert((value + seq!['}'])[0] == value[0]);
    } else {
        assert((value + seq!['}'])[0] == '}');
    }
    assert(trim_start_ws(value + seq!['}']) == value + seq!['}']);
    lemma_before_delimiter_closed(value);
    assert(trim_start_ws(value) == value);
    assert(trim_end_ws(value) == value);
    assert(trim_start_spec(value, '"') == value);
    assert(trim_end_spec(value, '"') == value);
}

/// A text made of whitespace only.
pub open spec fn all_whitespace(w: Seq<char>) -> bool {
    forall|i: int| 0 <= i < w.len() ==> is_whitespace(#[trigger] w[i])
}

proof fn lemma_trim_start_skips(w: Seq<char>, x: Seq<char>)
    requires
        all_whitespace(w),
    ensures
        trim_start_ws(w + x) == trim_start_ws(x),
    decreases w.len(),
{
    if w.len() > 0 {
        assert(is_whitespace(w[0]));
        assert((w + x)[0] == w[0]);
        assert((w + x).drop_first() =~= w.drop_first() + x);
        lemma_trim_start_skips(w.drop_first(), x);
    } else {
        assert(w + x =~= x);
    }
}

proof fn lemma_trim_end_skips(x: Seq<char>, w: Seq<char>)
    requires
        all_whitespace(w),
    ensures
        trim_end_ws(x + w) == trim_end_ws(x),
    decreases w.len(),
{
    if w.len() > 0 {
        assert(is_whitespace(w.last()));
        assert((x + w).last() == w.last());
        assert((x + w).drop_last() =~= x + w.drop_last());
        lemma_trim_end_skips(x, w.drop_last());
    } else {
        assert(x + w =~= x);
    }
}

proof fn lemma_before_delimiter_prefix(v: Seq<char>, rest: Seq<char>)
    requires
        forall|i: int| 0 <= i < v.len() ==> v[i] != ',' && v[i] != '}',
        rest.len() > 0 && rest[0] == '}',
    ensures
        before_delimiter(v + rest) == v,
    decreases v.len(),
{
    if v.len() > 0 {
        assert((v + rest).drop_first() =~= v.drop_first() + rest);
        lemma_before_delimiter_prefix(v.drop_first(), rest);
        assert(v =~= seq![v[0]] + v.drop_first());
    } else {
        assert(v + rest =~= rest);
    }
}

/// The raw value read for a key in `{"key":` + `w1` + `v` + `w2` + `}`,
/// before its quotes are taken off, is `v`.
proof fn lemma_json_raw_value(key: Seq<char>, w1: Seq<char>, value: Seq<char>, w2: Seq<char>)
    requires
        all_whitespace(w1),
        all_whitespace(w2),
        forall|i: int| 0 <= i < value.len() ==> value[i] != ',' && value[i] != '}',
        value.len() > 0 ==> !is_whitespace(value[0]) && !is_whitespace(value.last()),
    ensures
        ({
            let pat = json_key_pattern(key);
            let json = seq!['{'] + pat + w1 + value + w2 + seq!['}'];
            &&& find_from(json, pat, 0) == Some(1int)
            &&& trim_ws(before_delimiter(trim_start_ws(json.skip(1 + pat.len() as int)))) == value
        }),
{
    let pat = json_key_pattern(key);
    let json = seq!['{'] + pat + w1 + value + w2 + seq!['}'];
    assert(!occurs_at(json, pat, 0)) by {
        assert(json.subrange(0, pat.len() as int)[0] == '{');
    }
    assert(json.subrange(1, 1 + pat.len() as int) =~= pat);
    assert(find_from(json, pat, 1) == Some(1int));
    assert(find_from(json, pat, 0) == Some(1int));
    let tail = value + w2 + seq!['}'];
    assert(json.skip(1 + pat.len() as int) =~= w1 + tail);
    lemma_trim_start_skips(w1, tail);
    if value.len() > 0 {
        assert(tail[0] == value[0]);
        assert(trim_start_ws(tail) == tail);
    } else {
        assert(tail =~= w2 + seq!['}']);
        lemma_trim_start_skips(w2, seq!['}']);
        assert(trim_start_ws(seq!['}']) == seq!['}']);
    }
    let vw = value + w2;
    assert(forall|i: int| 0 <= i < vw.len() ==> vw[i] != ',' && vw[i] != '}') by {
        assert forall|i: int| 0 <= i < vw.len() implies vw[i] != ',' && vw[i] != '}' by {
            if i >= value.len() {
                assert(vw[i] == w2[i - value.len()]);
                assert(is_whitespace(w2[i - value.len()]));
            }
        }
    }
    assert(tail =~= vw + seq!['}']);
    lemma_before_delimiter_prefix(vw, seq!['}']);
    if value.len() > 0 {
        assert(before_delimiter(trim_start_ws(w1 + tail)) == vw);
        assert(vw[0] == value[0]);
        assert(trim_start_ws(vw) == vw);
        lemma_trim_end_skips(value, w2);
        assert(trim_end_ws(value) == value);
    } else {
        assert(before_delimiter(seq!['}']) == Seq::<char>::empty());
        assert(trim_ws(Seq::<char>::empty()) == Seq::<char>::empty());
        assert(value =~= Seq::<char>::empty());
    }
}

/// The value read for a key never keeps the whitespace around it: for any
/// key, any whitespace `w1` and `w2`, and a value with no `,`, `}` or `"` in
/// it and no whitespace at its ends, `json_extract` of
/// `{"key":` + `w1` + value + `w2` + `}` is the value.
pub proof fn law_json_value_trimmed(key: Seq<char>, w1: Seq<char>, value: Seq<char>, w2: Seq<char>)
    requires
        all_whitespace(w1),
        all_whitespace(w2),
        forall|i: int|
            0 <= i < value.len() ==> value[i] != ',' && value[i] != '}' && value[i] != '"',
        value.len() > 0 ==> !is_whitespace(value[0]) && !is_whitespace(value.last()),
    ensures
        json_extract_spec(seq!['{'] + json_key_pattern(key) + w1 + value + w2 + seq!['}'], key)
            == Some(value),
{
    lemma_json_raw_value(key, w1, value, w2);
    assert(trim_start_spec(value, '"') == value);
    assert(trim_end_spec(value, '"') == value);
}

proof fn lemma_fenced_body(b: Seq<char>)
    requires
        b.len() > 0 ==> !is_whitespace(b[0]) && !is_whitespace(b.last()),
    ensures
        trim_start_pat(seq!['\n'] + b + seq!['\n', '`', '`', '`'], "```json"@) == seq!['\n'] + b
            + seq!['\n', '`', '`', '`'],
        trim_start_pat(seq!['\n'] + b + seq!['\n', '`', '`', '`'], "```"@) == seq!['\n'] + b
            + seq!['\n', '`', '`', '`'],
        trim_ws(trim_end_pat(seq!['\n'] + b + seq!['\n', '`', '`', '`'], "```"@)) == b,
{
    reveal_strlit("```json");
    reveal_strlit("```");
    let x = seq!['\n'] + b + seq!['\n', '`', '`', '`'];
    let f3 = "```"@;
    let f7 = "```json"@;
    assert(x[0] == '\n');
    assert(!starts_with(x, f7)) by {
        if f7.len() <= x.len() {
            assert(x.subrange(0, f7.len() as int)[0] == '\n');
        }
    }
    assert(!starts_with(x, f3)) by {
        assert(x.subrange(0, 3)[0] == '\n');
    }
    let y = seq!['\n'] + b + seq!['\n'];
    assert(x.subrange(x.len() - 3, x.len() as int) =~= f3);
    assert(ends_with(x, f3));
    assert(x.subrange(0, x.len() - f3.len()) =~= y);
    assert(!ends_with(y, f3)) by {
        if y.len() >= 3 {
            assert(y.subrange(y.len() - 3, y.len() as int)[2] == y.last());
            assert(y.last() == '\n');
        }
    }
    assert(trim_end_pat(y, f3) == y);
    assert(trim_end_pat(x, f3) == y);
    let nl = seq!['\n'];
    assert(all_whitespace(nl)) by {
        assert(is_whitespace('\n'));
    }
    assert(y =~= nl + (b + nl));
    lemma_trim_start_skips(nl, b + nl);
    lemma_trim_end_skips(b, nl);
    if b.len() > 0 {
        assert((b + nl)[0] == b[0]);
        assert(trim_start_ws(b + nl) == b + nl);
        assert(trim_end_ws(b) == b);
    } else {
        assert(b + nl =~= nl);
        lemma_trim_start_skips(nl, Seq::<char>::empty());
        assert(nl + Seq::<char>::empty() =~= nl);
        assert(trim_start_ws(Seq::<char>::empty()) == Seq::<char>::empty());
        assert(trim_end_ws(Seq::<char>::empty()) == Seq::<char>::empty());
        assert(b =~= Seq::<char>::empty());
    }
}

/// Fences around a model's JSON answer are taken off: for any body with no
/// whitespace at its ends, and any whitespace around the whole text,
/// `parse_json` reads the body out of both "```json" + newline + body +
/// newline + "```" and "```" + newline + body + newline + "```".
pub proof fn law_json_fences_removed(w1: Seq<char>, b: Seq<char>, w2: Seq<char>)
    requires
        all_whitespace(w1),
        all_whitespace(w2),
        b.len() > 0 ==> !is_whitespace(b[0]) && !is_whitespace(b.last()),
    ensures
        strip_json_fences_spec(
            w1 + seq!['`', '`', '`', 'j', 's', 'o', 'n', '\n'] + b + seq!['\n', '`', '`', '`'] + w2,
        ) == b,
        strip_json_fences_spec(w1 + seq!['`', '`', '`', '\n'] + b + seq!['\n', '`', '`', '`'] + w2)
            == b,
{
    reveal_strlit("```json");
    reveal_strlit("```");
    let f3 = "```"@;
    let f7 = "```json"@;
    let x = seq!['\n'] + b + seq!['\n', '`', '`', '`'];
    lemma_fenced_body(b);
    // with a language tag
    let s7 = seq!['`', '`', '`', 'j', 's', 'o', 'n'] + x;
    assert(w1 + seq!['`', '`', '`', 'j', 's', 'o', 'n', '\n'] + b + seq!['\n', '`', '`', '`'] + w2
        =~= w1 + (s7 + w2));
    lemma_trim_start_skips(w1, s7 + w2);
    assert((s7 + w2)[0] == '`');
    assert(trim_start_ws(s7 + w2) == s7 + w2);
    lemma_trim_end_skips(s7, w2);
    assert(s7.last() == '`');
    assert(s7.len() > 0);
    assert(trim_end_ws(s7) == s7);
    assert(trim_ws(w1 + (s7 + w2)) == s7);
    assert(s7.subrange(0, 7) =~= f7);
    assert(starts_with(s7, f7));
    assert(s7.skip(7) =~= x);
    assert(trim_start_pat(s7, f7) == x);
    // without a language tag
    let s3 = seq!['`', '`', '`'] + x;
    assert(w1 + seq!['`', '`', '`', '\n'] + b + seq!['\n', '`', '`', '`'] + w2 =~= w1 + (s3
        + w2));
    lemma_trim_start_skips(w1, s3 + w2);
    assert((s3 + w2)[0] == '`');
    assert(trim_start_ws(s3 + w2) == s3 + w2);
    lemma_trim_end_skips(s3, w2);
    assert(s3.last() == '`');
    assert(trim_end_ws(s3) == s3);
    assert(trim_ws(w1 + (s3 + w2)) == s3);
    assert(!starts_with(s3, f7)) by {
        if f7.len() <= s3.len() {
            assert(s3.subrange(0, 7)[3] == '\n');
        }
    }
    assert(trim_start_pat(s3, f7) == s3);
    assert(s3.subrange(0, 3) =~= f3);
    assert(s3.skip(3) =~= x);
    assert(trim_start_pat(s3, f3) == trim_start_pat(x, f3));
}

fn occurs_at_exec(s: &Vec<char>, pat: &Vec<char>, i: usize) -> (b: bool)
    requires
        i <= s.len(),
    ensures
        b == occurs_at(s@, pat@, i as int),
{
    if pat.len() > s.len() - i {
        return false;
    }
    let mut k: usize = 0;
    while k < pat.len()
        invariant
            k <= pat.len() <= s.len() - i,
            forall|m: int| 0 <= m < k ==> s@[i + m] == pat@[m],
        decreases pat.len() - k,
    {
        if s[i + k] != pat[k] {
            assert(s@.subrange(i as int, i + pat.len())[k as int] != pat@[k as int]);
            return false;
        }
        k = k + 1;
    }
    assert(s@.subrange(i as int, i + pat.len()) =~= pat@);
    true
}

/// Executable `find_from(s, pat, 0)`.
pub fn find_first(s: &Vec<char>, pat: &Vec<char>) -> (r: Option<usize>)
    ensures
        match r {
            Some(i) => find_from(s@, pat@, 0) == Some(i as int),
            None => find_from(s@, pat@, 0) is None,
        },
{
    let mut i: usize = 0;
    while i <= s.len() && pat.len() <= s.len() - i
        invariant
            i <= s.len() + 1,
            find_from(s@, pat@, i as int) == find_from(s@, pat@, 0),
        decreases s.len() + 1 - i,
    {
        if occurs_at_exec(s, pat, i) {
            return Some(i);
        }
        proof {
            if pat.len() == 0 {
                assert(s@.subrange(i as int, i as int) =~= pat@);
            }
        }
        i = i + 1;
    }
    None
}

fn before_delimiter_chars(s: &Vec<char>) -> (r: Vec<char>)
    ensures
        r@ == before_delimiter(s@),
{
    let mut k: usize = 0;
    assert(s@.skip(0) =~= s@);
    while k < s.len() && s[k] != ',' && s[k] != '}'
        invariant
            k <= s.len(),
            before_delimiter(s@) == s@.subrange(0, k as int) + before_delimiter(s@.skip(k as int)),
        decreases s.len() - k,
    {
        assert(s@.skip(k as int).drop_first() =~= s@.skip(k + 1));
        assert(s@.subrange(0, k + 1) =~= s@.subrange(0, k as int) + seq![s@[k as int]]);
        k = k + 1;
    }
    assert(before_delimiter(s@.skip(k as int)) =~= Seq::<char>::empty());
    chars_between(s, 0, k)
}

/// `json_extract(json, key)`: the raw value of `key` in a JSON text, or `None`
/// when `"key":` does not occur.
pub fn json_extract(json: &str, key: &str) -> (r: Option<String>)
    ensures
        match r {
            Some(v) => json_extract_spec(json@, key@) == Some(v@),
            None => json_extract_spec(json@, key@) is None,
        },
{
    let s = str_chars(json);
    let mut pat: Vec<char> = Vec::new();
    pat.push('"');
    crate::text::append_chars(&mut pat, &str_chars(key));
    pat.push('"');
    pat.push(':');
    assert(pat@ =~= json_key_pattern(key@));
    match find_first(&s, &pat) {
        None => None,
        Some(i) => {
            proof {
                lemma_find_from_bounds(s@, pat@, 0);
                assert(find_from(s@, pat@, 0) == Some(i as int));
                assert(i + pat@.len() <= s@.len());
            }
            assert(i + pat.len() <= s.len());
            let rest = chars_between(&s, i + pat.len(), s.len());
            assert(rest@ =~= s@.skip(i + pat.len()));
            let v = trim_matches_chars(&trim_chars(&before_delimiter_chars(&trim_start_chars(&rest))), '"');
            Some(string_from_chars(&v))
        },
    }
}

proof fn lemma_find_from_bounds(s: Seq<char>, pat: Seq<char>, i: int)
    ensures
        find_from(s, pat, i) matches Some(j) ==> i <= j && j + pat.len() <= s.len(),
    decreases s.len() + 1 - i,
{
    if !(i < 0 || i + pat.len() > s.len()) && !occurs_at(s, pat, i) {
        lemma_find_from_bounds(s, pat, i + 1);
    }
}

/// Whether `s` starts with `pat`.
pub open spec fn starts_with(s: Seq<char>, pat: Seq<char>) -> bool {
    pat.len() <= s.len() && s.subrange(0, pat.len() as int) == pat
}

/// Whether `s` ends with `pat`.
pub open spec fn ends_with(s: Seq<char>, pat: Seq<char>) -> bool {
    pat.len() <= s.len() && s.subrange(s.len() - pat.len(), s.len() as int) == pat
}

/// `clean(text)`: the text trimmed, without a leading code-fence line and
/// without a trailing code fence.
pub open spec fn clean_spec(t: Seq<char>) -> Seq<char> {
    let c0 = trim_ws(t);
    let c1 = if starts_with(c0, "```"@) {
        match find_from(c0, seq!['\n'], 0) {
            Some(i) => c0.skip(i + 1),
            None => c0,
        }
    } else {
        c0
    };
    if ends_with(c1, "```"@) {
        trim_ws(c1.subrange(0, c1.len() - 3))
    } else {
        c1
    }
}

fn starts_with_exec(s: &Vec<char>, pat: &Vec<char>) -> (b: bool)
    ensures
        b == starts_with(s@, pat@),
{
    occurs_at_exec(s, pat, 0)
}

fn ends_with_exec(s: &Vec<char>, pat: &Vec<char>) -> (b: bool)
    ensures
        b == ends_with(s@, pat@),
{
    if pat.len() > s.len() {
        false
    } else {
        occurs_at_exec(s, pat, s.len() - pat.len())
    }
}

/// Executable `clean_spec`.
pub fn clean_text(t: &str) -> (r: String)
    ensures
        r@ == clean_spec(t@),
{
    proof {
        reveal_strlit("```");
    }
    let fence = str_chars("```");
    let c0 = trim_chars(&str_chars(t));
    let c1 = if starts_with_exec(&c0, &fence) {
        let mut nl: Vec<char> = Vec::new();
        nl.push('\n');
        assert(nl@ =~= seq!['\n']);
        match find_first(&c0, &nl) {
            Some(i) => {
                proof {
                    lemma_find_from_bounds(c0@, nl@, 0);
                    assert(find_from(c0@, nl@, 0) == Some(i as int));
                    assert(i + nl@.len() <= c0@.len());
                }
                assert(i + 1 <= c0.len());
                let v = chars_between(&c0, i + 1, c0.len());
                assert(v@ =~= c0@.skip(i + 1));
                v
            },
            None => c0,
        }
    } else {
        c0
    };
    if ends_with_exec(&c1, &fence) {
        string_from_chars(&trim_chars(&chars_between(&c1, 0, c1.len() - 3)))
    } else {
        string_from_chars(&c1)
    }
}

/// `s` without repeated leading occurrences of `pat` (std's `trim_start_matches`).
pub open spec fn trim_start_pat(s: Seq<char>, pat: Seq<char>) -> Seq<char>
    decreases s.len(),
{
    if pat.len() > 0 && starts_with(s, pat) {
        trim_start_pat(s.skip(pat.len() as int), pat)
    } else {
        s
    }
}

/// `s` without repeated trailing occurrences of `pat` (std's `trim_end_matches`).
pub open spec fn trim_end_pat(s: Seq<char>, pat: Seq<char>) -> Seq<char>
    decreases s.len(),
{
    if pat.len() > 0 && ends_with(s, pat) {
        trim_end_pat(s.subrange(0, s.len() - pat.len()), pat)
    } else {
        s
    }
}

fn trim_start_pat_exec(s: &Vec<char>, pat: &Vec<char>) -> (r: Vec<char>)
    ensures
        r@ == trim_start_pat(s@, pat@),
{
    if pat.len() == 0 {
        return chars_between(s, 0, s.len());
    }
    let mut a: usize = 0;
    assert(s@.skip(0) =~= s@);
    while a <= s.len() && occurs_at_exec(s, pat, a)
        invariant
            a <= s.len(),
            pat.len() > 0,
            trim_start_pat(s@.skip(a as int), pat@) == trim_start_pat(s@, pat@),
        decreases s.len() - a,
    {
        assert(s@.skip(a as int).subrange(0, pat.len() as int) =~= s@.subrange(a as int, a + pat.len()));
        assert(s@.skip(a as int).skip(pat.len() as int) =~= s@.skip(a + pat.len()));
        a = a + pat.len();
    }
    proof {
        if pat.len() <= s@.skip(a as int).len() {
            assert(s@.skip(a as int).subrange(0, pat.len() as int) =~= s@.subrange(a as int, a + pat.len()));
        }
    }
    let v = chars_between(s, a, s.len());
    assert(v@ =~= s@.skip(a as int));
    v
}

fn trim_end_pat_exec(s: &Vec<char>, pat: &Vec<char>) -> (r: Vec<char>)
    ensures
        r@ == trim_end_pat(s@, pat@),
{
    if pat.len() == 0 {
        return chars_between(s, 0, s.len());
    }
    let mut b: usize = s.len();
    assert(s@.subrange(0, b as int) =~= s@);
    while b >= pat.len() && occurs_at_exec(s, pat, b - pat.len())
        invariant
            b <= s.len(),
            pat.len() > 0,
            trim_end_pat(s@.subrange(0, b as int), pat@) == trim_end_pat(s@, pat@),
        decreases b,
    {
        let ghost t = s@.subrange(0, b as int);
        assert(t.subrange(t.len() - pat.len(), t.len() as int) =~= s@.subrange(
            b - pat.len(),
            b as int,
        ));
        assert(t.subrange(0, t.len() - pat.len()) =~= s@.subrange(0, b - pat.len()));
        b = b - pat.len();
    }
    proof {
        let t = s@.subrange(0, b as int);
        if pat.len() <= t.len() {
            assert(t.subrange(t.len() - pat.len(), t.len() as int) =~= s@.subrange(
                b - pat.len(),
                b as int,
            ));
        }
    }
    chars_between(s, 0, b)
}

/// What `parse_json` reads: the text trimmed, without leading "```json" and
/// "```" fences and trailing "```" fences, trimmed again.
pub open spec fn strip_json_fences_spec(s: Seq<char>) -> Seq<char> {
    trim_ws(
        trim_end_pat(trim_start_pat(trim_start_pat(trim_ws(s), "```json"@), "```"@), "```"@),
    )
}

/// Executable `strip_json_fences_spec`.
pub fn strip_json_fences(s: &str) -> (r: String)
    ensures
        r@ == strip_json_fences_spec(s@),
{
    let a = trim_chars(&str_chars(s));
    let b = trim_start_pat_exec(&a, &str_chars("```json"));
    let c = trim_start_pat_exec(&b, &str_chars("```"));
    let d = trim_end_pat_exec(&c, &str_chars("```"));
    string_from_chars(&trim_chars(&d))
}

/// `str_replace(base, old, new)`: every occurrence of `old` in `base` replaced
/// by `new`.
pub fn str_replace(base: &str, old: &str, new: &str) -> (r: String)
    ensures
        r@ == replace_spec(base@, old@, new@),
{
    replace(base, old, new)
}

proof fn lemma_find_newline(s: Seq<char>, i: int, m: int)
    requires
        0 <= i <= m < s.len(),
        forall|k: int| i <= k < m ==> s[k] != '\n',
        s[m] == '\n',
    ensures
        find_from(s, seq!['\n'], i) == Some(m),
    decreases m - i,
{
    let nl = seq!['\n'];
    if i < m {
        assert(!occurs_at(s, nl, i)) by {
            assert(s.subrange(i, i + 1)[0] == s[i]);
        }
        lemma_find_newline(s, i + 1, m);
    } else {
        assert(s.subrange(i, i + 1) =~= nl);
    }
}

/// `clean` takes a fenced block apart: for any whitespace around it, any
/// language tag without a line break, and any body with no whitespace at its
/// ends, `clean` of "```" + tag + newline + body + newline + "```" is the body.
pub proof fn law_clean_fenced_block(w1: Seq<char>, tag: Seq<char>, b: Seq<char>, w2: Seq<char>)
    requires
        all_whitespace(w1),
        all_whitespace(w2),
        forall|k: int| 0 <= k < tag.len() ==> tag[k] != '\n',
        b.len() > 0 ==> !is_whitespace(b[0]) && !is_whitespace(b.last()),
    ensures
        clean_spec(
            w1 + seq!['`', '`', '`'] + tag + seq!['\n'] + b + seq!['\n', '`', '`', '`'] + w2,
        ) == b,
{
    reveal_strlit("```");
    let f3 = "```"@;
    let c0 = seq!['`', '`', '`'] + tag + seq!['\n'] + b + seq!['\n', '`', '`', '`'];
    let t = w1 + seq!['`', '`', '`'] + tag + seq!['\n'] + b + seq!['\n', '`', '`', '`'] + w2;
    assert(t =~= w1 + (c0 + w2));
    lemma_trim_start_skips(w1, c0 + w2);
    assert((c0 + w2)[0] == '`');
    assert(trim_start_ws(c0 + w2) == c0 + w2);
    lemma_trim_end_skips(c0, w2);
    assert(c0.last() == '`');
    assert(trim_end_ws(c0) == c0);
    assert(trim_ws(t) == c0);
    assert(c0.subrange(0, 3) =~= f3);
    assert(starts_with(c0, f3));
    let m: int = 3 + tag.len() as int;
    assert(c0[m] == '\n');
    assert forall|k: int| 0 <= k < m implies c0[k] != '\n' by {
        if k >= 3 {
            assert(c0[k] == tag[k - 3]);
        }
    }
    lemma_find_newline(c0, 0, m);
    let c1 = c0.skip(m + 1);
    assert(c1 =~= b + seq!['\n', '`', '`', '`']);
    assert(c1.subrange(c1.len() - 3, c1.len() as int) =~= f3);
    assert(ends_with(c1, f3));
    let nl = seq!['\n'];
    assert(c1.subrange(0, c1.len() - 3) =~= b + nl);
    assert(all_whitespace(nl)) by {
        assert(is_whitespace('\n'));
    }
    lemma_trim_end_skips(b, nl);
    if b.len() > 0 {
        assert((b + nl)[0] == b[0]);
        assert(trim_start_ws(b + nl) == b + nl);
        assert(trim_end_ws(b) == b);
    } else {
        assert(b + nl =~= nl);
        lemma_trim_start_skips(nl, Seq::<char>::empty());
        assert(nl + Seq::<char>::empty() =~= nl);
        assert(trim_end_ws(Seq::<char>::empty()) == Seq::<char>::empty());
        assert(b =~= Seq::<char>::empty());
    }
}

/// Text that is not fenced is only trimmed: when the trimmed text neither
/// starts nor ends with "```", `clean` gives the trimmed text.
pub proof fn law_clean_unfenced(t: Seq<char>)
    requires
        !starts_with(trim_ws(t), "```"@),
        !ends_with(trim_ws(t), "```"@),
    ensures
        clean_spec(t) == trim_ws(t),
{
}

/// The truthiness of a text: exactly the empty text, `false` and
/// `EMPTY_PING` count as false.
pub proof fn law_text_truthiness(s: Seq<char>)
    ensures
        text_truthy(s) <==> !(s.len() == 0 || s == "false"@ || s == "EMPTY_PING"@),
{
}

/// A quoted value is read without its quotes and the whitespace around it:
/// for any key, any whitespace `w1` and `w2`, and a value with no `,`, `}` or
/// `"` in it, `json_extract` of `{"key":` + `w1` + `"value"` + `w2` + `}` is
/// the value.
pub proof fn law_json_quoted_value(key: Seq<char>, w1: Seq<char>, value: Seq<char>, w2: Seq<char>)
    requires
        all_whitespace(w1),
        all_whitespace(w2),
        forall|i: int|
            0 <= i < value.len() ==> value[i] != ',' && value[i] != '}' && value[i] != '"',
    ensures
        json_extract_spec(
            seq!['{'] + json_key_pattern(key) + w1 + seq!['"'] + value + seq!['"'] + w2 + seq!['}'],
            key,
        ) == Some(value),
{
    let q = seq!['"'] + value + seq!['"'];
    assert forall|i: int| 0 <= i < q.len() implies q[i] != ',' && q[i] != '}' by {
        if 0 < i < q.len() - 1 {
            assert(q[i] == value[i - 1]);
        }
    }
    assert(!is_whitespace(q[0]) && !is_whitespace(q.last()));
    assert(seq!['{'] + json_key_pattern(key) + w1 + seq!['"'] + value + seq!['"'] + w2 + seq!['}']
        =~= seq!['{'] + json_key_pattern(key) + w1 + q + w2 + seq!['}']);
    lemma_json_raw_value(key, w1, q, w2);
    assert(q.drop_first().drop_last() =~= value);
    assert(trim_start_spec(q, '"') == trim_start_spec(q.drop_first(), '"'));
    assert(q.drop_first() =~= value + seq!['"']);
    if value.len() > 0 {
        assert((value + seq!['"'])[0] == value[0]);
        assert(trim_start_spec(value + seq!['"'], '"') == value + seq!['"']);
        assert((value + seq!['"']).drop_last() =~= value);
        assert(trim_end_spec(value + seq!['"'], '"') == trim_end_spec(value, '"'));
        assert(trim_end_spec(value, '"') == value);
    } else {
        assert(value + seq!['"'] =~= seq!['"']);
        let one = seq!['"'];
        assert(one.drop_first() =~= Seq::<char>::empty());
        assert(one.len() > 0 && one[0] == '"');
        assert(trim_start_spec(one, '"') == trim_start_spec(one.drop_first(), '"'));
        assert(trim_start_spec(Seq::<char>::empty(), '"') == Seq::<char>::empty());
        assert(trim_start_spec(one, '"') == Seq::<char>::empty());
        assert(trim_end_spec(Seq::<char>::empty(), '"') == Seq::<char>::empty());
        assert(value =~= Seq::<char>::empty());
    }
}

} // verus!
