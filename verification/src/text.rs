//! Text operations on character sequences, each with its mathematical definition.
use vstd::prelude::*;
use crate::lexer::{str_chars, string_from_chars};

verus! {

/// `s` without its leading characters equal to `c`.
pub open spec fn trim_start_spec(s: Seq<char>, c: char) -> Seq<char>
    decreases s.len(),
{
    if s.len() > 0 && s[0] == c {
        trim_start_spec(s.drop_first(), c)
    } else {
        s
    }
}

/// `s` without its trailing characters equal to `c`.
pub open spec fn trim_end_spec(s: Seq<char>, c: char) -> Seq<char>
    decreases s.len(),
{
    if s.len() > 0 && s.last() == c {
        trim_end_spec(s.drop_last(), c)
    } else {
        s
    }
}

/// `s` without the characters equal to `c` at either end (std's `trim_matches`).
pub open spec fn trim_matches_spec(s: Seq<char>, c: char) -> Seq<char> {
    trim_end_spec(trim_start_spec(s, c), c)
}

/// `s` with every occurrence of `pat` replaced by `rep`, scanning from the left
/// and not re-examining replaced text (std's `str::replace`). The empty pattern
/// occurs before every character and at the end.
pub open spec fn replace_spec(s: Seq<char>, pat: Seq<char>, rep: Seq<char>) -> Seq<char>
    decreases s.len(),
{
    if pat.len() == 0 {
        if s.len() == 0 {
            rep
        } else {
            rep + seq![s[0]] + replace_spec(s.skip(1), pat, rep)
        }
    } else if s.len() < pat.len() {
        s
    } else if s.subrange(0, pat.len() as int) == pat {
        rep + replace_spec(s.skip(pat.len() as int), pat, rep)
    } else {
        seq![s[0]] + replace_spec(s.skip(1), pat, rep)
    }
}

/// The escapes `\n`, `\t` and `\"` of a regular string literal, resolved in
/// that order.
pub open spec fn unescape_spec(s: Seq<char>) -> Seq<char> {
    replace_spec(
        replace_spec(replace_spec(s, "\\n"@, "\n"@), "\\t"@, "\t"@),
        "\\\""@,
        "\""@,
    )
}

/// The value of a string literal token: the text between `"""` and `"""`
/// verbatim, or the text between the quotes of a regular literal with its
/// escapes resolved.
pub open spec fn string_literal_value(raw: Seq<char>) -> Seq<char> {
    if raw.len() >= 6 && raw[0] == '"' && raw[1] == '"' && raw[2] == '"' {
        raw.subrange(3, raw.len() - 3)
    } else if raw.len() >= 2 {
        unescape_spec(raw.subrange(1, raw.len() - 1))
    } else {
        raw
    }
}

/// Executable `trim_matches_spec`.
pub fn trim_matches_chars(s: &Vec<char>, c: char) -> (r: Vec<char>)
    ensures
        r@ == trim_matches_spec(s@, c),
{
    let len = s.len();
    let mut a: usize = 0;
    assert(s@.subrange(0, len as int) =~= s@);
    while a < len && s[a] == c
        invariant
            a <= len == s.len(),
            trim_start_spec(s@.subrange(a as int, len as int), c) == trim_start_spec(s@, c),
        decreases len - a,
    {
        assert(s@.subrange(a as int, len as int).drop_first() =~= s@.subrange(a + 1, len as int));
        a = a + 1;
    }
    let mut b: usize = len;
    while b > a && s[b - 1] == c
        invariant
            a <= b <= len == s.len(),
            trim_end_spec(s@.subrange(a as int, b as int), c) == trim_matches_spec(s@, c),
        decreases b - a,
    {
        assert(s@.subrange(a as int, b as int).drop_last() =~= s@.subrange(a as int, b - 1));
        b = b - 1;
    }
    crate::lexer::chars_between(s, a, b)
}

/// Executable `trim_matches_spec` on strings.
pub fn trim_matches(s: &str, c: char) -> (r: String)
    ensures
        r@ == trim_matches_spec(s@, c),
{
    let v = str_chars(s);
    string_from_chars(&trim_matches_chars(&v, c))
}

/// Whether `pat` occurs in `s` at index `i`.
fn occurs_at(s: &Vec<char>, i: usize, pat: &Vec<char>) -> (b: bool)
    requires
        i <= s.len(),
    ensures
        b == (pat.len() <= s.len() - i && s@.subrange(i as int, i + pat.len()) == pat@),
{
    if pat.len() > s.len() - i {
        return false;
    }
    let mut k: usize = 0;
    while k < pat.len()
        invariant
            k <= pat.len() <= s.len() - i,
            forall|m: int| 0 <= m < k ==> s@[i + m] == pat@[m],
        decreases pat.len() - k,
    {
        if s[i + k] != pat[k] {
            assert(s@.subrange(i as int, i + pat.len())[k as int] != pat@[k as int]);
            return false;
        }
        k = k + 1;
    }
    assert(s@.subrange(i as int, i + pat.len()) =~= pat@);
    true
}

/// Appends the characters of `src` to `out`.
pub(crate) fn append_chars(out: &mut Vec<char>, src: &Vec<char>)
    ensures
        final(out)@ == old(out)@ + src@,
{
    let mut k: usize = 0;
    while k < src.len()
        invariant
            k <= src.len(),
            out@ == old(out)@ + src@.subrange(0, k as int),
        decreases src.len() - k,
    {
        out.push(src[k]);
        assert(src@.subrange(0, k + 1) =~= src@.subrange(0, k as int).push(src@[k as int]));
        k = k + 1;
    }
    assert(src@.subrange(0, src.len() as int) =~= src@);
}

/// `replace_spec` for the empty pattern: `rep` before every character and at the end.
fn interleave_chars(s: &Vec<char>, rep: &Vec<char>) -> (r: Vec<char>)
    ensures
        r@ == replace_spec(s@, Seq::empty(), rep@),
{
    let mut out: Vec<char> = Vec::new();
    let mut i: usize = 0;
    assert(s@.skip(0) =~= s@);
    while i < s.len()
        invariant
            i <= s.len(),
            out@ + replace_spec(s@.skip(i as int), Seq::empty(), rep@) == replace_spec(
                s@,
                Seq::empty(),
                rep@,
            ),
        decreases s.len() - i,
    {
        let ghost rest = s@.skip(i as int);
        let ghost out0 = out@;
        append_chars(&mut out, rep);
        out.push(s[i]);
        assert(rest.skip(1) =~= s@.skip(i + 1));
        assert(out0 + replace_spec(rest, Seq::empty(), rep@) =~= out@ + replace_spec(
            s@.skip(i + 1),
            Seq::empty(),
            rep@,
        ));
        i = i + 1;
    }
    let ghost out0 = out@;
    append_chars(&mut out, rep);
    assert(s@.skip(i as int) =~= Seq::<char>::empty());
    out
}

/// Executable `replace_spec`.
pub fn replace_chars(s: &Vec<char>, pat: &Vec<char>, rep: &Vec<char>) -> (r: Vec<char>)
    ensures
        r@ == replace_spec(s@, pat@, rep@),
{
    if pat.len() == 0 {
        assert(pat@ =~= Seq::<char>::empty());
        return interleave_chars(s, rep);
    }
    let mut out: Vec<char> = Vec::new();
    let mut i: usize = 0;
    assert(s@.skip(0) =~= s@);
    while i < s.len()
        invariant
            i <= s.len(),
            pat.len() > 0,
            out@ + replace_spec(s@.skip(i as int), pat@, rep@) == replace_spec(s@, pat@, rep@),
        decreases s.len() - i,
    {
        let ghost rest = s@.skip(i as int);
        if occurs_at(s, i, pat) {
            assert(rest.subrange(0, pat.len() as int) =~= s@.subrange(i as int, i + pat.len()));
            assert(rest.skip(pat.len() as int) =~= s@.skip(i + pat.len()));
            let ghost out0 = out@;
            append_chars(&mut out, rep);
            assert(out0 + replace_spec(rest, pat@, rep@) =~= out@ + replace_spec(
                s@.skip(i + pat.len()),
                pat@,
                rep@,
            ));
            i = i + pat.len();
        } else {
            proof {
                if rest.len() >= pat.len() {
                    assert(rest.subrange(0, pat.len() as int) =~= s@.subrange(i as int, i + pat.len()));
                }
            }
            assert(rest.skip(1) =~= s@.skip(i + 1));
            let ghost out0 = out@;
            out.push(s[i]);
            assert(out0 + replace_spec(rest, pat@, rep@) =~= out@ + replace_spec(
                s@.skip(i + 1),
                pat@,
                rep@,
            ));
            i = i + 1;
        }
    }
    assert(out@ + replace_spec(s@.skip(i as int), pat@, rep@) =~= out@);
    out
}

/// Executable `string_literal_value`.
pub fn string_literal_value_exec(raw: &str) -> (r: String)
    ensures
        r@ == string_literal_value(raw@),
{
    let v = str_chars(raw);
    let n = v.len();
    if n >= 6 && v[0] == '"' && v[1] == '"' && v[2] == '"' {
        string_from_chars(&crate::lexer::chars_between(&v, 3, n - 3))
    } else if n >= 2 {
        let inner = crate::lexer::chars_between(&v, 1, n - 1);
        let a = replace_chars(&inner, &str_chars("\\n"), &str_chars("\n"));
        let b = replace_chars(&a, &str_chars("\\t"), &str_chars("\t"));
        let c = replace_chars(&b, &str_chars("\\\""), &str_chars("\""));
        string_from_chars(&c)
    } else {
        string_from_chars(&v)
    }
}

/// `s` with every occurrence of `pat` replaced by `rep` (std's `str::replace`).
pub fn replace(s: &str, pat: &str, rep: &str) -> (r: String)
    ensures
        r@ == replace_spec(s@, pat@, rep@),
{
    string_from_chars(&replace_chars(&str_chars(s), &str_chars(pat), &str_chars(rep)))
}

/// Unicode `White_Space` (std's `char::is_whitespace`).
pub open spec fn is_whitespace(c: char) -> bool {
    ('\t' <= c && c <= '\r') || c == ' ' || c == '\u{85}' || c == '\u{a0}' || c == '\u{1680}' || (
    '\u{2000}' <= c && c <= '\u{200a}') || c == '\u{2028}' || c == '\u{2029}' || c == '\u{202f}'
        || c == '\u{205f}' || c == '\u{3000}'
}

pub fn is_whitespace_exec(c: char) -> (b: bool)
    ensures
        b == is_whitespace(c),
{
    ('\t' <= c && c <= '\r') || c == ' ' || c == '\u{85}' || c == '\u{a0}' || c == '\u{1680}' || (
    '\u{2000}' <= c && c <= '\u{200a}') || c == '\u{2028}' || c == '\u{2029}' || c == '\u{202f}'
        || c == '\u{205f}' || c == '\u{3000}'
}

/// `s` without leading whitespace (std's `trim_start`).
pub open spec fn trim_start_ws(s: Seq<char>) -> Seq<char>
    decreases s.len(),
{
    if s.len() > 0 && is_whitespace(s[0]) {
        trim_start_ws(s.drop_first())
    } else {
        s
    }
}

/// `s` without trailing whitespace (std's `trim_end`).
pub open spec fn trim_end_ws(s: Seq<char>) -> Seq<char>
    decreases s.len(),
{
    if s.len() > 0 && is_whitespace(s.last()) {
        trim_end_ws(s.drop_last())
    } else {
        s
    }
}

/// `s` without whitespace at either end (std's `trim`).
pub open spec fn trim_ws(s: Seq<char>) -> Seq<char> {
    trim_end_ws(trim_start_ws(s))
}

/// Executable `trim_start_ws`.
pub fn trim_start_chars(s: &Vec<char>) -> (r: Vec<char>)
    ensures
        r@ == trim_start_ws(s@),
{
    let len = s.len();
    let mut a: usize = 0;
    assert(s@.subrange(0, len as int) =~= s@);
    while a < len && is_whitespace_exec(s[a])
        invariant
            a <= len == s.len(),
            trim_start_ws(s@.subrange(a as int, len as int)) == trim_start_ws(s@),
        decreases len - a,
    {
        assert(s@.subrange(a as int, len as int).drop_first() =~= s@.subrange(a + 1, len as int));
        a = a + 1;
    }
    crate::lexer::chars_between(s, a, len)
}

/// Executable `trim_ws`.
pub fn trim_chars(s: &Vec<char>) -> (r: Vec<char>)
    ensures
        r@ == trim_ws(s@),
{
    let t = trim_start_chars(s);
    let len = t.len();
    let mut b: usize = len;
    assert(t@.subrange(0, len as int) =~= t@);
    while b > 0 && is_whitespace_exec(t[b - 1])
        invariant
            b <= len == t.len(),
            trim_end_ws(t@.subrange(0, b as int)) == trim_ws(s@),
        decreases b,
    {
        assert(t@.subrange(0, b as int).drop_last() =~= t@.subrange(0, b - 1));
        b = b - 1;
    }
    crate::lexer::chars_between(&t, 0, b)
}

/// `s` without whitespace at either end, on strings.
pub fn trim(s: &str) -> (r: String)
    ensures
        r@ == trim_ws(s@),
{
    string_from_chars(&trim_chars(&str_chars(s)))
}

/// What std's `str::to_uppercase` returns for a text (Unicode case mapping).
pub uninterp spec fn uppercase_spec(s: Seq<char>) -> Seq<char>;

/// Whether every character of a text is ASCII.
pub open spec fn is_ascii_text(s: Seq<char>) -> bool {
    forall|i: int| 0 <= i < s.len() ==> (#[trigger] s[i] as u32) < 128
}

/// The ASCII upper case of a character: `a`..`z` become `A`..`Z`, every other
/// character is kept.
pub open spec fn ascii_upper_char(c: char) -> char {
    if 'a' <= c && c <= 'z' {
        ((c as u32) - 32) as char
    } else {
        c
    }
}

/// A text with each character in ASCII upper case.
pub open spec fn ascii_upper(s: Seq<char>) -> Seq<char> {
    Seq::new(s.len(), |i: int| ascii_upper_char(s[i]))
}

/// Calls std's `str::to_uppercase`. Taken on trust: the result is
/// `uppercase_spec` of the text, a function of the text alone, and for an
/// ASCII text it is the text with `a`..`z` turned into `A`..`Z` and every
/// other character kept; the Unicode case mapping of other text is left
/// unstated.
#[verifier::external_body]
pub(crate) fn to_uppercase(s: &str) -> (r: String)
    ensures
        r@ == uppercase_spec(s@),
        is_ascii_text(s@) ==> r@ == ascii_upper(s@),
{
    s.to_uppercase()
}

/// The concatenation of the characters of `parts`, in order.
pub fn concat(parts: &Vec<&str>) -> (r: String)
    ensures
        r@ == concat_spec(Seq::new(parts@.len(), |i: int| parts@[i]@)),
{
    let mut out: Vec<char> = Vec::new();
    let mut i: usize = 0;
    let ghost views = Seq::new(parts@.len(), |i: int| parts@[i]@);
    while i < parts.len()
        invariant
            i <= parts.len(),
            views == Seq::new(parts@.len(), |i: int| parts@[i]@),
            out@ == concat_spec(views.subrange(0, i as int)),
        decreases parts.len() - i,
    {
        append_chars(&mut out, &str_chars(parts[i]));
        assert(views.subrange(0, i + 1).drop_last() =~= views.subrange(0, i as int));
        i = i + 1;
    }
    assert(views.subrange(0, i as int) =~= views);
    string_from_chars(&out)
}

/// The concatenation of a sequence of texts.
pub open spec fn concat_spec(parts: Seq<Seq<char>>) -> Seq<char>
    decreases parts.len(),
{
    if parts.len() == 0 {
        Seq::empty()
    } else {
        concat_spec(parts.drop_last()) + parts.last()
    }
}

/// `s` with each character equal to `c` replaced by `rep` and every other
/// character kept.
pub open spec fn substitute_char(s: Seq<char>, c: char, rep: Seq<char>) -> Seq<char>
    decreases s.len(),
{
    if s.len() == 0 {
        Seq::empty()
    } else {
        substitute_char(s.drop_last(), c, rep) + if s.last() == c {
            rep
        } else {
            seq![s.last()]
        }
    }
}

/// `rep` before each character of `s` and once more at its end.
pub open spec fn surround_chars(s: Seq<char>, rep: Seq<char>) -> Seq<char>
    decreases s.len(),
{
    if s.len() == 0 {
        rep
    } else {
        surround_chars(s.drop_last(), rep) + seq![s.last()] + rep
    }
}

proof fn lemma_substitute_front(s: Seq<char>, c: char, rep: Seq<char>)
    requires
        s.len() > 0,
    ensures
        substitute_char(s, c, rep) == (if s[0] == c {
            rep
        } else {
            seq![s[0]]
        }) + substitute_char(s.skip(1), c, rep),
    decreases s.len(),
{
    let head = if s[0] == c {
        rep
    } else {
        seq![s[0]]
    };
    if s.len() == 1 {
        assert(s.drop_last() =~= Seq::<char>::empty());
        assert(s.skip(1) =~= Seq::<char>::empty());
        assert(substitute_char(s, c, rep) =~= head);
        assert(head + Seq::<char>::empty() =~= head);
    } else {
        let d = s.drop_last();
        lemma_substitute_front(d, c, rep);
        assert(d[0] == s[0]);
        assert(d.skip(1) =~= s.skip(1).drop_last());
        assert(s.skip(1).last() == s.last());
        assert(substitute_char(s, c, rep) =~= head + substitute_char(s.skip(1), c, rep));
    }
}

proof fn lemma_surround_front(s: Seq<char>, rep: Seq<char>)
    requires
        s.len() > 0,
    ensures
        surround_chars(s, rep) == rep + seq![s[0]] + surround_chars(s.skip(1), rep),
    decreases s.len(),
{
    if s.len() == 1 {
        assert(s.drop_last() =~= Seq::<char>::empty());
        assert(s.skip(1) =~= Seq::<char>::empty());
    } else {
        let d = s.drop_last();
        lemma_surround_front(d, rep);
        assert(d[0] == s[0]);
        assert(d.skip(1) =~= s.skip(1).drop_last());
        assert(s.skip(1).last() == s.last());
        assert(surround_chars(s, rep) =~= rep + seq![s[0]] + surround_chars(s.skip(1), rep));
    }
}

/// Replacing one character replaces every occurrence of it and keeps every
/// other character in place.
pub proof fn law_replace_char(s: Seq<char>, c: char, rep: Seq<char>)
    ensures
        replace_spec(s, seq![c], rep) == substitute_char(s, c, rep),
    decreases s.len(),
{
    let pat = seq![c];
    if s.len() > 0 {
        law_replace_char(s.skip(1), c, rep);
        lemma_substitute_front(s, c, rep);
        if s[0] == c {
            assert(s.subrange(0, 1) =~= pat);
        } else {
            assert(s.subrange(0, 1) != pat) by {
                assert(s.subrange(0, 1)[0] == s[0]);
            }
        }
    }
}

/// Replacing the empty text puts the replacement before every character and
/// at the end.
pub proof fn law_replace_empty(s: Seq<char>, rep: Seq<char>)
    ensures
        replace_spec(s, Seq::empty(), rep) == surround_chars(s, rep),
    decreases s.len(),
{
    if s.len() > 0 {
        law_replace_empty(s.skip(1), rep);
        lemma_surround_front(s, rep);
    }
}

/// Replacing a pattern that does not occur changes nothing.
pub proof fn law_replace_absent(s: Seq<char>, pat: Seq<char>, rep: Seq<char>)
    requires
        pat.len() > 0,
        forall|i: int| 0 <= i && i + pat.len() <= s.len() ==> #[trigger] s.subrange(i, i + pat.len()) != pat,
    ensures
        replace_spec(s, pat, rep) == s,
    decreases s.len(),
{
    if s.len() >= pat.len() {
        let t = s.skip(1);
        assert forall|i: int| 0 <= i && i + pat.len() <= t.len() implies #[trigger] t.subrange(
            i,
            i + pat.len(),
        ) != pat by {
            assert(t.subrange(i, i + pat.len()) =~= s.subrange(i + 1, i + 1 + pat.len()));
        }
        law_replace_absent(t, pat, rep);
        let z: int = 0;
        assert(s.subrange(z, z + pat.len()) != pat);
        assert(s =~= seq![s[0]] + t);
    }
}

} // verus!
