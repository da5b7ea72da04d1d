//! How collection values are printed: the items of an array in order, the
//! entries of a dictionary in sorted order, texts inside them in quotes.
//!
//! The runtime renders each element itself (numbers need floating point) and
//! hands the pieces over; this module decides the quoting, the separators and
//! the order.
use vstd::prelude::*;
use crate::lexer::{str_chars, string_from_chars};
use crate::text::append_chars;

verus! {

/// An element of a collection, already rendered: a text value (printed in
/// quotes) or any other value (printed as it is).
pub enum Piece {
    Text(String),
    Plain(String),
}

pub open spec fn quoted(s: Seq<char>) -> Seq<char> {
    seq!['"'] + s + seq!['"']
}

/// How an element appears inside a collection.
pub open spec fn piece_text(p: Piece) -> Seq<char> {
    match p {
        Piece::Text(s) => quoted(s@),
        Piece::Plain(s) => s@,
    }
}

pub open spec fn separator() -> Seq<char> {
    seq![',', ' ']
}

/// The parts with `", "` between each two of them.
pub open spec fn join_spec(parts: Seq<Seq<char>>) -> Seq<char>
    decreases parts.len(),
{
    if parts.len() == 0 {
        Seq::empty()
    } else if parts.len() == 1 {
        parts[0]
    } else {
        join_spec(parts.drop_last()) + separator() + parts.last()
    }
}

/// The text of an array: its elements in order, between brackets.
pub open spec fn array_text(items: Seq<Piece>) -> Seq<char> {
    seq!['['] + join_spec(Seq::new(items.len(), |i: int| piece_text(items[i]))) + seq![']']
}

/// The text of one dictionary entry: `"key": value`.
pub open spec fn entry_text(key: Seq<char>, value: Piece) -> Seq<char> {
    quoted(key) + seq![':', ' '] + piece_text(value)
}

pub open spec fn entry_texts(entries: Seq<(String, Piece)>) -> Seq<Seq<char>> {
    Seq::new(entries.len(), |i: int| entry_text(entries[i].0@, entries[i].1))
}

/// The text of a dictionary whose entry texts come in `order`.
pub open spec fn dictionary_text(order: Seq<Seq<char>>) -> Seq<char> {
    seq!['{'] + join_spec(order) + seq!['}']
}

/// `a` comes before `b` character by character (by code point), a proper
/// prefix first. This is the order of `String`, since UTF-8 keeps the order of
/// code points.
pub open spec fn text_lt(a: Seq<char>, b: Seq<char>) -> bool
    decreases a.len(),
{
    if b.len() == 0 {
        false
    } else if a.len() == 0 {
        true
    } else if a[0] != b[0] {
        a[0] < b[0]
    } else {
        text_lt(a.drop_first(), b.drop_first())
    }
}

pub open spec fn text_le(a: Seq<char>, b: Seq<char>) -> bool {
    text_lt(a, b) || a == b
}

pub open spec fn is_sorted(s: Seq<Seq<char>>) -> bool {
    forall|i: int, j: int| 0 <= i < j < s.len() ==> text_le(#[trigger] s[i], #[trigger] s[j])
}

pub open spec fn chars_view(v: Seq<Vec<char>>) -> Seq<Seq<char>> {
    Seq::new(v.len(), |i: int| v[i]@)
}

/// Two texts are either in order or in the reverse order.
pub proof fn lemma_text_total(a: Seq<char>, b: Seq<char>)
    ensures
        text_le(a, b) || text_le(b, a),
    decreases a.len(),
{
    if a.len() == 0 || b.len() == 0 {
        if a.len() == 0 && b.len() == 0 {
            assert(a =~= b);
        }
    } else if a[0] == b[0] {
        lemma_text_total(a.drop_first(), b.drop_first());
        if a.drop_first() == b.drop_first() {
            assert(a =~= seq![a[0]] + a.drop_first());
            assert(b =~= seq![b[0]] + b.drop_first());
        }
    }
}

pub proof fn lemma_text_lt_transitive(a: Seq<char>, b: Seq<char>, c: Seq<char>)
    requires
        text_lt(a, b),
        text_lt(b, c),
    ensures
        text_lt(a, c),
    decreases a.len(),
{
    if a.len() > 0 && a[0] == b[0] && b[0] == c[0] {
        lemma_text_lt_transitive(a.drop_first(), b.drop_first(), c.drop_first());
    }
}

pub proof fn lemma_text_le_transitive(a: Seq<char>, b: Seq<char>, c: Seq<char>)
    requires
        text_le(a, b),
        text_le(b, c),
    ensures
        text_le(a, c),
{
    if text_lt(a, b) && text_lt(b, c) {
        lemma_text_lt_transitive(a, b, c);
    }
}

proof fn lemma_text_lt_irreflexive(a: Seq<char>)
    ensures
        !text_lt(a, a),
    decreases a.len(),
{
    if a.len() > 0 {
        lemma_text_lt_irreflexive(a.drop_first());
    }
}

/// Two texts each in order before the other are equal.
proof fn lemma_text_le_antisymmetric(a: Seq<char>, b: Seq<char>)
    requires
        text_le(a, b),
        text_le(b, a),
    ensures
        a == b,
{
    if text_lt(a, b) && text_lt(b, a) {
        lemma_text_lt_transitive(a, b, a);
        lemma_text_lt_irreflexive(a);
    }
}

/// A sorted sequence is the only sorted arrangement of its texts.
pub proof fn lemma_sorted_unique(a: Seq<Seq<char>>, b: Seq<Seq<char>>)
    requires
        is_sorted(a),
        is_sorted(b),
        a.to_multiset() == b.to_multiset(),
    ensures
        a == b,
    decreases a.len(),
{
    broadcast use vstd::seq_lib::to_multiset_len;
    broadcast use vstd::seq_lib::to_multiset_contains;

    assert(a.len() == a.to_multiset().len() && b.len() == b.to_multiset().len());
    if a.len() == 0 {
        assert(a =~= b);
    } else {
        let x = a[0];
        let y = b[0];
        assert(a.contains(x));
        assert(a.to_multiset().count(x) > 0);
        assert(b.to_multiset().count(x) > 0);
        assert(b.contains(x));
        let k = choose|k: int| 0 <= k < b.len() && b[k] == x;
        if k > 0 {
            assert(text_le(b[0], b[k]));
        }
        assert(b.contains(y));
        assert(b.to_multiset().count(y) > 0);
        assert(a.to_multiset().count(y) > 0);
        assert(a.contains(y));
        let j = choose|j: int| 0 <= j < a.len() && a[j] == y;
        if j > 0 {
            assert(text_le(a[0], a[j]));
        }
        lemma_text_le_antisymmetric(x, y);
        vstd::seq_lib::to_multiset_remove(a, 0);
        vstd::seq_lib::to_multiset_remove(b, 0);
        assert(a.remove(0) =~= a.drop_first());
        assert(b.remove(0) =~= b.drop_first());
        assert(is_sorted(a.drop_first())) by {
            assert forall|i: int, j: int| 0 <= i < j < a.drop_first().len() implies text_le(
                #[trigger] a.drop_first()[i],
                #[trigger] a.drop_first()[j],
            ) by {
                assert(a.drop_first()[i] == a[i + 1] && a.drop_first()[j] == a[j + 1]);
            }
        }
        assert(is_sorted(b.drop_first())) by {
            assert forall|i: int, j: int| 0 <= i < j < b.drop_first().len() implies text_le(
                #[trigger] b.drop_first()[i],
                #[trigger] b.drop_first()[j],
            ) by {
                assert(b.drop_first()[i] == b[i + 1] && b.drop_first()[j] == b[j + 1]);
            }
        }
        lemma_sorted_unique(a.drop_first(), b.drop_first());
        assert(a =~= seq![x] + a.drop_first());
        assert(b =~= seq![y] + b.drop_first());
    }
}

/// `r` is how a dictionary with these entries prints: its entry texts in
/// sorted order, between braces.
pub open spec fn dictionary_printed_as(entries: Seq<(String, Piece)>, r: Seq<char>) -> bool {
    exists|order: Seq<Seq<char>>|
        is_sorted(order) && order.to_multiset() == entry_texts(entries).to_multiset() && r
            == dictionary_text(order)
}

/// Printing a dictionary does not depend on the order its entries come in:
/// entry lists that hold the same entry texts print the same.
pub proof fn law_dictionary_text_order_free(
    e1: Seq<(String, Piece)>,
    e2: Seq<(String, Piece)>,
    r1: Seq<char>,
    r2: Seq<char>,
)
    requires
        entry_texts(e1).to_multiset() == entry_texts(e2).to_multiset(),
        dictionary_printed_as(e1, r1),
        dictionary_printed_as(e2, r2),
    ensures
        r1 == r2,
{
    let o1 = choose|order: Seq<Seq<char>>|
        is_sorted(order) && order.to_multiset() == entry_texts(e1).to_multiset() && r1
            == dictionary_text(order);
    let o2 = choose|order: Seq<Seq<char>>|
        is_sorted(order) && order.to_multiset() == entry_texts(e2).to_multiset() && r2
            == dictionary_text(order);
    lemma_sorted_unique(o1, o2);
}

/// Whether `a` comes before `b`.
pub fn text_less(a: &Vec<char>, b: &Vec<char>) -> (r: bool)
    ensures
        r == text_lt(a@, b@),
{
    let mut i: usize = 0;
    assert(a@.skip(0) =~= a@ && b@.skip(0) =~= b@);
    while i < a.len() && i < b.len() && a[i] == b[i]
        invariant
            i <= a.len(),
            i <= b.len(),
            text_lt(a@, b@) == text_lt(a@.skip(i as int), b@.skip(i as int)),
        decreases a.len() - i,
    {
        assert(a@.skip(i as int).drop_first() =~= a@.skip(i + 1));
        assert(b@.skip(i as int).drop_first() =~= b@.skip(i + 1));
        i = i + 1;
    }
    if i == b.len() {
        false
    } else if i == a.len() {
        true
    } else {
        a[i] < b[i]
    }
}

/// Inserts `x` into the sorted `r` after every text that does not come after it.
fn insert_sorted(r: &mut Vec<Vec<char>>, x: Vec<char>)
    requires
        is_sorted(chars_view(old(r)@)),
    ensures
        is_sorted(chars_view(final(r)@)),
        chars_view(final(r)@).to_multiset() == chars_view(old(r)@).to_multiset().insert(x@),
{
    let ghost s = chars_view(r@);
    let mut k: usize = 0;
    while k < r.len() && !text_less(&x, &r[k])
        invariant
            k <= r.len(),
            s == chars_view(r@),
            forall|i: int| 0 <= i < k ==> !text_lt(x@, #[trigger] s[i]),
        decreases r.len() - k,
    {
        k = k + 1;
    }
    let ghost xv = x@;
    r.insert(k, x);
    let ghost t = chars_view(r@);
    assert(t =~= s.insert(k as int, xv));
    proof {
        broadcast use vstd::seq_lib::to_multiset_insert;

        assert forall|i: int, j: int| 0 <= i < j < t.len() implies text_le(
            #[trigger] t[i],
            #[trigger] t[j],
        ) by {
            if j < k {
                assert(t[i] == s[i] && t[j] == s[j]);
            } else if j == k {
                assert(t[j] == xv && t[i] == s[i]);
                lemma_text_total(xv, s[i]);
            } else if i > k {
                assert(t[i] == s[i - 1] && t[j] == s[j - 1]);
            } else if i == k {
                assert(t[i] == xv && t[j] == s[j - 1]);
                assert(text_lt(xv, s[k as int]));
                if j - 1 > k {
                    assert(text_le(s[k as int], s[j - 1]));
                }
                lemma_text_le_transitive(xv, s[k as int], s[j - 1]);
            } else {
                assert(t[i] == s[i] && t[j] == s[j - 1]);
            }
        }
    }
}

/// The texts in sorted order.
pub fn sort_texts(v: &Vec<Vec<char>>) -> (r: Vec<Vec<char>>)
    ensures
        is_sorted(chars_view(r@)),
        chars_view(r@).to_multiset() == chars_view(v@).to_multiset(),
{
    broadcast use vstd::seq_lib::to_multiset_build;

    let mut r: Vec<Vec<char>> = Vec::new();
    let mut i: usize = 0;
    assert(chars_view(r@).to_multiset() =~= chars_view(v@).subrange(0, 0).to_multiset()) by {
        broadcast use vstd::seq_lib::group_to_multiset_ensures;

        assert(chars_view(r@) =~= Seq::<Seq<char>>::empty());
        assert(chars_view(v@).subrange(0, 0) =~= Seq::<Seq<char>>::empty());
    }
    while i < v.len()
        invariant
            i <= v.len(),
            is_sorted(chars_view(r@)),
            chars_view(r@).to_multiset() == chars_view(v@).subrange(0, i as int).to_multiset(),
        decreases v.len() - i,
    {
        assert(chars_view(v@).subrange(0, i + 1) =~= chars_view(v@).subrange(0, i as int).push(
            v@[i as int]@,
        ));
        let x = v[i].clone();
        assert(x@ == v@[i as int]@);
        insert_sorted(&mut r, x);
        proof {
            vstd::seq_lib::to_multiset_build(chars_view(v@).subrange(0, i as int), v@[i as int]@);
        }
        i = i + 1;
    }
    assert(chars_view(v@).subrange(0, i as int) =~= chars_view(v@));
    r
}

/// The parts with `", "` between each two of them.
pub fn join_texts(parts: &Vec<Vec<char>>) -> (r: Vec<char>)
    ensures
        r@ == join_spec(chars_view(parts@)),
{
    let mut out: Vec<char> = Vec::new();
    let mut i: usize = 0;
    while i < parts.len()
        invariant
            i <= parts.len(),
            out@ == join_spec(chars_view(parts@).subrange(0, i as int)),
        decreases parts.len() - i,
    {
        let ghost pre = chars_view(parts@).subrange(0, i as int);
        assert(chars_view(parts@).subrange(0, i + 1) =~= pre.push(parts@[i as int]@));
        assert(pre.push(parts@[i as int]@).drop_last() =~= pre);
        if i > 0 {
            out.push(',');
            out.push(' ');
        }
        append_chars(&mut out, &parts[i]);
        proof {
            if i == 0 {
                assert(out@ =~= parts@[0]@);
            } else {
                assert(out@ =~= join_spec(pre) + separator() + parts@[i as int]@);
            }
        }
        i = i + 1;
    }
    assert(chars_view(parts@).subrange(0, i as int) =~= chars_view(parts@));
    out
}

fn quoted_chars(s: &str) -> (r: Vec<char>)
    ensures
        r@ == quoted(s@),
{
    let mut out: Vec<char> = Vec::new();
    out.push('"');
    append_chars(&mut out, &str_chars(s));
    out.push('"');
    assert(out@ =~= quoted(s@));
    out
}

fn piece_chars(p: &Piece) -> (r: Vec<char>)
    ensures
        r@ == piece_text(*p),
{
    match p {
        Piece::Text(s) => quoted_chars(s.as_str()),
        Piece::Plain(s) => str_chars(s.as_str()),
    }
}

/// The text of an array whose elements were rendered as `items`.
pub fn render_array(items: &Vec<Piece>) -> (r: String)
    ensures
        r@ == array_text(items@),
{
    let mut parts: Vec<Vec<char>> = Vec::new();
    let mut i: usize = 0;
    while i < items.len()
        invariant
            i <= items.len(),
            chars_view(parts@) == Seq::new(i as nat, |k: int| piece_text(items@[k])),
        decreases items.len() - i,
    {
        let pc = piece_chars(&items[i]);
        let ghost before = parts@;
        parts.push(pc);
        assert(parts@ == before.push(pc));
        assert(chars_view(parts@) =~= chars_view(before).push(pc@));
        assert(chars_view(parts@) =~= Seq::new((i + 1) as nat, |k: int| piece_text(items@[k])));
        i = i + 1;
    }
    let mut out: Vec<char> = Vec::new();
    out.push('[');
    append_chars(&mut out, &join_texts(&parts));
    out.push(']');
    assert(out@ =~= array_text(items@));
    string_from_chars(&out)
}

/// The text of a dictionary whose values were rendered as `entries`: its
/// entries in sorted order.
pub fn render_dictionary(entries: &Vec<(String, Piece)>) -> (r: String)
    ensures
        dictionary_printed_as(entries@, r@),
{
    let mut parts: Vec<Vec<char>> = Vec::new();
    let mut i: usize = 0;
    while i < entries.len()
        invariant
            i <= entries.len(),
            chars_view(parts@) == entry_texts(entries@).subrange(0, i as int),
        decreases entries.len() - i,
    {
        let entry = &entries[i];
        let mut t = quoted_chars(entry.0.as_str());
        t.push(':');
        t.push(' ');
        append_chars(&mut t, &piece_chars(&entry.1));
        assert(t@ =~= entry_text(entries@[i as int].0@, entries@[i as int].1));
        let ghost before = parts@;
        parts.push(t);
        assert(parts@ == before.push(t));
        assert(chars_view(parts@) =~= chars_view(before).push(t@));
        assert(chars_view(parts@) =~= entry_texts(entries@).subrange(0, i + 1));
        i = i + 1;
    }
    assert(entry_texts(entries@).subrange(0, i as int) =~= entry_texts(entries@));
    let sorted = sort_texts(&parts);
    let mut out: Vec<char> = Vec::new();
    out.push('{');
    append_chars(&mut out, &join_texts(&sorted));
    out.push('}');
    assert(out@ =~= dictionary_text(chars_view(sorted@)));
    string_from_chars(&out)
}

/// How collections print: a text element is quoted and any other is kept,
/// elements are separated by a comma and a space inside brackets, and a
/// dictionary entry is its quoted key, a colon and a space, then its value.
pub proof fn law_render_shapes(a: Piece, b: Piece, k: Seq<char>)
    ensures
        array_text(seq![a, b]) == seq!['['] + piece_text(a) + seq![',', ' '] + piece_text(b)
            + seq![']'],
        array_text(seq![a]) == seq!['['] + piece_text(a) + seq![']'],
        array_text(Seq::empty()) == seq!['[', ']'],
        a matches Piece::Text(t) ==> piece_text(a) == seq!['"'] + t@ + seq!['"'],
        a matches Piece::Plain(t) ==> piece_text(a) == t@,
        entry_text(k, a) == seq!['"'] + k + seq!['"', ':', ' '] + piece_text(a),
        dictionary_text(seq![k, k]) == seq!['{'] + k + seq![',', ' '] + k + seq!['}'],
{
    let two = Seq::new(2, |i: int| piece_text(seq![a, b][i]));
    assert(two.drop_last() =~= seq![piece_text(a)]);
    assert(join_spec(seq![piece_text(a)]) == piece_text(a));
    assert(join_spec(two) == piece_text(a) + separator() + piece_text(b));
    assert(array_text(seq![a, b]) =~= seq!['['] + piece_text(a) + seq![',', ' '] + piece_text(b)
        + seq![']']);
    let one = Seq::new(1, |i: int| piece_text(seq![a][i]));
    assert(one =~= seq![piece_text(a)]);
    assert(array_text(seq![a]) =~= seq!['['] + piece_text(a) + seq![']']);
    let none = Seq::new(0, |i: int| piece_text(Seq::<Piece>::empty()[i]));
    assert(none =~= Seq::<Seq<char>>::empty());
    assert(array_text(Seq::empty()) =~= seq!['[', ']']);
    assert(entry_text(k, a) =~= seq!['"'] + k + seq!['"', ':', ' '] + piece_text(a));
    assert(seq![k, k].drop_last() =~= seq![k]);
    assert(join_spec(seq![k]) == k);
    assert(join_spec(seq![k, k]) == k + separator() + k);
    assert(dictionary_text(seq![k, k]) =~= seq!['{'] + k + seq![',', ' '] + k + seq!['}']);
}

/// The order dictionary entries print in: a proper prefix comes first, and
/// otherwise the first differing character decides, the smaller code point
/// first.
pub proof fn law_text_order(p: Seq<char>, x: char, y: char, q: Seq<char>, r: Seq<char>)
    ensures
        r.len() > 0 ==> text_lt(p, p + r) && !text_lt(p + r, p),
        (x as u32) < (y as u32) ==> text_lt(p + seq![x] + q, p + seq![y] + r) && !text_lt(
            p + seq![y] + r,
            p + seq![x] + q,
        ),
    decreases p.len(),
{
    if p.len() > 0 {
        law_text_order(p.drop_first(), x, y, q, r);
        assert((p + r)[0] == p[0]);
        assert((p + r).drop_first() =~= p.drop_first() + r);
        assert((p + seq![x] + q)[0] == p[0]);
        assert((p + seq![y] + r)[0] == p[0]);
        assert((p + seq![x] + q).drop_first() =~= p.drop_first() + seq![x] + q);
        assert((p + seq![y] + r).drop_first() =~= p.drop_first() + seq![y] + r);
    } else {
        assert(p + r =~= r);
        assert(p + seq![x] + q =~= seq![x] + q);
        assert(p + seq![y] + r =~= seq![y] + r);
    }
}

} // verus!
