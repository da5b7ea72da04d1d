//! The text side of the `rag` built-in: a document is cut into sentences,
//! the sentences are packed into chunks of about 400 bytes, and the query and
//! each chunk are reduced to lower-case words so that the runtime can score
//! each chunk by how many query words it holds.
use vstd::prelude::*;
use crate::lexer::{str_chars, string_from_chars};
use crate::text::{
    is_whitespace, is_whitespace_exec, trim_ws, trim_start_ws, trim_end_ws, trim_chars, append_chars,
};
use crate::ast::texts_view;

verus! {

/// The characters that end a sentence.
pub open spec fn is_sentence_end(c: char) -> bool {
    c == '.' || c == '\n' || c == '!' || c == '?'
}

/// One character of sentence splitting: the sentences so far and the sentence
/// being read.
pub open spec fn split_step(st: (Seq<Seq<char>>, Seq<char>), c: char) -> (Seq<Seq<char>>, Seq<char>) {
    let cur = st.1.push(c);
    if is_sentence_end(c) {
        let t = trim_ws(cur);
        (
            if t.len() > 0 {
                st.0.push(t)
            } else {
                st.0
            },
            Seq::empty(),
        )
    } else {
        (st.0, cur)
    }
}

pub open spec fn split_state(doc: Seq<char>) -> (Seq<Seq<char>>, Seq<char>)
    decreases doc.len(),
{
    if doc.len() == 0 {
        (Seq::empty(), Seq::empty())
    } else {
        split_step(split_state(doc.drop_last()), doc.last())
    }
}

/// The sentences of a document: the text up to each sentence end, trimmed,
/// empty ones left out, and the trimmed rest if it is not empty.
pub open spec fn sentences_spec(doc: Seq<char>) -> Seq<Seq<char>> {
    let (s, cur) = split_state(doc);
    let t = trim_ws(cur);
    if t.len() > 0 {
        s.push(t)
    } else {
        s
    }
}

/// Bytes of a character in UTF-8.
pub open spec fn utf8_len(c: char) -> nat {
    if (c as u32) < 0x80 {
        1
    } else if (c as u32) < 0x800 {
        2
    } else if (c as u32) < 0x10000 {
        3
    } else {
        4
    }
}

/// Bytes of a text in UTF-8.
pub open spec fn utf8_bytes(s: Seq<char>) -> nat
    decreases s.len(),
{
    if s.len() == 0 {
        0
    } else {
        utf8_bytes(s.drop_last()) + utf8_len(s.last())
    }
}

/// The byte budget of a chunk.
pub open spec fn chunk_budget() -> nat {
    400
}

/// One sentence of chunking: the chunks so far and the chunk being filled. A
/// chunk that would grow past the budget is closed first (unless empty); each
/// sentence is followed by a space.
pub open spec fn chunk_step(st: (Seq<Seq<char>>, Seq<char>), sent: Seq<char>) -> (Seq<Seq<char>>, Seq<char>) {
    let flush = utf8_bytes(st.1) + utf8_bytes(sent) > chunk_budget() && st.1.len() > 0;
    let chunks = if flush {
        st.0.push(trim_ws(st.1))
    } else {
        st.0
    };
    let cur: Seq<char> = if flush {
        Seq::empty()
    } else {
        st.1
    };
    (chunks, cur + sent + seq![' '])
}

pub open spec fn chunk_state(sents: Seq<Seq<char>>) -> (Seq<Seq<char>>, Seq<char>)
    decreases sents.len(),
{
    if sents.len() == 0 {
        (Seq::empty(), Seq::empty())
    } else {
        chunk_step(chunk_state(sents.drop_last()), sents.last())
    }
}

/// The chunks of a document.
pub open spec fn chunks_spec(doc: Seq<char>) -> Seq<Seq<char>> {
    let (c, cur) = chunk_state(sentences_spec(doc));
    let t = trim_ws(cur);
    if t.len() > 0 {
        c.push(t)
    } else {
        c
    }
}

/// The parts with a single space between each two of them.
pub open spec fn join_spaced(parts: Seq<Seq<char>>) -> Seq<char>
    decreases parts.len(),
{
    if parts.len() == 0 {
        Seq::empty()
    } else if parts.len() == 1 {
        parts[0]
    } else {
        join_spaced(parts.drop_last()) + seq![' '] + parts.last()
    }
}

/// Each part followed by a space, all in a row.
pub open spec fn spaced(parts: Seq<Seq<char>>) -> Seq<char>
    decreases parts.len(),
{
    if parts.len() == 0 {
        Seq::empty()
    } else {
        spaced(parts.drop_last()) + parts.last() + seq![' ']
    }
}

/// A non-empty text with no whitespace at either end.
pub open spec fn solid(t: Seq<char>) -> bool {
    t.len() > 0 && !is_whitespace(t[0]) && !is_whitespace(t.last())
}

pub open spec fn all_solid(parts: Seq<Seq<char>>) -> bool {
    forall|i: int| 0 <= i < parts.len() ==> solid(#[trigger] parts[i])
}

proof fn lemma_trim_start_shape(x: Seq<char>)
    ensures
        trim_start_ws(x).len() == 0 || !is_whitespace(trim_start_ws(x)[0]),
    decreases x.len(),
{
    if x.len() > 0 && is_whitespace(x[0]) {
        lemma_trim_start_shape(x.drop_first());
    }
}

proof fn lemma_trim_end_shape(y: Seq<char>)
    ensures
        trim_end_ws(y).len() <= y.len(),
        trim_end_ws(y) == y.subrange(0, trim_end_ws(y).len() as int),
        trim_end_ws(y).len() == 0 || !is_whitespace(trim_end_ws(y).last()),
    decreases y.len(),
{
    if y.len() > 0 && is_whitespace(y.last()) {
        lemma_trim_end_shape(y.drop_last());
        assert(y.drop_last().subrange(0, trim_end_ws(y).len() as int) =~= y.subrange(
            0,
            trim_end_ws(y).len() as int,
        ));
    } else {
        assert(y.subrange(0, y.len() as int) =~= y);
    }
}

/// A trimmed text that is not empty is solid.
proof fn lemma_trim_solid(x: Seq<char>)
    ensures
        trim_ws(x).len() > 0 ==> solid(trim_ws(x)),
{
    let y = trim_start_ws(x);
    lemma_trim_start_shape(x);
    lemma_trim_end_shape(y);
    if trim_ws(x).len() > 0 {
        assert(trim_ws(x)[0] == y[0]);
    }
}

proof fn lemma_split_state_solid(doc: Seq<char>)
    ensures
        all_solid(split_state(doc).0),
    decreases doc.len(),
{
    if doc.len() > 0 {
        lemma_split_state_solid(doc.drop_last());
        let st = split_state(doc.drop_last());
        lemma_trim_solid(st.1.push(doc.last()));
    }
}

/// Every sentence is solid.
proof fn lemma_sentences_solid(doc: Seq<char>)
    ensures
        all_solid(sentences_spec(doc)),
{
    lemma_split_state_solid(doc);
    lemma_trim_solid(split_state(doc).1);
}

proof fn lemma_spaced_joined(q: Seq<Seq<char>>)
    requires
        q.len() > 0,
    ensures
        spaced(q) == join_spaced(q) + seq![' '],
    decreases q.len(),
{
    if q.len() == 1 {
        assert(q.drop_last() =~= Seq::<Seq<char>>::empty());
        assert(spaced(q.drop_last()) =~= Seq::<char>::empty());
        assert(spaced(q) =~= q[0] + seq![' ']);
    } else {
        lemma_spaced_joined(q.drop_last());
        assert(spaced(q) =~= join_spaced(q) + seq![' ']);
    }
}

proof fn lemma_join_solid(q: Seq<Seq<char>>)
    requires
        q.len() > 0,
        all_solid(q),
    ensures
        solid(join_spaced(q)),
        join_spaced(q)[0] == q[0][0],
    decreases q.len(),
{
    if q.len() > 1 {
        let d = q.drop_last();
        assert(all_solid(d)) by {
            assert forall|i: int| 0 <= i < d.len() implies solid(#[trigger] d[i]) by {
                assert(d[i] == q[i]);
            }
        }
        lemma_join_solid(d);
        assert(solid(q.last()));
        assert(join_spaced(q)[0] == join_spaced(d)[0]);
    } else {
        assert(solid(q[0]));
    }
}

proof fn lemma_trim_spaced(t: Seq<char>)
    requires
        solid(t),
    ensures
        trim_ws(t + seq![' ']) == t,
{
    let u = t + seq![' '];
    assert(u[0] == t[0]);
    assert(trim_start_ws(u) == u);
    assert(u.drop_last() =~= t);
    assert(trim_end_ws(u) == trim_end_ws(t));
    assert(trim_end_ws(t) == t);
}

proof fn lemma_join_append(a: Seq<Seq<char>>, b: Seq<Seq<char>>)
    requires
        a.len() > 0,
        b.len() > 0,
    ensures
        join_spaced(a + b) == join_spaced(a) + seq![' '] + join_spaced(b),
    decreases b.len(),
{
    if b.len() == 1 {
        assert((a + b).drop_last() =~= a);
        assert((a + b).last() == b[0]);
    } else {
        lemma_join_append(a, b.drop_last());
        assert((a + b).drop_last() =~= a + b.drop_last());
        assert((a + b).last() == b.last());
        assert(join_spaced(a + b) =~= join_spaced(a) + seq![' '] + join_spaced(b));
    }
}

/// A chunk keeps to the byte budget, or is a single sentence of `sents`.
pub open spec fn fits(chunk: Seq<char>, sents: Seq<Seq<char>>) -> bool {
    utf8_bytes(chunk) <= chunk_budget() || sents.contains(chunk)
}

proof fn lemma_utf8_bytes_concat(a: Seq<char>, b: Seq<char>)
    ensures
        utf8_bytes(a + b) == utf8_bytes(a) + utf8_bytes(b),
    decreases b.len(),
{
    if b.len() == 0 {
        assert(a + b =~= a);
    } else {
        lemma_utf8_bytes_concat(a, b.drop_last());
        assert((a + b).drop_last() =~= a + b.drop_last());
        assert((a + b).last() == b.last());
    }
}

proof fn lemma_utf8_bytes_space()
    ensures
        utf8_bytes(seq![' ']) == 1,
{
    let sp = seq![' '];
    assert(sp.drop_last() =~= Seq::<char>::empty());
    assert(sp.last() == ' ');
    assert((' ' as u32) < 0x80);
    assert(utf8_len(' ') == 1);
    assert(utf8_bytes(Seq::<char>::empty()) == 0);
    assert(utf8_bytes(sp) == utf8_bytes(sp.drop_last()) + utf8_len(sp.last()));
}

/// What chunking has built after some sentences: closed chunks that join to
/// the first `k` sentences, and an open chunk holding the rest, each followed
/// by a space.
proof fn lemma_chunk_state(p: Seq<Seq<char>>) -> (k: int)
    requires
        all_solid(p),
    ensures
        0 <= k <= p.len(),
        p.len() > 0 ==> k < p.len(),
        (chunk_state(p).0.len() == 0) == (k == 0),
        all_solid(chunk_state(p).0),
        join_spaced(chunk_state(p).0) == join_spaced(p.subrange(0, k)),
        chunk_state(p).1 == spaced(p.subrange(k, p.len() as int)),
        forall|i: int| 0 <= i < chunk_state(p).0.len() ==> fits(#[trigger] chunk_state(p).0[i], p),
        k < p.len() ==> p.len() - k == 1 || utf8_bytes(chunk_state(p).1) <= chunk_budget() + 1,
    decreases p.len(),
{
    if p.len() == 0 {
        assert(p.subrange(0, 0) =~= Seq::<Seq<char>>::empty());
        0
    } else {
        let n = p.len() as int;
        let d = p.drop_last();
        assert(all_solid(d)) by {
            assert forall|i: int| 0 <= i < d.len() implies solid(#[trigger] d[i]) by {
                assert(d[i] == p[i]);
            }
        }
        let k0 = lemma_chunk_state(d);
        let (cs0, cur0) = chunk_state(d);
        let sent = p.last();
        assert(d.subrange(0, k0) =~= p.subrange(0, k0));
        assert(d.subrange(k0, n - 1) =~= p.subrange(k0, n - 1));
        let flush = utf8_bytes(cur0) + utf8_bytes(sent) > chunk_budget() && cur0.len() > 0;
        if flush {
            let q = p.subrange(k0, n - 1);
            if q.len() == 0 {
                assert(q =~= Seq::<Seq<char>>::empty());
            }
            assert(q.len() > 0);
            assert(all_solid(q)) by {
                assert forall|i: int| 0 <= i < q.len() implies solid(#[trigger] q[i]) by {
                    assert(q[i] == p[k0 + i]);
                }
            }
            lemma_spaced_joined(q);
            lemma_join_solid(q);
            lemma_trim_spaced(join_spaced(q));
            let cs = cs0.push(join_spaced(q));
            assert(chunk_state(p).0 == cs);
            assert(cs.drop_last() =~= cs0);
            if k0 == 0 {
                assert(p.subrange(0, n - 1) =~= q);
            } else {
                lemma_join_append(p.subrange(0, k0), q);
                assert(p.subrange(0, k0) + q =~= p.subrange(0, n - 1));
            }
            assert(all_solid(cs)) by {
                assert forall|i: int| 0 <= i < cs.len() implies solid(#[trigger] cs[i]) by {
                    if i < cs0.len() {
                        assert(cs[i] == cs0[i]);
                    }
                }
            }
            let r = p.subrange(n - 1, n);
            assert(r.drop_last() =~= Seq::<Seq<char>>::empty());
            assert(spaced(r.drop_last()) =~= Seq::<char>::empty());
            assert(r.last() == sent);
            assert(chunk_state(p).1 =~= Seq::<char>::empty() + sent + seq![' ']);
            assert(chunk_state(p).1 =~= spaced(r));
            assert(fits(join_spaced(q), p)) by {
                lemma_utf8_bytes_concat(join_spaced(q), seq![' ']);
                lemma_utf8_bytes_space();
                if q.len() == 1 {
                    assert(join_spaced(q) == q[0]);
                    assert(p[k0] == join_spaced(q));
                }
            }
            assert forall|i: int| 0 <= i < cs.len() implies fits(#[trigger] cs[i], p) by {
                if i < cs0.len() {
                    assert(cs[i] == cs0[i]);
                    assert(fits(cs0[i], d));
                    if d.contains(cs0[i]) {
                        let j = choose|j: int| 0 <= j < d.len() && d[j] == cs0[i];
                        assert(p[j] == cs0[i]);
                    }
                }
            }
            n - 1
        } else {
            let r = p.subrange(k0, n);
            assert(r.drop_last() =~= p.subrange(k0, n - 1));
            assert(r.last() == sent);
            assert(chunk_state(p).1 =~= spaced(r));
            assert forall|i: int| 0 <= i < cs0.len() implies fits(#[trigger] cs0[i], p) by {
                assert(fits(cs0[i], d));
                if d.contains(cs0[i]) {
                    let j = choose|j: int| 0 <= j < d.len() && d[j] == cs0[i];
                    assert(p[j] == cs0[i]);
                }
            }
            lemma_utf8_bytes_concat(cur0 + sent, seq![' ']);
            lemma_utf8_bytes_concat(cur0, sent);
            lemma_utf8_bytes_space();
            if cur0.len() == 0 {
                if k0 < n - 1 {
                    lemma_spaced_joined(p.subrange(k0, n - 1));
                }
            }
            k0
        }
    }
}

/// No text is lost, moved or cut: the chunks of a document, joined by single
/// spaces, are its sentences joined by single spaces; and every chunk is a
/// non-empty text without whitespace at its ends.
pub proof fn law_chunks_keep_sentences(doc: Seq<char>)
    ensures
        join_spaced(chunks_spec(doc)) == join_spaced(sentences_spec(doc)),
        all_solid(chunks_spec(doc)),
{
    let sents = sentences_spec(doc);
    lemma_sentences_solid(doc);
    let k = lemma_chunk_state(sents);
    let (c, cur) = chunk_state(sents);
    let n = sents.len() as int;
    if n == 0 {
        assert(cur =~= Seq::<char>::empty());
        assert(trim_ws(cur) =~= Seq::<char>::empty());
        assert(sents.subrange(0, 0) =~= sents);
    } else {
        let q = sents.subrange(k, n);
        assert(q.len() > 0);
        assert(all_solid(q)) by {
            assert forall|i: int| 0 <= i < q.len() implies solid(#[trigger] q[i]) by {
                assert(q[i] == sents[k + i]);
            }
        }
        lemma_spaced_joined(q);
        lemma_join_solid(q);
        lemma_trim_spaced(join_spaced(q));
        let chunks = c.push(join_spaced(q));
        assert(chunks_spec(doc) == chunks);
        assert(chunks.drop_last() =~= c);
        if k == 0 {
            assert(q =~= sents);
        } else {
            lemma_join_append(sents.subrange(0, k), q);
            assert(sents.subrange(0, k) + q =~= sents);
        }
        assert(all_solid(chunks)) by {
            assert forall|i: int| 0 <= i < chunks.len() implies solid(#[trigger] chunks[i]) by {
                if i < c.len() {
                    assert(chunks[i] == c[i]);
                }
            }
        }
    }
}

/// No `.`, `!`, `?` or line break in `t`, except maybe as its last character.
pub open spec fn marks_only_at_end(t: Seq<char>) -> bool {
    forall|k: int|
        0 <= k < t.len() - 1 ==> #[trigger] t[k] != '.' && t[k] != '!' && t[k] != '?' && t[k]
            != '\n'
}

proof fn lemma_trim_start_suffix(x: Seq<char>)
    ensures
        trim_start_ws(x).len() <= x.len(),
        trim_start_ws(x) == x.skip(x.len() - trim_start_ws(x).len()),
    decreases x.len(),
{
    if x.len() > 0 && is_whitespace(x[0]) {
        lemma_trim_start_suffix(x.drop_first());
        assert(x.drop_first().skip(x.drop_first().len() - trim_start_ws(x).len()) =~= x.skip(
            x.len() - trim_start_ws(x).len(),
        ));
    } else {
        assert(x.skip(0) =~= x);
    }
}

/// Trimming keeps a run of the text: the result is `x[a..b]`.
proof fn lemma_trim_is_run(x: Seq<char>) -> (a: int)
    ensures
        0 <= a,
        a + trim_ws(x).len() <= x.len(),
        forall|k: int| 0 <= k < trim_ws(x).len() ==> trim_ws(x)[k] == x[a + k],
{
    lemma_trim_start_suffix(x);
    let y = trim_start_ws(x);
    lemma_trim_end_shape(y);
    let a = x.len() - y.len();
    assert forall|k: int| 0 <= k < trim_ws(x).len() implies trim_ws(x)[k] == x[a + k] by {
        assert(trim_ws(x)[k] == y[k]);
        assert(y[k] == x.skip(a)[k]);
    }
    a
}

pub open spec fn no_marks(t: Seq<char>) -> bool {
    forall|k: int| 0 <= k < t.len() ==> !is_sentence_end(#[trigger] t[k])
}

proof fn lemma_split_state_marks(doc: Seq<char>)
    ensures
        no_marks(split_state(doc).1),
        forall|i: int|
            0 <= i < split_state(doc).0.len() ==> marks_only_at_end(#[trigger] split_state(doc).0[i]),
    decreases doc.len(),
{
    if doc.len() > 0 {
        lemma_split_state_marks(doc.drop_last());
        let st = split_state(doc.drop_last());
        let c = doc.last();
        let cur = st.1.push(c);
        if is_sentence_end(c) {
            let t = trim_ws(cur);
            let a = lemma_trim_is_run(cur);
            assert(marks_only_at_end(t)) by {
                assert forall|k: int| 0 <= k < t.len() - 1 implies #[trigger] t[k] != '.' && t[k]
                    != '!' && t[k] != '?' && t[k] != '\n' by {
                    assert(t[k] == cur[a + k]);
                    assert(a + k < cur.len() - 1);
                    assert(cur[a + k] == st.1[a + k]);
                    assert(!is_sentence_end(st.1[a + k]));
                }
            }
            let ns = split_state(doc).0;
            assert forall|i: int| 0 <= i < ns.len() implies marks_only_at_end(#[trigger] ns[i]) by {
                if i < st.0.len() {
                    assert(ns[i] == st.0[i]);
                } else {
                    assert(ns[i] == t);
                }
            }
        } else {
            assert forall|k: int| 0 <= k < cur.len() implies !is_sentence_end(#[trigger] cur[k]) by {
                if k < st.1.len() {
                    assert(cur[k] == st.1[k]);
                }
            }
        }
    }
}

/// A sentence is cut at its mark: no sentence holds a `.`, `!`, `?` or line
/// break anywhere but as its last character.
pub proof fn law_sentences_end_at_marks(doc: Seq<char>)
    ensures
        forall|i: int|
            0 <= i < sentences_spec(doc).len() ==> marks_only_at_end(#[trigger] sentences_spec(doc)[i]),
{
    lemma_split_state_marks(doc);
    let (ss, cur) = split_state(doc);
    let t = trim_ws(cur);
    let a = lemma_trim_is_run(cur);
    assert(marks_only_at_end(t)) by {
        assert forall|k: int| 0 <= k < t.len() - 1 implies #[trigger] t[k] != '.' && t[k] != '!'
            && t[k] != '?' && t[k] != '\n' by {
            assert(t[k] == cur[a + k]);
            assert(!is_sentence_end(cur[a + k]));
        }
    }
    let r = sentences_spec(doc);
    assert forall|i: int| 0 <= i < r.len() implies marks_only_at_end(#[trigger] r[i]) by {
        if i < ss.len() {
            assert(r[i] == ss[i]);
        } else {
            assert(r[i] == t);
        }
    }
}

/// Every chunk keeps to the 400-byte budget, unless it is a single sentence
/// that is longer by itself.
pub proof fn law_chunks_keep_budget(doc: Seq<char>)
    ensures
        forall|i: int|
            0 <= i < chunks_spec(doc).len() ==> fits(
                #[trigger] chunks_spec(doc)[i],
                sentences_spec(doc),
            ),
{
    let sents = sentences_spec(doc);
    lemma_sentences_solid(doc);
    let k = lemma_chunk_state(sents);
    let (c, cur) = chunk_state(sents);
    let n = sents.len() as int;
    if n == 0 {
        assert(cur =~= Seq::<char>::empty());
        assert(trim_ws(cur) =~= Seq::<char>::empty());
    } else {
        let q = sents.subrange(k, n);
        assert(all_solid(q)) by {
            assert forall|i: int| 0 <= i < q.len() implies solid(#[trigger] q[i]) by {
                assert(q[i] == sents[k + i]);
            }
        }
        lemma_spaced_joined(q);
        lemma_join_solid(q);
        lemma_trim_spaced(join_spaced(q));
        let chunks = c.push(join_spaced(q));
        assert(chunks_spec(doc) == chunks);
        assert(fits(join_spaced(q), sents)) by {
            lemma_utf8_bytes_concat(join_spaced(q), seq![' ']);
            lemma_utf8_bytes_space();
            if q.len() == 1 {
                assert(sents[k] == join_spaced(q));
            }
        }
        assert forall|i: int| 0 <= i < chunks.len() implies fits(#[trigger] chunks[i], sents) by {
            if i < c.len() {
                assert(chunks[i] == c[i]);
            }
        }
    }
}

proof fn lemma_utf8_bytes_bound(s: Seq<char>)
    ensures
        utf8_bytes(s) <= 4 * s.len(),
    decreases s.len(),
{
    if s.len() > 0 {
        lemma_utf8_bytes_bound(s.drop_last());
    }
}

fn utf8_len_exec(c: char) -> (n: u128)
    ensures
        n == utf8_len(c),
{
    let x = c as u32;
    if x < 0x80 {
        1
    } else if x < 0x800 {
        2
    } else if x < 0x10000 {
        3
    } else {
        4
    }
}

fn utf8_bytes_exec(s: &Vec<char>) -> (n: u128)
    ensures
        n == utf8_bytes(s@),
{
    let mut n: u128 = 0;
    let mut i: usize = 0;
    while i < s.len()
        invariant
            i <= s.len(),
            n == utf8_bytes(s@.subrange(0, i as int)),
        decreases s.len() - i,
    {
        proof {
            lemma_utf8_bytes_bound(s@.subrange(0, i as int));
            assert(s@.subrange(0, i + 1).drop_last() =~= s@.subrange(0, i as int));
        }
        n = n + utf8_len_exec(s[i]);
        i = i + 1;
    }
    assert(s@.subrange(0, i as int) =~= s@);
    n
}

/// The sentences of a document.
pub fn sentences(document: &str) -> (r: Vec<Vec<char>>)
    ensures
        Seq::new(r@.len(), |i: int| r@[i]@) == sentences_spec(document@),
{
    let doc = str_chars(document);
    let mut sents: Vec<Vec<char>> = Vec::new();
    let mut cur: Vec<char> = Vec::new();
    let mut i: usize = 0;
    while i < doc.len()
        invariant
            i <= doc.len(),
            doc@ == document@,
            (Seq::new(sents@.len(), |k: int| sents@[k]@), cur@) == split_state(
                doc@.subrange(0, i as int),
            ),
        decreases doc.len() - i,
    {
        let c = doc[i];
        let ghost before = Seq::new(sents@.len(), |k: int| sents@[k]@);
        assert(doc@.subrange(0, i + 1).drop_last() =~= doc@.subrange(0, i as int));
        cur.push(c);
        if c == '.' || c == '\n' || c == '!' || c == '?' {
            let t = trim_chars(&cur);
            if t.len() > 0 {
                sents.push(t);
                assert(Seq::new(sents@.len(), |k: int| sents@[k]@) =~= before.push(t@));
            }
            cur = Vec::new();
        }
        i = i + 1;
    }
    assert(doc@.subrange(0, i as int) =~= doc@);
    let t = trim_chars(&cur);
    let ghost before = Seq::new(sents@.len(), |k: int| sents@[k]@);
    if t.len() > 0 {
        sents.push(t);
        assert(Seq::new(sents@.len(), |k: int| sents@[k]@) =~= before.push(t@));
    }
    sents
}

/// The chunks of a document, each a trimmed run of whole sentences.
pub fn rag_chunks(document: &str) -> (r: Vec<String>)
    ensures
        texts_view(r@) == chunks_spec(document@),
{
    let sents = sentences(document);
    let ghost sv = Seq::new(sents@.len(), |k: int| sents@[k]@);
    let mut chunks: Vec<String> = Vec::new();
    let mut cur: Vec<char> = Vec::new();
    let mut i: usize = 0;
    while i < sents.len()
        invariant
            i <= sents.len(),
            sv == Seq::new(sents@.len(), |k: int| sents@[k]@),
            sv == sentences_spec(document@),
            (texts_view(chunks@), cur@) == chunk_state(sv.subrange(0, i as int)),
        decreases sents.len() - i,
    {
        let sent = &sents[i];
        assert(sv.subrange(0, i + 1).drop_last() =~= sv.subrange(0, i as int));
        assert(sv.subrange(0, i + 1).last() == sent@);
        let cur_bytes = utf8_bytes_exec(&cur);
        let sent_bytes = utf8_bytes_exec(sent);
        let cur_len = cur.len();
        let sent_len = sent.len();
        proof {
            lemma_utf8_bytes_bound(cur@);
            lemma_utf8_bytes_bound(sent@);
            assert(cur_bytes <= 4 * cur_len);
            assert(sent_bytes <= 4 * sent_len);
        }
        if cur_bytes + sent_bytes > 400 && cur.len() > 0 {
            let ghost before = texts_view(chunks@);
            let t = string_from_chars(&trim_chars(&cur));
            chunks.push(t);
            assert(texts_view(chunks@) =~= before.push(trim_ws(cur@)));
            cur = Vec::new();
        }
        append_chars(&mut cur, sent);
        cur.push(' ');
        i = i + 1;
    }
    assert(sv.subrange(0, i as int) =~= sv);
    let t = trim_chars(&cur);
    if t.len() > 0 {
        let ghost before = texts_view(chunks@);
        chunks.push(string_from_chars(&t));
        assert(texts_view(chunks@) =~= before.push(t@));
    }
    chunks
}

/// What std's `char::is_alphanumeric` says of a character.
pub uninterp spec fn is_alphanumeric_spec(c: char) -> bool;

/// Calls std's `char::is_alphanumeric`. Taken on trust: the answer is
/// `is_alphanumeric_spec` of the character (Unicode Alphabetic or Numeric),
/// which is left unstated.
#[verifier::external_body]
fn char_is_alphanumeric(c: char) -> (b: bool)
    ensures
        b == is_alphanumeric_spec(c),
{
    c.is_alphanumeric()
}

/// What std's `str::to_lowercase` returns for a text (Unicode case mapping).
pub uninterp spec fn lowercase_spec(s: Seq<char>) -> Seq<char>;

/// Calls std's `str::to_lowercase`. Taken on trust: the result is
/// `lowercase_spec` of the text, a function of the text alone; the Unicode
/// case mapping itself is left unstated.
#[verifier::external_body]
fn to_lowercase(s: &str) -> (r: String)
    ensures
        r@ == lowercase_spec(s@),
{
    s.to_lowercase()
}

/// The characters that searching keeps: letters, digits and whitespace.
pub open spec fn keeps_for_search(c: char) -> bool {
    is_alphanumeric_spec(c) || is_whitespace(c)
}

/// `s` with the characters that searching does not keep removed.
pub open spec fn search_filter(s: Seq<char>) -> Seq<char>
    decreases s.len(),
{
    if s.len() == 0 {
        s
    } else if keeps_for_search(s.last()) {
        search_filter(s.drop_last()).push(s.last())
    } else {
        search_filter(s.drop_last())
    }
}

/// One character of word splitting: the words so far and the word being read.
pub open spec fn words_step(st: (Seq<Seq<char>>, Seq<char>), c: char) -> (Seq<Seq<char>>, Seq<char>) {
    if is_whitespace(c) {
        (
            if st.1.len() > 0 {
                st.0.push(st.1)
            } else {
                st.0
            },
            Seq::empty(),
        )
    } else {
        (st.0, st.1.push(c))
    }
}

pub open spec fn words_state(s: Seq<char>) -> (Seq<Seq<char>>, Seq<char>)
    decreases s.len(),
{
    if s.len() == 0 {
        (Seq::empty(), Seq::empty())
    } else {
        words_step(words_state(s.drop_last()), s.last())
    }
}

/// The whitespace-separated words of a text (std's `split_whitespace`).
pub open spec fn words_spec(s: Seq<char>) -> Seq<Seq<char>> {
    let (w, cur) = words_state(s);
    if cur.len() > 0 {
        w.push(cur)
    } else {
        w
    }
}

/// The words a text is searched by: its letters, digits and whitespace,
/// lower-cased, split at whitespace.
pub open spec fn search_tokens_spec(text: Seq<char>) -> Seq<Seq<char>> {
    words_spec(lowercase_spec(search_filter(text)))
}

fn search_filter_exec(s: &Vec<char>) -> (r: Vec<char>)
    ensures
        r@ == search_filter(s@),
{
    let mut out: Vec<char> = Vec::new();
    let mut i: usize = 0;
    while i < s.len()
        invariant
            i <= s.len(),
            out@ == search_filter(s@.subrange(0, i as int)),
        decreases s.len() - i,
    {
        assert(s@.subrange(0, i + 1).drop_last() =~= s@.subrange(0, i as int));
        let c = s[i];
        if char_is_alphanumeric(c) || is_whitespace_exec(c) {
            out.push(c);
        }
        i = i + 1;
    }
    assert(s@.subrange(0, i as int) =~= s@);
    out
}

fn words(s: &Vec<char>) -> (r: Vec<String>)
    ensures
        texts_view(r@) == words_spec(s@),
{
    let mut out: Vec<String> = Vec::new();
    let mut cur: Vec<char> = Vec::new();
    let mut i: usize = 0;
    while i < s.len()
        invariant
            i <= s.len(),
            (texts_view(out@), cur@) == words_state(s@.subrange(0, i as int)),
        decreases s.len() - i,
    {
        assert(s@.subrange(0, i + 1).drop_last() =~= s@.subrange(0, i as int));
        let c = s[i];
        if is_whitespace_exec(c) {
            if cur.len() > 0 {
                let ghost before = texts_view(out@);
                out.push(string_from_chars(&cur));
                assert(texts_view(out@) =~= before.push(cur@));
            }
            cur = Vec::new();
        } else {
            cur.push(c);
        }
        i = i + 1;
    }
    assert(s@.subrange(0, i as int) =~= s@);
    if cur.len() > 0 {
        let ghost before = texts_view(out@);
        out.push(string_from_chars(&cur));
        assert(texts_view(out@) =~= before.push(cur@));
    }
    out
}

/// The words a text is searched by.
pub fn search_tokens(text: &str) -> (r: Vec<String>)
    ensures
        texts_view(r@) == search_tokens_spec(text@),
{
    let kept = string_from_chars(&search_filter_exec(&str_chars(text)));
    let lower = to_lowercase(kept.as_str());
    words(&str_chars(lower.as_str()))
}

/// How many of the query words (counted with repetition) occur among the
/// chunk words.
pub open spec fn match_count_spec(query: Seq<Seq<char>>, chunk: Seq<Seq<char>>) -> nat
    decreases query.len(),
{
    if query.len() == 0 {
        0
    } else {
        match_count_spec(query.drop_last(), chunk) + if chunk.contains(query.last()) {
            1nat
        } else {
            0nat
        }
    }
}

fn contains_text(v: &Vec<String>, t: &String) -> (b: bool)
    ensures
        b == texts_view(v@).contains(t@),
{
    let mut i: usize = 0;
    while i < v.len()
        invariant
            i <= v.len(),
            forall|k: int| 0 <= k < i ==> v@[k]@ != t@,
        decreases v.len() - i,
    {
        if v[i] == *t {
            assert(texts_view(v@)[i as int] == t@);
            return true;
        }
        i = i + 1;
    }
    proof {
        if texts_view(v@).contains(t@) {
            let k = choose|k: int| 0 <= k < texts_view(v@).len() && texts_view(v@)[k] == t@;
            assert(v@[k]@ == t@);
        }
    }
    false
}

/// How many query words occur among the chunk words.
pub fn count_matches(query: &Vec<String>, chunk: &Vec<String>) -> (n: usize)
    ensures
        n == match_count_spec(texts_view(query@), texts_view(chunk@)),
{
    let mut n: usize = 0;
    let mut i: usize = 0;
    while i < query.len()
        invariant
            i <= query.len(),
            n <= i,
            n == match_count_spec(texts_view(query@).subrange(0, i as int), texts_view(chunk@)),
        decreases query.len() - i,
    {
        assert(texts_view(query@).subrange(0, i + 1).drop_last() =~= texts_view(query@).subrange(
            0,
            i as int,
        ));
        if contains_text(chunk, &query[i]) {
            n = n + 1;
        }
        i = i + 1;
    }
    assert(texts_view(query@).subrange(0, i as int) =~= texts_view(query@));
    n
}

pub open spec fn is_word(w: Seq<char>) -> bool {
    w.len() > 0 && forall|k: int| 0 <= k < w.len() ==> !is_whitespace(#[trigger] w[k])
}

proof fn lemma_words_state(s: Seq<char>)
    ensures
        forall|i: int| 0 <= i < words_state(s).0.len() ==> is_word(#[trigger] words_state(s).0[i]),
        forall|k: int| 0 <= k < words_state(s).1.len() ==> !is_whitespace(#[trigger] words_state(s).1[k]),
    decreases s.len(),
{
    if s.len() > 0 {
        lemma_words_state(s.drop_last());
        let st = words_state(s.drop_last());
        let c = s.last();
        let n = words_state(s);
        if is_whitespace(c) {
            assert forall|i: int| 0 <= i < n.0.len() implies is_word(#[trigger] n.0[i]) by {
                if i < st.0.len() {
                    assert(n.0[i] == st.0[i]);
                }
            }
        } else {
            assert forall|k: int| 0 <= k < n.1.len() implies !is_whitespace(#[trigger] n.1[k]) by {
                if k < st.1.len() {
                    assert(n.1[k] == st.1[k]);
                }
            }
        }
    }
}

/// Searching splits text into words: every search word is non-empty and
/// holds no whitespace.
pub proof fn law_search_words(text: Seq<char>)
    ensures
        forall|i: int|
            0 <= i < search_tokens_spec(text).len() ==> is_word(#[trigger] search_tokens_spec(text)[i]),
{
    let t = lowercase_spec(search_filter(text));
    lemma_words_state(t);
    let r = search_tokens_spec(text);
    let (w, cur) = words_state(t);
    assert forall|i: int| 0 <= i < r.len() implies is_word(#[trigger] r[i]) by {
        if i < w.len() {
            assert(r[i] == w[i]);
        }
    }
}

} // verus!
