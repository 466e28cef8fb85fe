//! Splitting long text into byte-bounded chunks for length-limited backends,
//! and joining the per-chunk translations back together.
use vstd::prelude::*;

use crate::text::{
    byte_len, char_bytes, chars_of, push_str, lemma_byte_len_bounds, lemma_byte_len_concat,
    lemma_byte_len_single, utf8_len,
};

verus! {

broadcast use vstd::seq::Seq::group_seq_flatten;

/// The characters after which a sentence unit ends.
pub open spec fn is_delim(c: char) -> bool {
    ||| c == '\n'
    ||| c == '.'
    ||| c == '!'
    ||| c == '?'
    ||| c == ';'
    ||| c == '\u{3002}'
    ||| c == '\u{FF01}'
    ||| c == '\u{FF1F}'
    ||| c == '\u{FF1B}'
    ||| c == '\u{2026}'
}

pub fn is_delimiter(c: char) -> (r: bool)
    ensures
        r == is_delim(c),
{
    c == '\n' || c == '.' || c == '!' || c == '?' || c == ';' || c == '\u{3002}' || c
        == '\u{FF01}' || c == '\u{FF1F}' || c == '\u{FF1B}' || c == '\u{2026}'
}

/// The texts of a sequence of strings.
pub open spec fn texts(v: Seq<String>) -> Seq<Seq<char>> {
    v.map_values(|s: String| s@)
}

pub proof fn lemma_texts_push(v: Seq<String>, s: String)
    ensures
        texts(v.push(s)) == texts(v).push(s@),
{
    assert(texts(v.push(s)) =~= texts(v).push(s@));
}

// ---------- sentence units ----------

/// Left-to-right scan behind `units_of`: finished units, and the unit being built.
pub open spec fn unit_scan(s: Seq<char>) -> (Seq<Seq<char>>, Seq<char>)
    decreases s.len(),
{
    if s.len() == 0 {
        (Seq::empty(), Seq::empty())
    } else {
        let (done, cur) = unit_scan(s.drop_last());
        let cur2 = cur.push(s.last());
        if is_delim(s.last()) {
            (done.push(cur2), Seq::empty())
        } else {
            (done, cur2)
        }
    }
}

/// `s` broken after every delimiter, the delimiters kept.
pub open spec fn units_of(s: Seq<char>) -> Seq<Seq<char>> {
    let (done, cur) = unit_scan(s);
    if cur.len() > 0 {
        done.push(cur)
    } else {
        done
    }
}

/// What characterises a split into units: nothing is lost, no unit is empty,
/// a delimiter only ever ends a unit, and every unit but the last ends with one.
pub open spec fn is_unit_split(s: Seq<char>, units: Seq<Seq<char>>) -> bool {
    &&& units.flatten() == s
    &&& forall|i: int| 0 <= i < units.len() ==> #[trigger] units[i].len() > 0
    &&& forall|i: int, k: int|
        0 <= i < units.len() && 0 <= k < units[i].len() - 1 ==> !is_delim(#[trigger] units[i][k])
    &&& forall|i: int| 0 <= i < units.len() - 1 ==> is_delim(#[trigger] units[i].last())
}

proof fn lemma_unit_scan(s: Seq<char>)
    ensures
        ({
            let (done, cur) = unit_scan(s);
            &&& done.flatten() + cur == s
            &&& forall|i: int| 0 <= i < done.len() ==> #[trigger] done[i].len() > 0
            &&& forall|i: int, k: int|
                0 <= i < done.len() && 0 <= k < done[i].len() - 1 ==> !is_delim(
                    #[trigger] done[i][k],
                )
            &&& forall|i: int| 0 <= i < done.len() ==> is_delim(#[trigger] done[i].last())
            &&& forall|k: int| 0 <= k < cur.len() ==> !is_delim(#[trigger] cur[k])
        }),
    decreases s.len(),
{
    if s.len() > 0 {
        lemma_unit_scan(s.drop_last());
        let (done, cur) = unit_scan(s.drop_last());
        let cur2 = cur.push(s.last());
        assert(s.drop_last().push(s.last()) =~= s);
        assert(done.flatten() + cur2 =~= (done.flatten() + cur).push(s.last()));
        if is_delim(s.last()) {
            let d2 = done.push(cur2);
            assert(d2.flatten() == done.flatten() + cur2);
            assert(d2.flatten() + Seq::<char>::empty() =~= d2.flatten());
            assert forall|i: int, k: int|
                0 <= i < d2.len() && 0 <= k < d2[i].len() - 1 implies !is_delim(
                #[trigger] d2[i][k],
            ) by {
                if i == done.len() {
                    assert(d2[i][k] == cur[k]);
                }
            }
        }
    }
}

/// `units_of` is the split that `is_unit_split` describes.
pub proof fn lemma_units_of(s: Seq<char>)
    ensures
        is_unit_split(s, units_of(s)),
{
    lemma_unit_scan(s);
    let (done, cur) = unit_scan(s);
    if cur.len() > 0 {
        let u = done.push(cur);
        assert(u.flatten() == done.flatten() + cur);
        assert forall|i: int, k: int|
            0 <= i < u.len() && 0 <= k < u[i].len() - 1 implies !is_delim(#[trigger] u[i][k]) by {
            if i == done.len() {
                assert(u[i][k] == cur[k]);
            }
        }
    } else {
        assert(done.flatten() + cur =~= done.flatten());
    }
}

/// The characters that end a unit are exactly the newline, the full stop, the
/// exclamation and question marks, the semicolon, their ideographic and
/// full-width forms (U+3002, U+FF01, U+FF1F, U+FF1B) and the ellipsis (U+2026).
/// Splitting a text into units loses nothing, leaves no unit empty, ends every
/// unit but the last right after one of them, and lets none of them stand
/// inside a unit.
pub proof fn law_units_end_at_delimiters(s: Seq<char>)
    ensures
        units_of(s).flatten() == s,
        forall|i: int| 0 <= i < units_of(s).len() ==> #[trigger] units_of(s)[i].len() > 0,
        forall|i: int|
            0 <= i < units_of(s).len() - 1 ==> {
                let c = #[trigger] units_of(s)[i].last();
                ||| c == '\n'
                ||| c == '.'
                ||| c == '!'
                ||| c == '?'
                ||| c == ';'
                ||| c == '\u{3002}'
                ||| c == '\u{FF01}'
                ||| c == '\u{FF1F}'
                ||| c == '\u{FF1B}'
                ||| c == '\u{2026}'
            },
        forall|i: int, k: int|
            0 <= i < units_of(s).len() && 0 <= k < units_of(s)[i].len() - 1 ==> {
                let c = #[trigger] units_of(s)[i][k];
                &&& c != '\n'
                &&& c != '.'
                &&& c != '!'
                &&& c != '?'
                &&& c != ';'
                &&& c != '\u{3002}'
                &&& c != '\u{FF01}'
                &&& c != '\u{FF1F}'
                &&& c != '\u{FF1B}'
                &&& c != '\u{2026}'
            },
{
    lemma_units_of(s);
}

/// Break text after sentence-ending punctuation and newlines (delimiters kept).
pub fn split_units(text: &str) -> (units: Vec<String>)
    ensures
        texts(units@) == units_of(text@),
        is_unit_split(text@, texts(units@)),
{
    let cs = chars_of(text);
    let mut units: Vec<String> = Vec::new();
    let mut cur = String::new();
    let mut i: usize = 0;
    while i < cs.len()
        invariant
            cs@ == text@,
            0 <= i <= cs.len(),
            unit_scan(cs@.take(i as int)) == (texts(units@), cur@),
        decreases cs.len() - i,
    {
        let c = cs[i];
        assert(cs@.take(i + 1).drop_last() =~= cs@.take(i as int));
        assert(cs@.take(i + 1).last() == c);
        cur.push(c);
        if is_delimiter(c) {
            proof {
                lemma_texts_push(units@, cur);
            }
            units.push(cur);
            cur = String::new();
        }
        i = i + 1;
    }
    assert(cs@.take(cs@.len() as int) =~= cs@);
    if !cur.as_str().is_empty() {
        proof {
            lemma_texts_push(units@, cur);
        }
        units.push(cur);
    }
    proof {
        lemma_units_of(text@);
    }
    units
}

// ---------- byte-bounded splitting of one unit ----------

/// Left-to-right scan behind `hard_pieces`: a character starts a new piece when
/// adding it would take a non-empty piece past `max` bytes.
pub open spec fn hard_scan(s: Seq<char>, max: nat) -> (Seq<Seq<char>>, Seq<char>)
    decreases s.len(),
{
    if s.len() == 0 {
        (Seq::empty(), Seq::empty())
    } else {
        let (done, cur) = hard_scan(s.drop_last(), max);
        let c = s.last();
        if cur.len() > 0 && byte_len(cur) + utf8_len(c) > max {
            (done.push(cur), seq![c])
        } else {
            (done, cur.push(c))
        }
    }
}

/// `s` cut at character boundaries into pieces of at most `max` bytes, greedily.
pub open spec fn hard_pieces(s: Seq<char>, max: nat) -> Seq<Seq<char>> {
    let (done, cur) = hard_scan(s, max);
    if cur.len() > 0 {
        done.push(cur)
    } else {
        done
    }
}

/// Pieces that cover `s` in order, are non-empty, and stay within `max` bytes
/// unless a piece is a single character that is longer on its own.
pub open spec fn is_bounded_split(s: Seq<char>, pieces: Seq<Seq<char>>, max: nat) -> bool {
    &&& pieces.flatten() == s
    &&& forall|i: int| 0 <= i < pieces.len() ==> #[trigger] pieces[i].len() > 0
    &&& forall|i: int|
        0 <= i < pieces.len() ==> byte_len(#[trigger] pieces[i]) <= max || pieces[i].len() == 1
}

proof fn lemma_hard_scan(s: Seq<char>, max: nat)
    ensures
        ({
            let (done, cur) = hard_scan(s, max);
            &&& done.flatten() + cur == s
            &&& is_bounded_split(done.flatten(), done, max)
            &&& (s.len() > 0 ==> cur.len() > 0)
            &&& (byte_len(cur) <= max || cur.len() == 1)
        }),
    decreases s.len(),
{
    if s.len() > 0 {
        lemma_hard_scan(s.drop_last(), max);
        let (done, cur) = hard_scan(s.drop_last(), max);
        let c = s.last();
        assert(s.drop_last().push(c) =~= s);
        lemma_byte_len_single(c);
        if cur.len() > 0 && byte_len(cur) + utf8_len(c) > max {
            let d2 = done.push(cur);
            assert(d2.flatten() == done.flatten() + cur);
            assert(d2.flatten() + seq![c] =~= s);
        } else {
            assert(done.flatten() + cur.push(c) =~= s);
            assert(cur.push(c) =~= cur + seq![c]);
            lemma_byte_len_concat(cur, seq![c]);
        }
    } else {
        assert(byte_len(Seq::<char>::empty()) == 0);
    }
}

/// `hard_pieces` covers `s` with non-empty pieces of at most `max` bytes (or one character).
pub proof fn lemma_hard_pieces(s: Seq<char>, max: nat)
    ensures
        is_bounded_split(s, hard_pieces(s, max), max),
{
    lemma_hard_scan(s, max);
    let (done, cur) = hard_scan(s, max);
    if cur.len() > 0 {
        assert(done.push(cur).flatten() == done.flatten() + cur);
    } else {
        assert(done.flatten() + cur =~= done.flatten());
    }
}

/// Whether `a + b <= max`, without overflow.
fn fits(a: usize, b: usize, max: usize) -> (r: bool)
    ensures
        r == (a + b <= max),
{
    b <= max && a <= max - b
}

/// Appends to `out` the pieces of `hard_pieces(s, max_bytes)`.
fn hard_split_into(s: &Vec<char>, max_bytes: usize, out: &mut Vec<String>)
    ensures
        texts(final(out)@) == texts(old(out)@) + hard_pieces(s@, max_bytes as nat),
{
    let ghost start = texts(out@);
    let mut cur = String::new();
    let mut cur_bytes: usize = 0;
    let mut i: usize = 0;
    while i < s.len()
        invariant
            0 <= i <= s.len(),
            ({
                let (done, c) = hard_scan(s@.take(i as int), max_bytes as nat);
                &&& texts(out@) == start + done
                &&& cur@ == c
            }),
            cur_bytes == byte_len(cur@),
            byte_len(cur@) <= max_bytes || cur@.len() == 1,
        decreases s.len() - i,
    {
        let c = s[i];
        let n = char_bytes(c);
        proof {
            assert(s@.take(i + 1).drop_last() =~= s@.take(i as int));
            assert(s@.take(i + 1).last() == c);
            lemma_byte_len_single(c);
            lemma_byte_len_bounds(cur@);
            lemma_byte_len_concat(cur@, seq![c]);
            assert(cur@.push(c) =~= cur@ + seq![c]);
        }
        if !cur.as_str().is_empty() && !fits(cur_bytes, n, max_bytes) {
            proof {
                lemma_texts_push(out@, cur);
                assert(start + texts(out@).subrange(start.len() as int, texts(out@).len() as int)
                    =~= texts(out@));
            }
            out.push(cur);
            cur = String::new();
            cur.push(c);
            cur_bytes = n;
            proof {
                assert(cur@ =~= seq![c]);
            }
        } else {
            cur.push(c);
            proof {
                if cur_bytes > 0 {
                    assert(cur_bytes + n <= max_bytes);
                }
            }
            cur_bytes = cur_bytes + n;
        }
        i = i + 1;
    }
    assert(s@.take(s@.len() as int) =~= s@);
    if !cur.as_str().is_empty() {
        proof {
            lemma_texts_push(out@, cur);
        }
        out.push(cur);
    }
}

/// Last-resort split of an oversized unit at char boundaries.
pub fn hard_split(s: &str, max_bytes: usize) -> (pieces: Vec<String>)
    ensures
        texts(pieces@) == hard_pieces(s@, max_bytes as nat),
        is_bounded_split(s@, texts(pieces@), max_bytes as nat),
{
    let cs = chars_of(s);
    let mut out: Vec<String> = Vec::new();
    hard_split_into(&cs, max_bytes, &mut out);
    proof {
        assert(texts(Seq::<String>::empty()) =~= Seq::<Seq<char>>::empty());
        assert(Seq::<Seq<char>>::empty() + hard_pieces(s@, max_bytes as nat) =~= hard_pieces(
            s@,
            max_bytes as nat,
        ));
        lemma_hard_pieces(s@, max_bytes as nat);
    }
    out
}

// ---------- chunks ----------

/// Left-to-right scan behind `chunks_of`: units are packed into the current
/// chunk while it stays within `max` bytes; an oversized unit is cut by
/// `hard_pieces` and closes the current chunk.
pub open spec fn chunk_scan(units: Seq<Seq<char>>, max: nat) -> (Seq<Seq<char>>, Seq<char>)
    decreases units.len(),
{
    if units.len() == 0 {
        (Seq::empty(), Seq::empty())
    } else {
        let (done, cur) = chunk_scan(units.drop_last(), max);
        let u = units.last();
        if byte_len(u) > max {
            let closed = if cur.len() > 0 {
                done.push(cur)
            } else {
                done
            };
            (closed + hard_pieces(u, max), Seq::empty())
        } else if byte_len(cur) + byte_len(u) > max {
            (done.push(cur), u)
        } else {
            (done, cur + u)
        }
    }
}

/// The chunks that `chunk_text` cuts `s` into.
pub open spec fn chunks_of(s: Seq<char>, max: nat) -> Seq<Seq<char>> {
    let (done, cur) = chunk_scan(units_of(s), max);
    if cur.len() > 0 {
        done.push(cur)
    } else {
        done
    }
}

proof fn lemma_chunk_scan(units: Seq<Seq<char>>, max: nat)
    requires
        forall|i: int| 0 <= i < units.len() ==> #[trigger] units[i].len() > 0,
    ensures
        ({
            let (done, cur) = chunk_scan(units, max);
            &&& done.flatten() + cur == units.flatten()
            &&& is_bounded_split(done.flatten(), done, max)
            &&& byte_len(cur) <= max
        }),
    decreases units.len(),
{
    if units.len() == 0 {
        assert(byte_len(Seq::<char>::empty()) == 0);
        assert(Seq::<Seq<char>>::empty().flatten() + Seq::<char>::empty() =~= Seq::<char>::empty());
    } else {
        let rest = units.drop_last();
        assert forall|i: int| 0 <= i < rest.len() implies #[trigger] rest[i].len() > 0 by {
            assert(rest[i] == units[i]);
        }
        lemma_chunk_scan(rest, max);
        let (done, cur) = chunk_scan(rest, max);
        let u = units.last();
        assert(rest.push(u) =~= units);
        assert(units.flatten() == rest.flatten() + u);
        assert(byte_len(Seq::<char>::empty()) == 0);
        if byte_len(u) > max {
            let closed = if cur.len() > 0 {
                done.push(cur)
            } else {
                done
            };
            if cur.len() > 0 {
                assert(closed.flatten() == done.flatten() + cur);
            } else {
                assert(done.flatten() + cur =~= done.flatten());
            }
            lemma_hard_pieces(u, max);
            let hp = hard_pieces(u, max);
            vstd::seq_lib::lemma_flatten_concat(closed, hp);
            let d2 = closed + hp;
            assert(d2.flatten() + Seq::<char>::empty() =~= d2.flatten());
            assert(d2.flatten() =~= units.flatten());
            assert forall|i: int| 0 <= i < d2.len() implies #[trigger] d2[i].len() > 0 && (
            byte_len(d2[i]) <= max || d2[i].len() == 1) by {
                if i >= closed.len() {
                    assert(d2[i] == hp[i - closed.len()]);
                } else {
                    assert(d2[i] == closed[i]);
                }
            }
        } else if byte_len(cur) + byte_len(u) > max {
            assert(cur.len() > 0);
            let d2 = done.push(cur);
            assert(d2.flatten() == done.flatten() + cur);
            assert(d2.flatten() + u =~= units.flatten());
        } else {
            lemma_byte_len_concat(cur, u);
            assert(done.flatten() + (cur + u) =~= units.flatten());
        }
    }
}

/// `chunks_of` covers `s` with non-empty chunks of at most `max` bytes (or one character).
pub proof fn lemma_chunks_of(s: Seq<char>, max: nat)
    ensures
        is_bounded_split(s, chunks_of(s, max), max),
{
    lemma_units_of(s);
    lemma_chunk_scan(units_of(s), max);
    let (done, cur) = chunk_scan(units_of(s), max);
    if cur.len() > 0 {
        assert(done.push(cur).flatten() == done.flatten() + cur);
    } else {
        assert(done.flatten() + cur =~= done.flatten());
    }
}

proof fn lemma_chunk_bounds(units: Seq<Seq<char>>, max: nat) -> (b: Seq<int>)
    requires
        forall|i: int| 0 <= i < units.len() ==> #[trigger] units[i].len() > 0 && byte_len(units[i]) <= max,
    ensures
        ({
            let (done, cur) = chunk_scan(units, max);
            &&& b.len() == done.len() + 1
            &&& b[0] == 0
            &&& forall|i: int| 0 <= i < b.len() ==> 0 <= #[trigger] b[i] <= units.len()
            &&& units.len() > 0 ==> b.last() < units.len()
            &&& units.len() == 0 ==> b.last() == 0
            &&& forall|i: int| 0 <= i < done.len() ==> #[trigger] b[i] < b[i + 1]
            &&& forall|i: int|
                0 <= i < done.len() ==> #[trigger] done[i] == units.subrange(b[i], b[i + 1]).flatten()
            &&& forall|i: int|
                0 <= i < done.len() ==> byte_len(#[trigger] done[i]) + byte_len(units[b[i + 1]]) > max
            &&& cur == units.subrange(b.last(), units.len() as int).flatten()
        }),
    decreases units.len(),
{
    if units.len() == 0 {
        assert(units.subrange(0, 0) =~= Seq::<Seq<char>>::empty());
        seq![0int]
    } else {
        let rest = units.drop_last();
        assert forall|i: int| 0 <= i < rest.len() implies #[trigger] rest[i].len() > 0 && byte_len(
            rest[i],
        ) <= max by {
            assert(rest[i] == units[i]);
        }
        let b0 = lemma_chunk_bounds(rest, max);
        lemma_chunk_scan(rest, max);
        let (done, cur) = chunk_scan(rest, max);
        let u = units.last();
        let n = rest.len() as int;
        assert(units[n] == u);
        assert(rest.len() == 0 ==> done.len() == 0);
        assert forall|i: int| 0 <= i < done.len() implies #[trigger] done[i] == units.subrange(
            b0[i],
            b0[i + 1],
        ).flatten() && byte_len(done[i]) + byte_len(units[b0[i + 1]]) > max by {
            assert(rest.len() > 0);
            assert(b0[i + 1] < rest.len()) by {
                if i + 1 < done.len() {
                    assert(b0[i + 1] < b0[i + 2]);
                }
            }
            assert(units.subrange(b0[i], b0[i + 1]) =~= rest.subrange(b0[i], b0[i + 1]));
            assert(units[b0[i + 1]] == rest[b0[i + 1]]);
        }
        if byte_len(cur) + byte_len(u) > max {
            assert(rest.len() > 0) by {
                if rest.len() == 0 {
                    assert(rest.subrange(0, 0) =~= Seq::<Seq<char>>::empty());
                    assert(byte_len(Seq::<char>::empty()) == 0);
                }
            }
            let b = b0.push(n);
            let d2 = done.push(cur);
            assert(units.subrange(b0.last(), n) =~= rest.subrange(b0.last(), n));
            assert(units.subrange(n, units.len() as int) =~= seq![u]);
            seq![u].lemma_flatten_one_element();
            assert forall|i: int| 0 <= i < d2.len() implies #[trigger] b[i] < b[i + 1] by {
                if i < done.len() {
                    assert(b[i] == b0[i] && b[i + 1] == b0[i + 1]);
                }
            }
            assert forall|i: int| 0 <= i < d2.len() implies #[trigger] d2[i] == units.subrange(
                b[i],
                b[i + 1],
            ).flatten() && byte_len(d2[i]) + byte_len(units[b[i + 1]]) > max by {
                if i < done.len() {
                    assert(b[i] == b0[i] && b[i + 1] == b0[i + 1]);
                }
            }
            b
        } else {
            assert(units.subrange(b0.last(), units.len() as int) =~= rest.subrange(b0.last(), n).push(u));
            b0
        }
    }
}

/// When every unit of `s` fits in `max` bytes, the chunks are made of whole
/// units: the returned bounds cut the units into consecutive runs, one run per
/// chunk, each chunk is its run put together and stays within `max` bytes, and
/// a chunk is closed only when the unit after it would not fit beside it.
pub proof fn law_chunks_pack_whole_units(s: Seq<char>, max: nat) -> (b: Seq<int>)
    requires
        forall|i: int| 0 <= i < units_of(s).len() ==> byte_len(#[trigger] units_of(s)[i]) <= max,
    ensures
        b.len() == chunks_of(s, max).len() + 1,
        b[0] == 0,
        b.last() == units_of(s).len(),
        forall|i: int| 0 <= i < chunks_of(s, max).len() ==> #[trigger] b[i] < b[i + 1],
        forall|i: int|
            0 <= i < chunks_of(s, max).len() ==> #[trigger] chunks_of(s, max)[i] == units_of(s).subrange(
                b[i],
                b[i + 1],
            ).flatten() && byte_len(chunks_of(s, max)[i]) <= max,
        forall|i: int|
            0 <= i < chunks_of(s, max).len() - 1 ==> byte_len(#[trigger] chunks_of(s, max)[i])
                + byte_len(units_of(s)[b[i + 1]]) > max,
{
    let us = units_of(s);
    lemma_units_of(s);
    let b0 = lemma_chunk_bounds(us, max);
    lemma_chunk_scan(us, max);
    let (done, cur) = chunk_scan(us, max);
    let cs = chunks_of(s, max);
    assert forall|i: int| 0 <= i < done.len() implies byte_len(#[trigger] done[i]) <= max by {
        if done[i].len() == 1 {
            assert(done[i] == us.subrange(b0[i], b0[i + 1]).flatten());
            assert(b0[i] < b0[i + 1]);
            if b0[i + 1] > b0[i] + 1 {
                let r = us.subrange(b0[i], b0[i + 1]);
                assert(r.flatten() == r.first() + r.drop_first().flatten());
                assert(r.first() == us[b0[i]]);
                assert(r.drop_first().flatten() == r.drop_first().first() + r.drop_first().drop_first().flatten());
                assert(r.drop_first().first() == us[b0[i] + 1]);
            }
        }
    }
    if us.len() == 0 {
        assert(cur.len() == 0) by {
            assert(us.subrange(0, 0) =~= Seq::<Seq<char>>::empty());
        }
        b0
    } else {
        assert(cur.len() > 0) by {
            let r = us.subrange(b0.last(), us.len() as int);
            assert(r.len() > 0);
            assert(r.flatten() == r.first() + r.drop_first().flatten());
            assert(r.first() == us[b0.last()]);
        }
        let b = b0.push(us.len() as int);
        assert(cs == done.push(cur));
        assert forall|i: int| 0 <= i < cs.len() implies #[trigger] b[i] < b[i + 1] by {
            if i < done.len() {
                assert(b[i] == b0[i] && b[i + 1] == b0[i + 1]);
            }
        }
        assert forall|i: int| 0 <= i < cs.len() implies #[trigger] cs[i] == us.subrange(
            b[i],
            b[i + 1],
        ).flatten() && byte_len(cs[i]) <= max by {
            if i < done.len() {
                assert(b[i] == b0[i] && b[i + 1] == b0[i + 1]);
                assert(cs[i] == done[i]);
            }
        }
        assert forall|i: int| 0 <= i < cs.len() - 1 implies byte_len(#[trigger] cs[i]) + byte_len(
            us[b[i + 1]],
        ) > max by {
            assert(b[i + 1] == b0[i + 1]);
            assert(cs[i] == done[i]);
        }
        b
    }
}

/// `Some(byte_len(v))` when that is at most `max`, else `None`.
fn byte_len_upto(v: &Vec<char>, max: usize) -> (r: Option<usize>)
    ensures
        r matches Some(n) ==> n == byte_len(v@) && n <= max,
        r is None ==> byte_len(v@) > max,
{
    let mut n: usize = 0;
    let mut i: usize = 0;
    while i < v.len()
        invariant
            0 <= i <= v.len(),
            n == byte_len(v@.take(i as int)),
            n <= max,
        decreases v.len() - i,
    {
        let b = char_bytes(v[i]);
        assert(v@.take(i + 1).drop_last() =~= v@.take(i as int));
        if !fits(n, b, max) {
            proof {
                assert(v@ =~= v@.take(i + 1) + v@.skip(i + 1));
                lemma_byte_len_concat(v@.take(i + 1), v@.skip(i + 1));
            }
            return None;
        }
        n = n + b;
        i = i + 1;
    }
    assert(v@.take(v@.len() as int) =~= v@);
    Some(n)
}

/// Split text into chunks each of at most `max_bytes` bytes (a single character
/// longer than that stands alone), preferring sentence and line breaks.
pub fn chunk_text(text: &str, max_bytes: usize) -> (chunks: Vec<String>)
    ensures
        texts(chunks@) == chunks_of(text@, max_bytes as nat),
        is_bounded_split(text@, texts(chunks@), max_bytes as nat),
{
    let units = split_units(text);
    let ghost us = texts(units@);
    let mut chunks: Vec<String> = Vec::new();
    let mut cur = String::new();
    let mut cur_bytes: usize = 0;
    let mut j: usize = 0;
    proof {
        lemma_units_of(text@);
    }
    while j < units.len()
        invariant
            0 <= j <= units.len(),
            us == texts(units@),
            us == units_of(text@),
            forall|i: int| 0 <= i < us.len() ==> #[trigger] us[i].len() > 0,
            chunk_scan(us.take(j as int), max_bytes as nat) == (texts(chunks@), cur@),
            cur_bytes == byte_len(cur@),
            cur_bytes <= max_bytes,
        decreases units.len() - j,
    {
        let ucs = chars_of(units[j].as_str());
        proof {
            assert(us.take(j + 1).drop_last() =~= us.take(j as int));
            assert(us.take(j + 1).last() == us[j as int]);
            assert(us[j as int] == units@[j as int]@);
            lemma_byte_len_concat(cur@, ucs@);
            assert forall|i: int| 0 <= i < us.take(j as int).len() implies #[trigger] us.take(
                j as int,
            )[i].len() > 0 by {
                assert(us.take(j as int)[i] == us[i]);
            }
            lemma_chunk_scan(us.take(j as int), max_bytes as nat);
        }
        match byte_len_upto(&ucs, max_bytes) {
            None => {
                if !cur.as_str().is_empty() {
                    proof {
                        lemma_texts_push(chunks@, cur);
                    }
                    chunks.push(cur);
                    cur = String::new();
                    cur_bytes = 0;
                }
                let ghost before = texts(chunks@);
                hard_split_into(&ucs, max_bytes, &mut chunks);
                proof {
                    assert(byte_len(cur@) == 0);
                }
            },
            Some(ub) => {
                if !fits(cur_bytes, ub, max_bytes) {
                    proof {
                        lemma_texts_push(chunks@, cur);
                    }
                    chunks.push(cur);
                    cur = units[j].clone();
                    cur_bytes = ub;
                } else {
                    push_str(&mut cur, units[j].as_str());
                    cur_bytes = cur_bytes + ub;
                }
            },
        }
        j = j + 1;
    }
    assert(us.take(us.len() as int) =~= us);
    if !cur.as_str().is_empty() {
        proof {
            lemma_texts_push(chunks@, cur);
        }
        chunks.push(cur);
    }
    proof {
        lemma_chunks_of(text@, max_bytes as nat);
    }
    chunks
}

} // verus!
