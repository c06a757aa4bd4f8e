//! A word-frequency counter.
//!
//! The words of a text are its maximal runs of non-whitespace characters,
//! in order of appearance. `count_word` returns one entry per distinct
//! word with the exact number of its occurrences, sorted by count, largest
//! first; the order of entries with equal counts is not specified.

use vstd::prelude::*;

use crate::json::chars_to_string;

verus! {

/// A whitespace character: the White_Space set that `str::split_whitespace`
/// splits on.
pub open spec fn is_space_char(c: char) -> bool {
    c == ' ' || c == '\t' || c == '\n' || c == '\r' || c == '\u{0B}' || c == '\u{0C}' || c
        == '\u{85}' || c == '\u{A0}' || c == '\u{1680}' || (0x2000 <= c as u32 && c as u32
        <= 0x200A) || c == '\u{2028}' || c == '\u{2029}' || c == '\u{202F}' || c == '\u{205F}' || c
        == '\u{3000}'
}

/// The first index at or after `i` not holding whitespace.
pub open spec fn spec_skip_space(v: Seq<char>, i: int) -> int
    decreases v.len() - i,
{
    if 0 <= i < v.len() && is_space_char(v[i]) {
        spec_skip_space(v, i + 1)
    } else {
        i
    }
}

pub proof fn lemma_skip_space_bounds(v: Seq<char>, i: int)
    ensures
        0 <= i <= v.len() ==> i <= spec_skip_space(v, i) <= v.len(),
        !(0 <= i <= v.len()) ==> spec_skip_space(v, i) == i,
        0 <= i <= v.len() ==> (spec_skip_space(v, i) == v.len() || !is_space_char(
            v[spec_skip_space(v, i)],
        )),
    decreases v.len() - i,
{
    if 0 <= i < v.len() && is_space_char(v[i]) {
        lemma_skip_space_bounds(v, i + 1);
    }
}

/// The first index at or after `i` holding whitespace, or the end.
pub open spec fn spec_word_end(v: Seq<char>, i: int) -> int
    decreases v.len() - i,
{
    if 0 <= i < v.len() && !is_space_char(v[i]) {
        spec_word_end(v, i + 1)
    } else {
        i
    }
}

pub proof fn lemma_word_end_bounds(v: Seq<char>, i: int)
    ensures
        0 <= i <= v.len() ==> i <= spec_word_end(v, i) <= v.len(),
        !(0 <= i <= v.len()) ==> spec_word_end(v, i) == i,
    decreases v.len() - i,
{
    if 0 <= i < v.len() && !is_space_char(v[i]) {
        lemma_word_end_bounds(v, i + 1);
    }
}

/// The words of the text from `i` on: maximal non-whitespace runs, in
/// order of appearance.
pub open spec fn spec_words(v: Seq<char>, i: int) -> Seq<Seq<char>>
    decreases v.len() - i,
    via spec_words_dec
{
    let j = spec_skip_space(v, i);
    if !(0 <= j < v.len()) {
        Seq::empty()
    } else {
        let k = spec_word_end(v, j);
        seq![v.subrange(j, k)] + spec_words(v, k)
    }
}

#[via_fn]
proof fn spec_words_dec(v: Seq<char>, i: int) {
    lemma_skip_space_bounds(v, i);
    let j = spec_skip_space(v, i);
    if 0 <= j < v.len() {
        lemma_word_end_bounds(v, j + 1);
        assert(spec_word_end(v, j) == spec_word_end(v, j + 1));
    }
}

/// How many of the words equal `w`.
pub open spec fn spec_occ(ws: Seq<Seq<char>>, w: Seq<char>) -> nat
    decreases ws.len(),
{
    if ws.len() == 0 {
        0
    } else {
        spec_occ(ws.drop_last(), w) + (if ws.last() == w {
            1nat
        } else {
            0nat
        })
    }
}

pub proof fn lemma_occ_push(ws: Seq<Seq<char>>, x: Seq<char>, w: Seq<char>)
    ensures
        spec_occ(ws.push(x), w) == spec_occ(ws, w) + (if x == w {
            1nat
        } else {
            0nat
        }),
{
    assert(ws.push(x).drop_last() =~= ws);
    assert(ws.push(x).last() == x);
}

pub proof fn lemma_occ_le_len(ws: Seq<Seq<char>>, w: Seq<char>)
    ensures
        spec_occ(ws, w) <= ws.len(),
    decreases ws.len(),
{
    if ws.len() > 0 {
        lemma_occ_le_len(ws.drop_last(), w);
    }
}

/// A text of `m` characters holds at most `m` words.
pub proof fn lemma_words_count_le(v: Seq<char>, i: int)
    requires
        0 <= i <= v.len(),
    ensures
        spec_words(v, i).len() <= v.len() - i,
    decreases v.len() - i,
{
    lemma_skip_space_bounds(v, i);
    let j = spec_skip_space(v, i);
    if 0 <= j < v.len() {
        lemma_word_end_bounds(v, j + 1);
        let k = spec_word_end(v, j);
        lemma_words_count_le(v, k);
    }
}

/// The first index at or after `i` not holding whitespace.
fn skip_space(s: &str, i: usize) -> (r: usize)
    requires
        i <= s@.len(),
    ensures
        r == spec_skip_space(s@, i as int),
        i <= r <= s@.len(),
{
    let n: usize = s.unicode_len();
    let mut j: usize = i;
    loop
        invariant
            i <= j <= n,
            n == s@.len(),
            spec_skip_space(s@, i as int) == spec_skip_space(s@, j as int),
        decreases n - j,
    {
        if j >= n {
            return j;
        }
        if !is_space(s.get_char(j)) {
            return j;
        }
        j = j + 1;
    }
}

/// The first index at or after `i` holding whitespace, or the end.
fn word_end(s: &str, i: usize) -> (r: usize)
    requires
        i <= s@.len(),
    ensures
        r == spec_word_end(s@, i as int),
        i <= r <= s@.len(),
{
    let n: usize = s.unicode_len();
    let mut j: usize = i;
    loop
        invariant
            i <= j <= n,
            n == s@.len(),
            spec_word_end(s@, i as int) == spec_word_end(s@, j as int),
        decreases n - j,
    {
        if j >= n {
            return j;
        }
        if is_space(s.get_char(j)) {
            return j;
        }
        j = j + 1;
    }
}

/// Whether the character is whitespace.
fn is_space(c: char) -> (r: bool)
    ensures
        r == is_space_char(c),
{
    let u = c as u32;
    c == ' ' || c == '\t' || c == '\n' || c == '\r' || c == '\u{0B}' || c == '\u{0C}' || c
        == '\u{85}' || c == '\u{A0}' || c == '\u{1680}' || (0x2000 <= u && u <= 0x200A) || c
        == '\u{2028}' || c == '\u{2029}' || c == '\u{202F}' || c == '\u{205F}' || c == '\u{3000}'
}

/// Counts the words of the text: one entry per distinct word with the
/// exact number of its occurrences, sorted by count, largest first. The
/// order of entries with equal counts is not specified.
pub fn count_word(contents: &str) -> (r: Vec<(String, u32)>)
    requires
        contents@.len() <= u32::MAX,
    ensures
        forall|t: int|
            0 <= t < r@.len() ==> (#[trigger] r@[t]).1 as nat == spec_occ(
                spec_words(contents@, 0),
                r@[t].0@,
            ),
        forall|t: int|
            0 <= t < r@.len() ==> spec_occ(spec_words(contents@, 0), (#[trigger] r@[t]).0@) > 0,
        forall|a: int, b: int|
            0 <= a < b < r@.len() ==> (#[trigger] r@[a]).0@ != (#[trigger] r@[b]).0@,
        forall|w: Seq<char>|
            #[trigger] spec_occ(spec_words(contents@, 0), w) > 0 ==> exists|t: int|
                0 <= t < r@.len() && (#[trigger] r@[t]).0@ == w,
        forall|a: int, b: int|
            0 <= a <= b < r@.len() ==> (#[trigger] r@[a]).1 >= (#[trigger] r@[b]).1,
{
    let n: usize = contents.unicode_len();
    let ghost words_all = spec_words(contents@, 0);
    proof {
        lemma_words_count_le(contents@, 0);
    }
    let mut counts: Vec<(String, u32)> = Vec::new();
    let ghost mut processed: Seq<Seq<char>> = Seq::empty();
    let mut j: usize = 0;
    loop
        invariant
            j <= n,
            n == contents@.len(),
            n <= u32::MAX,
            words_all == spec_words(contents@, 0),
            words_all == processed + spec_words(contents@, j as int),
            processed.len() + spec_words(contents@, j as int).len() <= n,
            forall|t: int|
                0 <= t < counts@.len() ==> (#[trigger] counts@[t]).1 as nat == spec_occ(
                    processed,
                    counts@[t].0@,
                ),
            forall|t: int|
                0 <= t < counts@.len() ==> spec_occ(processed, (#[trigger] counts@[t]).0@) > 0,
            forall|a: int, b: int|
                0 <= a < b < counts@.len() ==> (#[trigger] counts@[a]).0@ != (
                #[trigger] counts@[b]).0@,
            forall|w: Seq<char>|
                #[trigger] spec_occ(processed, w) > 0 ==> exists|t: int|
                    0 <= t < counts@.len() && (#[trigger] counts@[t]).0@ == w,
        ensures
            processed == words_all,
        decreases n - j,
    {
        let jj = skip_space(contents, j);
        if jj >= n {
            proof {
                assert(spec_words(contents@, j as int) =~= Seq::<Seq<char>>::empty());
                assert(words_all =~= processed);
            }
            break;
        }
        let k = word_end(contents, jj);
        proof {
            lemma_skip_space_bounds(contents@, j as int);
            assert(!is_space_char(contents@[jj as int]));
            assert(spec_word_end(contents@, jj as int) == spec_word_end(contents@, jj as int + 1));
            lemma_word_end_bounds(contents@, jj as int + 1);
            assert(k > jj);
        }
        let mut wchars: Vec<char> = Vec::new();
        let mut t: usize = jj;
        while t < k
            invariant
                jj <= t <= k,
                k <= n,
                n == contents@.len(),
                wchars@ =~= contents@.subrange(jj as int, t as int),
            decreases k - t,
        {
            wchars.push(contents.get_char(t));
            t = t + 1;
            proof {
                assert(wchars@ =~= contents@.subrange(jj as int, t as int));
            }
        }
        let w = chars_to_string(&wchars);
        let ghost wseq = contents@.subrange(jj as int, k as int);
        proof {
            assert(spec_words(contents@, j as int) == seq![wseq] + spec_words(
                contents@,
                k as int,
            ));
            assert(processed + (seq![wseq] + spec_words(contents@, k as int)) =~= processed.push(
                wseq,
            ) + spec_words(contents@, k as int));
        }
        let mut pos: Option<usize> = None;
        let mut idx: usize = 0;
        loop
            invariant_except_break
                pos is None,
            invariant
                idx <= counts@.len(),
                forall|t2: int| 0 <= t2 < idx ==> (#[trigger] counts@[t2]).0@ != w@,
            ensures
                pos matches Some(p) ==> p < counts@.len() && counts@[p as int].0@ == w@,
                pos is None ==> forall|t2: int|
                    0 <= t2 < counts@.len() ==> (#[trigger] counts@[t2]).0@ != w@,
            decreases counts@.len() - idx,
        {
            if idx >= counts.len() {
                break;
            }
            if counts[idx].0 == w {
                pos = Some(idx);
                break;
            }
            idx = idx + 1;
        }
        let ghost counts0 = counts@;
        proof {
            assert(w@ == wseq);
            assert forall|x: Seq<char>| true implies #[trigger] spec_occ(processed.push(wseq), x)
                == spec_occ(processed, x) + (if wseq == x {
                1nat
            } else {
                0nat
            }) by {
                lemma_occ_push(processed, wseq, x);
            }
        }
        match pos {
            Some(p) => {
                let entry = counts.remove(p);
                let c0 = entry.1;
                let ghost mid = counts@;
                proof {
                    lemma_occ_le_len(processed, w@);
                    assert(c0 as nat + 1 <= n);
                    counts0.remove_ensures(p as int);
                }
                counts.insert(p, (entry.0, c0 + 1));
                proof {
                    mid.insert_ensures(p as int, (counts@[p as int].0, (c0 + 1) as u32));
                    assert(counts@ =~= counts0.update(p as int, counts@[p as int])) by {
                        assert forall|t2: int| 0 <= t2 < counts@.len() && t2 != p implies
                            #[trigger] counts@[t2] == counts0[t2] by {
                            if t2 < p {
                                assert(counts@[t2] == mid[t2]);
                            } else {
                                assert(counts@[t2] == mid[t2 - 1]);
                            }
                        }
                    }
                    assert(counts@[p as int].0@ == wseq);
                    assert(counts@[p as int].1 as nat == spec_occ(processed.push(wseq), wseq));
                    assert forall|x: Seq<char>|
                        #[trigger] spec_occ(processed.push(wseq), x) > 0 implies exists|t2: int|
                        0 <= t2 < counts@.len() && (#[trigger] counts@[t2]).0@ == x by {
                        if x == wseq {
                            assert(counts@[p as int].0@ == x);
                        } else {
                            assert(spec_occ(processed, x) > 0);
                            let t0 = choose|t0: int|
                                0 <= t0 < counts0.len() && (#[trigger] counts0[t0]).0@ == x;
                            assert(counts@[t0].0@ == x);
                        }
                    }
                }
            },
            None => {
                proof {
                    assert(spec_occ(processed, w@) == 0);
                }
                counts.push((w, 1));
                proof {
                    assert(counts@[counts0.len() as int].0@ == wseq);
                    assert(counts@[counts0.len() as int].1 == 1u32);
                    assert forall|t2: int| 0 <= t2 < counts0.len() implies #[trigger] counts@[t2]
                        == counts0[t2] by {}
                    assert forall|x: Seq<char>|
                        #[trigger] spec_occ(processed.push(wseq), x) > 0 implies exists|t2: int|
                        0 <= t2 < counts@.len() && (#[trigger] counts@[t2]).0@ == x by {
                        if x == wseq {
                            assert(counts@[counts0.len() as int].0@ == x);
                        } else {
                            assert(spec_occ(processed, x) > 0);
                            let t0 = choose|t0: int|
                                0 <= t0 < counts0.len() && (#[trigger] counts0[t0]).0@ == x;
                            assert(counts@[t0].0@ == x);
                        }
                    }
                }
            },
        }
        proof {
            processed = processed.push(wseq);
        }
        j = k;
    }
    let mut out: Vec<(String, u32)> = Vec::new();
    loop
        invariant
            words_all == spec_words(contents@, 0),
            forall|t: int|
                0 <= t < out@.len() ==> (#[trigger] out@[t]).1 as nat == spec_occ(
                    words_all,
                    out@[t].0@,
                ),
            forall|t: int|
                0 <= t < counts@.len() ==> (#[trigger] counts@[t]).1 as nat == spec_occ(
                    words_all,
                    counts@[t].0@,
                ),
            forall|t: int|
                0 <= t < out@.len() ==> spec_occ(words_all, (#[trigger] out@[t]).0@) > 0,
            forall|t: int|
                0 <= t < counts@.len() ==> spec_occ(words_all, (#[trigger] counts@[t]).0@) > 0,
            forall|a: int, b: int|
                0 <= a < b < out@.len() ==> (#[trigger] out@[a]).0@ != (#[trigger] out@[b]).0@,
            forall|a: int, b: int|
                0 <= a < b < counts@.len() ==> (#[trigger] counts@[a]).0@ != (
                #[trigger] counts@[b]).0@,
            forall|a: int, b: int|
                0 <= a < out@.len() && 0 <= b < counts@.len() ==> (#[trigger] out@[a]).0@ != (
                #[trigger] counts@[b]).0@,
            forall|w: Seq<char>|
                #[trigger] spec_occ(words_all, w) > 0 ==> (exists|t: int|
                    0 <= t < out@.len() && (#[trigger] out@[t]).0@ == w) || (exists|t: int|
                    0 <= t < counts@.len() && (#[trigger] counts@[t]).0@ == w),
            forall|a: int, b: int|
                0 <= a <= b < out@.len() ==> (#[trigger] out@[a]).1 >= (#[trigger] out@[b]).1,
            forall|a: int, b: int|
                0 <= a < out@.len() && 0 <= b < counts@.len() ==> (#[trigger] out@[a]).1 >= (
                #[trigger] counts@[b]).1,
        ensures
            counts@.len() == 0,
        decreases counts@.len(),
    {
        if counts.len() == 0 {
            break;
        }
        let mut mi: usize = 0;
        let mut mx: u32 = counts[0].1;
        let mut t: usize = 1;
        loop
            invariant
                counts@.len() > 0,
                mi < counts@.len(),
                t <= counts@.len(),
                mx == counts@[mi as int].1,
                forall|a: int| 0 <= a < t ==> mx >= (#[trigger] counts@[a]).1,
            ensures
                mi < counts@.len(),
                mx == counts@[mi as int].1,
                forall|a: int| 0 <= a < counts@.len() ==> mx >= (#[trigger] counts@[a]).1,
            decreases counts@.len() - t,
        {
            if t >= counts.len() {
                break;
            }
            if counts[t].1 > mx {
                mi = t;
                mx = counts[t].1;
            }
            t = t + 1;
        }
        let ghost counts0 = counts@;
        let ghost out0 = out@;
        let entry = counts.remove(mi);
        out.push(entry);
        proof {
            counts0.remove_ensures(mi as int);
            assert(out@ == out0.push(counts0[mi as int]));
            assert(out@[out0.len() as int] == counts0[mi as int]);
            assert forall|a: int| 0 <= a < out0.len() implies #[trigger] out@[a] == out0[a] by {}
            assert forall|a: int, b: int|
                0 <= a < out@.len() && 0 <= b < counts@.len() implies (#[trigger] out@[a]).1 >= (
            #[trigger] counts@[b]).1 by {
                if b < mi {
                    assert(counts@[b] == counts0[b]);
                } else {
                    assert(counts@[b] == counts0[b + 1]);
                }
            }
            assert forall|w: Seq<char>| #[trigger] spec_occ(words_all, w) > 0 implies (exists|
                t2: int,
            |
                0 <= t2 < out@.len() && (#[trigger] out@[t2]).0@ == w) || (exists|t2: int|
                0 <= t2 < counts@.len() && (#[trigger] counts@[t2]).0@ == w) by {
                if exists|t2: int| 0 <= t2 < out0.len() && (#[trigger] out0[t2]).0@ == w {
                    let t0 = choose|t0: int| 0 <= t0 < out0.len() && (#[trigger] out0[t0]).0@ == w;
                    assert(out@[t0].0@ == w);
                } else {
                    let t0 = choose|t0: int|
                        0 <= t0 < counts0.len() && (#[trigger] counts0[t0]).0@ == w;
                    if t0 == mi {
                        assert(out@[out0.len() as int].0@ == w);
                    } else if t0 < mi {
                        assert(counts@[t0].0@ == w);
                    } else {
                        assert(counts@[t0 - 1].0@ == w);
                    }
                }
            }
        }
    }
    out
}

} // verus!
