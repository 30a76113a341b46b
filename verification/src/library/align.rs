//! Timing known lyrics from what a speech model heard.
//!
//! The words shown are always those of the lyrics; only the instants come from
//! the model. The lyrics words and the heard words are normalised and aligned
//! globally (Needleman–Wunsch); each line takes the instant of its first matched
//! word, and the lines that no word reached are placed between their neighbours.
use vstd::prelude::*;

use crate::library::lyrics::analysed;
use crate::library::lyrics::first_row;
use crate::library::lyrics::gather;
use crate::library::lyrics::gather_row;
use crate::library::lyrics::rows_of;
use crate::library::lyrics::split_ts;
use crate::library::lyrics::split_rows;
use crate::library::naming::key_of;
use crate::library::naming::normalize_key_chars;
use crate::text::chars_eq;
use crate::library::lyrics::fraction_millis;
use crate::library::lyrics::first_separator;
use crate::library::lyrics::digits_only;
use crate::library::lyrics::is_fraction_separator;
use crate::library::lyrics::timestamp_value;
use crate::text::all_digits;
use crate::text::chars_of;
use crate::text::index_of;
use crate::text::is_digit;
use crate::text::decimal2;
use crate::text::push_all;
use crate::text::slice_chars;
use crate::text::string_from;
use crate::text::trim;
use crate::text::trim_chars;
use crate::text::trim_end;
use crate::text::trim_end_chars;
use crate::text::write_decimal2;

verus! {

/// A word heard by the model, with the instant where it starts.
#[derive(Debug, Clone)]
pub struct HeardWord {
    pub at_ms: i64,
    pub text: String,
}

// ── Global alignment ───────────────────────────────────────────────────────

/// Reward of two identical words, penalty of two different ones.
pub open spec fn pair_score(a: Seq<char>, b: Seq<char>) -> int {
    if a == b {
        2
    } else {
        -1
    }
}

/// The largest of three integers.
pub open spec fn max3(x: int, y: int, z: int) -> int {
    let m = if x >= y {
        x
    } else {
        y
    };
    if m >= z {
        m
    } else {
        z
    }
}

/// Best score aligning the first `i` words of `a` with the first `j` of `b`;
/// a gap costs one point.
pub open spec fn nw_score(a: Seq<Seq<char>>, b: Seq<Seq<char>>, i: nat, j: nat) -> int
    decreases i + j,
{
    if i == 0 {
        -(j as int)
    } else if j == 0 {
        -(i as int)
    } else {
        max3(
            nw_score(a, b, (i - 1) as nat, (j - 1) as nat) + pair_score(a[i - 1], b[j - 1]),
            nw_score(a, b, (i - 1) as nat, j) - 1,
            nw_score(a, b, i, (j - 1) as nat) - 1,
        )
    }
}

/// The pairs of identical words along the path traced back from `(i, j)`.
///
/// At equal scores, skipping the heard word comes first, then the diagonal: the
/// earliest occurrence of a repeated passage is the one kept.
pub open spec fn nw_path(a: Seq<Seq<char>>, b: Seq<Seq<char>>, i: nat, j: nat) -> Seq<(int, int)>
    decreases i + j,
{
    if i == 0 || j == 0 {
        seq![]
    } else {
        let here = nw_score(a, b, i, j);
        if here == nw_score(a, b, i, (j - 1) as nat) - 1 {
            nw_path(a, b, i, (j - 1) as nat)
        } else if here == nw_score(a, b, (i - 1) as nat, (j - 1) as nat) + pair_score(
            a[i - 1],
            b[j - 1],
        ) {
            if a[i - 1] == b[j - 1] {
                nw_path(a, b, (i - 1) as nat, (j - 1) as nat).push((i - 1, j - 1))
            } else {
                nw_path(a, b, (i - 1) as nat, (j - 1) as nat)
            }
        } else {
            nw_path(a, b, (i - 1) as nat, j)
        }
    }
}

/// Scores stay between minus the number of words and twice it.
pub proof fn lemma_nw_bounds(a: Seq<Seq<char>>, b: Seq<Seq<char>>, i: nat, j: nat)
    ensures
        -(i + j) <= nw_score(a, b, i, j) <= 2 * (i + j),
    decreases i + j,
{
    if i > 0 && j > 0 {
        lemma_nw_bounds(a, b, (i - 1) as nat, (j - 1) as nat);
        lemma_nw_bounds(a, b, (i - 1) as nat, j);
        lemma_nw_bounds(a, b, i, (j - 1) as nat);
    }
}

/// The texts of a sequence of words.
pub open spec fn texts_view(v: Seq<Vec<char>>) -> Seq<Seq<char>> {
    v.map_values(|w: Vec<char>| w@)
}

/// Index pairs as integers.
pub open spec fn pairs_view(v: Seq<(usize, usize)>) -> Seq<(int, int)> {
    v.map_values(|p: (usize, usize)| (p.0 as int, p.1 as int))
}

/// The score table, row by row, agrees with `nw_score` on its first `rows` rows.
pub open spec fn table_ok(
    score: Seq<Vec<i128>>,
    a: Seq<Seq<char>>,
    b: Seq<Seq<char>>,
    rows: int,
) -> bool {
    &&& score.len() == rows
    &&& forall|r: int| 0 <= r < rows ==> (#[trigger] score[r])@.len() == b.len() + 1
    &&& forall|r: int, c: int|
        0 <= r < rows && 0 <= c <= b.len() ==> (#[trigger] score[r]@[c]) == nw_score(
            a,
            b,
            r as nat,
            c as nat,
        )
}

/// Fills the score table.
fn score_table(words: &[Vec<char>], spoken: &[Vec<char>]) -> (score: Vec<Vec<i128>>)
    ensures
        table_ok(score@, texts_view(words@), texts_view(spoken@), words@.len() + 1 as int),
{
    let ghost a = texts_view(words@);
    let ghost b = texts_view(spoken@);
    let n = words.len();
    let m = spoken.len();
    let mut first: Vec<i128> = Vec::new();
    first.push(0);
    let mut c: usize = 0;
    while c < m
        invariant
            c <= m,
            m == b.len(),
            first@.len() == c + 1,
            forall|cc: int| 0 <= cc <= c ==> first@[cc] == nw_score(a, b, 0, cc as nat),
        decreases m - c,
    {
        first.push(-((c + 1) as i128));
        c = c + 1;
    }
    let mut score: Vec<Vec<i128>> = Vec::new();
    score.push(first);
    let mut r: usize = 0;
    while r < n
        invariant
            r <= n,
            n == a.len(),
            m == b.len(),
            a == texts_view(words@),
            b == texts_view(spoken@),
            table_ok(score@, a, b, r + 1 as int),
        decreases n - r,
    {
        let mut row: Vec<i128> = Vec::new();
        proof {
            lemma_nw_bounds(a, b, (r + 1) as nat, 0);
        }
        row.push(-((r + 1) as i128));
        let mut c: usize = 0;
        while c < m
            invariant
                r < n,
                c <= m,
                n == a.len(),
                m == b.len(),
                a == texts_view(words@),
                b == texts_view(spoken@),
                table_ok(score@, a, b, r + 1 as int),
                row@.len() == c + 1,
                forall|cc: int| 0 <= cc <= c ==> row@[cc] == nw_score(a, b, (r + 1) as nat, cc as nat),
            decreases m - c,
        {
            let same = chars_eq(words[r].as_slice(), spoken[c].as_slice());
            assert(words@[r as int]@ == a[r as int]);
            assert(spoken@[c as int]@ == b[c as int]);
            let prev = &score[r];
            proof {
                lemma_nw_bounds(a, b, r as nat, c as nat);
                lemma_nw_bounds(a, b, r as nat, (c + 1) as nat);
                lemma_nw_bounds(a, b, (r + 1) as nat, c as nat);
                assert(prev@[c as int] == nw_score(a, b, r as nat, c as nat));
                assert(prev@[c + 1] == nw_score(a, b, r as nat, (c + 1) as nat));
            }
            let diagonal = prev[c] + if same {
                2i128
            } else {
                -1i128
            };
            let up = prev[c + 1] - 1;
            let left = row[c] - 1;
            let best = if diagonal >= up {
                diagonal
            } else {
                up
            };
            let best = if best >= left {
                best
            } else {
                left
            };
            row.push(best);
            c = c + 1;
        }
        score.push(row);
        r = r + 1;
    }
    score
}

/// Global alignment of two sequences of words: the pairs of indices of the
/// identical words on the best path, in increasing order.
fn needleman_wunsch(words: &[Vec<char>], spoken: &[Vec<char>]) -> (pairs: Vec<(usize, usize)>)
    ensures
        pairs_view(pairs@) == nw_path(
            texts_view(words@),
            texts_view(spoken@),
            words@.len() as nat,
            spoken@.len() as nat,
        ),
{
    let ghost a = texts_view(words@);
    let ghost b = texts_view(spoken@);
    let score = score_table(words, spoken);
    let mut pairs: Vec<(usize, usize)> = Vec::new();
    let mut row = words.len();
    let mut column = spoken.len();
    assert(pairs_view(pairs@) =~= Seq::<(int, int)>::empty());
    while row > 0 && column > 0
        invariant
            row <= words@.len(),
            column <= spoken@.len(),
            a == texts_view(words@),
            b == texts_view(spoken@),
            table_ok(score@, a, b, words@.len() + 1 as int),
            nw_path(a, b, words@.len() as nat, spoken@.len() as nat) == nw_path(
                a,
                b,
                row as nat,
                column as nat,
            ) + pairs_view(pairs@),
        decreases row + column,
    {
        let same = chars_eq(words[row - 1].as_slice(), spoken[column - 1].as_slice());
        assert(words@[row - 1]@ == a[row - 1]);
        assert(spoken@[column - 1]@ == b[column - 1]);
        proof {
            lemma_nw_bounds(a, b, (row - 1) as nat, (column - 1) as nat);
        }
        let diagonal = score[row - 1][column - 1] + if same {
            2i128
        } else {
            -1i128
        };
        let here = score[row][column];
        proof {
            lemma_nw_bounds(a, b, row as nat, (column - 1) as nat);
        }
        let ghost before = pairs@;
        if here == score[row][column - 1] - 1 {
            column = column - 1;
        } else if here == diagonal {
            if same {
                let p = (row - 1, column - 1);
                pairs.insert(0, p);
                proof {
                    let pv = (row - 1, column - 1);
                    assert(pairs_view(pairs@) =~= seq![(pv.0 as int, pv.1 as int)] + pairs_view(
                        before,
                    ));
                    let rest = nw_path(a, b, (row - 1) as nat, (column - 1) as nat);
                    assert(rest.push(((row - 1) as int, (column - 1) as int)) + pairs_view(before)
                        =~= rest + pairs_view(pairs@));
                }
            }
            row = row - 1;
            column = column - 1;
        } else {
            row = row - 1;
        }
    }
    assert(nw_path(a, b, row as nat, column as nat) =~= Seq::<(int, int)>::empty());
    assert(Seq::<(int, int)>::empty() + pairs_view(pairs@) =~= pairs_view(pairs@));
    pairs
}

// ── Lines that no word reached ─────────────────────────────────────────────

/// The first known instant at or after `from`.
pub open spec fn next_known(starts: Seq<Option<i64>>, from: int) -> Option<i64>
    decreases starts.len() - from,
{
    if from < 0 || from >= starts.len() {
        None
    } else {
        match starts[from] {
            Some(t) => Some(t),
            None => next_known(starts, from + 1),
        }
    }
}

/// How many lines without instant follow one another from `from` on.
pub open spec fn holes(starts: Seq<Option<i64>>, from: int) -> int
    decreases starts.len() - from,
{
    if from < 0 || from >= starts.len() || starts[from] is Some {
        0
    } else {
        1 + holes(starts, from + 1)
    }
}

/// The instants of the first `k` lines, and the last one given.
///
/// A known instant is kept unless it would go back; an unknown one advances by an
/// equal share of the way to the next known instant (the last heard word when
/// none follows).
pub open spec fn fill(starts: Seq<Option<i64>>, last: i64, k: nat) -> (Seq<int>, int)
    decreases k,
{
    if k == 0 {
        (seq![], 0)
    } else {
        let (out, prev) = fill(starts, last, (k - 1) as nat);
        let idx = k - 1;
        match starts[idx] {
            Some(t) => {
                let p = if t >= prev {
                    t as int
                } else {
                    prev
                };
                (out.push(p), p)
            },
            None => {
                let next: int = match next_known(starts, idx + 1) {
                    Some(v) => v as int,
                    None => if last >= prev {
                        last as int
                    } else {
                        prev
                    },
                };
                let diff = if next - prev >= 0 {
                    next - prev
                } else {
                    0
                };
                let p = prev + diff / (holes(starts, idx) + 1);
                (out.push(p), p)
            },
        }
    }
}

/// The instant of every line.
pub open spec fn filled(starts: Seq<Option<i64>>, last: i64) -> Seq<int> {
    fill(starts, last, starts.len()).0
}

/// What `fill` keeps: as many instants as lines, never negative, never going
/// back, the last one given at the end.
pub proof fn lemma_fill(starts: Seq<Option<i64>>, last: i64, k: nat)
    requires
        k <= starts.len(),
    ensures
        fill(starts, last, k).0.len() == k,
        0 <= fill(starts, last, k).1 <= i64::MAX,
        k > 0 ==> fill(starts, last, k).0.last() == fill(starts, last, k).1,
        forall|i: int, j: int|
            0 <= i <= j < k ==> 0 <= #[trigger] fill(starts, last, k).0[i] <= #[trigger] fill(
                starts,
                last,
                k,
            ).0[j] <= fill(starts, last, k).1,
    decreases k,
{
    if k > 0 {
        lemma_fill(starts, last, (k - 1) as nat);
        let (out, prev) = fill(starts, last, (k - 1) as nat);
        if starts[k - 1] is None {
            let next: int = match next_known(starts, k as int) {
                Some(v) => v as int,
                None => if last >= prev {
                    last as int
                } else {
                    prev
                },
            };
            let diff = if next - prev >= 0 {
                next - prev
            } else {
                0
            };
            let h = holes(starts, k - 1) + 1;
            assert(h >= 1) by {
                lemma_holes_nonneg(starts, k - 1);
            }
            assert(diff / h <= diff) by (nonlinear_arith)
                requires
                    diff >= 0,
                    h >= 1,
            ;
            assert(diff / h >= 0) by (nonlinear_arith)
                requires
                    diff >= 0,
                    h >= 1,
            ;
        }
    }
}

/// A count of lines is never negative.
pub proof fn lemma_holes_nonneg(starts: Seq<Option<i64>>, from: int)
    ensures
        holes(starts, from) >= 0,
    decreases starts.len() - from,
{
    if !(from < 0 || from >= starts.len() || starts[from] is Some) {
        lemma_holes_nonneg(starts, from + 1);
    }
}

/// The first known instant at or after `from`.
fn first_known(starts: &[Option<i64>], from: usize) -> (r: Option<i64>)
    ensures
        r == next_known(starts@, from as int),
{
    let mut q = from;
    while q < starts.len()
        invariant
            from <= q,
            next_known(starts@, from as int) == next_known(starts@, q as int),
        decreases starts@.len() - q,
    {
        if let Some(v) = starts[q] {
            return Some(v);
        }
        q = q + 1;
    }
    None
}

/// How many lines without instant follow one another from `from` on.
fn count_holes(starts: &[Option<i64>], from: usize) -> (r: usize)
    requires
        from <= starts@.len(),
    ensures
        r as int == holes(starts@, from as int),
{
    let mut q = from;
    while q < starts.len() && starts[q].is_none()
        invariant
            from <= q <= starts@.len(),
            holes(starts@, from as int) == (q - from) + holes(starts@, q as int),
        decreases starts@.len() - q,
    {
        q = q + 1;
    }
    q - from
}

/// Gives an instant to every line, placing the lines that no word reached
/// between their neighbours.
fn fill_gaps(starts: &[Option<i64>], last: i64) -> (out: Vec<i64>)
    ensures
        out@.len() == starts@.len(),
        forall|i: int| 0 <= i < starts@.len() ==> out@[i] == filled(starts@, last)[i],
{
    let mut out: Vec<i64> = Vec::new();
    let mut previous: i64 = 0;
    let mut index: usize = 0;
    while index < starts.len()
        invariant
            index <= starts@.len(),
            out@.len() == index,
            forall|i: int| 0 <= i < index ==> out@[i] == fill(starts@, last, index as nat).0[i],
            previous == fill(starts@, last, index as nat).1,
        decreases starts@.len() - index,
    {
        proof {
            lemma_fill(starts@, last, index as nat);
            lemma_fill(starts@, last, (index + 1) as nat);
        }
        match starts[index] {
            Some(at_ms) => {
                previous = if at_ms >= previous {
                    at_ms
                } else {
                    previous
                };
            },
            None => {
                let next = match first_known(starts, index + 1) {
                    Some(v) => v,
                    None => if last >= previous {
                        last
                    } else {
                        previous
                    },
                };
                let holes_here = count_holes(starts, index);
                let diff: i128 = next as i128 - previous as i128;
                let diff: i128 = if diff >= 0 {
                    diff
                } else {
                    0
                };
                let step: i128 = diff / (holes_here as i128 + 1);
                previous = (previous as i128 + step) as i64;
            },
        }
        out.push(previous);
        index = index + 1;
    }
    assert(fill(starts@, last, index as nat).0 == filled(starts@, last));
    out
}

// ── Timestamps ─────────────────────────────────────────────────────────────

/// `[mm:ss.cc]` for an instant, negative instants counting as zero.
pub open spec fn stamp_text(at_ms: int) -> Seq<char> {
    let t = if at_ms < 0 {
        0
    } else {
        at_ms
    };
    seq!['['] + decimal2((t / 60_000) as nat) + seq![':'] + decimal2(((t % 60_000) / 1000) as nat)
        + seq!['.'] + decimal2(((t % 1000) / 10) as nat) + seq![']']
}

/// The timestamp of an instant, as characters.
fn stamp_chars(at_ms: i64) -> (v: Vec<char>)
    ensures
        v@ == stamp_text(at_ms as int),
{
    let t: u64 = if at_ms < 0 {
        0
    } else {
        at_ms as u64
    };
    let mut v: Vec<char> = Vec::new();
    v.push('[');
    let minutes = write_decimal2(t / 60_000);
    push_all(&mut v, minutes.as_slice());
    v.push(':');
    let seconds = write_decimal2((t % 60_000) / 1000);
    push_all(&mut v, seconds.as_slice());
    v.push('.');
    let hundredths = write_decimal2((t % 1000) / 10);
    push_all(&mut v, hundredths.as_slice());
    v.push(']');
    assert(v@ =~= stamp_text(at_ms as int));
    v
}

/// Timestamp in the `.lrc` format.
pub fn stamp(at_ms: i64) -> (r: String)
    ensures
        r@ == stamp_text(at_ms as int),
{
    let v = stamp_chars(at_ms);
    string_from(v.as_slice())
}

// ── Lines and words ────────────────────────────────────────────────────────

/// The non-blank rows, trimmed.
pub open spec fn kept_lines(rows: Seq<Seq<char>>) -> Seq<Seq<char>>
    decreases rows.len(),
{
    if rows.len() == 0 {
        seq![]
    } else if trim(rows.last()).len() > 0 {
        kept_lines(rows.drop_last()).push(trim(rows.last()))
    } else {
        kept_lines(rows.drop_last())
    }
}

/// The lines of lyrics that carry text, trimmed.
pub open spec fn lyric_lines(lyrics: Seq<char>) -> Seq<Seq<char>> {
    kept_lines(rows_of(lyrics))
}

/// Words already ended by a space, and the word in progress.
pub open spec fn word_split(s: Seq<char>) -> (Seq<Seq<char>>, Seq<char>)
    decreases s.len(),
{
    if s.len() == 0 {
        (seq![], seq![])
    } else {
        let (done, current) = word_split(s.drop_last());
        if s.last() == ' ' {
            (
                if current.len() > 0 {
                    done.push(current)
                } else {
                    done
                },
                seq![],
            )
        } else {
            (done, current.push(s.last()))
        }
    }
}

/// The non-empty pieces of `s` between spaces.
pub open spec fn words_of(s: Seq<char>) -> Seq<Seq<char>> {
    let (done, current) = word_split(s);
    if current.len() > 0 {
        done.push(current)
    } else {
        done
    }
}

/// The words of the lines, once normalised, in order.
pub open spec fn line_word_texts(lines: Seq<Seq<char>>) -> Seq<Seq<char>>
    decreases lines.len(),
{
    if lines.len() == 0 {
        seq![]
    } else {
        line_word_texts(lines.drop_last()) + words_of(key_of(lines.last()))
    }
}

/// For each of those words, the index of its line.
pub open spec fn line_word_lines(lines: Seq<Seq<char>>) -> Seq<int>
    decreases lines.len(),
{
    if lines.len() == 0 {
        seq![]
    } else {
        line_word_lines(lines.drop_last()) + Seq::new(
            words_of(key_of(lines.last())).len(),
            |k: int| lines.len() - 1,
        )
    }
}

/// Both sequences have one entry per word, and every line index is a line.
pub proof fn lemma_line_words(lines: Seq<Seq<char>>)
    ensures
        line_word_lines(lines).len() == line_word_texts(lines).len(),
        forall|k: int|
            0 <= k < line_word_lines(lines).len() ==> 0 <= #[trigger] line_word_lines(lines)[k]
                < lines.len(),
    decreases lines.len(),
{
    if lines.len() > 0 {
        lemma_line_words(lines.drop_last());
        let prev = line_word_lines(lines.drop_last());
        let all = line_word_lines(lines);
        assert forall|k: int| 0 <= k < all.len() implies 0 <= #[trigger] all[k] < lines.len() by {
            if k < prev.len() {
                assert(all[k] == prev[k]);
            }
        }
    }
}

/// A heard word as plain values.
pub open spec fn heard_view(w: HeardWord) -> (i64, Seq<char>) {
    (w.at_ms, w.text@)
}

/// Heard words as plain values.
pub open spec fn heard_views(v: Seq<HeardWord>) -> Seq<(i64, Seq<char>)> {
    v.map_values(|w: HeardWord| heard_view(w))
}

/// The normalised heard words.
pub open spec fn heard_keys(heard: Seq<(i64, Seq<char>)>) -> Seq<Seq<char>> {
    heard.map_values(|w: (i64, Seq<char>)| key_of(w.1))
}

/// Whether every key is empty.
pub open spec fn all_blank(keys: Seq<Seq<char>>) -> bool {
    forall|k: int| 0 <= k < keys.len() ==> (#[trigger] keys[k]).len() == 0
}

/// The instant of each line: the earliest instant among the heard words matched
/// with one of its words.
pub open spec fn first_times(
    pairs: Seq<(int, int)>,
    word_lines: Seq<int>,
    heard: Seq<(i64, Seq<char>)>,
    n: nat,
) -> Seq<Option<i64>>
    decreases pairs.len(),
{
    if pairs.len() == 0 {
        Seq::new(n, |i: int| None::<i64>)
    } else {
        let s = first_times(pairs.drop_last(), word_lines, heard, n);
        let l = word_lines[pairs.last().0];
        let t = heard[pairs.last().1].0;
        s.update(
            l,
            match s[l] {
                Some(c) => if t < c {
                    Some(t)
                } else {
                    Some(c)
                },
                None => Some(t),
            },
        )
    }
}

/// Every line, behind its timestamp, each ended by a line feed.
pub open spec fn lrc_body(lines: Seq<Seq<char>>, times: Seq<int>) -> Seq<char>
    decreases lines.len(),
{
    if lines.len() == 0 {
        seq![]
    } else {
        lrc_body(lines.drop_last(), times) + stamp_text(times[lines.len() - 1]) + lines.last()
            + seq!['\n']
    }
}

/// Known lyrics timed by heard words: `None` when there is nothing to align or
/// when fewer than a quarter of the lyrics words were matched.
pub open spec fn aligned(lyrics: Seq<char>, heard: Seq<(i64, Seq<char>)>) -> Option<Seq<char>> {
    let lines = lyric_lines(lyrics);
    let texts = line_word_texts(lines);
    let spoken = heard_keys(heard);
    if lines.len() == 0 || heard.len() == 0 || texts.len() == 0 || all_blank(spoken) {
        None
    } else {
        let pairs = nw_path(texts, spoken, texts.len(), spoken.len());
        if pairs.len() * 4 < texts.len() {
            None
        } else {
            let starts = first_times(pairs, line_word_lines(lines), heard, lines.len());
            Some(trim_end(lrc_body(lines, filled(starts, heard.last().0))))
        }
    }
}

/// The pairs of the path are indices of the two sequences.
pub proof fn lemma_nw_path_range(a: Seq<Seq<char>>, b: Seq<Seq<char>>, i: nat, j: nat)
    ensures
        forall|k: int|
            0 <= k < nw_path(a, b, i, j).len() ==> 0 <= (#[trigger] nw_path(a, b, i, j)[k]).0 < i
                && 0 <= nw_path(a, b, i, j)[k].1 < j,
    decreases i + j,
{
    if i > 0 && j > 0 {
        lemma_nw_path_range(a, b, (i - 1) as nat, (j - 1) as nat);
        lemma_nw_path_range(a, b, (i - 1) as nat, j);
        lemma_nw_path_range(a, b, i, (j - 1) as nat);
        let p = nw_path(a, b, i, j);
        let here = nw_score(a, b, i, j);
        if here == nw_score(a, b, i, (j - 1) as nat) - 1 {
            assert(p == nw_path(a, b, i, (j - 1) as nat));
        } else if here == nw_score(a, b, (i - 1) as nat, (j - 1) as nat) + pair_score(
            a[i - 1],
            b[j - 1],
        ) {
            let q = nw_path(a, b, (i - 1) as nat, (j - 1) as nat);
            if a[i - 1] == b[j - 1] {
                assert(p == q.push((i - 1, j - 1)));
                assert forall|k: int| 0 <= k < p.len() implies 0 <= (#[trigger] p[k]).0 < i && 0
                    <= p[k].1 < j by {
                    if k < q.len() {
                        assert(p[k] == q[k]);
                    }
                }
            } else {
                assert(p == q);
            }
        } else {
            assert(p == nw_path(a, b, (i - 1) as nat, j));
        }
    }
}

/// Only identical words are paired, and the pairs advance in both sequences:
/// mismatches and gaps only keep the two in step.
pub proof fn lemma_nw_pairs_identical_and_increasing(
    a: Seq<Seq<char>>,
    b: Seq<Seq<char>>,
    i: nat,
    j: nat,
)
    requires
        i <= a.len(),
        j <= b.len(),
    ensures
        forall|k: int|
            0 <= k < nw_path(a, b, i, j).len() ==> a[(#[trigger] nw_path(a, b, i, j)[k]).0] == b[nw_path(
                a,
                b,
                i,
                j,
            )[k].1],
        forall|k: int, l: int|
            0 <= k < l < nw_path(a, b, i, j).len() ==> (#[trigger] nw_path(a, b, i, j)[k]).0 < (
            #[trigger] nw_path(a, b, i, j)[l]).0 && nw_path(a, b, i, j)[k].1 < nw_path(
                a,
                b,
                i,
                j,
            )[l].1,
    decreases i + j,
{
    if i > 0 && j > 0 {
        lemma_nw_pairs_identical_and_increasing(a, b, (i - 1) as nat, (j - 1) as nat);
        lemma_nw_pairs_identical_and_increasing(a, b, (i - 1) as nat, j);
        lemma_nw_pairs_identical_and_increasing(a, b, i, (j - 1) as nat);
        lemma_nw_path_range(a, b, (i - 1) as nat, (j - 1) as nat);
        let p = nw_path(a, b, i, j);
        let here = nw_score(a, b, i, j);
        if here == nw_score(a, b, i, (j - 1) as nat) - 1 {
            assert(p == nw_path(a, b, i, (j - 1) as nat));
        } else if here == nw_score(a, b, (i - 1) as nat, (j - 1) as nat) + pair_score(
            a[i - 1],
            b[j - 1],
        ) {
            let q = nw_path(a, b, (i - 1) as nat, (j - 1) as nat);
            if a[i - 1] == b[j - 1] {
                assert(p == q.push((i - 1, j - 1)));
                assert forall|k: int| 0 <= k < p.len() implies a[(#[trigger] p[k]).0] == b[p[k].1] by {
                    if k < q.len() {
                        assert(p[k] == q[k]);
                    }
                }
                assert forall|k: int, l: int| 0 <= k < l < p.len() implies (#[trigger] p[k]).0 < (
                #[trigger] p[l]).0 && p[k].1 < p[l].1 by {
                    assert(p[k] == q[k]);
                    if l < q.len() {
                        assert(p[l] == q[l]);
                    }
                }
            } else {
                assert(p == q);
            }
        } else {
            assert(p == nw_path(a, b, (i - 1) as nat, j));
        }
    }
}

/// The instants given to the lines never go back, and are never negative.
pub proof fn lemma_instants_never_go_back(starts: Seq<Option<i64>>, last: i64)
    ensures
        filled(starts, last).len() == starts.len(),
        forall|i: int, j: int|
            0 <= i <= j < starts.len() ==> 0 <= #[trigger] filled(starts, last)[i] <= #[trigger] filled(
                starts,
                last,
            )[j],
{
    lemma_fill(starts, last, starts.len());
}

/// The trimmed non-blank lines of lyrics.
fn lyric_line_chars(lyrics: &str) -> (lines: Vec<Vec<char>>)
    ensures
        texts_view(lines@) == lyric_lines(lyrics@),
{
    let chars = chars_of(lyrics);
    let mut lines: Vec<Vec<char>> = Vec::new();
    let mut current: Vec<char> = Vec::new();
    let mut i: usize = 0;
    assert(texts_view(lines@) =~= Seq::<Seq<char>>::empty());
    while i < chars.len()
        invariant
            i <= chars@.len(),
            current@ == split_rows(chars@.take(i as int)).1,
            texts_view(lines@) == kept_lines(split_rows(chars@.take(i as int)).0),
        decreases chars@.len() - i,
    {
        let c = chars[i];
        assert(chars@.take(i + 1).drop_last() =~= chars@.take(i as int));
        if c == '\n' {
            let t = trim_chars(current.as_slice());
            let ghost done = split_rows(chars@.take(i as int)).0;
            assert(done.push(current@).drop_last() =~= done);
            if t.len() > 0 {
                lines.push(t);
                assert(texts_view(lines@) =~= kept_lines(done).push(trim(current@)));
            }
            current = Vec::new();
        } else {
            current.push(c);
        }
        i = i + 1;
    }
    assert(chars@.take(i as int) =~= lyrics@);
    let t = trim_chars(current.as_slice());
    let ghost done = split_rows(lyrics@).0;
    assert(done.push(current@).drop_last() =~= done);
    if t.len() > 0 {
        lines.push(t);
        assert(texts_view(lines@) =~= kept_lines(done).push(trim(current@)));
    }
    lines
}

/// The non-empty pieces of `s` between spaces.
fn split_words(s: &[char]) -> (r: Vec<Vec<char>>)
    ensures
        texts_view(r@) == words_of(s@),
{
    let mut done: Vec<Vec<char>> = Vec::new();
    let mut current: Vec<char> = Vec::new();
    let mut i: usize = 0;
    assert(texts_view(done@) =~= Seq::<Seq<char>>::empty());
    while i < s.len()
        invariant
            i <= s@.len(),
            current@ == word_split(s@.take(i as int)).1,
            texts_view(done@) == word_split(s@.take(i as int)).0,
        decreases s@.len() - i,
    {
        let c = s[i];
        assert(s@.take(i + 1).drop_last() =~= s@.take(i as int));
        if c == ' ' {
            if current.len() > 0 {
                let ghost before = texts_view(done@);
                done.push(current);
                assert(texts_view(done@) =~= before.push(word_split(s@.take(i as int)).1));
            }
            current = Vec::new();
        } else {
            current.push(c);
        }
        i = i + 1;
    }
    assert(s@.take(i as int) =~= s@);
    if current.len() > 0 {
        let ghost before = texts_view(done@);
        done.push(current);
        assert(texts_view(done@) =~= before.push(word_split(s@).1));
    }
    done
}

/// Line indices as integers.
pub open spec fn indices_view(v: Seq<usize>) -> Seq<int> {
    v.map_values(|x: usize| x as int)
}

/// The normalised words of the lines, and the line of each.
fn lyric_words(lines: &[Vec<char>]) -> (r: (Vec<usize>, Vec<Vec<char>>))
    ensures
        indices_view(r.0@) == line_word_lines(texts_view(lines@)),
        texts_view(r.1@) == line_word_texts(texts_view(lines@)),
{
    let ghost all = texts_view(lines@);
    let mut word_lines: Vec<usize> = Vec::new();
    let mut word_texts: Vec<Vec<char>> = Vec::new();
    let mut li: usize = 0;
    assert(indices_view(word_lines@) =~= Seq::<int>::empty());
    assert(texts_view(word_texts@) =~= Seq::<Seq<char>>::empty());
    while li < lines.len()
        invariant
            li <= lines@.len(),
            all == texts_view(lines@),
            indices_view(word_lines@) == line_word_lines(all.take(li as int)),
            texts_view(word_texts@) == line_word_texts(all.take(li as int)),
        decreases lines@.len() - li,
    {
        let key = normalize_key_chars(lines[li].as_slice());
        let words = split_words(key.as_slice());
        let ghost ws = words_of(key@);
        let ghost lines_before = indices_view(word_lines@);
        let ghost texts_before = texts_view(word_texts@);
        let mut k: usize = 0;
        while k < words.len()
            invariant
                li < lines@.len(),
                k <= words@.len(),
                ws == texts_view(words@),
                indices_view(word_lines@) == lines_before + Seq::new(k as nat, |q: int| li as int),
                texts_view(word_texts@) == texts_before + ws.take(k as int),
            decreases words@.len() - k,
        {
            let ghost old_lines = word_lines@;
            let ghost old_texts = word_texts@;
            word_lines.push(li);
            let copy = slice_chars(words[k].as_slice(), 0, words[k].len());
            assert(copy@ =~= ws[k as int]);
            word_texts.push(copy);
            assert(indices_view(word_lines@) =~= indices_view(old_lines).push(li as int));
            assert(texts_view(word_texts@) =~= texts_view(old_texts).push(ws[k as int]));
            assert(lines_before + Seq::new((k + 1) as nat, |q: int| li as int) =~= (lines_before
                + Seq::new(k as nat, |q: int| li as int)).push(li as int));
            assert(ws.take(k + 1) =~= ws.take(k as int).push(ws[k as int]));
            k = k + 1;
        }
        proof {
            let t = all.take(li + 1);
            assert(t.drop_last() =~= all.take(li as int));
            assert(t.last() == lines@[li as int]@);
            assert(ws.take(k as int) =~= ws);
            assert(indices_view(word_lines@) =~= line_word_lines(t));
            assert(texts_view(word_texts@) =~= line_word_texts(t));
        }
        li = li + 1;
    }
    assert(all.take(li as int) =~= all);
    (word_lines, word_texts)
}

/// The normalised heard words.
fn heard_key_chars(heard: &[HeardWord]) -> (r: Vec<Vec<char>>)
    ensures
        texts_view(r@) == heard_keys(heard_views(heard@)),
{
    let mut keys: Vec<Vec<char>> = Vec::new();
    let mut i: usize = 0;
    while i < heard.len()
        invariant
            i <= heard@.len(),
            texts_view(keys@) == heard_keys(heard_views(heard@)).take(i as int),
        decreases heard@.len() - i,
    {
        let text = chars_of(heard[i].text.as_str());
        let key = normalize_key_chars(text.as_slice());
        let ghost old_keys = keys@;
        keys.push(key);
        proof {
            let all = heard_keys(heard_views(heard@));
            assert(all[i as int] == key_of(heard@[i as int].text@));
            assert(texts_view(keys@) =~= texts_view(old_keys).push(key@));
            assert(all.take(i + 1) =~= all.take(i as int).push(all[i as int]));
        }
        i = i + 1;
    }
    assert(heard_keys(heard_views(heard@)).take(i as int) =~= heard_keys(heard_views(heard@)));
    keys
}

/// Whether every key is empty.
fn all_empty(keys: &[Vec<char>]) -> (r: bool)
    ensures
        r == all_blank(texts_view(keys@)),
{
    let mut k: usize = 0;
    while k < keys.len()
        invariant
            k <= keys@.len(),
            forall|q: int| 0 <= q < k ==> (#[trigger] texts_view(keys@)[q]).len() == 0,
        decreases keys@.len() - k,
    {
        if keys[k].len() > 0 {
            assert(texts_view(keys@)[k as int].len() > 0);
            return false;
        }
        k = k + 1;
    }
    true
}

/// The instant of each line: the earliest heard instant among its matched words.
fn first_instants(
    pairs: &[(usize, usize)],
    word_lines: &[usize],
    heard: &[HeardWord],
    n: usize,
) -> (starts: Vec<Option<i64>>)
    requires
        forall|k: int|
            0 <= k < pairs@.len() ==> (#[trigger] pairs@[k]).0 < word_lines@.len() && pairs@[k].1
                < heard@.len(),
        forall|w: int| 0 <= w < word_lines@.len() ==> #[trigger] word_lines@[w] < n,
    ensures
        starts@.len() == n,
        starts@ == first_times(
            pairs_view(pairs@),
            indices_view(word_lines@),
            heard_views(heard@),
            n as nat,
        ),
{
    let ghost pv = pairs_view(pairs@);
    let ghost wl = indices_view(word_lines@);
    let ghost hv = heard_views(heard@);
    let mut starts: Vec<Option<i64>> = Vec::new();
    let mut i: usize = 0;
    while i < n
        invariant
            i <= n,
            starts@ == Seq::new(i as nat, |q: int| None::<i64>),
        decreases n - i,
    {
        starts.push(None);
        i = i + 1;
        assert(starts@ =~= Seq::new(i as nat, |q: int| None::<i64>));
    }
    assert(pv.take(0) =~= Seq::<(int, int)>::empty());
    let mut k: usize = 0;
    while k < pairs.len()
        invariant
            k <= pairs@.len(),
            pv == pairs_view(pairs@),
            wl == indices_view(word_lines@),
            hv == heard_views(heard@),
            forall|q: int|
                0 <= q < pairs@.len() ==> (#[trigger] pairs@[q]).0 < word_lines@.len()
                    && pairs@[q].1 < heard@.len(),
            forall|w: int| 0 <= w < word_lines@.len() ==> #[trigger] word_lines@[w] < n,
            starts@ == first_times(pv.take(k as int), wl, hv, n as nat),
            starts@.len() == n,
        decreases pairs@.len() - k,
    {
        let (w, h) = pairs[k];
        let line = word_lines[w];
        let at = heard[h].at_ms;
        let replace = match starts[line] {
            None => true,
            Some(c) => at < c,
        };
        let ghost before = starts@;
        if replace {
            starts.set(line, Some(at));
        }
        proof {
            let t = pv.take(k + 1);
            assert(t.drop_last() =~= pv.take(k as int));
            assert(t.last() == (w as int, h as int));
            assert(wl[w as int] == line as int);
            assert(hv[h as int].0 == at);
            if !replace {
                assert(before.update(line as int, before[line as int]) =~= before);
            }
        }
        k = k + 1;
    }
    assert(pv.take(k as int) =~= pv);
    starts
}

/// Times known lyrics with a timed transcription.
///
/// Returns the `.lrc` text, or `None` when the matching is too poor to be
/// credible.
pub fn align(lyrics: &str, heard: &[HeardWord]) -> (r: Option<String>)
    ensures
        match r {
            Some(s) => aligned(lyrics@, heard_views(heard@)) == Some(s@),
            None => aligned(lyrics@, heard_views(heard@)) is None,
        },
{
    let ghost hv = heard_views(heard@);
    let lines = lyric_line_chars(lyrics);
    if lines.len() == 0 || heard.len() == 0 {
        return None;
    }
    let ghost lv = texts_view(lines@);
    let (word_lines, words) = lyric_words(lines.as_slice());
    let spoken = heard_key_chars(heard);
    if words.len() == 0 || all_empty(spoken.as_slice()) {
        return None;
    }
    let pairs = needleman_wunsch(words.as_slice(), spoken.as_slice());
    proof {
        lemma_nw_path_range(
            texts_view(words@),
            texts_view(spoken@),
            words@.len() as nat,
            spoken@.len() as nat,
        );
        lemma_line_words(lv);
        assert forall|k: int| 0 <= k < pairs@.len() implies (#[trigger] pairs@[k]).0
            < word_lines@.len() && pairs@[k].1 < heard@.len() by {
            assert(pairs_view(pairs@)[k] == (pairs@[k].0 as int, pairs@[k].1 as int));
        }
        assert forall|w: int| 0 <= w < word_lines@.len() implies #[trigger] word_lines@[w]
            < lines.len() by {
            assert(indices_view(word_lines@)[w] == word_lines@[w] as int);
        }
    }
    let matched = pairs.len();
    if (matched as u128) * 4 < words.len() as u128 {
        return None;
    }
    let starts = first_instants(pairs.as_slice(), word_lines.as_slice(), heard, lines.len());
    let last = heard[heard.len() - 1].at_ms;
    let times = fill_gaps(starts.as_slice(), last);
    let ghost tv = filled(starts@, last);
    let mut out: Vec<char> = Vec::new();
    let mut li: usize = 0;
    assert(lrc_body(lv.take(0), tv) =~= Seq::<char>::empty());
    while li < lines.len()
        invariant
            li <= lines@.len(),
            lv == texts_view(lines@),
            times@.len() == lines@.len(),
            starts@.len() == lines@.len(),
            tv == filled(starts@, last),
            forall|i: int| 0 <= i < lines@.len() ==> times@[i] == tv[i],
            out@ == lrc_body(lv.take(li as int), tv),
        decreases lines@.len() - li,
    {
        let st = stamp_chars(times[li]);
        push_all(&mut out, st.as_slice());
        push_all(&mut out, lines[li].as_slice());
        out.push('\n');
        proof {
            let t = lv.take(li + 1);
            assert(t.drop_last() =~= lv.take(li as int));
            assert(t.last() == lines@[li as int]@);
            assert(out@ =~= lrc_body(t, tv));
        }
        li = li + 1;
    }
    assert(lv.take(li as int) =~= lv);
    let trimmed = trim_end_chars(out.as_slice());
    assert(hv.last().0 == last);
    Some(string_from(trimmed.as_slice()))
}

// ── Laws ───────────────────────────────────────────────────────────────────

/// The first `c` of `p · c · q`, when `p` holds none, is right after `p`.
proof fn lemma_index_of_after(p: Seq<char>, c: char, q: Seq<char>)
    requires
        forall|i: int| 0 <= i < p.len() ==> p[i] != c,
    ensures
        index_of(p + seq![c] + q, c) == Some(p.len() as int),
    decreases p.len(),
{
    let s = p + seq![c] + q;
    if p.len() > 0 {
        assert(s.drop_first() =~= p.drop_first() + seq![c] + q);
        assert(s[0] == p[0]);
        lemma_index_of_after(p.drop_first(), c, q);
    } else {
        assert(s[0] == c);
    }
}

/// The first fraction separator of `p · x · q`, when `p` holds none and `x` is
/// one, is right after `p`.
proof fn lemma_separator_after(p: Seq<char>, x: char, q: Seq<char>)
    requires
        forall|i: int| 0 <= i < p.len() ==> !is_fraction_separator(p[i]),
        is_fraction_separator(x),
    ensures
        first_separator(p + seq![x] + q) == Some(p.len() as int),
    decreases p.len(),
{
    let s = p + seq![x] + q;
    if p.len() > 0 {
        assert(s.drop_first() =~= p.drop_first() + seq![x] + q);
        assert(s[0] == p[0]);
        lemma_separator_after(p.drop_first(), x, q);
    } else {
        assert(s[0] == x);
    }
}

/// Digits are kept whole by `digits_only`.
proof fn lemma_digits_only_keeps(s: Seq<char>)
    requires
        all_digits(s),
    ensures
        digits_only(s) == s,
    decreases s.len(),
{
    if s.len() > 0 {
        assert(all_digits(s.drop_last())) by {
            assert forall|i: int| 0 <= i < s.drop_last().len() implies is_digit(
                #[trigger] s.drop_last()[i],
            ) by {
                assert(s.drop_last()[i] == s[i]);
            }
        }
        lemma_digits_only_keeps(s.drop_last());
        assert(is_digit(s[s.len() - 1]));
        assert(s.drop_last().push(s.last()) =~= s);
    }
}

/// The arithmetic of a timestamp: minutes, seconds and hundredths put back
/// together give the instant down to the hundredth.
proof fn lemma_stamp_arith(t: int)
    requires
        t >= 0,
    ensures
        (t / 60_000) * 60_000 + ((t % 60_000) / 1000) * 1000 + ((t % 1000) / 10) * 10 == t - t % 10,
        0 <= (t % 60_000) / 1000 < 60,
        0 <= (t % 1000) / 10 < 100,
        0 <= t / 60_000 <= t,
{
    vstd::arithmetic::div_mod::lemma_fundamental_div_mod(t, 60_000);
    vstd::arithmetic::div_mod::lemma_fundamental_div_mod(t % 60_000, 1000);
    vstd::arithmetic::div_mod::lemma_fundamental_div_mod(t % 1000, 10);
    vstd::arithmetic::div_mod::lemma_mod_mod(t, 1000, 60);
    vstd::arithmetic::div_mod::lemma_mod_mod(t, 10, 100);
    assert((t % 60_000) % 1000 == t % 1000);
    assert((t % 1000) % 10 == t % 10);
}

/// What `stamp` writes, the lyrics parser reads back: the instant, down to the
/// hundredth (a negative instant counting as zero).
#[verifier::spinoff_prover]
#[verifier::rlimit(40)]
pub proof fn lemma_stamp_reads_back(at_ms: int)
    requires
        at_ms <= i64::MAX,
    ensures
        ({
            let st = stamp_text(at_ms);
            let t = if at_ms < 0 {
                0
            } else {
                at_ms
            };
            timestamp_value(st.subrange(1, st.len() - 1)) == Some((t - t % 10) as i64)
        }),
{
    let t = if at_ms < 0 {
        0
    } else {
        at_ms
    };
    lemma_stamp_arith(t);
    let m = (t / 60_000) as nat;
    let sec = ((t % 60_000) / 1000) as nat;
    let c = ((t % 1000) / 10) as nat;
    let dm = decimal2(m);
    let ds = decimal2(sec);
    let dc = decimal2(c);
    crate::text::lemma_decimal2(m);
    crate::text::lemma_decimal2(sec);
    crate::text::lemma_decimal2(c);
    let st = stamp_text(at_ms);
    let inner = dm + seq![':'] + ds + seq!['.'] + dc;
    assert(st.subrange(1, st.len() - 1) =~= inner);
    let rest = ds + seq!['.'] + dc;
    assert(inner =~= dm + seq![':'] + rest);
    assert forall|i: int| 0 <= i < dm.len() implies dm[i] != ':' by {
        assert(is_digit(dm[i]));
    }
    lemma_index_of_after(dm, ':', rest);
    assert(inner.skip(dm.len() + 1 as int) =~= rest);
    assert forall|i: int| 0 <= i < ds.len() implies !is_fraction_separator(ds[i]) by {
        assert(is_digit(ds[i]));
    }
    lemma_separator_after(ds, '.', dc);
    assert(rest.take(2) =~= ds);
    assert(rest.skip(3) =~= dc);
    assert(inner.take(dm.len() as int) =~= dm);
    crate::text::lemma_trim_digits(dm);
    crate::text::lemma_trim_digits(ds);
    crate::text::lemma_parse_digits(dm);
    crate::text::lemma_parse_digits(ds);
    lemma_digits_only_keeps(dc);
    crate::text::lemma_parse_digits(dc);
    assert(fraction_millis(Some(dc)) == Some((c * 10) as int));
}

/// The kept lines are non-blank, trimmed, and hold no line feed.
proof fn lemma_kept_lines_shape(rows: Seq<Seq<char>>)
    requires
        forall|k: int, i: int| 0 <= k < rows.len() && 0 <= i < rows[k].len() ==> rows[k][i] != '\n',
    ensures
        forall|k: int|
            0 <= k < kept_lines(rows).len() ==> {
                let l = #[trigger] kept_lines(rows)[k];
                &&& l.len() > 0
                &&& !crate::text::spec_is_whitespace(l[0])
                &&& !crate::text::spec_is_whitespace(l.last())
                &&& forall|i: int| 0 <= i < l.len() ==> l[i] != '\n'
            },
    decreases rows.len(),
{
    if rows.len() > 0 {
        let p = rows.drop_last();
        assert forall|k: int, i: int| 0 <= k < p.len() && 0 <= i < p[k].len() implies p[k][i] != '\n' by {
            assert(p[k] == rows[k]);
        }
        lemma_kept_lines_shape(p);
        let r = rows.last();
        crate::text::lemma_trim_ends(r);
        let t = trim(r);
        assert forall|i: int| 0 <= i < t.len() implies t[i] != '\n' by {
            let j = choose|j: int| 0 <= j < r.len() && r[j] == t[i];
            assert(r == rows[rows.len() - 1]);
        }
        let all = kept_lines(rows);
        assert forall|k: int| 0 <= k < all.len() implies {
            let l = #[trigger] all[k];
            &&& l.len() > 0
            &&& !crate::text::spec_is_whitespace(l[0])
            &&& !crate::text::spec_is_whitespace(l.last())
            &&& forall|i: int| 0 <= i < l.len() ==> l[i] != '\n'
        } by {
            if k < kept_lines(p).len() {
                assert(all[k] == kept_lines(p)[k]);
            }
        }
    }
}

/// The body of an `.lrc` text starts with its first line, behind its
/// timestamp, and a line feed.
proof fn lemma_lrc_body_prefix(lines: Seq<Seq<char>>, times: Seq<int>)
    requires
        lines.len() >= 1,
        times.len() >= lines.len(),
    ensures
        ({
            let a = stamp_text(times[0]) + lines[0];
            &&& lrc_body(lines, times).len() >= a.len() + 1
            &&& lrc_body(lines, times).take(a.len() + 1 as int) == a.push('\n')
        }),
    decreases lines.len(),
{
    let a = stamp_text(times[0]) + lines[0];
    if lines.len() == 1 {
        assert(lines.drop_last() =~= Seq::<Seq<char>>::empty());
        assert(lrc_body(lines.drop_last(), times) =~= Seq::<char>::empty());
        assert(lines.last() == lines[0]);
        assert(lrc_body(lines, times) =~= a.push('\n'));
        assert(lrc_body(lines, times).take(a.len() + 1 as int) =~= a.push('\n'));
    } else {
        let p = lines.drop_last();
        assert(p[0] == lines[0]);
        lemma_lrc_body_prefix(p, times);
        let b = lrc_body(p, times);
        let whole = lrc_body(lines, times);
        assert(whole.take(a.len() + 1 as int) =~= b.take(a.len() + 1 as int));
    }
}

/// The instants are as many as the lines.
proof fn lemma_first_times_len(
    pairs: Seq<(int, int)>,
    word_lines: Seq<int>,
    heard: Seq<(i64, Seq<char>)>,
    n: nat,
)
    requires
        forall|k: int| 0 <= k < pairs.len() ==> 0 <= (#[trigger] pairs[k]).0 < word_lines.len(),
        forall|w: int| 0 <= w < word_lines.len() ==> 0 <= #[trigger] word_lines[w] < n,
    ensures
        first_times(pairs, word_lines, heard, n).len() == n,
    decreases pairs.len(),
{
    if pairs.len() > 0 {
        let p = pairs.drop_last();
        assert forall|k: int| 0 <= k < p.len() implies 0 <= (#[trigger] p[k]).0 < word_lines.len() by {
            assert(p[k] == pairs[k]);
        }
        lemma_first_times_len(p, word_lines, heard, n);
        assert(pairs.last() == pairs[pairs.len() - 1]);
    }
}

/// What `align` writes, the lyrics parser reads as timed lyrics: the loop from
/// transcription to display closes.
pub proof fn lemma_aligned_reads_as_synced(lyrics: Seq<char>, heard: Seq<(i64, Seq<char>)>)
    ensures
        aligned(lyrics, heard) matches Some(lrc) ==> analysed(lrc).0.len() > 0,
{
    if let Some(lrc) = aligned(lyrics, heard) {
        let lines = lyric_lines(lyrics);
        let texts = line_word_texts(lines);
        let spoken = heard_keys(heard);
        let pairs = nw_path(texts, spoken, texts.len(), spoken.len());
        let starts = first_times(pairs, line_word_lines(lines), heard, lines.len());
        let last = heard.last().0;
        let times = filled(starts, last);
        lemma_nw_path_range(texts, spoken, texts.len(), spoken.len());
        lemma_line_words(lines);
        lemma_first_times_len(pairs, line_word_lines(lines), heard, lines.len());
        lemma_fill(starts, last, starts.len());
        assert(0 <= times[0] <= i64::MAX);
        crate::library::lyrics::lemma_split_rows_shape(lyrics);
        let rows = rows_of(lyrics);
        assert forall|k: int, i: int| 0 <= k < rows.len() && 0 <= i < rows[k].len() implies rows[k][i]
            != '\n' by {
            let (done, current) = crate::library::lyrics::split_rows(lyrics);
            if k < done.len() {
                assert(rows[k] == done[k]);
            } else {
                assert(rows[k] == current);
            }
        }
        lemma_kept_lines_shape(rows);
        let line = lines[0];
        let st = stamp_text(times[0]);
        let inner = st.subrange(1, st.len() - 1);
        let a = st + line;
        // The timestamp holds no line feed and no closing bracket before its end.
        let t0 = times[0];
        crate::text::lemma_decimal2((t0 / 60_000) as nat);
        crate::text::lemma_decimal2(((t0 % 60_000) / 1000) as nat);
        crate::text::lemma_decimal2(((t0 % 1000) / 10) as nat);
        assert(st == seq!['['] + inner + seq![']']);
        assert forall|i: int| 0 <= i < inner.len() implies inner[i] != '\n' && inner[i] != ']'
            && inner[i] != '[' by {
            let dm = decimal2((t0 / 60_000) as nat);
            let ds = decimal2(((t0 % 60_000) / 1000) as nat);
            let dc = decimal2(((t0 % 1000) / 10) as nat);
            assert(inner =~= dm + seq![':'] + ds + seq!['.'] + dc);
            if i < dm.len() {
                assert(is_digit(dm[i]));
            } else if i == dm.len() {
            } else if i < dm.len() + 1 + ds.len() {
                assert(is_digit(ds[i - dm.len() - 1]));
            } else if i == dm.len() + 1 + ds.len() {
            } else {
                assert(is_digit(dc[i - dm.len() - 2 - ds.len()]));
            }
        }
        assert forall|i: int| 0 <= i < a.len() implies a[i] != '\n' by {
            if i == 0 {
            } else if i < st.len() - 1 {
                assert(a[i] == inner[i - 1]);
            } else if i == st.len() - 1 {
            } else {
                assert(a[i] == line[i - st.len()]);
            }
        }
        // The body, then its trimmed end.
        lemma_lrc_body_prefix(lines, times);
        let body = lrc_body(lines, times);
        assert(body.take(a.len() + 1 as int)[a.len() - 1] == a[a.len() - 1]);
        assert(a[a.len() - 1] == line.last());
        assert(body[a.len() - 1] == line.last());
        crate::text::lemma_trim_end_prefix(body);
        assert(lrc == trim_end(body));
        assert(lrc.len() >= a.len());
        assert(lrc.take(a.len() as int) =~= a) by {
            assert forall|i: int| 0 <= i < a.len() implies lrc[i] == a[i] by {
                assert(lrc[i] == body[i]);
                assert(body[i] == body.take(a.len() + 1 as int)[i]);
            }
        }
        // Its first row is the first line, behind its timestamp.
        if lrc.len() == a.len() {
            assert(lrc =~= a);
            crate::text::lemma_index_of(lrc, '\n');
            assert(first_row(lrc) == a);
        } else {
            assert(lrc[a.len() as int] == body[a.len() as int]);
            assert(body[a.len() as int] == body.take(a.len() + 1 as int)[a.len() as int]);
            let rest = lrc.skip(a.len() + 1 as int);
            assert(lrc =~= a + seq!['\n'] + rest);
            lemma_index_of_after(a, '\n', rest);
            assert(first_row(lrc) =~= a);
        }
        crate::library::lyrics::lemma_first_row(lrc);
        // That row carries a timestamp.
        crate::text::lemma_trim_keeps(a);
        let open = seq!['['] + inner;
        assert(a =~= open + seq![']'] + line);
        assert forall|i: int| 0 <= i < open.len() implies open[i] != ']' by {
            if i > 0 {
                assert(open[i] == inner[i - 1]);
            }
        }
        lemma_index_of_after(open, ']', line);
        assert(a.subrange(1, open.len() as int) =~= inner);
        lemma_stamp_reads_back(times[0]);
        assert(split_ts(a).0.len() >= 1);
        assert(gather_row((seq![], seq![]), a).0.len() >= 1);
        crate::library::lyrics::lemma_gather_first(rows_of(lrc));
        crate::library::lyrics::lemma_analysed_sorted(lrc);
    }
}

/// Times that never go back, none negative.
pub open spec fn never_back(times: Seq<int>) -> bool {
    forall|i: int, j: int| 0 <= i <= j < times.len() ==> 0 <= #[trigger] times[i] <= #[trigger] times[j]
}

/// An alignment keeps the author's words: its text is every non-blank lyric
/// line, trimmed, once and in order, each behind a timestamp and ended by a line
/// feed (the last one's dropped), the timestamps never going back. Only the
/// timing comes from what was heard.
pub proof fn lemma_aligned_keeps_lines(lyrics: Seq<char>, heard: Seq<(i64, Seq<char>)>)
    ensures
        aligned(lyrics, heard) matches Some(out) ==> exists|times: Seq<int>|
            #![trigger lrc_body(lyric_lines(lyrics), times)]
            times.len() == lyric_lines(lyrics).len() && never_back(times) && out == trim_end(
                lrc_body(lyric_lines(lyrics), times),
            ),
{
    if let Some(out) = aligned(lyrics, heard) {
        let lines = lyric_lines(lyrics);
        let texts = line_word_texts(lines);
        let spoken = heard_keys(heard);
        let pairs = nw_path(texts, spoken, texts.len(), spoken.len());
        let starts = first_times(pairs, line_word_lines(lines), heard, lines.len());
        let times = filled(starts, heard.last().0);
        lemma_nw_path_range(texts, spoken, texts.len(), spoken.len());
        lemma_line_words(lines);
        lemma_first_times_len(pairs, line_word_lines(lines), heard, lines.len());
        lemma_instants_never_go_back(starts, heard.last().0);
        assert(never_back(times));
        assert(out == trim_end(lrc_body(lines, times)));
    }
}

/// A row of an alignment: the line behind its timestamp.
pub open spec fn timed_row(at_ms: int, line: Seq<char>) -> Seq<char> {
    stamp_text(at_ms) + line
}

/// A timestamp is `[`, digits and separators, `]`.
proof fn lemma_stamp_shape(t: int)
    requires
        0 <= t,
    ensures
        ({
            let st = stamp_text(t);
            let inner = st.subrange(1, st.len() - 1);
            &&& st.len() >= 2
            &&& st == seq!['['] + inner + seq![']']
            &&& forall|i: int| 0 <= i < inner.len() ==> inner[i] != '\n' && inner[i] != ']'
                && inner[i] != '['
        }),
{
    let st = stamp_text(t);
    let inner = st.subrange(1, st.len() - 1);
    let dm = decimal2((t / 60_000) as nat);
    let ds = decimal2(((t % 60_000) / 1000) as nat);
    let dc = decimal2(((t % 1000) / 10) as nat);
    crate::text::lemma_decimal2((t / 60_000) as nat);
    crate::text::lemma_decimal2(((t % 60_000) / 1000) as nat);
    crate::text::lemma_decimal2(((t % 1000) / 10) as nat);
    assert(inner =~= dm + seq![':'] + ds + seq!['.'] + dc);
    assert(st =~= seq!['['] + inner + seq![']']);
    assert forall|i: int| 0 <= i < inner.len() implies inner[i] != '\n' && inner[i] != ']'
        && inner[i] != '[' by {
        if i < dm.len() {
            assert(is_digit(dm[i]));
        } else if i == dm.len() {
        } else if i < dm.len() + 1 + ds.len() {
            assert(is_digit(ds[i - dm.len() - 1]));
        } else if i == dm.len() + 1 + ds.len() {
        } else {
            assert(is_digit(dc[i - dm.len() - 2 - ds.len()]));
        }
    }
}

/// A line of the lyrics as an alignment keeps it.
pub open spec fn plain_line(line: Seq<char>) -> bool {
    &&& line.len() > 0
    &&& !crate::text::spec_is_whitespace(line[0])
    &&& !crate::text::spec_is_whitespace(line.last())
    &&& forall|i: int| 0 <= i < line.len() ==> line[i] != '\n'
}

/// A timed row holds no line feed, and the parser reads it as one timed line
/// with the line's text.
proof fn lemma_timed_row(t: int, line: Seq<char>, acc: crate::library::lyrics::Gathered)
    requires
        0 <= t <= i64::MAX,
        plain_line(line),
        line[0] != '[',
    ensures
        forall|i: int| 0 <= i < timed_row(t, line).len() ==> timed_row(t, line)[i] != '\n',
        !crate::text::spec_is_whitespace(timed_row(t, line).last()),
        gather_row(acc, timed_row(t, line)).0.len() == acc.0.len() + 1,
{
    let st = stamp_text(t);
    let inner = st.subrange(1, st.len() - 1);
    lemma_stamp_shape(t);
    let a = timed_row(t, line);
    let open = seq!['['] + inner;
    assert(a =~= open + seq![']'] + line);
    assert forall|i: int| 0 <= i < a.len() implies a[i] != '\n' by {
        if i == 0 {
        } else if i < st.len() - 1 {
            assert(a[i] == inner[i - 1]);
        } else if i == st.len() - 1 {
        } else {
            assert(a[i] == line[i - st.len()]);
        }
    }
    assert(a.last() == line.last());
    assert forall|i: int| 0 <= i < open.len() implies open[i] != ']' by {
        if i > 0 {
            assert(open[i] == inner[i - 1]);
        }
    }
    lemma_index_of_after(open, ']', line);
    assert(a.subrange(1, open.len() as int) =~= inner);
    lemma_stamp_reads_back(t);
    crate::text::lemma_trim_keeps(a);
    let e = open.len() as int;
    assert(a.skip(e + 1) =~= line);
    assert(crate::text::trim_start(line) == line);
    crate::text::lemma_trim_keeps(line);
    assert(split_ts(line) == (Seq::<i64>::empty(), line));
    crate::text::lemma_index_of(a, ']');
    crate::text::lemma_trim_start_len(a.skip(e + 1));
    assert(split_ts(a).0.len() == 1);
}

/// `split_rows` of a text continued by a piece without line feed.
proof fn lemma_split_rows_append(s: Seq<char>, r: Seq<char>)
    requires
        forall|i: int| 0 <= i < r.len() ==> r[i] != '\n',
    ensures
        split_rows(s + r) == (split_rows(s).0, split_rows(s).1 + r),
    decreases r.len(),
{
    if r.len() == 0 {
        assert(s + r =~= s);
        assert(split_rows(s).1 + r =~= split_rows(s).1);
    } else {
        lemma_split_rows_append(s, r.drop_last());
        assert((s + r).drop_last() =~= s + r.drop_last());
        assert((s + r).last() == r.last());
        assert(split_rows(s).1 + r.drop_last() + seq![r.last()] =~= split_rows(s).1 + r);
    }
}

/// The rows of an alignment's body: one timed row per line, then nothing.
proof fn lemma_body_rows(lines: Seq<Seq<char>>, times: Seq<int>, k: int)
    requires
        0 <= k <= lines.len() <= times.len(),
        forall|i: int| 0 <= i < lines.len() ==> 0 <= #[trigger] times[i] <= i64::MAX,
        forall|i: int| 0 <= i < lines.len() ==> plain_line(#[trigger] lines[i]) && lines[i][0] != '[',
    ensures
        split_rows(lrc_body(lines.take(k), times)).1 == Seq::<char>::empty(),
        split_rows(lrc_body(lines.take(k), times)).0 == Seq::new(
            k as nat,
            |i: int| timed_row(times[i], lines[i]),
        ),
    decreases k,
{
    if k == 0 {
        assert(lines.take(0) =~= Seq::<Seq<char>>::empty());
        assert(Seq::new(0, |i: int| timed_row(times[i], lines[i])) =~= Seq::<Seq<char>>::empty());
    } else {
        lemma_body_rows(lines, times, k - 1);
        let prev = lrc_body(lines.take(k - 1), times);
        assert(lines.take(k).drop_last() =~= lines.take(k - 1));
        let row = timed_row(times[k - 1], lines[k - 1]);
        lemma_timed_row(times[k - 1], lines[k - 1], (seq![], seq![]));
        assert(lrc_body(lines.take(k), times) =~= prev + row + seq!['\n']) by {
            assert(lines.take(k).last() == lines[k - 1]);
            assert(lines.take(k).len() - 1 == k - 1);
        }
        lemma_split_rows_append(prev, row);
        assert((prev + row + seq!['\n']).drop_last() =~= prev + row);
        assert(split_rows(prev).1 + row =~= row);
        assert(Seq::new(k as nat, |i: int| timed_row(times[i], lines[i])) =~= Seq::new(
            (k - 1) as nat,
            |i: int| timed_row(times[i], lines[i]),
        ).push(row));
    }
}

/// Rows that each read as one timed line give as many timed lines.
proof fn lemma_gather_timed(lines: Seq<Seq<char>>, times: Seq<int>, k: int)
    requires
        0 <= k <= lines.len() <= times.len(),
        forall|i: int| 0 <= i < lines.len() ==> 0 <= #[trigger] times[i] <= i64::MAX,
        forall|i: int| 0 <= i < lines.len() ==> plain_line(#[trigger] lines[i]) && lines[i][0] != '[',
    ensures
        gather(Seq::new(k as nat, |i: int| timed_row(times[i], lines[i]))).0.len() == k,
    decreases k,
{
    if k > 0 {
        let rows = Seq::new(k as nat, |i: int| timed_row(times[i], lines[i]));
        assert(rows.drop_last() =~= Seq::new((k - 1) as nat, |i: int| timed_row(times[i], lines[i])));
        lemma_gather_timed(lines, times, k - 1);
        lemma_timed_row(times[k - 1], lines[k - 1], gather(rows.drop_last()));
    }
}

/// An alignment reads back as exactly one timed line per lyric line, when no
/// line of the lyrics starts with `[` (which the parser would take for another
/// tag).
pub proof fn lemma_aligned_reads_line_by_line(lyrics: Seq<char>, heard: Seq<(i64, Seq<char>)>)
    requires
        forall|i: int| 0 <= i < lyric_lines(lyrics).len() ==> (#[trigger] lyric_lines(lyrics)[i])[0]
            != '[',
    ensures
        aligned(lyrics, heard) matches Some(lrc) ==> analysed(lrc).0.len() == lyric_lines(lyrics).len(),
{
    if let Some(lrc) = aligned(lyrics, heard) {
        let lines = lyric_lines(lyrics);
        let texts = line_word_texts(lines);
        let spoken = heard_keys(heard);
        let pairs = nw_path(texts, spoken, texts.len(), spoken.len());
        let starts = first_times(pairs, line_word_lines(lines), heard, lines.len());
        let last = heard.last().0;
        let times = filled(starts, last);
        lemma_nw_path_range(texts, spoken, texts.len(), spoken.len());
        lemma_line_words(lines);
        lemma_first_times_len(pairs, line_word_lines(lines), heard, lines.len());
        lemma_fill(starts, last, starts.len());
        assert forall|i: int| 0 <= i < lines.len() implies 0 <= #[trigger] times[i] <= i64::MAX by {
            assert(0 <= times[i] <= times[i]);
        }
        crate::library::lyrics::lemma_split_rows_shape(lyrics);
        let rows = rows_of(lyrics);
        assert forall|k: int, i: int| 0 <= k < rows.len() && 0 <= i < rows[k].len() implies rows[k][i]
            != '\n' by {
            let (done, current) = crate::library::lyrics::split_rows(lyrics);
            if k < done.len() {
                assert(rows[k] == done[k]);
            } else {
                assert(rows[k] == current);
            }
        }
        lemma_kept_lines_shape(rows);
        assert forall|i: int| 0 <= i < lines.len() implies plain_line(#[trigger] lines[i])
            && lines[i][0] != '[' by {
            assert(lines[i] == kept_lines(rows)[i]);
        }
        let n = lines.len() as int;
        assert(lines.take(n) =~= lines);
        let prev = lrc_body(lines.take(n - 1), times);
        let row = timed_row(times[n - 1], lines[n - 1]);
        assert(lines.take(n - 1) =~= lines.drop_last());
        let body = lrc_body(lines, times);
        assert(body =~= prev + row + seq!['\n']);
        lemma_timed_row(times[n - 1], lines[n - 1], (seq![], seq![]));
        assert(body.drop_last() =~= prev + row);
        assert(trim_end(body) == trim_end(body.drop_last()));
        assert(trim_end(body.drop_last()) == body.drop_last());
        lemma_body_rows(lines, times, n - 1);
        lemma_split_rows_append(prev, row);
        let prefix_rows = Seq::new((n - 1) as nat, |i: int| timed_row(times[i], lines[i]));
        assert(rows_of(lrc) =~= prefix_rows.push(row));
        assert(rows_of(lrc) =~= Seq::new(n as nat, |i: int| timed_row(times[i], lines[i])));
        lemma_gather_timed(lines, times, n);
        crate::library::lyrics::lemma_sort_sorted(gather(rows_of(lrc)).0);
    }
}

} // verus!
