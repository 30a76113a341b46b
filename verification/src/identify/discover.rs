//! Discovery: artists absent from the library, suggested by the votes of the
//! artists it holds. The ranking of the votes, the sentence that explains a
//! suggestion, who may be voted for and by whom, and the encoding of the names
//! searched for; the requests and the adding up of the scores belong to the
//! application.
//!
//! A vote's score reaches the library as its order key: the integer whose
//! order is `f64::total_cmp`'s.
use vstd::prelude::*;

use crate::library::naming::{key_of, normalize_key};
use crate::text::{chars_eq, chars_of, decimal, push_str, string_from, write_decimal};

verus! {

/// Why an artist is suggested: beyond two names the sentence becomes
/// unreadable, so the first two are quoted and the rest counted.
pub open spec fn reason_text(because: Seq<String>) -> Seq<char> {
    if because.len() == 0 {
        "Proche de ce que tu écoutes"@
    } else if because.len() == 1 {
        "Parce que tu écoutes "@ + because[0]@
    } else if because.len() == 2 {
        "Parce que tu écoutes "@ + because[0]@ + " et "@ + because[1]@
    } else {
        "Parce que tu écoutes "@ + because[0]@ + ", "@ + because[1]@ + " et "@ + decimal(
            (because.len() - 2) as nat,
        ) + " autre"@ + if because.len() - 2 > 1 {
            "s"@
        } else {
            ""@
        }
    }
}

/// The sentence that explains a suggestion.
pub fn reason(because: &[String]) -> (r: String)
    ensures
        r@ == reason_text(because@),
{
    let mut out: Vec<char> = Vec::new();
    let n = because.len();
    if n == 0 {
        push_str(&mut out, "Proche de ce que tu écoutes");
    } else if n == 1 {
        push_str(&mut out, "Parce que tu écoutes ");
        push_str(&mut out, because[0].as_str());
    } else if n == 2 {
        push_str(&mut out, "Parce que tu écoutes ");
        push_str(&mut out, because[0].as_str());
        push_str(&mut out, " et ");
        push_str(&mut out, because[1].as_str());
    } else {
        push_str(&mut out, "Parce que tu écoutes ");
        push_str(&mut out, because[0].as_str());
        push_str(&mut out, ", ");
        push_str(&mut out, because[1].as_str());
        push_str(&mut out, " et ");
        let d = write_decimal((n - 2) as u64);
        crate::text::push_all(&mut out, d.as_slice());
        push_str(&mut out, " autre");
        if n - 2 > 1 {
            push_str(&mut out, "s");
        } else {
            push_str(&mut out, "");
        }
    }
    assert(out@ =~= reason_text(because@));
    string_from(out.as_slice())
}

/// ListenBrainz's public API, in milliseconds between two requests.
pub const MIN_INTERVAL: u64 = 1_000;

/// URL component encoding of an artist's name.
pub fn encode(value: &str) -> (r: String)
    ensures
        r@ == crate::identify::deezer::url_encoded(value@),
{
    crate::identify::deezer::encode(value)
}

/// Seed artists taken from the library.
pub const SEEDS: usize = 5;

/// Suggestions shown.
pub const SUGGESTIONS: usize = 12;

/// The votes gathered by an artist: its name, the order key of its summed
/// score, and the artists of the library that voted for it.
#[derive(Debug, Clone)]
pub struct Vote {
    pub name: String,
    pub score_key: u64,
    pub because: Vec<String>,
}

/// Whether an artist proposed as similar can gather votes: it has a name, and
/// the library does not hold it already (`owned` holds the deduplication keys of
/// the library's artists).
pub open spec fn votable(name: Seq<char>, owned: Seq<String>) -> bool {
    &&& crate::text::trim(name).len() > 0
    &&& forall|i: int| 0 <= i < owned.len() ==> (#[trigger] owned[i])@ != key_of(name)
}

/// See [`votable`].
pub fn can_vote_for(name: &str, owned: &[String]) -> (r: bool)
    ensures
        r == votable(name@, owned@),
{
    let trimmed = crate::text::trim_chars(chars_of(name).as_slice());
    if trimmed.len() == 0 {
        return false;
    }
    let key = normalize_key(name);
    let key_chars = chars_of(key.as_str());
    let mut i: usize = 0;
    while i < owned.len()
        invariant
            i <= owned@.len(),
            key_chars@ == key_of(name@),
            forall|j: int| 0 <= j < i ==> (#[trigger] owned@[j])@ != key_of(name@),
        decreases owned@.len() - i,
    {
        if chars_eq(chars_of(owned[i].as_str()).as_slice(), key_chars.as_slice()) {
            return false;
        }
        i = i + 1;
    }
    true
}

/// Counts a seed artist among those that voted for a suggestion, once.
pub fn add_voter(because: &mut Vec<String>, seed: &str)
    ensures
        if exists|i: int| 0 <= i < old(because)@.len() && (#[trigger] old(because)@[i])@ == seed@ {
            final(because)@ == old(because)@
        } else {
            final(because)@.len() == old(because)@.len() + 1
                && final(because)@.take(old(because)@.len() as int) == old(because)@
                && final(because)@.last()@ == seed@
        },
{
    let seed_chars = chars_of(seed);
    let mut i: usize = 0;
    while i < because.len()
        invariant
            i <= because@.len(),
            because@ == old(because)@,
            seed_chars@ == seed@,
            forall|j: int| 0 <= j < i ==> (#[trigger] because@[j])@ != seed@,
        decreases because@.len() - i,
    {
        if chars_eq(chars_of(because[i].as_str()).as_slice(), seed_chars.as_slice()) {
            return;
        }
        i = i + 1;
    }
    let ghost before = because@;
    because.push(string_from(seed_chars.as_slice()));
    assert(because@.take(before.len() as int) =~= before);
}

/// A suggested artist.
#[derive(Debug, Clone)]
pub struct Suggestion {
    pub name: String,
    /// MusicBrainz id, to check for oneself.
    pub mbid: String,
    /// « Parce que tu écoutes Damso et Népal ».
    pub reason: String,
    pub score_key: u64,
}

/// `a` comes before `b` in code point order (a prefix comes first): the order
/// of `String`'s comparison, UTF-8 keeping the order of code points.
pub open spec fn text_less(a: Seq<char>, b: Seq<char>) -> bool
    decreases a.len(),
{
    if a.len() == 0 {
        b.len() > 0
    } else if b.len() == 0 {
        false
    } else if a[0] < b[0] {
        true
    } else if a[0] > b[0] {
        false
    } else {
        text_less(a.drop_first(), b.drop_first())
    }
}

/// The order is transitive.
proof fn lemma_text_less_transitive(a: Seq<char>, b: Seq<char>, c: Seq<char>)
    requires
        text_less(a, b),
        text_less(b, c),
    ensures
        text_less(a, c),
    decreases a.len(),
{
    if a.len() > 0 && b.len() > 0 && c.len() > 0 && a[0] == b[0] && b[0] == c[0] {
        lemma_text_less_transitive(a.drop_first(), b.drop_first(), c.drop_first());
    }
}

/// No text comes before itself, and of two texts at most one comes first.
proof fn lemma_text_less_asymmetric(a: Seq<char>, b: Seq<char>)
    ensures
        !(text_less(a, b) && text_less(b, a)),
    decreases a.len(),
{
    if a.len() > 0 && b.len() > 0 && a[0] == b[0] {
        lemma_text_less_asymmetric(a.drop_first(), b.drop_first());
    }
}

/// Two different texts are ordered one way or the other.
proof fn lemma_text_less_total(a: Seq<char>, b: Seq<char>)
    requires
        a != b,
    ensures
        text_less(a, b) || text_less(b, a),
    decreases a.len(),
{
    if a.len() > 0 && b.len() > 0 && a[0] == b[0] {
        assert(a =~= seq![a[0]] + a.drop_first());
        assert(b =~= seq![b[0]] + b.drop_first());
        assert(a.drop_first() != b.drop_first());
        lemma_text_less_total(a.drop_first(), b.drop_first());
    } else if a.len() == 0 && b.len() == 0 {
        assert(a =~= b);
    }
}

/// Whether `a < b` in code point order.
fn less_text(a: &str, b: &str) -> (r: bool)
    ensures
        r == text_less(a@, b@),
{
    let x = crate::text::chars_of(a);
    let y = crate::text::chars_of(b);
    let mut i: usize = 0;
    assert(x@.skip(0) =~= x@);
    assert(y@.skip(0) =~= y@);
    while i < x.len() && i < y.len()
        invariant
            x@ == a@,
            y@ == b@,
            i <= x@.len(),
            i <= y@.len(),
            text_less(x@, y@) == text_less(x@.skip(i as int), y@.skip(i as int)),
        decreases x@.len() - i,
    {
        assert(x@.skip(i as int)[0] == x@[i as int]);
        assert(y@.skip(i as int)[0] == y@[i as int]);
        assert(x@.skip(i as int).drop_first() =~= x@.skip(i + 1));
        assert(y@.skip(i as int).drop_first() =~= y@.skip(i + 1));
        assert(x@.skip(i as int).len() > 0 && y@.skip(i as int).len() > 0);
        if x[i] < y[i] {
            return true;
        }
        if x[i] > y[i] {
            return false;
        }
        i = i + 1;
    }
    i == x.len() && i < y.len()
}

/// The ranking order of two votes: the higher score first, the smaller id
/// between equals — so that the order never depends on the random walk of a
/// hash table.
pub open spec fn ranks_before(a: (String, Vote), b: (String, Vote)) -> bool {
    a.1.score_key > b.1.score_key || (a.1.score_key == b.1.score_key && text_less(a.0@, b.0@))
}

/// The ranking order is transitive.
proof fn lemma_ranks_before_transitive(a: (String, Vote), b: (String, Vote), c: (String, Vote))
    requires
        ranks_before(a, b),
        ranks_before(b, c),
    ensures
        ranks_before(a, c),
{
    if a.1.score_key == b.1.score_key && b.1.score_key == c.1.score_key {
        lemma_text_less_transitive(a.0@, b.0@, c.0@);
    }
}

/// The ids of the votes are all different (they are the keys of a map).
pub open spec fn distinct_ids(votes: Seq<(String, Vote)>) -> bool {
    forall|i: int, j: int| 0 <= i < j < votes.len() ==> votes[i].0@ != votes[j].0@
}

/// The suggestion a vote gives.
pub open spec fn suggests(s: Suggestion, v: (String, Vote)) -> bool {
    &&& s.name == v.1.name
    &&& s.mbid == v.0
    &&& s.reason@ == reason_text(v.1.because@)
    &&& s.score_key == v.1.score_key
}

/// The ranking order of two suggestions.
pub open spec fn suggestion_before(a: Suggestion, b: Suggestion) -> bool {
    a.score_key > b.score_key || (a.score_key == b.score_key && text_less(a.mbid@, b.mbid@))
}

/// A suggestion ranks before a vote.
pub open spec fn outranks(s: Suggestion, v: (String, Vote)) -> bool {
    s.score_key > v.1.score_key || (s.score_key == v.1.score_key && text_less(s.mbid@, v.0@))
}

/// A vote is among the suggestions.
pub open spec fn listed(r: Seq<Suggestion>, v: (String, Vote)) -> bool {
    exists|k: int| 0 <= k < r.len() && suggests(#[trigger] r[k], v)
}

/// A suggestion comes from one of the votes.
pub open spec fn from_votes(s: Suggestion, votes: Seq<(String, Vote)>) -> bool {
    exists|i: int| 0 <= i < votes.len() && suggests(s, #[trigger] votes[i])
}

/// Vote `i` is either already suggested (at a position of `taken`) or still
/// to rank (at a position of `from`).
spec fn placed(taken: Seq<int>, from: Seq<int>, i: int) -> bool {
    (exists|k: int| 0 <= k < taken.len() && #[trigger] taken[k] == i) || (exists|j: int|
        0 <= j < from.len() && #[trigger] from[j] == i)
}

/// The `SUGGESTIONS` best votes, best first, each as the suggestion it gives:
/// the result lists votes (each at most once) in ranking order, and every vote
/// left out ranks after all those kept; fewer votes than `SUGGESTIONS` are all
/// kept.
pub fn rank(votes: Vec<(String, Vote)>) -> (r: Vec<Suggestion>)
    requires
        distinct_ids(votes@),
    ensures
        ranked(r@, votes@),
{
    let ghost all = votes@;
    let ghost n = votes@.len();
    let mut rest = votes;
    let mut out: Vec<Suggestion> = Vec::new();
    // `taken[k]` is the index in `all` of the vote behind `out[k]`; `from[j]` that of `rest[j]`.
    let ghost mut taken: Seq<int> = seq![];
    let ghost mut from: Seq<int> = Seq::new(n, |i: int| i);
    assert(rest@ =~= Seq::new(n, |i: int| all[from[i]]));
    assert forall|i: int| 0 <= i < n implies #[trigger] placed(taken, from, i) by {
        assert(from[i] == i);
    }
    while out.len() < SUGGESTIONS && rest.len() > 0
        invariant
            n == all.len(),
            distinct_ids(all),
            out@.len() == taken.len(),
            rest@.len() == from.len(),
            out@.len() + rest@.len() == n,
            out@.len() <= SUGGESTIONS,
            forall|j: int| 0 <= j < from.len() ==> 0 <= #[trigger] from[j] < n && rest@[j] == all[from[j]],
            forall|k: int| 0 <= k < taken.len() ==> 0 <= #[trigger] taken[k] < n && suggests(out@[k], all[taken[k]]),
            forall|k: int, l: int| 0 <= k < l < taken.len() ==> ranks_before(all[#[trigger] taken[k]], all[#[trigger] taken[l]]),
            forall|k: int, j: int| 0 <= k < taken.len() && 0 <= j < from.len() ==> ranks_before(all[#[trigger] taken[k]], all[#[trigger] from[j]]),
            forall|i: int| 0 <= i < n ==> #[trigger] placed(taken, from, i),
            forall|j1: int, j2: int| 0 <= j1 < j2 < from.len() ==> #[trigger] from[j1] != #[trigger] from[j2],
        decreases rest@.len(),
    {
        let mut best: usize = 0;
        let mut j: usize = 1;
        while j < rest.len()
            invariant
                0 < rest@.len() == from.len(),
                best < j <= rest@.len(),
                n == all.len(),
                distinct_ids(all),
                forall|q: int| 0 <= q < from.len() ==> 0 <= #[trigger] from[q] < n && rest@[q] == all[from[q]],
                forall|j1: int, j2: int| 0 <= j1 < j2 < from.len() ==> #[trigger] from[j1] != #[trigger] from[j2],
                forall|q: int| 0 <= q < j && q != best ==> ranks_before(#[trigger] rest@[best as int], rest@[q]),
            decreases rest@.len() - j,
        {
            let better = rest[j].1.score_key > rest[best].1.score_key || (rest[j].1.score_key
                == rest[best].1.score_key && less_text(rest[j].0.as_str(), rest[best].0.as_str()));
            proof {
                lemma_text_less_asymmetric(rest@[j as int].0@, rest@[best as int].0@);
                assert(rest@[j as int].0@ != rest@[best as int].0@) by {
                    assert(from[j as int] != from[best as int]);
                    if from[j as int] < from[best as int] {
                        assert(all[from[j as int]].0@ != all[from[best as int]].0@);
                    } else {
                        assert(all[from[best as int]].0@ != all[from[j as int]].0@);
                    }
                }
                lemma_text_less_total(rest@[j as int].0@, rest@[best as int].0@);
                if better {
                    assert forall|q: int| 0 <= q < j + 1 && q != j implies ranks_before(#[trigger] rest@[j as int], rest@[q]) by {
                        if q != best {
                            lemma_ranks_before_transitive(rest@[j as int], rest@[best as int], rest@[q]);
                        }
                    }
                }
            }
            if better {
                best = j;
            }
            j = j + 1;
        }
        proof {
            assert forall|q: int| 0 <= q < rest@.len() && q != best implies ranks_before(#[trigger] rest@[best as int], rest@[q]) by {}
        }
        let ghost picked = from[best as int];
        let ghost old_from = from;
        let ghost old_taken = taken;
        let (mbid, vote) = rest.remove(best);
        proof {
            from = from.remove(best as int);
            taken = taken.push(picked);
        }
        let reason_line = reason(vote.because.as_slice());
        out.push(Suggestion { name: vote.name, mbid, reason: reason_line, score_key: vote.score_key });
        proof {
            assert forall|i: int| 0 <= i < n implies #[trigger] placed(taken, from, i) by {
                assert(placed(old_taken, old_from, i));
                if exists|k: int| 0 <= k < old_taken.len() && #[trigger] old_taken[k] == i {
                    let k = choose|k: int| 0 <= k < old_taken.len() && #[trigger] old_taken[k] == i;
                    assert(taken[k] == i);
                } else {
                    let q = choose|q: int| 0 <= q < old_from.len() && #[trigger] old_from[q] == i;
                    if q == best {
                        assert(taken[taken.len() - 1] == i);
                    } else if q < best {
                        assert(from[q] == i);
                    } else {
                        assert(from[q - 1] == i);
                    }
                }
            }
            assert forall|k: int, j: int| 0 <= k < taken.len() && 0 <= j < from.len() implies ranks_before(all[#[trigger] taken[k]], all[#[trigger] from[j]]) by {
                let q = if j < best { j } else { j + 1 };
                assert(from[j] == old_from[q]);
                if k < old_taken.len() {
                    assert(taken[k] == old_taken[k]);
                } else {
                    assert(rest@[j] == all[from[j]]);
                }
            }
        }
    }
    proof {
        assert forall|k: int| 0 <= k < out@.len() implies from_votes(#[trigger] out@[k], all) by {
            assert(suggests(out@[k], all[taken[k]]));
        }
        assert forall|k: int, l: int| 0 <= k < l < out@.len() implies suggestion_before(#[trigger] out@[k], #[trigger] out@[l]) by {
            assert(suggests(out@[k], all[taken[k]]) && suggests(out@[l], all[taken[l]]));
            assert(ranks_before(all[taken[k]], all[taken[l]]));
        }
        assert forall|i: int| 0 <= i < all.len() implies listed(out@, #[trigger] all[i]) || (forall|k: int|
                0 <= k < out@.len() ==> outranks(#[trigger] out@[k], all[i])) by {
            assert(placed(taken, from, i));
            if exists|k: int| 0 <= k < taken.len() && #[trigger] taken[k] == i {
                let k = choose|k: int| 0 <= k < taken.len() && #[trigger] taken[k] == i;
                assert(suggests(out@[k], all[i]));
            } else {
                let q = choose|q: int| 0 <= q < from.len() && #[trigger] from[q] == i;
                assert forall|k: int| 0 <= k < out@.len() implies outranks(#[trigger] out@[k], all[i]) by {
                    assert(suggests(out@[k], all[taken[k]]));
                    assert(ranks_before(all[taken[k]], all[from[q]]));
                }
            }
        }
        reveal(ranked);
    }
    out
}

/// What `rank` promises of its result for some votes: as many suggestions as
/// votes, at most `SUGGESTIONS`; each from a vote; in strict ranking order;
/// every vote either suggested or outranked by all the suggestions.
#[verifier::opaque]
pub open spec fn ranked(r: Seq<Suggestion>, votes: Seq<(String, Vote)>) -> bool {
    &&& r.len() == if votes.len() < SUGGESTIONS { votes.len() } else { SUGGESTIONS as nat }
    &&& forall|k: int| 0 <= k < r.len() ==> from_votes(#[trigger] r[k], votes)
    &&& forall|k: int, l: int| 0 <= k < l < r.len() ==> suggestion_before(#[trigger] r[k], #[trigger] r[l])
    &&& forall|i: int|
        0 <= i < votes.len() ==> listed(r, #[trigger] votes[i]) || (forall|k: int|
            0 <= k < r.len() ==> outranks(#[trigger] r[k], votes[i]))
}

/// A vote is one of a list.
pub open spec fn among(v: (String, Vote), list: Seq<(String, Vote)>) -> bool {
    exists|i: int| 0 <= i < list.len() && list[i] == v
}

/// Two lists hold the same votes, in any order.
pub open spec fn same_votes(a: Seq<(String, Vote)>, b: Seq<(String, Vote)>) -> bool {
    &&& a.len() == b.len()
    &&& forall|i: int| 0 <= i < a.len() ==> #[trigger] among(a[i], b)
    &&& forall|j: int| 0 <= j < b.len() ==> #[trigger] among(b[j], a)
}

/// Two suggestions say the same.
pub open spec fn same_suggestion(a: Suggestion, b: Suggestion) -> bool {
    a.name@ == b.name@ && a.mbid@ == b.mbid@ && a.reason@ == b.reason@ && a.score_key == b.score_key
}

/// Suggestions ordered one way or the other unless they share id and score.
proof fn lemma_suggestion_order(a: Suggestion, b: Suggestion)
    ensures
        !(suggestion_before(a, b) && suggestion_before(b, a)),
        !(a.mbid@ == b.mbid@ && a.score_key == b.score_key) ==> suggestion_before(a, b) || suggestion_before(b, a),
{
    lemma_text_less_asymmetric(a.mbid@, b.mbid@);
    if a.score_key == b.score_key && a.mbid@ != b.mbid@ {
        lemma_text_less_total(a.mbid@, b.mbid@);
    }
}

/// One side of the induction: the suggestion at `k` of a ranking comes, in any
/// other ranking of the same votes that agrees before `k`, at `k` or after it.
proof fn lemma_not_before(
    v1: Seq<(String, Vote)>,
    v2: Seq<(String, Vote)>,
    r1: Seq<Suggestion>,
    r2: Seq<Suggestion>,
    k: int,
)
    requires
        same_votes(v1, v2),
        ranked(r1, v1),
        ranked(r2, v2),
        0 <= k < r1.len(),
        k < r2.len(),
        forall|j: int| 0 <= j < k ==> same_suggestion(#[trigger] r1[j], r2[j]),
    ensures
        (r1[k].mbid@ == r2[k].mbid@ && r1[k].score_key == r2[k].score_key) || suggestion_before(r2[k], r1[k]),
{
    reveal(ranked);
    let a = r1[k];
    assert(from_votes(a, v1));
    let i = choose|i: int| 0 <= i < v1.len() && suggests(a, #[trigger] v1[i]);
    assert(among(v1[i], v2));
    let j = choose|j: int| 0 <= j < v2.len() && v2[j] == v1[i];
    if listed(r2, v2[j]) {
        let p = choose|p: int| 0 <= p < r2.len() && suggests(#[trigger] r2[p], v2[j]);
        if p < k {
            assert(same_suggestion(r1[p], r2[p]));
            assert(suggestion_before(r1[p], r1[k]));
            lemma_text_less_asymmetric(a.mbid@, a.mbid@);
        } else if p > k {
            assert(suggestion_before(r2[k], r2[p]));
        }
    } else {
        assert(outranks(r2[k], v2[j]));
    }
}

/// A suggestion of a ranking comes from one of its votes.
proof fn lemma_ranked_from(r: Seq<Suggestion>, v: Seq<(String, Vote)>, k: int)
    requires
        ranked(r, v),
        0 <= k < r.len(),
    ensures
        from_votes(r[k], v),
{
    reveal(ranked);
}

/// Two rankings of the same votes that agree before place `m` agree at `m`.
#[verifier::spinoff_prover]
proof fn lemma_same_at(
    v1: Seq<(String, Vote)>,
    v2: Seq<(String, Vote)>,
    r1: Seq<Suggestion>,
    r2: Seq<Suggestion>,
    m: int,
)
    requires
        distinct_ids(v1),
        same_votes(v1, v2),
        ranked(r1, v1),
        ranked(r2, v2),
        0 <= m < r1.len(),
        m < r2.len(),
        forall|j: int| 0 <= j < m ==> same_suggestion(#[trigger] r1[j], r2[j]),
    ensures
        same_suggestion(r1[m], r2[m]),
{
    lemma_not_before(v1, v2, r1, r2, m);
    assert forall|j: int| 0 <= j < m implies same_suggestion(#[trigger] r2[j], r1[j]) by {
        assert(same_suggestion(r1[j], r2[j]));
    }
    lemma_not_before(v2, v1, r2, r1, m);
    lemma_suggestion_order(r1[m], r2[m]);
    let a = r1[m];
    let b = r2[m];
    assert(a.mbid@ == b.mbid@ && a.score_key == b.score_key);
    lemma_ranked_from(r1, v1, m);
    lemma_ranked_from(r2, v2, m);
    let i = choose|i: int| 0 <= i < v1.len() && suggests(a, #[trigger] v1[i]);
    let j = choose|j: int| 0 <= j < v2.len() && suggests(b, #[trigger] v2[j]);
    assert(among(v2[j], v1));
    let i2 = choose|i2: int| 0 <= i2 < v1.len() && v1[i2] == v2[j];
    if i != i2 {
        if i < i2 {
            assert(v1[i].0@ != v1[i2].0@);
        } else {
            assert(v1[i2].0@ != v1[i].0@);
        }
    }
}

/// Two rankings of the same votes agree on their first `k` places.
proof fn lemma_rankings_agree_up_to(
    v1: Seq<(String, Vote)>,
    v2: Seq<(String, Vote)>,
    r1: Seq<Suggestion>,
    r2: Seq<Suggestion>,
    k: int,
)
    requires
        distinct_ids(v1),
        same_votes(v1, v2),
        ranked(r1, v1),
        ranked(r2, v2),
        0 <= k <= r1.len(),
    ensures
        r1.len() == r2.len(),
        forall|j: int| 0 <= j < k ==> same_suggestion(#[trigger] r1[j], r2[j]),
    decreases k,
{
    assert(r1.len() == r2.len()) by {
        reveal(ranked);
    }
    if k > 0 {
        lemma_rankings_agree_up_to(v1, v2, r1, r2, k - 1);
        lemma_same_at(v1, v2, r1, r2, k - 1);
        assert forall|j: int| 0 <= j < k implies same_suggestion(#[trigger] r1[j], r2[j]) by {
            if j < k - 1 {
                assert(same_suggestion(r1[j], r2[j]));
            }
        }
    }
}

/// **The ranking is reproducible**: whatever order the votes come in — that of
/// a hash table changes at every run — two rankings of the same votes say the
/// same, place by place.
pub proof fn lemma_ranking_is_reproducible(
    v1: Seq<(String, Vote)>,
    v2: Seq<(String, Vote)>,
    r1: Seq<Suggestion>,
    r2: Seq<Suggestion>,
)
    requires
        distinct_ids(v1),
        same_votes(v1, v2),
        ranked(r1, v1),
        ranked(r2, v2),
    ensures
        r1.len() == r2.len(),
        forall|k: int| 0 <= k < r1.len() ==> same_suggestion(#[trigger] r1[k], r2[k]),
{
    lemma_rankings_agree_up_to(v1, v2, r1, r2, r1.len() as int);
}

/// Where an artist is looked up by name.
pub const MUSICBRAINZ_SEARCH: &'static str = "https://musicbrainz.org/ws/2/artist";

/// Where the artists close to another are asked for.
pub const LISTENBRAINZ_SIMILAR: &'static str = "https://labs.api.listenbrainz.org/similar-artists/json";

/// The similarity recipe: built on listening sessions — two artists are close
/// when they are often played in one sitting, the closeness wanted here, nearer
/// to use than to declared genre.
pub const ALGORITHM: &'static str =
    "session_based_days_7500_session_300_contribution_5_threshold_10_limit_100_filter_True_skip_30";

/// The request that finds an artist's MusicBrainz id by its name: the best
/// match only.
pub fn artist_search_url(name: &str) -> (r: String)
    ensures
        r@ == MUSICBRAINZ_SEARCH@ + "?query=artist:"@ + crate::identify::deezer::url_encoded(name@)
            + "&fmt=json&limit=1"@,
{
    let mut out = chars_of(MUSICBRAINZ_SEARCH);
    push_str(&mut out, "?query=artist:");
    push_str(&mut out, encode(name).as_str());
    push_str(&mut out, "&fmt=json&limit=1");
    string_from(out.as_slice())
}

/// The request for the artists close to one, by its MusicBrainz id.
pub fn similar_url(mbid: &str) -> (r: String)
    ensures
        r@ == LISTENBRAINZ_SIMILAR@ + "?artist_mbids="@ + mbid@ + "&algorithm="@ + ALGORITHM@,
{
    let mut out = chars_of(LISTENBRAINZ_SIMILAR);
    push_str(&mut out, "?artist_mbids=");
    push_str(&mut out, mbid);
    push_str(&mut out, "&algorithm=");
    push_str(&mut out, ALGORITHM);
    string_from(out.as_slice())
}

} // verus!
