//! Watched folder.
//!
//! A file dropped in `<library>/_Inbox` is imported automatically, once its
//! size has stopped changing: a downloader creates the file **before** filling
//! it, and importing on creation would swallow a truncated file.
//!
//! The tracker only sees `(path, size)` pairs, one list per inspection; the
//! folder listing itself belongs to the application.
use vstd::prelude::*;

verus! {

/// Interval between two inspections of the folder, in milliseconds.
pub const POLL_INTERVAL: u64 = 2_000;

/// How long a file's size must stay unchanged before the file counts as
/// complete, in milliseconds: enough for a passing network pause.
pub const STABLE_AFTER: u64 = 3_000;

/// What is known of a file seen at an earlier inspection.
#[derive(Debug, Clone, Copy, PartialEq, Eq, Structural)]
pub struct Observation {
    pub size: u64,
    /// Consecutive inspections where the size did not move.
    pub stable_rounds: u32,
    /// The file was already offered for import. A successful import moves the
    /// file away, a failed one leaves it: without this flag a corrupted file
    /// would be retried every few seconds, forever.
    pub signalled: bool,
}

/// Number of consecutive inspections required to call a file stable: the
/// stabilisation delay over the polling interval, rounded up (better one round
/// too many than an incomplete import).
pub open spec fn required_rounds() -> u32 {
    ((STABLE_AFTER + POLL_INTERVAL - 1) as int / POLL_INTERVAL as int) as u32
}

/// The observation after one more inspection, before any signalling: one step
/// closer to stability when the size is unchanged; counting anew, and eligible
/// again, when the size changed or the file is new.
pub open spec fn advanced(prev: Option<Observation>, size: u64) -> Observation {
    match prev {
        Some(p) => if p.size == size {
            Observation {
                size: p.size,
                stable_rounds: if p.stable_rounds == u32::MAX {
                    u32::MAX
                } else {
                    (p.stable_rounds + 1) as u32
                },
                signalled: p.signalled,
            }
        } else {
            Observation { size, stable_rounds: 0, signalled: false }
        },
        None => Observation { size, stable_rounds: 0, signalled: false },
    }
}

/// A file becomes ready when it is stable and was not offered yet.
pub open spec fn becomes_ready(o: Observation) -> bool {
    !o.signalled && o.stable_rounds >= required_rounds()
}

/// The observation kept: flagged as offered when it becomes ready.
pub open spec fn settled(o: Observation) -> Observation {
    if becomes_ready(o) {
        Observation { signalled: true, ..o }
    } else {
        o
    }
}

/// What the previous inspection knew of a path.
pub open spec fn known(seen: Map<Seq<char>, Observation>, path: Seq<char>) -> Option<Observation> {
    if seen.contains_key(path) {
        Some(seen[path])
    } else {
        None
    }
}

/// What is known after an inspection: exactly the listed paths, each with its
/// new observation (the files that left are forgotten).
pub open spec fn after(seen: Map<Seq<char>, Observation>, entries: Seq<(Seq<char>, u64)>) -> Map<
    Seq<char>,
    Observation,
>
    decreases entries.len(),
{
    if entries.len() == 0 {
        Map::empty()
    } else {
        let (path, size) = entries.last();
        after(seen, entries.drop_last()).insert(path, settled(advanced(known(seen, path), size)))
    }
}

/// The paths an inspection offers for import, in listing order.
pub open spec fn ready_paths(seen: Map<Seq<char>, Observation>, entries: Seq<(Seq<char>, u64)>) -> Seq<
    Seq<char>,
>
    decreases entries.len(),
{
    if entries.len() == 0 {
        seq![]
    } else {
        let (path, size) = entries.last();
        let earlier = ready_paths(seen, entries.drop_last());
        if becomes_ready(advanced(known(seen, path), size)) {
            earlier.push(path)
        } else {
            earlier
        }
    }
}

/// The map a list of distinct keys stands for.
pub open spec fn map_of(s: Seq<(String, Observation)>) -> Map<Seq<char>, Observation>
    decreases s.len(),
{
    if s.len() == 0 {
        Map::empty()
    } else {
        map_of(s.drop_last()).insert(s.last().0@, s.last().1)
    }
}

/// No path occurs twice.
pub open spec fn distinct_keys(s: Seq<(String, Observation)>) -> bool {
    forall|i: int, j: int| 0 <= i < j < s.len() ==> (#[trigger] s[i]).0@ != (#[trigger] s[j]).0@
}

/// A listing as plain values.
pub open spec fn listing_view(entries: Seq<(String, u64)>) -> Seq<(Seq<char>, u64)> {
    entries.map_values(|e: (String, u64)| (e.0@, e.1))
}

/// Strings as character sequences.
pub open spec fn paths_view(v: Seq<String>) -> Seq<Seq<char>> {
    v.map_values(|s: String| s@)
}

/// What `map_of` holds: the keys of the list, each with its observation.
pub proof fn lemma_map_of(s: Seq<(String, Observation)>)
    requires
        distinct_keys(s),
    ensures
        map_of(s).dom().finite(),
        map_of(s).dom().len() == s.len(),
        forall|i: int| 0 <= i < s.len() ==> #[trigger] map_of(s).contains_key(s[i].0@) && map_of(
            s,
        )[s[i].0@] == s[i].1,
        forall|k: Seq<char>|
            #[trigger] map_of(s).contains_key(k) ==> exists|i: int| 0 <= i < s.len() && s[i].0@ == k,
    decreases s.len(),
{
    if s.len() > 0 {
        let p = s.drop_last();
        assert(distinct_keys(p)) by {
            assert forall|i: int, j: int| 0 <= i < j < p.len() implies (#[trigger] p[i]).0@ != (
            #[trigger] p[j]).0@ by {
                assert(p[i] == s[i]);
                assert(p[j] == s[j]);
            }
        }
        lemma_map_of(p);
        let last = s.last();
        assert(!map_of(p).contains_key(last.0@)) by {
            if map_of(p).contains_key(last.0@) {
                let i = choose|i: int| 0 <= i < p.len() && p[i].0@ == last.0@;
                assert(s[i] == p[i]);
                assert(s[s.len() - 1] == last);
            }
        }
        assert forall|i: int| 0 <= i < s.len() implies #[trigger] map_of(s).contains_key(s[i].0@)
            && map_of(s)[s[i].0@] == s[i].1 by {
            if i < p.len() {
                assert(s[i] == p[i]);
                assert(s[i].0@ != last.0@) by {
                    assert(s[s.len() - 1] == last);
                }
            }
        }
        assert forall|k: Seq<char>| #[trigger] map_of(s).contains_key(k) implies exists|i: int|
            0 <= i < s.len() && s[i].0@ == k by {
            if k == last.0@ {
                assert(s[s.len() - 1].0@ == k);
            } else {
                let i = choose|i: int| 0 <= i < p.len() && p[i].0@ == k;
                assert(s[i] == p[i]);
            }
        }
    }
}

/// Detector of files ready to be imported.
#[derive(Debug)]
pub struct StabilityTracker {
    seen: Vec<(String, Observation)>,
}

impl View for StabilityTracker {
    type V = Map<Seq<char>, Observation>;

    closed spec fn view(&self) -> Map<Seq<char>, Observation> {
        map_of(self.seen@)
    }
}

impl StabilityTracker {
    #[verifier::type_invariant]
    spec fn distinct(self) -> bool {
        distinct_keys(self.seen@)
    }

    /// What the tracker knows of a path.
    fn lookup(&self, path: &String) -> (r: Option<Observation>)
        ensures
            r == known(self@, path@),
    {
        proof {
            use_type_invariant(self);
            lemma_map_of(self.seen@);
        }
        let mut i: usize = 0;
        while i < self.seen.len()
            invariant
                i <= self.seen@.len(),
                distinct_keys(self.seen@),
                forall|j: int| 0 <= j < i ==> (#[trigger] self.seen@[j]).0@ != path@,
            decreases self.seen@.len() - i,
        {
            if self.seen[i].0 == *path {
                proof {
                    lemma_map_of(self.seen@);
                }
                return Some(self.seen[i].1);
            }
            i = i + 1;
        }
        proof {
            if map_of(self.seen@).contains_key(path@) {
                let j = choose|j: int| 0 <= j < self.seen@.len() && self.seen@[j].0@ == path@;
                assert(self.seen@[j].0@ != path@);
            }
        }
        None
    }

    /// Records an inspection and returns the files that became stable.
    ///
    /// A file is offered **only once**. It is offered again only if its size
    /// changes — it was really replaced — or if it leaves the folder and comes
    /// back.
    pub fn observe(&mut self, entries: &[(String, u64)]) -> (ready: Vec<String>)
        ensures
            final(self)@ == after(old(self)@, listing_view(entries@)),
            paths_view(ready@) == ready_paths(old(self)@, listing_view(entries@)),
    {
        let ghost seen = self@;
        let ghost listing = listing_view(entries@);
        let mut ready: Vec<String> = Vec::new();
        let mut still: Vec<(String, Observation)> = Vec::new();
        let mut i: usize = 0;
        assert(listing.take(0) =~= Seq::<(Seq<char>, u64)>::empty());
        assert(paths_view(ready@) =~= Seq::<Seq<char>>::empty());
        assert(map_of(still@) =~= Map::<Seq<char>, Observation>::empty());
        while i < entries.len()
            invariant
                i <= entries@.len(),
                seen == self@,
                listing == listing_view(entries@),
                distinct_keys(still@),
                map_of(still@) == after(seen, listing.take(i as int)),
                paths_view(ready@) == ready_paths(seen, listing.take(i as int)),
            decreases entries@.len() - i,
        {
            let path = &entries[i].0;
            let size = entries[i].1;
            let prev = self.lookup(path);
            let mut observation = match prev {
                Some(p) => if p.size == size {
                    Observation {
                        size: p.size,
                        stable_rounds: if p.stable_rounds == u32::MAX {
                            u32::MAX
                        } else {
                            p.stable_rounds + 1
                        },
                        signalled: p.signalled,
                    }
                } else {
                    Observation { size, stable_rounds: 0, signalled: false }
                },
                None => Observation { size, stable_rounds: 0, signalled: false },
            };
            let ghost before_ready = ready@;
            let required = Self::required_rounds();
            if !observation.signalled && observation.stable_rounds >= required {
                observation.signalled = true;
                ready.push(path.clone());
                assert(paths_view(ready@) =~= paths_view(before_ready).push(path@));
            }
            insert_observation(&mut still, path.clone(), observation);
            proof {
                let t = listing.take(i + 1);
                assert(t.drop_last() =~= listing.take(i as int));
                assert(t.last() == (path@, size));
            }
            i = i + 1;
        }
        assert(listing.take(i as int) =~= listing);
        self.seen = still;
        ready
    }

    /// Number of consecutive inspections required to call a file stable.
    fn required_rounds() -> (r: u32)
        ensures
            r == required_rounds(),
    {
        let rounds: u64 = (STABLE_AFTER + POLL_INTERVAL - 1) / POLL_INTERVAL;
        rounds as u32
    }

    /// Number of files being watched.
    pub fn pending(&self) -> (r: usize)
        ensures
            r == self@.len(),
    {
        proof {
            use_type_invariant(self);
            lemma_map_of(self.seen@);
        }
        self.seen.len()
    }
}

impl Default for StabilityTracker {
    fn default() -> (r: Self)
        ensures
            r@ == Map::<Seq<char>, Observation>::empty(),
    {
        let t = StabilityTracker { seen: Vec::new() };
        assert(map_of(t.seen@) =~= Map::<Seq<char>, Observation>::empty());
        t
    }
}

/// Records `observation` for `path`, replacing what the list held for it.
fn insert_observation(list: &mut Vec<(String, Observation)>, path: String, observation: Observation)
    requires
        distinct_keys(old(list)@),
    ensures
        distinct_keys(final(list)@),
        map_of(final(list)@) == map_of(old(list)@).insert(path@, observation),
{
    proof {
        lemma_map_of(list@);
    }
    let mut i: usize = 0;
    while i < list.len()
        invariant
            i <= list@.len(),
            list@ == old(list)@,
            distinct_keys(list@),
            forall|j: int| 0 <= j < i ==> (#[trigger] list@[j]).0@ != path@,
        decreases list@.len() - i,
    {
        if list[i].0 == path {
            let ghost before = list@;
            let ghost path_copy = path;
            list.set(i, (path, observation));
            proof {
                lemma_set_keeps_map(before, i as int, path_copy, observation);
            }
            return;
        }
        i = i + 1;
    }
    let ghost before = list@;
    list.push((path, observation));
    proof {
        assert(list@.drop_last() =~= before);
        assert forall|a: int, b: int| 0 <= a < b < list@.len() implies (#[trigger] list@[a]).0@ != (
        #[trigger] list@[b]).0@ by {
            if b == list@.len() - 1 {
                assert(list@[a] == before[a]);
            } else {
                assert(list@[a] == before[a]);
                assert(list@[b] == before[b]);
            }
        }
    }
}

/// Replacing the observation of a present key changes the map at that key only.
proof fn lemma_set_keeps_map(s: Seq<(String, Observation)>, i: int, k: String, o: Observation)
    requires
        distinct_keys(s),
        0 <= i < s.len(),
        k@ == s[i].0@,
    ensures
        distinct_keys(s.update(i, (k, o))),
        map_of(s.update(i, (k, o))) == map_of(s).insert(s[i].0@, o),
    decreases s.len(),
{
    let u = s.update(i, (k, o));
    assert(distinct_keys(u)) by {
        assert forall|a: int, b: int| 0 <= a < b < u.len() implies (#[trigger] u[a]).0@ != (
        #[trigger] u[b]).0@ by {
            assert(u[a].0@ == s[a].0@);
            assert(u[b].0@ == s[b].0@);
        }
    }
    let p = s.drop_last();
    if i == s.len() - 1 {
        assert(u.drop_last() =~= p);
        lemma_map_of(p);
        assert(distinct_keys(p)) by {
            assert forall|a: int, b: int| 0 <= a < b < p.len() implies (#[trigger] p[a]).0@ != (
            #[trigger] p[b]).0@ by {
                assert(p[a] == s[a]);
                assert(p[b] == s[b]);
            }
        }
        assert(map_of(u) =~= map_of(s).insert(s[i].0@, o));
    } else {
        assert(distinct_keys(p)) by {
            assert forall|a: int, b: int| 0 <= a < b < p.len() implies (#[trigger] p[a]).0@ != (
            #[trigger] p[b]).0@ by {
                assert(p[a] == s[a]);
                assert(p[b] == s[b]);
            }
        }
        lemma_set_keeps_map(p, i, k, o);
        assert(u.drop_last() =~= p.update(i, (k, o)));
        assert(u.last() == s.last());
        assert(s.last().0@ != s[i].0@) by {
            assert(s[s.len() - 1] == s.last());
        }
        assert(map_of(u) =~= map_of(s).insert(s[i].0@, o));
    }
}

// ── Laws ───────────────────────────────────────────────────────────────────

/// A file seen for the first time is never ready: one look does not prove the
/// file complete.
pub proof fn lemma_first_sight_waits(size: u64)
    ensures
        !becomes_ready(advanced(None, size)),
{
}

/// A file whose size changed since the last inspection is not ready: a
/// download in progress is never imported.
pub proof fn lemma_growing_file_waits(prev: Observation, size: u64)
    requires
        prev.size != size,
    ensures
        !becomes_ready(advanced(Some(prev), size)),
{
}

/// A file already offered is not offered again while its size stays the same.
pub proof fn lemma_offered_once(prev: Observation, size: u64)
    requires
        prev.signalled,
        prev.size == size,
    ensures
        !becomes_ready(advanced(Some(prev), size)),
        settled(advanced(Some(prev), size)).signalled,
{
}

/// After an inspection, exactly the listed paths are remembered: the files that
/// left are forgotten, which lets a file dropped again be imported again.
pub proof fn lemma_only_listed_paths_remain(
    seen: Map<Seq<char>, Observation>,
    entries: Seq<(Seq<char>, u64)>,
    path: Seq<char>,
)
    ensures
        after(seen, entries).contains_key(path) <==> exists|i: int|
            0 <= i < entries.len() && (#[trigger] entries[i]).0 == path,
    decreases entries.len(),
{
    if entries.len() > 0 {
        let p = entries.drop_last();
        lemma_only_listed_paths_remain(seen, p, path);
        if after(seen, entries).contains_key(path) {
            if entries.last().0 == path {
                assert(entries[entries.len() - 1].0 == path);
            } else {
                let i = choose|i: int| 0 <= i < p.len() && (#[trigger] p[i]).0 == path;
                assert(entries[i] == p[i]);
            }
        }
        if exists|i: int| 0 <= i < entries.len() && (#[trigger] entries[i]).0 == path {
            let i = choose|i: int| 0 <= i < entries.len() && (#[trigger] entries[i]).0 == path;
            if i < p.len() {
                assert(p[i] == entries[i]);
            }
        }
    }
}

/// No path is listed twice.
pub open spec fn distinct_paths(entries: Seq<(Seq<char>, u64)>) -> bool {
    forall|i: int, j: int| 0 <= i < j < entries.len() ==> (#[trigger] entries[i]).0 != (
    #[trigger] entries[j]).0
}

/// The path is listed with that size.
pub open spec fn listed(entries: Seq<(Seq<char>, u64)>, path: Seq<char>, size: u64) -> bool {
    exists|i: int| 0 <= i < entries.len() && #[trigger] entries[i] == (path, size)
}

/// What a tracker made by `default` knows after a series of inspections.
pub open spec fn after_all(listings: Seq<Seq<(Seq<char>, u64)>>) -> Map<Seq<char>, Observation>
    decreases listings.len(),
{
    if listings.len() == 0 {
        Map::empty()
    } else {
        after(after_all(listings.drop_last()), listings.last())
    }
}

/// What the last of a series of inspections offers.
pub open spec fn offered_last(listings: Seq<Seq<(Seq<char>, u64)>>) -> Seq<Seq<char>> {
    ready_paths(after_all(listings.drop_last()), listings.last())
}

/// How many inspections in a row, up to the last, listed the path with that
/// size.
pub open spec fn run_of(listings: Seq<Seq<(Seq<char>, u64)>>, path: Seq<char>, size: u64) -> nat
    decreases listings.len(),
{
    if listings.len() == 0 {
        0
    } else if listed(listings.last(), path, size) {
        run_of(listings.drop_last(), path, size) + 1
    } else {
        0
    }
}

/// The observation a listed path gets from one inspection.
proof fn lemma_after_listed(
    seen: Map<Seq<char>, Observation>,
    entries: Seq<(Seq<char>, u64)>,
    i: int,
)
    requires
        distinct_paths(entries),
        0 <= i < entries.len(),
    ensures
        after(seen, entries).contains_key(entries[i].0),
        after(seen, entries)[entries[i].0] == settled(
            advanced(known(seen, entries[i].0), entries[i].1),
        ),
        ready_paths(seen, entries).contains(entries[i].0) <==> becomes_ready(
            advanced(known(seen, entries[i].0), entries[i].1),
        ),
    decreases entries.len(),
{
    let p = entries.drop_last();
    let (path, size) = entries.last();
    assert(distinct_paths(p)) by {
        assert forall|a: int, b: int| 0 <= a < b < p.len() implies (#[trigger] p[a]).0 != (
        #[trigger] p[b]).0 by {
            assert(p[a] == entries[a]);
            assert(p[b] == entries[b]);
        }
    }
    if i == entries.len() - 1 {
        assert(entries[i] == entries.last());
        let earlier = ready_paths(seen, p);
        assert(!earlier.contains(path)) by {
            if earlier.contains(path) {
                let k = choose|k: int| 0 <= k < earlier.len() && earlier[k] == path;
                lemma_ready_listed(seen, p, k);
                let j = choose|j: int| 0 <= j < p.len() && p[j].0 == earlier[k];
                assert(p[j] == entries[j]);
                assert(entries[j].0 != entries[entries.len() - 1].0);
            }
        }
        if becomes_ready(advanced(known(seen, path), size)) {
            assert(earlier.push(path)[earlier.len() as int] == path);
        }
    } else {
        lemma_after_listed(seen, p, i);
        assert(p[i] == entries[i]);
        assert(entries[i].0 != path) by {
            assert(entries[entries.len() - 1] == entries.last());
        }
        let earlier = ready_paths(seen, p);
        if becomes_ready(advanced(known(seen, path), size)) {
            assert(ready_paths(seen, entries) == earlier.push(path));
            if earlier.push(path).contains(entries[i].0) {
                let k = choose|k: int| 0 <= k < earlier.push(path).len() && earlier.push(path)[k]
                    == entries[i].0;
                assert(k < earlier.len());
                assert(earlier[k] == entries[i].0);
            }
            if earlier.contains(entries[i].0) {
                let k = choose|k: int| 0 <= k < earlier.len() && earlier[k] == entries[i].0;
                assert(earlier.push(path)[k] == entries[i].0);
            }
        }
    }
}

/// Every path an inspection offers is listed in it.
proof fn lemma_ready_listed(seen: Map<Seq<char>, Observation>, entries: Seq<(Seq<char>, u64)>, k: int)
    requires
        0 <= k < ready_paths(seen, entries).len(),
    ensures
        exists|j: int| 0 <= j < entries.len() && entries[j].0 == ready_paths(seen, entries)[k],
    decreases entries.len(),
{
    let p = entries.drop_last();
    let earlier = ready_paths(seen, p);
    if k < earlier.len() {
        lemma_ready_listed(seen, p, k);
        let j = choose|j: int| 0 <= j < p.len() && p[j].0 == earlier[k];
        assert(entries[j] == p[j]);
        assert(ready_paths(seen, entries)[k] == earlier[k]);
    } else {
        assert(entries[entries.len() - 1] == entries.last());
    }
}

/// What the tracker knows of a path listed by the last inspection: its size,
/// the inspections it kept it since it was listed with that size (one less
/// than the run), and whether it was offered during that run.
proof fn lemma_after_all(listings: Seq<Seq<(Seq<char>, u64)>>, path: Seq<char>, size: u64)
    requires
        listings.len() > 0,
        forall|k: int| 0 <= k < listings.len() ==> distinct_paths(#[trigger] listings[k]),
        listed(listings.last(), path, size),
    ensures
        after_all(listings).contains_key(path),
        after_all(listings)[path] == (Observation {
            size,
            stable_rounds: if run_of(listings, path, size) - 1 > u32::MAX {
                u32::MAX
            } else {
                (run_of(listings, path, size) - 1) as u32
            },
            signalled: run_of(listings, path, size) >= 3,
        }),
        offered_last(listings).contains(path) <==> run_of(listings, path, size) == 3,
    decreases listings.len(),
{
    let prev = listings.drop_last();
    let e = listings.last();
    let seen = after_all(prev);
    let i = choose|i: int| 0 <= i < e.len() && e[i] == (path, size);
    assert(distinct_paths(e)) by {
        assert(listings[listings.len() - 1] == e);
    }
    lemma_after_listed(seen, e, i);
    assert(required_rounds() == 2);
    assert(run_of(listings, path, size) == run_of(prev, path, size) + 1);
    if prev.len() == 0 {
        assert(seen == Map::<Seq<char>, Observation>::empty());
        assert(run_of(prev, path, size) == 0);
    } else {
        let e2 = prev.last();
        assert(prev.last() == listings[listings.len() - 2]);
        assert forall|k: int| 0 <= k < prev.len() implies distinct_paths(#[trigger] prev[k]) by {
            assert(prev[k] == listings[k]);
        }
        lemma_only_listed_paths_remain(after_all(prev.drop_last()), e2, path);
        if seen.contains_key(path) {
            let j = choose|j: int| 0 <= j < e2.len() && (#[trigger] e2[j]).0 == path;
            let s2 = e2[j].1;
            assert(listed(e2, path, s2));
            lemma_after_all(prev, path, s2);
            if s2 != size {
                if listed(e2, path, size) {
                    let m = choose|m: int| 0 <= m < e2.len() && #[trigger] e2[m] == (path, size);
                    assert(distinct_paths(e2));
                    if m < j {
                        assert(e2[m].0 != e2[j].0);
                    } else if j < m {
                        assert(e2[j].0 != e2[m].0);
                    }
                }
                assert(run_of(prev, path, size) == 0);
            }
        } else {
            if listed(e2, path, size) {
                let m = choose|m: int| 0 <= m < e2.len() && #[trigger] e2[m] == (path, size);
                assert(e2[m].0 == path);
            }
            assert(run_of(prev, path, size) == 0);
        }
    }
}

/// Over any series of inspections by a tracker made by `default`, each listing
/// a path at most once: a path listed with a size is offered exactly at the
/// third inspection in a row that lists it with that size. So a growing file is
/// never offered, a file that stays put is offered once, and a file resized, or
/// gone and dropped again, is offered again once it has settled.
pub proof fn lemma_offered_when_settled(
    listings: Seq<Seq<(Seq<char>, u64)>>,
    path: Seq<char>,
    size: u64,
)
    requires
        listings.len() > 0,
        forall|k: int| 0 <= k < listings.len() ==> distinct_paths(#[trigger] listings[k]),
        listed(listings.last(), path, size),
    ensures
        offered_last(listings).contains(path) <==> run_of(listings, path, size) == 3,
{
    lemma_after_all(listings, path, size);
}

/// An inspection offers only paths it lists.
pub proof fn lemma_offered_are_listed(listings: Seq<Seq<(Seq<char>, u64)>>, path: Seq<char>)
    requires
        listings.len() > 0,
        offered_last(listings).contains(path),
    ensures
        exists|i: int| 0 <= i < listings.last().len() && (#[trigger] listings.last()[i]).0 == path,
{
    let k = choose|k: int| 0 <= k < offered_last(listings).len() && offered_last(listings)[k] == path;
    lemma_ready_listed(after_all(listings.drop_last()), listings.last(), k);
}

} // verus!
