//! MusicBrainz: from the identifier to complete metadata. This module holds
//! the request and the reading of its answer — credits, dates, positions,
//! genres — apart from the network.
use vstd::prelude::*;

use crate::identify::deezer::leading_year;
use crate::text::{chars_of, contains, contains_seq, parse_u32, parse_u32_spec, trim, trim_chars};
use crate::unicode::{lowercase_of_str, str_lowercase};

verus! {

/// Resolved metadata, ready to be written into the file.
#[derive(Debug, Clone, Default)]
pub struct RecordingMetadata {
    pub recording_mbid: String,
    pub title: String,
    /// Main artists, featurings excluded.
    pub artists: Vec<String>,
    pub featured_artists: Vec<String>,
    pub album: Option<String>,
    /// Identifier of the chosen release — needed for the cover.
    pub release_mbid: Option<String>,
    pub release_group_mbid: Option<String>,
    pub year: Option<u32>,
    pub track_no: Option<u32>,
    pub disc_no: Option<u32>,
    pub genre: Option<String>,
    /// Duration of the recording according to MusicBrainz.
    pub length_ms: Option<i64>,
    /// Number of attached releases, compilations included.
    pub release_count: usize,
}

impl RecordingMetadata {
    /// Artist to file the track under: the recording's, not the release's (on a
    /// compilation the latter is « Various Artists »).
    pub fn filing_artist(&self) -> (r: Option<&str>)
        ensures
            self.artists@.len() == 0 ==> r is None,
            self.artists@.len() > 0 ==> (r matches Some(a) && a@ == self.artists@[0]@),
    {
        if self.artists.len() == 0 {
            None
        } else {
            Some(self.artists[0].as_str())
        }
    }
}

/// An artist of a credit.
#[derive(Debug, Clone)]
pub struct Artist {
    pub name: String,
}

/// One credited artist, and the phrase that joins it to the next.
#[derive(Debug, Clone)]
pub struct ArtistCredit {
    pub name: String,
    pub joinphrase: String,
    pub artist: Option<Artist>,
}

/// A release group.
#[derive(Debug, Clone)]
pub struct ReleaseGroup {
    pub id: String,
    pub primary_type: Option<String>,
    pub secondary_types: Vec<String>,
    pub first_release_date: Option<String>,
}

/// A track of a medium.
#[derive(Debug, Clone)]
pub struct Track {
    pub number: Option<String>,
    pub position: Option<u32>,
}

/// A medium of a release.
#[derive(Debug, Clone)]
pub struct Medium {
    pub position: Option<u32>,
    pub track: Vec<Track>,
}

/// A release.
#[derive(Debug, Clone)]
pub struct Release {
    pub id: String,
    pub title: String,
    pub date: Option<String>,
    pub status: Option<String>,
    pub release_group: Option<ReleaseGroup>,
    pub media: Vec<Medium>,
}

/// A genre and how many people attributed it.
#[derive(Debug, Clone)]
pub struct Genre {
    pub name: String,
    pub count: u32,
}

// ── Credits ────────────────────────────────────────────────────────────────

/// The name of a credit: the artist's when present, the credited name otherwise.
pub open spec fn credit_name(c: ArtistCredit) -> Seq<char> {
    match c.artist {
        Some(a) => a.name@,
        None => c.name@,
    }
}

/// A joining phrase that introduces guests: it contains « feat » or « with »
/// once lowered.
pub open spec fn introduces_guests(join: Seq<char>) -> bool {
    contains_seq(str_lowercase(join), "feat"@) || contains_seq(str_lowercase(join), "with"@)
}

/// Main artists, guests, and whether the next credit is a guest.
///
/// The phrase that **follows** an artist decides the status of the next one:
/// « feat. » introduces a guest, « & » a co-holder; once guests started, every
/// later credit is a guest. Blank names are skipped.
pub open spec fn credits_fold(credits: Seq<ArtistCredit>) -> (Seq<Seq<char>>, Seq<Seq<char>>, bool)
    decreases credits.len(),
{
    if credits.len() == 0 {
        (seq![], seq![], false)
    } else {
        let (main, featured, in_featuring) = credits_fold(credits.drop_last());
        let c = credits.last();
        let name = credit_name(c);
        let (m, f) = if trim(name).len() == 0 {
            (main, featured)
        } else if in_featuring {
            (main, featured.push(name))
        } else {
            (main.push(name), featured)
        };
        (m, f, in_featuring || introduces_guests(c.joinphrase@))
    }
}

/// Strings as character sequences.
pub open spec fn views(v: Seq<String>) -> Seq<Seq<char>> {
    v.map_values(|s: String| s@)
}

/// Separates main artists and guests, from the links of the credit.
pub fn split_artist_credit(credits: &[ArtistCredit]) -> (r: (Vec<String>, Vec<String>))
    ensures
        views(r.0@) == credits_fold(credits@).0,
        views(r.1@) == credits_fold(credits@).1,
{
    let mut main: Vec<String> = Vec::new();
    let mut featured: Vec<String> = Vec::new();
    let mut in_featuring = false;
    let mut i: usize = 0;
    while i < credits.len()
        invariant
            i <= credits@.len(),
            (views(main@), views(featured@), in_featuring) == credits_fold(credits@.take(i as int)),
        decreases credits@.len() - i,
    {
        assert(credits@.take(i + 1).drop_last() =~= credits@.take(i as int));
        let credit = &credits[i];
        let name = match &credit.artist {
            Some(a) => a.name.clone(),
            None => credit.name.clone(),
        };
        if trim_chars(chars_of(name.as_str()).as_slice()).len() > 0 {
            if in_featuring {
                featured.push(name);
                assert(views(featured@) =~= credits_fold(credits@.take(i as int)).1.push(
                    credit_name(credits@[i as int]),
                ));
            } else {
                main.push(name);
                assert(views(main@) =~= credits_fold(credits@.take(i as int)).0.push(
                    credit_name(credits@[i as int]),
                ));
            }
        }
        let join = chars_of(lowercase_of_str(credit.joinphrase.as_str()).as_str());
        let feat = chars_of("feat");
        let with = chars_of("with");
        if contains(join.as_slice(), feat.as_slice()) || contains(join.as_slice(), with.as_slice()) {
            in_featuring = true;
        }
        i = i + 1;
    }
    assert(credits@.take(i as int) =~= credits@);
    (main, featured)
}

// ── Dates ──────────────────────────────────────────────────────────────────

/// The year of a MusicBrainz date (`2001`, `2001-03`, `2001-03-12`): its first
/// four characters, and only within 1900–2200.
pub open spec fn plausible_year(date: Seq<char>) -> Option<u32> {
    match leading_year(date) {
        Some(y) => if 1900 <= y <= 2200 {
            Some(y)
        } else {
            None
        },
        None => None,
    }
}

/// Extracts the year of a MusicBrainz date.
pub fn parse_year(date: &str) -> (r: Option<u32>)
    ensures
        r == plausible_year(date@),
{
    match crate::identify::deezer::parse_year(date) {
        Some(y) => if 1900 <= y && y <= 2200 {
            Some(y)
        } else {
            None
        },
        None => None,
    }
}

/// The date a release is dated by: the release group's first date (the
/// original), otherwise the release's own date.
pub open spec fn dating(release: Release) -> Option<Seq<char>> {
    match release.release_group {
        Some(g) => match g.first_release_date {
            Some(d) => Some(d@),
            None => match release.date {
                Some(d) => Some(d@),
                None => None,
            },
        },
        None => match release.date {
            Some(d) => Some(d@),
            None => None,
        },
    }
}

/// The year of a release.
pub open spec fn year_of(release: Release) -> Option<u32> {
    match dating(release) {
        Some(d) => plausible_year(d),
        None => None,
    }
}

/// The year of a release: the group's date is the original one, the release's
/// may be a late reissue.
pub fn release_year(release: &Release) -> (r: Option<u32>)
    ensures
        r == year_of(*release),
{
    let date: Option<&String> = match &release.release_group {
        Some(g) => match &g.first_release_date {
            Some(d) => Some(d),
            None => match &release.date {
                Some(d) => Some(d),
                None => None,
            },
        },
        None => match &release.date {
            Some(d) => Some(d),
            None => None,
        },
    };
    match date {
        Some(d) => parse_year(d.as_str()),
        None => None,
    }
}

// ── Compilations ───────────────────────────────────────────────────────────

/// ASCII case folding of one character.
pub open spec fn ascii_lower(c: char) -> char {
    if 65 <= (c as u32) && (c as u32) <= 90 {
        ((c as u32) + 32) as char
    } else {
        c
    }
}

/// Equality ignoring ASCII case, as `eq_ignore_ascii_case` compares.
pub open spec fn eq_ascii_ci(a: Seq<char>, b: Seq<char>) -> bool {
    a.len() == b.len() && forall|i: int| 0 <= i < a.len() ==> ascii_lower(#[trigger] a[i]) == ascii_lower(b[i])
}

/// A release of type compilation: its group's primary type is « Compilation »,
/// or one of its secondary types is « compilation » in any ASCII case.
pub open spec fn compilation(release: Release) -> bool {
    match release.release_group {
        None => false,
        Some(g) => (g.primary_type matches Some(p) && p@ == "Compilation"@) || exists|i: int|
            0 <= i < g.secondary_types.len() && eq_ascii_ci(#[trigger] g.secondary_types[i]@, "compilation"@),
    }
}

/// ASCII case folding of one character.
fn lower_ascii(c: char) -> (r: char)
    ensures
        r == ascii_lower(c),
{
    let v = c as u32;
    if 65 <= v && v <= 90 {
        ((v + 32) as u8) as char
    } else {
        c
    }
}

/// Equality ignoring ASCII case.
fn equals_ascii_ci(a: &[char], b: &[char]) -> (r: bool)
    ensures
        r == eq_ascii_ci(a@, b@),
{
    if a.len() != b.len() {
        return false;
    }
    let mut i: usize = 0;
    while i < a.len()
        invariant
            a@.len() == b@.len(),
            i <= a@.len(),
            forall|j: int| 0 <= j < i ==> ascii_lower(#[trigger] a@[j]) == ascii_lower(b@[j]),
        decreases a@.len() - i,
    {
        if lower_ascii(a[i]) != lower_ascii(b[i]) {
            return false;
        }
        i = i + 1;
    }
    true
}

/// A compilation contains the track, but is not its album.
pub fn is_compilation(release: &Release) -> (r: bool)
    ensures
        r == compilation(*release),
{
    let group = match &release.release_group {
        None => return false,
        Some(g) => g,
    };
    if let Some(p) = &group.primary_type {
        let pc = chars_of(p.as_str());
        let want = chars_of("Compilation");
        if crate::text::chars_eq(pc.as_slice(), want.as_slice()) {
            return true;
        }
    }
    let target = chars_of("compilation");
    let mut i: usize = 0;
    while i < group.secondary_types.len()
        invariant
            i <= group.secondary_types@.len(),
            target@ == "compilation"@,
            release.release_group == Some(*group),
            !(group.primary_type matches Some(p) && p@ == "Compilation"@),
            forall|j: int| 0 <= j < i ==> !eq_ascii_ci(#[trigger] group.secondary_types@[j]@, "compilation"@),
        decreases group.secondary_types@.len() - i,
    {
        let k = chars_of(group.secondary_types[i].as_str());
        if equals_ascii_ci(k.as_slice(), target.as_slice()) {
            assert(eq_ascii_ci(group.secondary_types@[i as int]@, "compilation"@));
            return true;
        }
        i = i + 1;
    }
    false
}

// ── Choice of the release ──────────────────────────────────────────────────

/// Points of a release group's primary type.
pub open spec fn type_points(release: Release) -> int {
    match release.release_group {
        Some(g) => match g.primary_type {
            Some(p) => if p@ == "Album"@ {
                50
            } else if p@ == "EP"@ {
                30
            } else if p@ == "Single"@ {
                20
            } else if p@ == "Compilation"@ {
                5
            } else {
                10
            },
            None => 10,
        },
        None => 10,
    }
}

/// The rank of a release, in hundredths of a point: an official release counts
/// a hundred points; an album fifty, an EP thirty, a single twenty, a
/// compilation five, anything else ten; a secondary type (compilation, live,
/// remix) costs forty; and at equal merits the oldest wins, by `(2100 − year)`
/// hundredths.
pub open spec fn release_rank(release: Release) -> int {
    let official: int = if release.status matches Some(s) && s@ == "Official"@ {
        10_000
    } else {
        0
    };
    let secondary: int = if release.release_group matches Some(g) && g.secondary_types.len() > 0 {
        -4_000
    } else {
        0
    };
    let age: int = match year_of(release) {
        Some(y) => 2100 - y,
        None => 0,
    };
    official + 100 * type_points(release) + secondary + age
}

/// The release kept for a recording: the best ranked of those that are not
/// compilations, the last of them on a tie. `None` when there are only
/// compilations.
pub open spec fn best_release_index(releases: Seq<Release>) -> Option<int>
    decreases releases.len(),
{
    if releases.len() == 0 {
        None
    } else {
        let last = releases.len() - 1;
        match best_release_index(releases.drop_last()) {
            None => if !compilation(releases[last]) {
                Some(last)
            } else {
                None
            },
            Some(b) => if !compilation(releases[last]) && release_rank(releases[last])
                >= release_rank(releases[b]) {
                Some(last)
            } else {
                Some(b)
            },
        }
    }
}

/// The best ranked release, compilations included, the last of them on a tie.
pub open spec fn best_any_index(releases: Seq<Release>) -> Option<int>
    decreases releases.len(),
{
    if releases.len() == 0 {
        None
    } else {
        let last = releases.len() - 1;
        match best_any_index(releases.drop_last()) {
            None => Some(last),
            Some(b) => if release_rank(releases[last]) >= release_rank(releases[b]) {
                Some(last)
            } else {
                Some(b)
            },
        }
    }
}

/// The year of a release, when known, lies within 1900–2200.
proof fn lemma_year_range(release: Release)
    ensures
        year_of(release) matches Some(y) ==> 1900 <= y <= 2200,
{
}

/// A secondary type (live, remix…) costs a release its rank: of two releases
/// with the same status and the same primary type, the one whose group has a
/// secondary type ranks strictly below the one whose group has none, whatever
/// their years — forty points exactly when they are of the same year — so the
/// plain album is kept over the live or remixed one, in either order.
pub proof fn lemma_secondary_type_ranks_lower(with: Release, without: Release)
    requires
        with.status == without.status,
        with.release_group matches Some(g) && g.secondary_types.len() > 0,
        without.release_group matches Some(h) && h.secondary_types.len() == 0,
        with.release_group->0.primary_type == without.release_group->0.primary_type,
    ensures
        release_rank(with) < release_rank(without),
        year_of(with) == year_of(without) ==> release_rank(with) + 4_000 == release_rank(without),
        !compilation(with) && !compilation(without) ==> best_release_index(seq![with, without])
            == Some(1int) && best_release_index(seq![without, with]) == Some(0int),
{
    lemma_year_range(with);
    lemma_year_range(without);
    assert(type_points(with) == type_points(without));
    let s1 = seq![with, without];
    let s2 = seq![without, with];
    assert(s1.drop_last() =~= seq![with]);
    assert(s2.drop_last() =~= seq![without]);
    assert(seq![with].drop_last() =~= Seq::<Release>::empty());
    assert(seq![without].drop_last() =~= Seq::<Release>::empty());
    if !compilation(with) && !compilation(without) {
        assert(best_release_index(Seq::<Release>::empty()) is None);
        assert(seq![with][0] == with);
        assert(seq![without][0] == without);
        assert(best_release_index(seq![with]) == Some(0int));
        assert(best_release_index(seq![without]) == Some(0int));
        assert(s1[1] == without && s1[0] == with);
        assert(s2[1] == with && s2[0] == without);
        assert(best_release_index(s1) == Some(1int));
        assert(best_release_index(s2) == Some(0int));
    }
}

/// The order the ranking keeps: an official release above any other, whatever
/// its type and year; an album above a single of the same status and with as
/// many secondary types, whatever their years; and at equal merits (same
/// status, same group types) the older release above the newer.
pub proof fn lemma_rank_order(a: Release, b: Release)
    ensures
        (a.status matches Some(s) && s@ == "Official"@) && !(b.status matches Some(t) && t@
            == "Official"@) ==> release_rank(a) > release_rank(b),
        a.status == b.status && (a.release_group matches Some(g) && g.primary_type matches Some(
            p,
        ) && p@ == "Album"@) && (b.release_group matches Some(h) && h.primary_type matches Some(
            q,
        ) && q@ == "Single"@) && (a.release_group->0.secondary_types.len() == 0)
            == (b.release_group->0.secondary_types.len() == 0) ==> release_rank(a) > release_rank(
            b,
        ),
        a.status == b.status && a.release_group is Some && b.release_group is Some
            && a.release_group->0.primary_type == b.release_group->0.primary_type && (
        a.release_group->0.secondary_types.len() == 0) == (b.release_group->0.secondary_types.len()
            == 0) && year_of(a) is Some && year_of(b) is Some && year_of(a)->0 < year_of(b)->0
            ==> release_rank(a) > release_rank(b),
{
    lemma_year_range(a);
    lemma_year_range(b);
    reveal_strlit("Album");
    reveal_strlit("EP");
    reveal_strlit("Single");
    assert("Single"@ != "Album"@ && "Single"@ != "EP"@) by {
        assert("Single"@.len() != "Album"@.len());
        assert("Single"@.len() != "EP"@.len());
    }
}

/// Whether an optional string is exactly `text`.
fn is_text(value: &Option<String>, text: &str) -> (r: bool)
    ensures
        r == (value matches Some(v) && v@ == text@),
{
    match value {
        Some(v) => {
            let a = chars_of(v.as_str());
            let b = chars_of(text);
            crate::text::chars_eq(a.as_slice(), b.as_slice())
        },
        None => false,
    }
}

/// The rank of a release, in hundredths of a point.
pub fn rank(release: &Release) -> (r: i64)
    ensures
        r == release_rank(*release),
{
    let official: i64 = if is_text(&release.status, "Official") {
        10_000
    } else {
        0
    };
    let kind: i64 = match &release.release_group {
        Some(g) => if is_text(&g.primary_type, "Album") {
            50
        } else if is_text(&g.primary_type, "EP") {
            30
        } else if is_text(&g.primary_type, "Single") {
            20
        } else if is_text(&g.primary_type, "Compilation") {
            5
        } else {
            10
        },
        None => 10,
    };
    let secondary: i64 = match &release.release_group {
        Some(g) => if g.secondary_types.len() > 0 {
            -4_000
        } else {
            0
        },
        None => 0,
    };
    let age: i64 = match release_year(release) {
        Some(y) => 2100 - y as i64,
        None => 0,
    };
    official + 100 * kind + secondary + age
}

/// The release kept for a recording.
///
/// The original album first: an official release over a bootleg, an album over
/// a single, the oldest at equal merits. When the recording is only known
/// through compilations, there is **no known album**: `None`.
pub fn pick_release(releases: &[Release]) -> (r: Option<&Release>)
    ensures
        match best_release_index(releases@) {
            Some(b) => r matches Some(x) && *x == releases@[b],
            None => r is None,
        },
{
    let mut best: Option<usize> = None;
    let mut best_rank: i64 = 0;
    let mut i: usize = 0;
    while i < releases.len()
        invariant
            i <= releases@.len(),
            match best {
                Some(b) => best_release_index(releases@.take(i as int)) == Some(b as int) && b < i
                    && best_rank == release_rank(releases@[b as int]),
                None => best_release_index(releases@.take(i as int)) is None,
            },
        decreases releases@.len() - i,
    {
        let ghost prefix = releases@.take(i + 1);
        assert(prefix.drop_last() =~= releases@.take(i as int));
        assert(prefix[i as int] == releases@[i as int]);
        proof {
            if let Some(b) = best {
                assert(prefix[b as int] == releases@[b as int]);
            }
        }
        if !is_compilation(&releases[i]) {
            let here = rank(&releases[i]);
            match best {
                None => {
                    best = Some(i);
                    best_rank = here;
                },
                Some(_) => {
                    if here >= best_rank {
                        best = Some(i);
                        best_rank = here;
                    }
                },
            }
        }
        i = i + 1;
    }
    assert(releases@.take(i as int) =~= releases@);
    match best {
        Some(b) => Some(&releases[b]),
        None => None,
    }
}

/// The best ranked release, compilations included: only for the cover.
pub fn pick_any_release(releases: &[Release]) -> (r: Option<&Release>)
    ensures
        match best_any_index(releases@) {
            Some(b) => r matches Some(x) && *x == releases@[b],
            None => r is None,
        },
{
    let mut best: Option<usize> = None;
    let mut best_rank: i64 = 0;
    let mut i: usize = 0;
    while i < releases.len()
        invariant
            i <= releases@.len(),
            match best {
                Some(b) => best_any_index(releases@.take(i as int)) == Some(b as int) && b < i
                    && best_rank == release_rank(releases@[b as int]),
                None => best_any_index(releases@.take(i as int)) is None && i == 0,
            },
        decreases releases@.len() - i,
    {
        let ghost prefix = releases@.take(i + 1);
        assert(prefix.drop_last() =~= releases@.take(i as int));
        assert(prefix[i as int] == releases@[i as int]);
        proof {
            if let Some(b) = best {
                assert(prefix[b as int] == releases@[b as int]);
            }
        }
        let here = rank(&releases[i]);
        match best {
            None => {
                best = Some(i);
                best_rank = here;
            },
            Some(_) => {
                if here >= best_rank {
                    best = Some(i);
                    best_rank = here;
                }
            },
        }
        i = i + 1;
    }
    assert(releases@.take(i as int) =~= releases@);
    match best {
        Some(b) => Some(&releases[b]),
        None => None,
    }
}

// ── Track position ─────────────────────────────────────────────────────────

/// Track and disc numbers as the release gives them: the first track of the
/// first medium, its textual number when it is numeric (on a vinyl it reads
/// « A1 »), its position otherwise.
pub open spec fn position_of(release: Release) -> Option<(Option<u32>, Option<u32>)> {
    if release.media.len() == 0 {
        None
    } else {
        let medium = release.media[0];
        let number = if medium.track.len() == 0 {
            None
        } else {
            let track = medium.track[0];
            match track.number {
                Some(n) => match parse_u32_spec(n@) {
                    Some(v) => Some(v),
                    None => track.position,
                },
                None => track.position,
            }
        };
        Some((number, medium.position))
    }
}

/// Track and disc numbers, as the chosen release gives them.
pub fn track_position(release: &Release) -> (r: Option<(Option<u32>, Option<u32>)>)
    ensures
        r == position_of(*release),
{
    if release.media.len() == 0 {
        return None;
    }
    let medium = &release.media[0];
    let number = if medium.track.len() == 0 {
        None
    } else {
        let track = &medium.track[0];
        match &track.number {
            Some(n) => match parse_u32(chars_of(n.as_str()).as_slice()) {
                Some(v) => Some(v),
                None => track.position,
            },
            None => track.position,
        }
    };
    Some((number, medium.position))
}

// ── Genre ──────────────────────────────────────────────────────────────────

/// A genre with a name.
pub open spec fn named(g: Genre) -> bool {
    trim(g.name@).len() > 0
}

/// The genre most often attributed by the community: among the named genres,
/// the one with the highest count, the last of them on a tie.
pub open spec fn best_genre_index(genres: Seq<Genre>) -> Option<int>
    decreases genres.len(),
{
    if genres.len() == 0 {
        None
    } else {
        let last = genres.len() - 1;
        match best_genre_index(genres.drop_last()) {
            None => if named(genres[last]) {
                Some(last)
            } else {
                None
            },
            Some(b) => if named(genres[last]) && genres[last].count >= genres[b].count {
                Some(last)
            } else {
                Some(b)
            },
        }
    }
}

/// The genre most often attributed by the community.
pub fn best_genre(genres: &[Genre]) -> (r: Option<String>)
    ensures
        match best_genre_index(genres@) {
            Some(b) => r matches Some(name) && name@ == genres@[b].name@,
            None => r is None,
        },
{
    let mut best: Option<usize> = None;
    let mut i: usize = 0;
    while i < genres.len()
        invariant
            i <= genres@.len(),
            match best {
                Some(b) => best_genre_index(genres@.take(i as int)) == Some(b as int) && b < i,
                None => best_genre_index(genres@.take(i as int)) is None,
            },
        decreases genres@.len() - i,
    {
        let ghost prefix = genres@.take(i + 1);
        assert(prefix.drop_last() =~= genres@.take(i as int));
        assert(prefix[i as int] == genres@[i as int]);
        proof {
            if let Some(b) = best {
                assert(prefix[b as int] == genres@[b as int]);
            }
        }
        let is_named = trim_chars(chars_of(genres[i].name.as_str()).as_slice()).len() > 0;
        match best {
            None => {
                if is_named {
                    best = Some(i);
                }
            },
            Some(b) => {
                if is_named && genres[i].count >= genres[b].count {
                    best = Some(i);
                }
            },
        }
        i = i + 1;
    }
    assert(genres@.take(i as int) =~= genres@);
    match best {
        Some(b) => Some(genres[b].name.clone()),
        None => None,
    }
}

// ── Assembling ─────────────────────────────────────────────────────────────

/// A recording as MusicBrainz describes it, as plain values.
#[derive(Debug, Clone)]
pub struct Recording {
    pub id: String,
    pub title: String,
    pub artist_credit: Vec<ArtistCredit>,
    pub releases: Vec<Release>,
    pub genres: Vec<Genre>,
    /// Length in milliseconds; missing on incomplete records.
    pub length: Option<u32>,
}

/// An optional string as an optional character sequence.
pub open spec fn opt_view(value: Option<String>) -> Option<Seq<char>> {
    match value {
        Some(v) => Some(v@),
        None => None,
    }
}

/// The release whose cover is used: the kept release, or, when the track is
/// only known through compilations, the best of them — an approximate cover
/// is better than none.
pub open spec fn cover_release_index(releases: Seq<Release>) -> Option<int> {
    match best_release_index(releases) {
        Some(b) => Some(b),
        None => best_any_index(releases),
    }
}

/// The metadata a recording gives.
pub open spec fn built(rec: Recording, m: RecordingMetadata) -> bool {
    let best = best_release_index(rec.releases@);
    let cover = cover_release_index(rec.releases@);
    &&& m.recording_mbid@ == rec.id@ && m.title@ == rec.title@
    &&& views(m.artists@) == credits_fold(rec.artist_credit@).0
    &&& views(m.featured_artists@) == credits_fold(rec.artist_credit@).1
    &&& opt_view(m.album) == (match best {
        Some(b) => Some(rec.releases@[b].title@),
        None => None,
    })
    &&& opt_view(m.release_mbid) == (match cover {
        Some(c) => Some(rec.releases@[c].id@),
        None => None,
    })
    &&& opt_view(m.release_group_mbid) == (match cover {
        Some(c) => match rec.releases@[c].release_group {
            Some(g) => Some(g.id@),
            None => None,
        },
        None => None,
    })
    &&& m.year == (match best {
        Some(b) => year_of(rec.releases@[b]),
        None => None,
    })
    &&& (m.track_no, m.disc_no) == (match best {
        Some(b) => match position_of(rec.releases@[b]) {
            Some(p) => p,
            None => (None, None),
        },
        None => (None, None),
    })
    &&& opt_view(m.genre) == (match best_genre_index(rec.genres@) {
        Some(g) => Some(rec.genres@[g].name@),
        None => None,
    })
    &&& m.length_ms == (match rec.length {
        Some(l) => Some(l as i64),
        None => None,
    })
    &&& m.release_count == rec.releases@.len()
}

/// Lemma: a chosen release is one of the releases.
pub proof fn lemma_release_indices(releases: Seq<Release>)
    ensures
        best_release_index(releases) matches Some(b) ==> 0 <= b < releases.len(),
        best_any_index(releases) matches Some(b) ==> 0 <= b < releases.len(),
        (best_any_index(releases) is None) == (releases.len() == 0),
    decreases releases.len(),
{
    if releases.len() > 0 {
        lemma_release_indices(releases.drop_last());
    }
}

/// Assembles the metadata of a recording: credits split, the representative
/// release chosen (none when only compilations carry the track), its title,
/// year and positions, the most attributed genre.
pub fn build_metadata(recording: Recording) -> (m: RecordingMetadata)
    ensures
        built(recording, m),
{
    let (artists, featured_artists) = split_artist_credit(recording.artist_credit.as_slice());
    let release_count = recording.releases.len();
    let best = pick_release(recording.releases.as_slice());
    let for_cover = match best {
        Some(b) => Some(b),
        None => pick_any_release(recording.releases.as_slice()),
    };
    proof {
        lemma_release_indices(recording.releases@);
    }
    let position = match best {
        Some(b) => track_position(b),
        None => None,
    };
    let (track_no, disc_no) = match position {
        Some(p) => p,
        None => (None, None),
    };
    let album = match best {
        Some(b) => Some(b.title.clone()),
        None => None,
    };
    let release_mbid = match for_cover {
        Some(c) => Some(c.id.clone()),
        None => None,
    };
    let release_group_mbid = match for_cover {
        Some(c) => match &c.release_group {
            Some(g) => Some(g.id.clone()),
            None => None,
        },
        None => None,
    };
    let year = match best {
        Some(b) => release_year(b),
        None => None,
    };
    let genre = best_genre(recording.genres.as_slice());
    let length_ms = match recording.length {
        Some(l) => Some(l as i64),
        None => None,
    };
    RecordingMetadata {
        recording_mbid: recording.id,
        title: recording.title,
        artists,
        featured_artists,
        album,
        release_mbid,
        release_group_mbid,
        year,
        track_no,
        disc_no,
        genre,
        length_ms,
        release_count,
    }
}

/// Where recordings are described.
pub const ENDPOINT: &'static str = "https://musicbrainz.org/ws/2/recording";

/// The request describing a recording, with what its metadata are built from:
/// artists, releases with their media and groups, genres.
pub fn lookup_url(recording_mbid: &str) -> (r: String)
    ensures
        r@ == ENDPOINT@ + "/"@ + recording_mbid@
            + "?fmt=json&inc=artists+releases+media+release-groups+genres"@,
{
    let mut out = chars_of(ENDPOINT);
    crate::text::push_str(&mut out, "/");
    crate::text::push_str(&mut out, recording_mbid);
    crate::text::push_str(&mut out, "?fmt=json&inc=artists+releases+media+release-groups+genres");
    crate::text::string_from(out.as_slice())
}

} // verus!
