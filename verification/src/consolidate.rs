//! Comparing and consolidating several dumps of the same disk.
//!
//! Dumps of a marginal disk disagree, and they may be dumps of different
//! physical copies, so this reports **agreement**, not correctness: where the
//! dumps disagree it says which tracks, which sectors, and how the votes fell.
//!
//! Merging is per sector, reporting is per track: differences are usually
//! confined to one sector, and merging a whole track on a plurality would
//! discard good sectors along with the disputed one.
use vstd::prelude::*;

verus! {

/// Bytes in one sector.
pub const SECTOR: usize = 512;

/// Sectors in one standard double-density track.
pub const SECTORS_PER_TRACK: usize = 11;

/// How the dumps voted on one sector.
#[derive(Debug, Clone, Copy, PartialEq, Eq)]
pub enum Agreement {
    /// Every dump gave the same bytes.
    Unanimous,
    /// One version was held by more dumps than any other.
    Plurality {
        /// How many dumps held the winning version.
        agreeing: usize,
        /// How many distinct versions were seen.
        distinct: usize,
    },
    /// No version had more support than another; the first dump's bytes are
    /// taken, and the sector is reported as unresolved.
    Tied {
        /// How many distinct versions were seen.
        distinct: usize,
    },
}

impl Agreement {
    /// Whether the dumps settled this sector between them.
    pub fn is_resolved(&self) -> (r: bool)
        ensures
            r == !(*self is Tied),
    {
        match self {
            Agreement::Unanimous => true,
            Agreement::Plurality { .. } => true,
            Agreement::Tied { .. } => false,
        }
    }
}

/// Sector `i` of a dump.
pub open spec fn sector(d: Seq<u8>, i: int) -> Seq<u8> {
    d.subrange(i * 512, i * 512 + 512)
}

/// The bytes of each dump.
pub open spec fn views(dumps: Seq<Vec<u8>>) -> Seq<Seq<u8>> {
    Seq::new(dumps.len(), |j: int| dumps[j]@)
}

/// Dumps `a` and `b` hold the same version of sector `i`.
pub open spec fn same(ds: Seq<Seq<u8>>, i: int, a: int, b: int) -> bool {
    sector(ds[a], i) == sector(ds[b], i)
}

/// How many of the first `m` dumps hold the version of sector `i` that dump `k` holds.
pub open spec fn support_in(ds: Seq<Seq<u8>>, i: int, k: int, m: int) -> nat
    decreases m,
{
    if m <= 0 {
        0
    } else {
        support_in(ds, i, k, m - 1) + if same(ds, i, m - 1, k) {
            1nat
        } else {
            0nat
        }
    }
}

/// How many dumps hold the version of sector `i` that dump `k` holds.
pub open spec fn support(ds: Seq<Seq<u8>>, i: int, k: int) -> nat {
    support_in(ds, i, k, ds.len() as int)
}

/// Dump `k` is the first to hold its version of sector `i`: each distinct
/// version is counted once, by its first holder.
pub open spec fn is_first(ds: Seq<Seq<u8>>, i: int, k: int) -> bool {
    forall|j: int| 0 <= j < k ==> !same(ds, i, j, k)
}

/// Distinct versions of sector `i` among the first `m` dumps.
pub open spec fn distinct_in(ds: Seq<Seq<u8>>, i: int, m: int) -> nat
    decreases m,
{
    if m <= 0 {
        0
    } else {
        distinct_in(ds, i, m - 1) + if is_first(ds, i, m - 1) {
            1nat
        } else {
            0nat
        }
    }
}

/// Distinct versions of sector `i`.
pub open spec fn distinct(ds: Seq<Seq<u8>>, i: int) -> nat {
    distinct_in(ds, i, ds.len() as int)
}

/// The most support any of the first `m` dumps' versions has.
pub open spec fn best_in(ds: Seq<Seq<u8>>, i: int, m: int) -> nat
    decreases m,
{
    if m <= 0 {
        0
    } else if support(ds, i, m - 1) > best_in(ds, i, m - 1) {
        support(ds, i, m - 1)
    } else {
        best_in(ds, i, m - 1)
    }
}

/// The most support any version of sector `i` has.
pub open spec fn best(ds: Seq<Seq<u8>>, i: int) -> nat {
    best_in(ds, i, ds.len() as int)
}

/// Versions among the first `m` dumps that have the most support.
pub open spec fn leaders_in(ds: Seq<Seq<u8>>, i: int, m: int) -> nat
    decreases m,
{
    if m <= 0 {
        0
    } else {
        leaders_in(ds, i, m - 1) + if is_first(ds, i, m - 1) && support(ds, i, m - 1) == best(
            ds,
            i,
        ) {
            1nat
        } else {
            0nat
        }
    }
}

/// How many versions of sector `i` share the most support.
pub open spec fn leaders(ds: Seq<Seq<u8>>, i: int) -> nat {
    leaders_in(ds, i, ds.len() as int)
}

/// How the dumps voted on sector `i`.
pub open spec fn agreement(ds: Seq<Seq<u8>>, i: int) -> Agreement {
    if distinct(ds, i) <= 1 {
        Agreement::Unanimous
    } else if leaders(ds, i) == 1 {
        Agreement::Plurality { agreeing: best(ds, i) as usize, distinct: distinct(ds, i) as usize }
    } else {
        Agreement::Tied { distinct: distinct(ds, i) as usize }
    }
}

/// The first dump, from `j` on, whose version of sector `i` has the most support.
pub open spec fn first_best_from(ds: Seq<Seq<u8>>, i: int, j: int) -> int
    decreases ds.len() - j,
{
    if j >= ds.len() {
        0
    } else if support(ds, i, j) == best(ds, i) {
        j
    } else {
        first_best_from(ds, i, j + 1)
    }
}

/// The dump whose version of sector `i` goes into the merge: the most
/// supported version, or the first dump's on a tie.
pub open spec fn winner(ds: Seq<Seq<u8>>, i: int) -> int {
    if agreement(ds, i) is Tied {
        0
    } else {
        first_best_from(ds, i, 0)
    }
}

/// The merged image's first `m` sectors.
pub open spec fn merged(ds: Seq<Seq<u8>>, m: int) -> Seq<u8>
    decreases m,
{
    if m <= 0 {
        Seq::empty()
    } else {
        merged(ds, m - 1) + sector(ds[winner(ds, m - 1)], m - 1)
    }
}

/// Sectors among the first `m` whose agreement is of the kind `pred` picks.
pub open spec fn count_in(ds: Seq<Seq<u8>>, m: int, kind: int) -> nat
    decreases m,
{
    if m <= 0 {
        0
    } else {
        count_in(ds, m - 1, kind) + if kind_of(agreement(ds, m - 1)) == kind {
            1nat
        } else {
            0nat
        }
    }
}

/// 0 for unanimous, 1 for a plurality, 2 for a tie.
pub open spec fn kind_of(a: Agreement) -> int {
    match a {
        Agreement::Unanimous => 0,
        Agreement::Plurality { .. } => 1,
        Agreement::Tied { .. } => 2,
    }
}

} // verus!

verus! {

/// Sector `i` starts at `at`, and every dump is long enough to hold it.
pub open spec fn sector_fits(ds: Seq<Seq<u8>>, i: int, at: int) -> bool {
    &&& at == i * 512
    &&& 0 <= i
    &&& forall|j: int| 0 <= j < ds.len() ==> at + 512 <= #[trigger] ds[j].len()
}

/// Whether two dumps hold the same bytes at `at..at + 512`.
fn same_sector(x: &Vec<u8>, y: &Vec<u8>, at: usize) -> (r: bool)
    requires
        at + 512 <= x@.len(),
        at + 512 <= y@.len(),
    ensures
        r == (x@.subrange(at as int, at + 512) == y@.subrange(at as int, at + 512)),
{
    let xlen = x.len();
    let ylen = y.len();
    let mut k: usize = 0;
    while k < 512
        invariant
            k <= 512,
            xlen == x@.len(),
            ylen == y@.len(),
            at + 512 <= x@.len(),
            at + 512 <= y@.len(),
            forall|q: int| 0 <= q < k ==> x@.subrange(at as int, at + 512)[q] == #[trigger] y@.subrange(at as int, at + 512)[q],
        decreases 512 - k,
    {
        if x[at + k] != y[at + k] {
            assert(x@.subrange(at as int, at + 512)[k as int] != y@.subrange(at as int, at + 512)[k as int]);
            return false;
        }
        k = k + 1;
    }
    assert(x@.subrange(at as int, at + 512) =~= y@.subrange(at as int, at + 512));
    true
}

/// How many dumps hold dump `k`'s version of the sector at `at`.
fn support_of(dumps: &[Vec<u8>], i: Ghost<int>, at: usize, k: usize) -> (r: usize)
    requires
        k < dumps@.len(),
        sector_fits(views(dumps@), i@, at as int),
    ensures
        r == support(views(dumps@), i@, k as int),
        r <= dumps@.len(),
{
    let ghost ds = views(dumps@);
    let mut count: usize = 0;
    let mut m: usize = 0;
    while m < dumps.len()
        invariant
            m <= dumps@.len(),
            k < dumps@.len(),
            ds == views(dumps@),
            sector_fits(ds, i@, at as int),
            count == support_in(ds, i@, k as int, m as int),
            count <= m,
        decreases dumps@.len() - m,
    {
        assert(ds[m as int] == dumps@[m as int]@);
        assert(ds[k as int] == dumps@[k as int]@);
        if same_sector(&dumps[m], &dumps[k], at) {
            count = count + 1;
        }
        m = m + 1;
    }
    count
}

/// Whether dump `k` is the first to hold its version of the sector at `at`.
fn first_holder(dumps: &[Vec<u8>], i: Ghost<int>, at: usize, k: usize) -> (r: bool)
    requires
        k < dumps@.len(),
        sector_fits(views(dumps@), i@, at as int),
    ensures
        r == is_first(views(dumps@), i@, k as int),
{
    let ghost ds = views(dumps@);
    let mut j: usize = 0;
    while j < k
        invariant
            j <= k,
            k < dumps@.len(),
            ds == views(dumps@),
            sector_fits(ds, i@, at as int),
            forall|q: int| 0 <= q < j ==> !same(ds, i@, q, k as int),
        decreases k - j,
    {
        assert(ds[j as int] == dumps@[j as int]@);
        assert(ds[k as int] == dumps@[k as int]@);
        if same_sector(&dumps[j], &dumps[k], at) {
            assert(same(ds, i@, j as int, k as int));
            return false;
        }
        j = j + 1;
    }
    true
}

/// How the dumps voted on the sector at `at`, and which dump's version wins.
fn vote(dumps: &[Vec<u8>], i: Ghost<int>, at: usize) -> (r: (Agreement, usize))
    requires
        dumps@.len() >= 1,
        sector_fits(views(dumps@), i@, at as int),
    ensures
        r.0 == agreement(views(dumps@), i@),
        r.1 as int == winner(views(dumps@), i@),
        r.1 < dumps@.len(),
{
    let ghost ds = views(dumps@);
    let n = dumps.len();

    let mut distinct_count: usize = 0;
    let mut best_count: usize = 0;
    let mut k: usize = 0;
    while k < n
        invariant
            k <= n,
            n == dumps@.len(),
            ds == views(dumps@),
            sector_fits(ds, i@, at as int),
            distinct_count == distinct_in(ds, i@, k as int),
            distinct_count <= k,
            best_count == best_in(ds, i@, k as int),
            best_count <= n,
        decreases n - k,
    {
        if first_holder(dumps, i, at, k) {
            distinct_count = distinct_count + 1;
        }
        let s = support_of(dumps, i, at, k);
        if s > best_count {
            best_count = s;
        }
        k = k + 1;
    }

    let mut leader_count: usize = 0;
    let mut chosen: usize = 0;
    let mut found = false;
    let mut k: usize = 0;
    while k < n
        invariant
            k <= n,
            n == dumps@.len(),
            ds == views(dumps@),
            sector_fits(ds, i@, at as int),
            best_count == best(ds, i@),
            leader_count == leaders_in(ds, i@, k as int),
            leader_count <= k,
            found ==> chosen < n && chosen as int == first_best_from(ds, i@, 0),
            !found ==> first_best_from(ds, i@, 0) == first_best_from(ds, i@, k as int),
            !found ==> chosen == 0,
        decreases n - k,
    {
        let s = support_of(dumps, i, at, k);
        if s == best_count {
            if first_holder(dumps, i, at, k) {
                leader_count = leader_count + 1;
            }
            if !found {
                found = true;
                chosen = k;
            }
        }
        k = k + 1;
    }

    if !found {
        assert(first_best_from(ds, i@, n as int) == 0);
    }
    let agreement = if distinct_count <= 1 {
        Agreement::Unanimous
    } else if leader_count == 1 {
        Agreement::Plurality { agreeing: best_count, distinct: distinct_count }
    } else {
        Agreement::Tied { distinct: distinct_count }
    };
    let winner = match agreement {
        Agreement::Tied { .. } => 0,
        _ => chosen,
    };
    (agreement, winner)
}

} // verus!

verus! {

/// What the dumps said about one track.
#[derive(Debug, Clone)]
pub struct TrackReport {
    /// Track number.
    pub track: usize,
    /// Sectors, within this track, on which the dumps disagreed at all.
    pub disputed: Vec<usize>,
    /// Sectors, within this track, where no version had a plurality.
    pub unresolved: Vec<usize>,
}

/// The result of consolidating several dumps.
#[derive(Debug, Clone)]
pub struct Consolidation {
    /// How many dumps went in.
    pub sources: usize,
    /// The merged image: the winning version of each sector. Not a best
    /// estimate — the dumps may be of different physical copies.
    pub bytes: Vec<u8>,
    /// One entry per track that had any disagreement, in track order.
    pub tracks: Vec<TrackReport>,
    /// Sectors on which every dump agreed.
    pub unanimous_sectors: usize,
    /// Sectors that were disputed but had a clear plurality.
    pub resolved_sectors: usize,
    /// Sectors where no version had a plurality.
    pub unresolved_sectors: usize,
}

/// Why dumps could not be consolidated or compared.
#[derive(Debug, Clone, PartialEq, Eq)]
pub enum ConsolidateError {
    /// Fewer than two dumps were given.
    TooFewSources,
    /// The dumps are not the same length, so they are not dumps of one disk.
    SizeMismatch {
        /// The first dump's length.
        expected: usize,
        /// The length that differed.
        found: usize,
    },
    /// The dumps are not a whole number of sectors.
    NotWholeSectors {
        /// The length that was not a multiple of 512.
        length: usize,
    },
}

/// The dumps disagreed on sector `i`.
pub open spec fn is_disputed(ds: Seq<Seq<u8>>, i: int) -> bool {
    !(agreement(ds, i) is Unanimous)
}

/// No version of sector `i` had a plurality.
pub open spec fn is_unresolved(ds: Seq<Seq<u8>>, i: int) -> bool {
    agreement(ds, i) is Tied
}

/// Each element is smaller than the next.
pub open spec fn ascending(s: Seq<usize>) -> bool {
    forall|a: int, b: int| 0 <= a < b < s.len() ==> s[a] < s[b]
}

/// One track's report lists exactly the disputed and the unresolved sectors
/// of that track among the first `n` sectors, each in ascending order.
pub open spec fn report_matches(ds: Seq<Seq<u8>>, n: int, r: TrackReport) -> bool {
    &&& ascending(r.disputed@)
    &&& ascending(r.unresolved@)
    &&& r.disputed@.len() > 0
    &&& forall|x: usize|
        r.disputed@.contains(x) <==> (x < 11 && r.track * 11 + x < n && is_disputed(
            ds,
            r.track * 11 + x,
        ))
    &&& forall|x: usize|
        r.unresolved@.contains(x) <==> (x < 11 && r.track * 11 + x < n && is_unresolved(
            ds,
            r.track * 11 + x,
        ))
}

/// The reports cover every track with a disputed sector among the first `n`,
/// once each, in track order, and nothing else.
pub open spec fn reports_match(ds: Seq<Seq<u8>>, n: int, tracks: Seq<TrackReport>) -> bool {
    &&& forall|a: int, b: int| 0 <= a < b < tracks.len() ==> tracks[a].track < tracks[b].track
    &&& forall|r: int| 0 <= r < tracks.len() ==> report_matches(ds, n, #[trigger] tracks[r])
    &&& forall|s: int|
        0 <= s < n && #[trigger] is_disputed(ds, s) ==> exists|r: int|
            0 <= r < tracks.len() && #[trigger] tracks[r].track == s / 11
}

/// Every report's track starts before sector `n`.
spec fn tracks_started(tracks: Seq<TrackReport>, n: int) -> bool {
    forall|r: int| 0 <= r < tracks.len() ==> #[trigger] tracks[r].track * 11 < n
}

/// Add sector `index`'s vote to the per-track reports.
fn record_sector(
    tracks: &mut Vec<TrackReport>,
    ds: Ghost<Seq<Seq<u8>>>,
    index: usize,
    vote: Agreement,
)
    requires
        reports_match(ds@, index as int, old(tracks)@),
        tracks_started(old(tracks)@, index as int),
        vote == agreement(ds@, index as int),
    ensures
        reports_match(ds@, index + 1, final(tracks)@),
        tracks_started(final(tracks)@, index + 1),
{
    let ghost old_tracks = tracks@;
    let ghost n = index as int;
    if let Agreement::Unanimous = vote {
        assert forall|r: int| 0 <= r < tracks@.len() implies report_matches(
            ds@,
            n + 1,
            #[trigger] tracks@[r],
        ) by {
            assert(report_matches(ds@, n, tracks@[r]));
        }
        return;
    }
    let track = index / 11;
    let sec = index % 11;
    let tied = !vote.is_resolved();
    assert(index as int == track * 11 + sec);
    assert(is_disputed(ds@, n));
    assert(tied == is_unresolved(ds@, n));
    let count = tracks.len();
    if count > 0 && tracks[count - 1].track == track {
        let mut last = tracks.pop().unwrap();
        let ghost old_last = last;
        assert(old_last == old_tracks[count - 1]);
        assert(old_last.track == track);
        assert(report_matches(ds@, n, old_last));
        assert(!old_last.disputed@.contains(sec)) by {
            assert(!(track * 11 + sec < n));
        }
        last.disputed.push(sec);
        if tied {
            last.unresolved.push(sec);
        }
        assert forall|a: int, b: int| 0 <= a < b < last.disputed@.len() implies last.disputed@[a]
            < last.disputed@[b] by {
            if b == last.disputed@.len() - 1 {
                assert(old_last.disputed@.contains(old_last.disputed@[a]));
            }
        }
        assert forall|a: int, b: int| 0 <= a < b < last.unresolved@.len() implies last.unresolved@[a]
            < last.unresolved@[b] by {
            if tied && b == last.unresolved@.len() - 1 {
                assert(old_last.unresolved@.contains(old_last.unresolved@[a]));
            }
        }
        assert forall|x: usize| last.disputed@.contains(x) <==> (x < 11 && last.track * 11 + x < n
            + 1 && is_disputed(ds@, last.track * 11 + x)) by {
            if x == sec {
                assert(last.disputed@[last.disputed@.len() - 1] == sec);
            } else if last.disputed@.contains(x) {
                let q = choose|q: int| 0 <= q < last.disputed@.len() && last.disputed@[q] == x;
                assert(old_last.disputed@[q] == x);
                assert(old_last.disputed@.contains(x));
            } else {
                if x < 11 && last.track * 11 + x < n + 1 && is_disputed(ds@, last.track * 11 + x) {
                    assert(old_last.disputed@.contains(x));
                    let q = choose|q: int| 0 <= q < old_last.disputed@.len() && old_last.disputed@[q] == x;
                    assert(last.disputed@[q] == x);
                }
            }
        }
        assert forall|x: usize| last.unresolved@.contains(x) <==> (x < 11 && last.track * 11 + x < n
            + 1 && is_unresolved(ds@, last.track * 11 + x)) by {
            if x == sec {
                if tied {
                    assert(last.unresolved@[last.unresolved@.len() - 1] == sec);
                }
            } else if last.unresolved@.contains(x) {
                let q = choose|q: int| 0 <= q < last.unresolved@.len() && last.unresolved@[q] == x;
                assert(old_last.unresolved@[q] == x);
                assert(old_last.unresolved@.contains(x));
            } else {
                if x < 11 && last.track * 11 + x < n + 1 && is_unresolved(ds@, last.track * 11 + x) {
                    assert(old_last.unresolved@.contains(x));
                    let q = choose|q: int| 0 <= q < old_last.unresolved@.len() && old_last.unresolved@[q] == x;
                    assert(last.unresolved@[q] == x);
                }
            }
        }
        tracks.push(last);
        assert forall|r: int| 0 <= r < tracks@.len() implies report_matches(
            ds@,
            n + 1,
            #[trigger] tracks@[r],
        ) by {
            if r < count - 1 {
                assert(tracks@[r] == old_tracks[r]);
                assert(report_matches(ds@, n, old_tracks[r]));
                assert(old_tracks[r].track < old_tracks[count - 1].track);
            }
        }
        assert forall|s: int| 0 <= s < n + 1 && #[trigger] is_disputed(ds@, s) implies exists|r: int|
            0 <= r < tracks@.len() && #[trigger] tracks@[r].track == s / 11 by {
            if s == n {
                assert(tracks@[count - 1].track == s / 11);
            } else {
                let r = choose|r: int| 0 <= r < old_tracks.len() && #[trigger] old_tracks[r].track == s / 11;
                assert(tracks@[r].track == s / 11);
            }
        }
    } else {
        if count > 0 {
            assert(old_tracks[count - 1].track * 11 < n);
            assert(old_tracks[count - 1].track < track);
        }
        let mut disputed: Vec<usize> = Vec::new();
        disputed.push(sec);
        let mut unresolved: Vec<usize> = Vec::new();
        if tied {
            unresolved.push(sec);
        }
        let report = TrackReport { track, disputed, unresolved };
        assert forall|x: usize| report.disputed@.contains(x) <==> (x < 11 && report.track * 11 + x
            < n + 1 && is_disputed(ds@, report.track * 11 + x)) by {
            if x == sec {
                assert(report.disputed@[0] == sec);
            } else if x < 11 && report.track * 11 + x < n + 1 && is_disputed(ds@, report.track * 11 + x) {
                let s = report.track * 11 + x;
                let r = choose|r: int| 0 <= r < old_tracks.len() && #[trigger] old_tracks[r].track == s / 11;
                assert(old_tracks[r].track <= old_tracks[count - 1].track);
            }
        }
        assert forall|x: usize| report.unresolved@.contains(x) <==> (x < 11 && report.track * 11 + x
            < n + 1 && is_unresolved(ds@, report.track * 11 + x)) by {
            if x == sec {
                if tied {
                    assert(report.unresolved@[0] == sec);
                }
            } else if x < 11 && report.track * 11 + x < n + 1 && is_unresolved(ds@, report.track * 11 + x) {
                let s = report.track * 11 + x;
                assert(is_disputed(ds@, s));
                let r = choose|r: int| 0 <= r < old_tracks.len() && #[trigger] old_tracks[r].track == s / 11;
                assert(old_tracks[r].track <= old_tracks[count - 1].track);
            }
        }
        assert(report_matches(ds@, n + 1, report));
        tracks.push(report);
        assert forall|r: int| 0 <= r < tracks@.len() implies report_matches(
            ds@,
            n + 1,
            #[trigger] tracks@[r],
        ) by {
            if r < count {
                assert(tracks@[r] == old_tracks[r]);
                assert(report_matches(ds@, n, old_tracks[r]));
                assert(old_tracks[r].track < track);
            }
        }
        assert forall|s: int| 0 <= s < n + 1 && #[trigger] is_disputed(ds@, s) implies exists|r: int|
            0 <= r < tracks@.len() && #[trigger] tracks@[r].track == s / 11 by {
            if s == n {
                assert(tracks@[count as int].track == s / 11);
            } else {
                let r = choose|r: int| 0 <= r < old_tracks.len() && #[trigger] old_tracks[r].track == s / 11;
                assert(tracks@[r].track == s / 11);
            }
        }
    }
}

} // verus!

verus! {

/// Every dump is as long as the first.
pub open spec fn same_lengths(dumps: Seq<Vec<u8>>) -> bool {
    forall|j: int| 0 <= j < dumps.len() ==> (#[trigger] dumps[j]@).len() == dumps[0]@.len()
}

proof fn lemma_sector_fits(ds: Seq<Seq<u8>>, i: int, length: int)
    requires
        0 <= i < length / 512,
        length >= 0,
        forall|j: int| 0 <= j < ds.len() ==> (#[trigger] ds[j]).len() == length,
    ensures
        sector_fits(ds, i, i * 512),
        i * 512 + 512 <= length,
{
    assert(i * 512 + 512 <= length) by (nonlinear_arith)
        requires
            0 <= i < length / 512,
            length >= 0,
    ;
}

/// What consolidating `dumps` gives: the merge of the winning versions, the
/// count of each kind of vote, and one report per track with a disputed
/// sector.
pub open spec fn consolidation_of(dumps: Seq<Vec<u8>>, c: Consolidation) -> bool {
    let ds = views(dumps);
    let n = dumps[0]@.len() / 512;
    &&& c.sources == dumps.len()
    &&& c.bytes@ == merged(ds, n as int)
    &&& c.unanimous_sectors == count_in(ds, n as int, 0)
    &&& c.resolved_sectors == count_in(ds, n as int, 1)
    &&& c.unresolved_sectors == count_in(ds, n as int, 2)
    &&& c.unanimous_sectors + c.resolved_sectors + c.unresolved_sectors == n
    &&& reports_match(ds, n as int, c.tracks@)
}

/// Merge several dumps of the same disk, sector by sector.
///
/// The winning version of a sector is the one the most dumps hold. Ties are
/// broken by taking the first dump's version — arbitrary, and reported as
/// unresolved so nobody mistakes the choice for a judgement.
pub fn consolidate(dumps: &[Vec<u8>]) -> (r: Result<Consolidation, ConsolidateError>)
    ensures
        dumps@.len() < 2 <==> r == Err::<Consolidation, ConsolidateError>(
            ConsolidateError::TooFewSources,
        ),
        dumps@.len() >= 2 && dumps@[0]@.len() % 512 != 0 <==> r == Err::<
            Consolidation,
            ConsolidateError,
        >(ConsolidateError::NotWholeSectors { length: dumps@[0]@.len() as usize }),
        r matches Err(ConsolidateError::NotWholeSectors { length }) ==> dumps@.len() >= 2 && length
            == dumps@[0]@.len() && dumps@[0]@.len() % 512 != 0,
        r matches Err(ConsolidateError::SizeMismatch { expected, found }) ==> {
            &&& dumps@.len() >= 2
            &&& dumps@[0]@.len() % 512 == 0
            &&& expected == dumps@[0]@.len()
            &&& exists|k: int|
                0 <= k < dumps@.len() && (#[trigger] dumps@[k]@).len() == found && found
                    != expected && forall|j: int|
                    0 <= j < k ==> (#[trigger] dumps@[j]@).len() == expected
        },
        r is Ok <==> (dumps@.len() >= 2 && dumps@[0]@.len() % 512 == 0 && same_lengths(dumps@)),
        r matches Ok(c) ==> consolidation_of(dumps@, c),
{
    if dumps.len() < 2 {
        return Err(ConsolidateError::TooFewSources);
    }
    let length = dumps[0].len();
    if length % 512 != 0 {
        return Err(ConsolidateError::NotWholeSectors { length });
    }
    let mut j: usize = 0;
    while j < dumps.len()
        invariant
            j <= dumps@.len(),
            dumps@.len() >= 2,
            length % 512 == 0,
            length == dumps@[0]@.len(),
            forall|q: int| 0 <= q < j ==> (#[trigger] dumps@[q]@).len() == length,
        decreases dumps@.len() - j,
    {
        if dumps[j].len() != length {
            return Err(ConsolidateError::SizeMismatch { expected: length, found: dumps[j].len() });
        }
        j = j + 1;
    }

    let ghost ds = views(dumps@);
    let sector_count = length / 512;
    let mut bytes: Vec<u8> = Vec::new();
    let mut tracks: Vec<TrackReport> = Vec::new();
    let mut unanimous_sectors: usize = 0;
    let mut resolved_sectors: usize = 0;
    let mut unresolved_sectors: usize = 0;
    let mut index: usize = 0;
    while index < sector_count
        invariant
            index <= sector_count,
            sector_count == length / 512,
            dumps@.len() >= 2,
            ds == views(dumps@),
            forall|q: int| 0 <= q < ds.len() ==> (#[trigger] ds[q]).len() == length,
            bytes@ == merged(ds, index as int),
            unanimous_sectors == count_in(ds, index as int, 0),
            resolved_sectors == count_in(ds, index as int, 1),
            unresolved_sectors == count_in(ds, index as int, 2),
            unanimous_sectors + resolved_sectors + unresolved_sectors == index,
            reports_match(ds, index as int, tracks@),
            tracks_started(tracks@, index as int),
        decreases sector_count - index,
    {
        proof {
            assert forall|q: int| 0 <= q < ds.len() implies (#[trigger] ds[q]).len() == length by {
                assert(ds[q] == dumps@[q]@);
            }
            lemma_sector_fits(ds, index as int, length as int);
        }
        let at = index * 512;
        let (vote, winner) = vote(dumps, Ghost(index as int), at);
        match vote {
            Agreement::Unanimous => unanimous_sectors = unanimous_sectors + 1,
            Agreement::Plurality { .. } => resolved_sectors = resolved_sectors + 1,
            Agreement::Tied { .. } => unresolved_sectors = unresolved_sectors + 1,
        }
        let ghost before = bytes@;
        let source = &dumps[winner];
        assert(source@ == ds[winner as int]);
        let mut q: usize = 0;
        while q < 512
            invariant
                q <= 512,
                at + 512 <= source@.len(),
                at + 512 <= length,
                bytes@ == before + source@.subrange(at as int, at + q),
            decreases 512 - q,
        {
            bytes.push(source[at + q]);
            q = q + 1;
            assert(bytes@ =~= before + source@.subrange(at as int, at + q));
        }
        record_sector(&mut tracks, Ghost(ds), index, vote);
        index = index + 1;
    }

    Ok(Consolidation {
        sources: dumps.len(),
        bytes,
        tracks,
        unanimous_sectors,
        resolved_sectors,
        unresolved_sectors,
    })
}

} // verus!

verus! {

/// Where two dumps of a disk differ.
#[derive(Debug, Clone)]
pub struct Diff {
    /// Sectors that differ, by absolute index, ascending.
    pub sectors: Vec<usize>,
    /// Tracks that contain at least one differing sector, ascending.
    pub tracks: Vec<usize>,
    /// Bytes that differ across the whole image.
    pub bytes_differing: usize,
    /// Sectors compared.
    pub sectors_total: usize,
}

/// Sector `i` of `a` and of `b` differ.
pub open spec fn sector_differs(a: Seq<u8>, b: Seq<u8>, i: int) -> bool {
    sector(a, i) != sector(b, i)
}

/// Byte positions below `m` at which `a` and `b` differ.
pub open spec fn mismatches(a: Seq<u8>, b: Seq<u8>, m: int) -> nat
    decreases m,
{
    if m <= 0 {
        0
    } else {
        mismatches(a, b, m - 1) + if a[m - 1] != b[m - 1] {
            1nat
        } else {
            0nat
        }
    }
}

/// Some sector below `n` in track `t` differs.
pub open spec fn track_differs(a: Seq<u8>, b: Seq<u8>, n: int, t: int) -> bool {
    exists|s: int| 0 <= s < n && s / 11 == t && #[trigger] sector_differs(a, b, s)
}

/// What comparing two equally long dumps gives: the differing sectors and
/// the tracks holding them, each once and ascending, and the count of
/// differing bytes.
pub open spec fn diff_of(a: Seq<u8>, b: Seq<u8>, d: Diff) -> bool {
    let n = a.len() / 512;
    &&& a.len() == b.len()
    &&& a.len() % 512 == 0
    &&& d.sectors_total == n
    &&& ascending(d.sectors@)
    &&& forall|x: usize| d.sectors@.contains(x) <==> x < n && sector_differs(a, b, x as int)
    &&& ascending(d.tracks@)
    &&& forall|t: usize| d.tracks@.contains(t) <==> track_differs(a, b, n as int, t as int)
    &&& d.bytes_differing == mismatches(a, b, a.len() as int)
}

/// Compare two dumps sector by sector.
pub fn diff(a: &[u8], b: &[u8]) -> (r: Result<Diff, ConsolidateError>)
    ensures
        a@.len() != b@.len() <==> r == Err::<Diff, ConsolidateError>(
            ConsolidateError::SizeMismatch { expected: a@.len() as usize, found: b@.len() as usize },
        ),
        a@.len() == b@.len() && a@.len() % 512 != 0 <==> r == Err::<Diff, ConsolidateError>(
            ConsolidateError::NotWholeSectors { length: a@.len() as usize },
        ),
        r is Ok <==> a@.len() == b@.len() && a@.len() % 512 == 0,
        r matches Ok(d) ==> diff_of(a@, b@, d),
{
    if a.len() != b.len() {
        return Err(ConsolidateError::SizeMismatch { expected: a.len(), found: b.len() });
    }
    if a.len() % 512 != 0 {
        return Err(ConsolidateError::NotWholeSectors { length: a.len() });
    }
    let length = a.len();
    let sectors_total = length / 512;
    let mut sectors: Vec<usize> = Vec::new();
    let mut tracks: Vec<usize> = Vec::new();
    let mut bytes_differing: usize = 0;
    let mut index: usize = 0;
    while index < sectors_total
        invariant
            index <= sectors_total,
            sectors_total == length / 512,
            length == a@.len(),
            length == b@.len(),
            length % 512 == 0,
            bytes_differing == mismatches(a@, b@, index * 512),
            bytes_differing <= index * 512,
            ascending(sectors@),
            forall|x: usize| sectors@.contains(x) <==> x < index && sector_differs(a@, b@, x as int),
            ascending(tracks@),
            forall|t: usize| tracks@.contains(t) <==> track_differs(a@, b@, index as int, t as int),
            forall|q: int| 0 <= q < tracks@.len() ==> #[trigger] tracks@[q] * 11 < index,
        decreases sectors_total - index,
    {
        proof {
            assert(index * 512 + 512 <= length) by (nonlinear_arith)
                requires
                    index < length / 512,
                    length >= 0,
            ;
        }
        let at = index * 512;
        let mut same = true;
        let mut q: usize = 0;
        while q < 512
            invariant
                q <= 512,
                at == index * 512,
                at + 512 <= length,
                length == a@.len(),
                length == b@.len(),
                bytes_differing == mismatches(a@, b@, at + q),
                bytes_differing <= at + q,
                same <==> forall|k: int| 0 <= k < q ==> #[trigger] a@[at + k] == b@[at + k],
            decreases 512 - q,
        {
            if a[at + q] != b[at + q] {
                bytes_differing = bytes_differing + 1;
                same = false;
            }
            q = q + 1;
        }
        proof {
            if same {
                assert(sector(a@, index as int) =~= sector(b@, index as int)) by {
                    assert forall|k: int| 0 <= k < 512 implies sector(a@, index as int)[k] == sector(
                        b@,
                        index as int,
                    )[k] by {
                        assert(a@[at + k] == b@[at + k]);
                    }
                }
            } else {
                let k = choose|k: int| 0 <= k < 512 && #[trigger] a@[at + k] != b@[at + k];
                assert(sector(a@, index as int)[k] != sector(b@, index as int)[k]);
            }
        }
        let ghost old_sectors = sectors@;
        let ghost old_tracks = tracks@;
        if !same {
            sectors.push(index);
            let track = index / 11;
            let count = tracks.len();
            if count == 0 || tracks[count - 1] != track {
                if count > 0 {
                    assert(old_tracks[count - 1] * 11 < index);
                }
                tracks.push(track);
            }
        }
        proof {
            let n = index as int;
            assert forall|x: usize| sectors@.contains(x) <==> x < n + 1 && sector_differs(
                a@,
                b@,
                x as int,
            ) by {
                if sectors@.contains(x) && x != index {
                    let k = choose|k: int| 0 <= k < sectors@.len() && sectors@[k] == x;
                    assert(old_sectors[k] == x);
                    assert(old_sectors.contains(x));
                }
                if x < n + 1 && sector_differs(a@, b@, x as int) {
                    if x == index {
                        assert(sectors@[sectors@.len() - 1] == x);
                    } else {
                        assert(old_sectors.contains(x));
                        let k = choose|k: int| 0 <= k < old_sectors.len() && old_sectors[k] == x;
                        assert(sectors@[k] == x);
                    }
                }
            }
            assert forall|p: int, q: int| 0 <= p < q < sectors@.len() implies sectors@[p]
                < sectors@[q] by {
                if q == sectors@.len() - 1 && !same {
                    assert(old_sectors.contains(old_sectors[p]));
                }
            }
            assert forall|t: usize| tracks@.contains(t) <==> track_differs(
                a@,
                b@,
                n + 1,
                t as int,
            ) by {
                if tracks@.contains(t) {
                    let k = choose|k: int| 0 <= k < tracks@.len() && tracks@[k] == t;
                    if k < old_tracks.len() {
                        assert(old_tracks.contains(t));
                        let s = choose|s: int| 0 <= s < n && s / 11 == t && #[trigger] sector_differs(a@, b@, s);
                        assert(0 <= s < n + 1 && s / 11 == t && sector_differs(a@, b@, s));
                    } else {
                        assert(0 <= n < n + 1 && n / 11 == t && sector_differs(a@, b@, n));
                    }
                }
                if track_differs(a@, b@, n + 1, t as int) {
                    let s = choose|s: int| 0 <= s < n + 1 && s / 11 == t && #[trigger] sector_differs(a@, b@, s);
                    if s < n {
                        assert(track_differs(a@, b@, n, t as int));
                        assert(old_tracks.contains(t));
                        let k = choose|k: int| 0 <= k < old_tracks.len() && old_tracks[k] == t;
                        assert(tracks@[k] == t);
                    } else {
                        if tracks@.len() > old_tracks.len() {
                            assert(tracks@[tracks@.len() - 1] == t);
                        } else {
                            assert(tracks@[tracks@.len() - 1] == t);
                        }
                    }
                }
            }
            assert forall|p: int, q: int| 0 <= p < q < tracks@.len() implies tracks@[p]
                < tracks@[q] by {
                if q == tracks@.len() - 1 && tracks@.len() > old_tracks.len() {
                    assert(old_tracks[p] * 11 < n);
                    if q - 1 > p {
                        assert(old_tracks[p] < old_tracks[q - 1]);
                    }
                }
            }
        }
        index = index + 1;
    }
    Ok(Diff { sectors, tracks, bytes_differing, sectors_total })
}

} // verus!

verus! {

use crate::json::{JsonView, Value, lemma_fields_view, num_array, nums, items_view, fields_view};

/// The model of one track's report as JSON. Sector numbers are within the track.
pub open spec fn report_json(r: TrackReport) -> JsonView {
    JsonView::Obj(
        seq![
            ("track"@, JsonView::Num(r.track as nat)),
            ("disputed"@, nums(r.disputed@)),
            ("unresolved"@, nums(r.unresolved@)),
        ],
    )
}

impl TrackReport {
    /// Whether every dump agreed on every sector of this track.
    pub fn is_unanimous(&self) -> (r: bool)
        ensures
            r == (self.disputed@.len() == 0),
    {
        self.disputed.len() == 0
    }

    /// One track's disagreements as JSON.
    pub fn to_json(&self) -> (v: Value)
        ensures
            v@ == report_json(*self),
    {
        let fields = vec![
            ("track", Value::Num(self.track as u64)),
            ("disputed", num_array(&self.disputed)),
            ("unresolved", num_array(&self.unresolved)),
        ];
        proof {
            lemma_fields_view(fields@);
            reveal_strlit("track");
            reveal_strlit("disputed");
            reveal_strlit("unresolved");
            assert(fields_view(fields@) =~= seq![
                ("track"@, JsonView::Num(self.track as nat)),
                ("disputed"@, nums(self.disputed@)),
                ("unresolved"@, nums(self.unresolved@)),
            ]);
        }
        Value::Obj(fields)
    }
}

} // verus!

verus! {

use crate::text::{decimal, push_decimal, push_str};

/// The model of a list of reports as a JSON array.
pub open spec fn reports_json(tracks: Seq<TrackReport>) -> JsonView {
    JsonView::Arr(tracks.map_values(|t: TrackReport| report_json(t)))
}

/// The model of a consolidation as JSON. `can_vote` is false with two dumps:
/// every disagreement between two dumps ties by definition.
pub open spec fn consolidation_json(c: Consolidation) -> JsonView {
    JsonView::Obj(
        seq![
            ("sources"@, JsonView::Num(c.sources as nat)),
            ("sectors_total"@, JsonView::Num(total_of(c))),
            ("unanimous"@, JsonView::Bool(c.resolved_sectors == 0 && c.unresolved_sectors == 0)),
            ("agreed_sectors"@, JsonView::Num(c.unanimous_sectors as nat)),
            ("resolved_sectors"@, JsonView::Num(c.resolved_sectors as nat)),
            ("unresolved_sectors"@, JsonView::Num(c.unresolved_sectors as nat)),
            ("can_vote"@, JsonView::Bool(c.sources > 2)),
            ("tracks"@, reports_json(c.tracks@)),
        ],
    )
}

/// Total sectors compared, saturating at the largest `usize`.
pub open spec fn total_of(c: Consolidation) -> nat {
    let t = c.unanimous_sectors + c.resolved_sectors + c.unresolved_sectors;
    if t > usize::MAX {
        usize::MAX as nat
    } else {
        t as nat
    }
}

impl Consolidation {
    /// Whether the dumps agreed on the whole disk.
    pub fn is_unanimous(&self) -> (r: bool)
        ensures
            r == (self.resolved_sectors == 0 && self.unresolved_sectors == 0),
    {
        self.resolved_sectors == 0 && self.unresolved_sectors == 0
    }

    /// Total sectors compared.
    pub fn total_sectors(&self) -> (r: usize)
        ensures
            r == total_of(*self),
    {
        self.unanimous_sectors.saturating_add(self.resolved_sectors).saturating_add(
            self.unresolved_sectors,
        )
    }

    /// The consolidation as JSON. The merged bytes are deliberately absent:
    /// they can be megabytes, and are written to a file instead.
    pub fn to_json(&self) -> (v: Value)
        ensures
            v@ == consolidation_json(*self),
    {
        let mut items: Vec<Value> = Vec::new();
        let mut i: usize = 0;
        while i < self.tracks.len()
            invariant
                i <= self.tracks@.len(),
                items_view(items@) == self.tracks@.take(i as int).map_values(
                    |t: TrackReport| report_json(t),
                ),
            decreases self.tracks@.len() - i,
        {
            let ghost before = items@;
            let item = self.tracks[i].to_json();
            items.push(item);
            assert(items@.drop_last() =~= before);
            i = i + 1;
            assert(items_view(items@) =~= self.tracks@.take(i as int).map_values(
                |t: TrackReport| report_json(t),
            ));
        }
        assert(self.tracks@.take(i as int) =~= self.tracks@);
        let fields = vec![
            ("sources", Value::Num(self.sources as u64)),
            ("sectors_total", Value::Num(self.total_sectors() as u64)),
            ("unanimous", Value::Bool(self.is_unanimous())),
            ("agreed_sectors", Value::Num(self.unanimous_sectors as u64)),
            ("resolved_sectors", Value::Num(self.resolved_sectors as u64)),
            ("unresolved_sectors", Value::Num(self.unresolved_sectors as u64)),
            ("can_vote", Value::Bool(self.sources > 2)),
            ("tracks", Value::Arr(items)),
        ];
        proof {
            lemma_fields_view(fields@);
            assert(fields_view(fields@) =~= seq![
                ("sources"@, JsonView::Num(self.sources as nat)),
                ("sectors_total"@, JsonView::Num(total_of(*self))),
                ("unanimous"@, JsonView::Bool(self.resolved_sectors == 0 && self.unresolved_sectors == 0)),
                ("agreed_sectors"@, JsonView::Num(self.unanimous_sectors as nat)),
                ("resolved_sectors"@, JsonView::Num(self.resolved_sectors as nat)),
                ("unresolved_sectors"@, JsonView::Num(self.unresolved_sectors as nat)),
                ("can_vote"@, JsonView::Bool(self.sources > 2)),
                ("tracks"@, reports_json(self.tracks@)),
            ]);
        }
        Value::Obj(fields)
    }
}

/// The model of a comparison as JSON. The differing sectors are listed in full.
pub open spec fn diff_json(d: Diff) -> JsonView {
    JsonView::Obj(
        seq![
            ("identical"@, JsonView::Bool(d.bytes_differing == 0)),
            ("sectors_total"@, JsonView::Num(d.sectors_total as nat)),
            ("sectors_differing"@, JsonView::Num(d.sectors@.len())),
            ("bytes_differing"@, JsonView::Num(d.bytes_differing as nat)),
            ("sectors"@, nums(d.sectors@)),
            ("tracks"@, nums(d.tracks@)),
        ],
    )
}

impl Diff {
    /// Whether the two dumps are byte-identical.
    pub fn is_identical(&self) -> (r: bool)
        ensures
            r == (self.bytes_differing == 0),
    {
        self.bytes_differing == 0
    }

    /// The comparison as JSON.
    pub fn to_json(&self) -> (v: Value)
        ensures
            v@ == diff_json(*self),
    {
        let fields = vec![
            ("identical", Value::Bool(self.is_identical())),
            ("sectors_total", Value::Num(self.sectors_total as u64)),
            ("sectors_differing", Value::Num(self.sectors.len() as u64)),
            ("bytes_differing", Value::Num(self.bytes_differing as u64)),
            ("sectors", num_array(&self.sectors)),
            ("tracks", num_array(&self.tracks)),
        ];
        proof {
            lemma_fields_view(fields@);
            assert(fields_view(fields@) =~= seq![
                ("identical"@, JsonView::Bool(self.bytes_differing == 0)),
                ("sectors_total"@, JsonView::Num(self.sectors_total as nat)),
                ("sectors_differing"@, JsonView::Num(self.sectors@.len())),
                ("bytes_differing"@, JsonView::Num(self.bytes_differing as nat)),
                ("sectors"@, nums(self.sectors@)),
                ("tracks"@, nums(self.tracks@)),
            ]);
        }
        Value::Obj(fields)
    }
}

/// The message a person reads for an error.
pub open spec fn error_message(e: ConsolidateError) -> Seq<char> {
    match e {
        ConsolidateError::TooFewSources => "consolidating needs at least two dumps"@,
        ConsolidateError::SizeMismatch { expected, found } => "dumps are different sizes ("@
            + decimal(expected as nat) + " and "@ + decimal(found as nat)
            + ") \u{2014} not dumps of one disk"@,
        ConsolidateError::NotWholeSectors { length } => decimal(length as nat)
            + " bytes is not a whole number of 512-byte sectors"@,
    }
}

impl ConsolidateError {
    /// What went wrong, for a person.
    pub fn message(&self) -> (s: String)
        ensures
            s@ == error_message(*self),
    {
        let mut out = String::new();
        match self {
            ConsolidateError::TooFewSources => push_str(&mut out, "consolidating needs at least two dumps"),
            ConsolidateError::SizeMismatch { expected, found } => {
                push_str(&mut out, "dumps are different sizes (");
                push_decimal(&mut out, *expected as u64);
                push_str(&mut out, " and ");
                push_decimal(&mut out, *found as u64);
                push_str(&mut out, ") \u{2014} not dumps of one disk");
            },
            ConsolidateError::NotWholeSectors { length } => {
                push_decimal(&mut out, *length as u64);
                push_str(&mut out, " bytes is not a whole number of 512-byte sectors");
            },
        }
        assert(out@ =~= error_message(*self));
        out
    }
}

} // verus!

verus! {

proof fn lemma_count_kind(ds: Seq<Seq<u8>>, m: int)
    requires
        ds.len() == 2,
    ensures
        count_in(ds, m, 1) == 0,
    decreases m,
{
    if m > 0 {
        lemma_count_kind(ds, m - 1);
        lemma_pair_never_plurality(ds, m - 1);
    }
}

proof fn lemma_pair_never_plurality(ds: Seq<Seq<u8>>, i: int)
    requires
        ds.len() == 2,
    ensures
        !(agreement(ds, i) is Plurality),
{
    reveal_with_fuel(support_in, 3);
    reveal_with_fuel(distinct_in, 3);
    reveal_with_fuel(best_in, 3);
    reveal_with_fuel(leaders_in, 3);
    assert(is_first(ds, i, 0));
    if !same(ds, i, 0, 1) {
        assert(!same(ds, i, 1, 0));
        assert(support(ds, i, 0) == 1);
        assert(support(ds, i, 1) == 1);
        assert(is_first(ds, i, 1));
        assert(best(ds, i) == 1);
        assert(leaders(ds, i) == 2);
    } else {
        assert(!is_first(ds, i, 1));
        assert(distinct(ds, i) == 1);
    }
}

/// Two dumps cannot vote: every sector on which two dumps disagree is a tie,
/// so consolidating two dumps never resolves a disagreement by plurality —
/// `unresolved` there is arithmetic, not damage.
pub proof fn two_dumps_cannot_vote(dumps: Seq<Vec<u8>>, n: int)
    requires
        dumps.len() == 2,
    ensures
        count_in(views(dumps), n, 1) == 0,
        forall|i: int| #[trigger] agreement(views(dumps), i) is Unanimous || agreement(views(dumps), i) is Tied,
{
    lemma_count_kind(views(dumps), n);
    assert forall|i: int| #[trigger] agreement(views(dumps), i) is Unanimous || agreement(views(dumps), i) is Tied by {
        lemma_pair_never_plurality(views(dumps), i);
    }
}

proof fn lemma_identical_support(ds: Seq<Seq<u8>>, i: int, k: int, m: int)
    requires
        0 <= m <= ds.len(),
        forall|j: int| 0 <= j < ds.len() ==> #[trigger] ds[j] == ds[0],
        0 <= k < ds.len(),
    ensures
        support_in(ds, i, k, m) == m,
    decreases m,
{
    if m > 0 {
        lemma_identical_support(ds, i, k, m - 1);
        assert(ds[m - 1] == ds[0]);
        assert(ds[k] == ds[0]);
    }
}

proof fn lemma_identical_distinct(ds: Seq<Seq<u8>>, i: int, m: int)
    requires
        1 <= m <= ds.len(),
        forall|j: int| 0 <= j < ds.len() ==> #[trigger] ds[j] == ds[0],
    ensures
        distinct_in(ds, i, m) == 1,
    decreases m,
{
    if m > 1 {
        lemma_identical_distinct(ds, i, m - 1);
        assert(ds[m - 1] == ds[0]);
        assert(same(ds, i, 0, m - 1));
        assert(!is_first(ds, i, m - 1));
    } else {
        reveal_with_fuel(distinct_in, 2);
        assert(is_first(ds, i, 0));
    }
}

proof fn lemma_identical_merged(ds: Seq<Seq<u8>>, m: int)
    requires
        ds.len() >= 1,
        m >= 0,
        m * 512 <= ds[0].len(),
        forall|j: int| 0 <= j < ds.len() ==> #[trigger] ds[j] == ds[0],
    ensures
        merged(ds, m) == ds[0].subrange(0, m * 512),
        forall|i: int| 0 <= i < m ==> #[trigger] agreement(ds, i) is Unanimous,
    decreases m,
{
    if m > 0 {
        lemma_identical_merged(ds, m - 1);
        let i = m - 1;
        lemma_identical_distinct(ds, i, ds.len() as int);
        lemma_identical_support(ds, i, 0, ds.len() as int);
        lemma_best_is_total(ds, i, ds.len() as int);
        assert(first_best_from(ds, i, 0) == 0);
        assert(merged(ds, m) =~= ds[0].subrange(0, m * 512));
    }
}

proof fn lemma_best_is_total(ds: Seq<Seq<u8>>, i: int, m: int)
    requires
        0 <= m <= ds.len(),
        forall|j: int| 0 <= j < ds.len() ==> #[trigger] ds[j] == ds[0],
    ensures
        best_in(ds, i, m) == if m == 0 { 0 } else { ds.len() as int },
    decreases m,
{
    if m > 0 {
        lemma_best_is_total(ds, i, m - 1);
        lemma_identical_support(ds, i, m - 1, ds.len() as int);
    }
}

/// Dumps that are byte-identical agree on every sector, and consolidating
/// them gives back the image itself.
pub proof fn identical_dumps_agree(dumps: Seq<Vec<u8>>)
    requires
        dumps.len() >= 2,
        dumps[0]@.len() % 512 == 0,
        forall|j: int| 0 <= j < dumps.len() ==> (#[trigger] dumps[j])@ == dumps[0]@,
    ensures
        merged(views(dumps), dumps[0]@.len() as int / 512) == dumps[0]@,
        count_in(views(dumps), dumps[0]@.len() as int / 512, 0) == dumps[0]@.len() as int / 512,
{
    let ds = views(dumps);
    let n = dumps[0]@.len() as int / 512;
    assert forall|j: int| 0 <= j < ds.len() implies #[trigger] ds[j] == ds[0] by {
        assert(dumps[j]@ == dumps[0]@);
    }
    assert(n * 512 == dumps[0]@.len());
    lemma_identical_merged(ds, n);
    assert(ds[0].subrange(0, n * 512) =~= dumps[0]@);
    lemma_count_unanimous(ds, n);
}

proof fn lemma_count_unanimous(ds: Seq<Seq<u8>>, m: int)
    requires
        m >= 0,
        forall|i: int| 0 <= i < m ==> #[trigger] agreement(ds, i) is Unanimous,
    ensures
        count_in(ds, m, 0) == m,
    decreases m,
{
    if m > 0 {
        assert(agreement(ds, m - 1) is Unanimous);
        lemma_count_unanimous(ds, m - 1);
    }
}

proof fn lemma_best_attained(ds: Seq<Seq<u8>>, i: int, m: int)
    requires
        1 <= m <= ds.len(),
    ensures
        exists|k: int| 0 <= k < m && #[trigger] support(ds, i, k) == best_in(ds, i, m),
        forall|k: int| 0 <= k < m ==> #[trigger] support(ds, i, k) <= best_in(ds, i, m),
    decreases m,
{
    if m > 1 {
        lemma_best_attained(ds, i, m - 1);
        if support(ds, i, m - 1) > best_in(ds, i, m - 1) {
            assert(support(ds, i, m - 1) == best_in(ds, i, m));
        } else {
            let k = choose|k: int| 0 <= k < m - 1 && #[trigger] support(ds, i, k) == best_in(ds, i, m - 1);
            assert(support(ds, i, k) == best_in(ds, i, m));
        }
    } else {
        reveal_with_fuel(best_in, 2);
        assert(support(ds, i, 0) == best_in(ds, i, 1));
    }
}

proof fn lemma_first_best_finds(ds: Seq<Seq<u8>>, i: int, j: int, k: int)
    requires
        0 <= j <= k < ds.len(),
        support(ds, i, k) == best(ds, i),
    ensures
        0 <= first_best_from(ds, i, j) < ds.len(),
        support(ds, i, first_best_from(ds, i, j)) == best(ds, i),
    decreases k - j,
{
    if support(ds, i, j) != best(ds, i) {
        lemma_first_best_finds(ds, i, j + 1, k);
    }
}

/// The version that goes into the merge of a settled sector is one held by
/// more dumps than any other version: no version has more support.
pub proof fn merge_takes_the_most_held_version(dumps: Seq<Vec<u8>>, i: int)
    requires
        dumps.len() >= 1,
        !(agreement(views(dumps), i) is Tied),
    ensures
        0 <= winner(views(dumps), i) < dumps.len(),
        forall|k: int|
            0 <= k < dumps.len() ==> #[trigger] support(views(dumps), i, k) <= support(
                views(dumps),
                i,
                winner(views(dumps), i),
            ),
{
    let ds = views(dumps);
    lemma_best_attained(ds, i, ds.len() as int);
    let k = choose|k: int| 0 <= k < ds.len() && #[trigger] support(ds, i, k) == best(ds, i);
    lemma_first_best_finds(ds, i, 0, k);
}

/// Comparing a dump with itself finds nothing.
pub proof fn diff_of_a_dump_with_itself(a: Seq<u8>)
    ensures
        mismatches(a, a, a.len() as int) == 0,
        forall|i: int| !#[trigger] sector_differs(a, a, i),
{
    lemma_no_mismatches(a, a.len() as int);
}

proof fn lemma_no_mismatches(a: Seq<u8>, m: int)
    ensures
        mismatches(a, a, m) == 0,
    decreases m,
{
    if m > 0 {
        lemma_no_mismatches(a, m - 1);
    }
}

/// Which sectors and how many bytes differ does not depend on the order the
/// two dumps are given in.
pub proof fn diff_is_symmetric(a: Seq<u8>, b: Seq<u8>, m: int)
    ensures
        mismatches(a, b, m) == mismatches(b, a, m),
        forall|i: int| #[trigger] sector_differs(a, b, i) == sector_differs(b, a, i),
    decreases m,
{
    if m > 0 {
        diff_is_symmetric(a, b, m - 1);
    }
}


proof fn lemma_kinds_sum(ds: Seq<Seq<u8>>, m: int)
    requires
        m >= 0,
    ensures
        count_in(ds, m, 0) + count_in(ds, m, 1) + count_in(ds, m, 2) == m,
        count_in(ds, m, 0) <= m,
    decreases m,
{
    if m > 0 {
        lemma_kinds_sum(ds, m - 1);
    }
}

proof fn lemma_all_unanimous(ds: Seq<Seq<u8>>, m: int)
    requires
        m >= 0,
        count_in(ds, m, 0) == m,
    ensures
        forall|i: int| 0 <= i < m ==> #[trigger] agreement(ds, i) is Unanimous,
    decreases m,
{
    if m > 0 {
        lemma_kinds_sum(ds, m - 1);
        lemma_all_unanimous(ds, m - 1);
    }
}

proof fn lemma_distinct_at_least_one(ds: Seq<Seq<u8>>, i: int, m: int)
    requires
        m >= 1,
    ensures
        distinct_in(ds, i, m) >= 1,
    decreases m,
{
    if m > 1 {
        lemma_distinct_at_least_one(ds, i, m - 1);
    } else {
        reveal_with_fuel(distinct_in, 2);
        assert(is_first(ds, i, 0));
    }
}

proof fn lemma_one_version(ds: Seq<Seq<u8>>, i: int, m: int)
    requires
        1 <= m,
        distinct_in(ds, i, m) <= 1,
    ensures
        forall|j: int| 0 <= j < m ==> #[trigger] same(ds, i, j, 0),
    decreases m,
{
    if m > 1 {
        lemma_distinct_at_least_one(ds, i, m - 1);
        lemma_one_version(ds, i, m - 1);
        assert(!is_first(ds, i, m - 1));
        let j = choose|j: int| 0 <= j < m - 1 && #[trigger] same(ds, i, j, m - 1);
        assert(same(ds, i, j, 0));
    }
}

/// A consolidation is unanimous, no sector settled by vote and none left
/// unresolved, exactly when every dump is byte-identical to the first; and
/// then the merge is that image, every sector is unanimous, and no track is
/// reported.
pub proof fn unanimous_exactly_when_identical(dumps: Seq<Vec<u8>>, c: Consolidation)
    requires
        dumps.len() >= 2,
        dumps[0]@.len() % 512 == 0,
        same_lengths(dumps),
        consolidation_of(dumps, c),
    ensures
        (c.resolved_sectors == 0 && c.unresolved_sectors == 0) <==> forall|j: int|
            0 <= j < dumps.len() ==> (#[trigger] dumps[j])@ == dumps[0]@,
        (forall|j: int| 0 <= j < dumps.len() ==> (#[trigger] dumps[j])@ == dumps[0]@) ==> {
            &&& c.bytes@ == dumps[0]@
            &&& c.unanimous_sectors == dumps[0]@.len() / 512
            &&& c.tracks@.len() == 0
        },
{
    let ds = views(dumps);
    let len = dumps[0]@.len() as int;
    let n = len / 512;
    assert(n * 512 == len);
    lemma_kinds_sum(ds, n);
    if c.resolved_sectors == 0 && c.unresolved_sectors == 0 {
        lemma_all_unanimous(ds, n);
        assert forall|j: int| 0 <= j < dumps.len() implies (#[trigger] dumps[j])@ == dumps[0]@ by {
            assert(ds[j] == dumps[j]@);
            assert(ds[0] == dumps[0]@);
            assert(dumps[j]@.len() == len);
            assert forall|b: int| 0 <= b < len implies dumps[j]@[b] == dumps[0]@[b] by {
                let i = b / 512;
                assert(0 <= i < n && i * 512 <= b < i * 512 + 512) by (nonlinear_arith)
                    requires
                        0 <= b < len,
                        i == b / 512,
                        n == len / 512,
                        n * 512 == len,
                ;
                assert(agreement(ds, i) is Unanimous);
                lemma_one_version(ds, i, ds.len() as int);
                assert(same(ds, i, j, 0));
                assert(sector(ds[j], i)[b - i * 512] == ds[j][b]);
                assert(sector(ds[0], i)[b - i * 512] == ds[0][b]);
            }
            assert(dumps[j]@ =~= dumps[0]@);
        }
    }
    if forall|j: int| 0 <= j < dumps.len() ==> (#[trigger] dumps[j])@ == dumps[0]@ {
        identical_dumps_agree(dumps);
        assert forall|j: int| 0 <= j < ds.len() implies #[trigger] ds[j] == ds[0] by {
            assert(dumps[j]@ == dumps[0]@);
        }
        lemma_identical_merged(ds, n);
        if c.tracks@.len() > 0 {
            let r = c.tracks@[0];
            assert(report_matches(ds, n, r));
            let x = r.disputed@[0];
            assert(r.disputed@.contains(x));
            assert(agreement(ds, r.track * 11 + x) is Unanimous);
        }
    }
}

proof fn lemma_ascending_same_members(s: Seq<usize>, t: Seq<usize>)
    requires
        ascending(s),
        ascending(t),
        forall|x: usize| s.contains(x) <==> t.contains(x),
    ensures
        s == t,
    decreases s.len(),
{
    if s.len() == 0 {
        if t.len() > 0 {
            assert(t.contains(t[0]));
        }
        assert(s =~= t);
    } else {
        assert(s.contains(s[0]));
        assert(t.contains(s[0]));
        assert(t.len() > 0);
        assert(t.contains(t[0]));
        assert(s.contains(t[0]));
        assert(s[0] == t[0]);
        let s1 = s.skip(1);
        let t1 = t.skip(1);
        assert forall|x: usize| s1.contains(x) <==> t1.contains(x) by {
            if s1.contains(x) {
                let k = choose|k: int| 0 <= k < s1.len() && s1[k] == x;
                assert(s[k + 1] == x);
                assert(s.contains(x));
                let q = choose|q: int| 0 <= q < t.len() && t[q] == x;
                assert(q != 0);
                assert(t1[q - 1] == x);
            }
            if t1.contains(x) {
                let k = choose|k: int| 0 <= k < t1.len() && t1[k] == x;
                assert(t[k + 1] == x);
                assert(t.contains(x));
                let q = choose|q: int| 0 <= q < s.len() && s[q] == x;
                assert(q != 0);
                assert(s1[q - 1] == x);
            }
        }
        lemma_ascending_same_members(s1, t1);
        assert(s =~= seq![s[0]] + s1);
        assert(t =~= seq![t[0]] + t1);
    }
}

proof fn lemma_track_differs_symmetric(a: Seq<u8>, b: Seq<u8>, n: int, t: int)
    ensures
        track_differs(a, b, n, t) == track_differs(b, a, n, t),
{
    if track_differs(a, b, n, t) {
        let s = choose|s: int| 0 <= s < n && s / 11 == t && #[trigger] sector_differs(a, b, s);
        assert(sector_differs(b, a, s));
    }
    if track_differs(b, a, n, t) {
        let s = choose|s: int| 0 <= s < n && s / 11 == t && #[trigger] sector_differs(b, a, s);
        assert(sector_differs(a, b, s));
    }
}

/// Comparing `a` with `b` gives what comparing `b` with `a` gives: the same
/// differing sectors, the same tracks, the same count of differing bytes
/// out of the same number of sectors.
pub proof fn diff_results_are_symmetric(a: Seq<u8>, b: Seq<u8>, x: Diff, y: Diff)
    requires
        diff_of(a, b, x),
        diff_of(b, a, y),
    ensures
        x.sectors@ == y.sectors@,
        x.tracks@ == y.tracks@,
        x.bytes_differing == y.bytes_differing,
        x.sectors_total == y.sectors_total,
{
    diff_is_symmetric(a, b, a.len() as int);
    let n = a.len() / 512;
    assert forall|q: usize| x.sectors@.contains(q) <==> y.sectors@.contains(q) by {
        assert(sector_differs(a, b, q as int) == sector_differs(b, a, q as int));
    }
    lemma_ascending_same_members(x.sectors@, y.sectors@);
    assert forall|t: usize| x.tracks@.contains(t) <==> y.tracks@.contains(t) by {
        lemma_track_differs_symmetric(a, b, n as int, t as int);
    }
    lemma_ascending_same_members(x.tracks@, y.tracks@);
}


/// Every dump's version of sector `i`.
pub open spec fn versions(ds: Seq<Seq<u8>>, i: int) -> Seq<Seq<u8>> {
    ds.map_values(|d: Seq<u8>| sector(d, i))
}

/// The versions among the first `m`.
pub open spec fn seen(v: Seq<Seq<u8>>, m: int) -> Set<Seq<u8>> {
    Set::new(|x: Seq<u8>| exists|j: int| 0 <= j < m && #[trigger] v[j] == x)
}

/// The versions among the first `m` that `b` dumps hold.
pub open spec fn seen_with(v: Seq<Seq<u8>>, m: int, b: nat) -> Set<Seq<u8>> {
    Set::new(|x: Seq<u8>| (exists|j: int| 0 <= j < m && #[trigger] v[j] == x) && v.to_multiset().count(x) == b)
}

proof fn lemma_map_keeps_multiset(s: Seq<Seq<u8>>, t: Seq<Seq<u8>>, i: int)
    requires
        s.to_multiset() == t.to_multiset(),
    ensures
        s.map_values(|d: Seq<u8>| sector(d, i)).to_multiset() == t.map_values(|d: Seq<u8>| sector(d, i)).to_multiset(),
    decreases s.len(),
{
    broadcast use vstd::multiset::group_multiset_axioms;
    let f = |d: Seq<u8>| sector(d, i);
    vstd::seq_lib::to_multiset_len(s);
    vstd::seq_lib::to_multiset_len(t);
    if s.len() == 0 {
        assert(t.len() == 0);
        assert(s.map_values(f) =~= t.map_values(f));
    } else {
        let a = s.last();
        let init = s.drop_last();
        assert(s =~= init.push(a));
        vstd::seq_lib::to_multiset_build(init, a);
        vstd::seq_lib::to_multiset_contains(t, a);
        assert(t.to_multiset().count(a) > 0);
        let k = choose|k: int| 0 <= k < t.len() && t[k] == a;
        let rest = t.remove(k);
        vstd::seq_lib::to_multiset_remove(t, k);
        assert(init.to_multiset() =~= s.to_multiset().remove(a));
        lemma_map_keeps_multiset(init, rest, i);
        let ms = s.map_values(f);
        let mt = t.map_values(f);
        assert(ms =~= init.map_values(f).push(f(a)));
        vstd::seq_lib::to_multiset_build(init.map_values(f), f(a));
        assert(mt.remove(k) =~= rest.map_values(f));
        vstd::seq_lib::to_multiset_remove(mt, k);
        assert(mt[k] == f(a));
        assert(mt.contains(mt[k]));
        vstd::seq_lib::to_multiset_contains(mt, mt[k]);
        assert(mt.to_multiset() =~= mt.to_multiset().remove(f(a)).insert(f(a)));
        assert(mt.to_multiset() =~= rest.map_values(f).to_multiset().insert(f(a)));
    }
}

proof fn lemma_support_counts(ds: Seq<Seq<u8>>, i: int, k: int, m: int)
    requires
        0 <= m <= ds.len(),
        0 <= k < ds.len(),
    ensures
        support_in(ds, i, k, m) == versions(ds, i).take(m).to_multiset().count(versions(ds, i)[k]),
    decreases m,
{
    broadcast use vstd::multiset::group_multiset_axioms;
    let v = versions(ds, i);
    if m == 0 {
        assert(v.take(0) =~= Seq::<Seq<u8>>::empty());
        vstd::seq_lib::to_multiset_contains(v.take(0), v[k]);
    } else {
        lemma_support_counts(ds, i, k, m - 1);
        assert(v.take(m) =~= v.take(m - 1).push(v[m - 1]));
        vstd::seq_lib::to_multiset_build(v.take(m - 1), v[m - 1]);
        assert(same(ds, i, m - 1, k) == (v[m - 1] == v[k]));
    }
}

proof fn lemma_first_is_unseen(ds: Seq<Seq<u8>>, i: int, m: int)
    requires
        1 <= m <= ds.len(),
    ensures
        is_first(ds, i, m - 1) == !seen(versions(ds, i), m - 1).contains(versions(ds, i)[m - 1]),
{
    let v = versions(ds, i);
    if !is_first(ds, i, m - 1) {
        let j = choose|j: int| 0 <= j < m - 1 && #[trigger] same(ds, i, j, m - 1);
        assert(v[j] == v[m - 1]);
    }
    if seen(v, m - 1).contains(v[m - 1]) {
        let j = choose|j: int| 0 <= j < m - 1 && #[trigger] v[j] == v[m - 1];
        assert(same(ds, i, j, m - 1));
    }
}

proof fn lemma_distinct_is_seen(ds: Seq<Seq<u8>>, i: int, m: int)
    requires
        0 <= m <= ds.len(),
    ensures
        seen(versions(ds, i), m).finite(),
        distinct_in(ds, i, m) == seen(versions(ds, i), m).len(),
    decreases m,
{
    broadcast use vstd::set::group_set_axioms;
    let v = versions(ds, i);
    if m == 0 {
        assert(seen(v, 0) =~= Set::<Seq<u8>>::empty());
    } else {
        lemma_distinct_is_seen(ds, i, m - 1);
        lemma_first_is_unseen(ds, i, m);
        assert(seen(v, m) =~= seen(v, m - 1).insert(v[m - 1]));
    }
}

proof fn lemma_leaders_are_seen(ds: Seq<Seq<u8>>, i: int, m: int)
    requires
        0 <= m <= ds.len(),
    ensures
        seen_with(versions(ds, i), m, best(ds, i)).finite(),
        leaders_in(ds, i, m) == seen_with(versions(ds, i), m, best(ds, i)).len(),
    decreases m,
{
    broadcast use vstd::set::group_set_axioms;
    let v = versions(ds, i);
    let b = best(ds, i);
    if m == 0 {
        assert(seen_with(v, 0, b) =~= Set::<Seq<u8>>::empty());
    } else {
        lemma_leaders_are_seen(ds, i, m - 1);
        lemma_first_is_unseen(ds, i, m);
        lemma_support_counts(ds, i, m - 1, ds.len() as int);
        assert(v.take(ds.len() as int) =~= v);
        let x = v[m - 1];
        if v.to_multiset().count(x) == b {
            assert(seen_with(v, m, b) =~= seen_with(v, m - 1, b).insert(x));
            if !is_first(ds, i, m - 1) {
                let j = choose|j: int| 0 <= j < m - 1 && #[trigger] v[j] == x;
                assert(seen_with(v, m - 1, b).contains(x));
            }
        } else {
            assert(seen_with(v, m, b) =~= seen_with(v, m - 1, b));
        }
    }
}

proof fn lemma_seen_by_multiset(v: Seq<Seq<u8>>, w: Seq<Seq<u8>>, b: nat)
    requires
        v.to_multiset() == w.to_multiset(),
    ensures
        seen(v, v.len() as int) == seen(w, w.len() as int),
        seen_with(v, v.len() as int, b) == seen_with(w, w.len() as int, b),
{
    assert forall|x: Seq<u8>| seen(v, v.len() as int).contains(x) == seen(w, w.len() as int).contains(x) by {
        vstd::seq_lib::to_multiset_contains(v, x);
        vstd::seq_lib::to_multiset_contains(w, x);
        if v.contains(x) {
            let j = choose|j: int| 0 <= j < v.len() && v[j] == x;
            assert(seen(v, v.len() as int).contains(x));
        }
        if seen(v, v.len() as int).contains(x) {
            let j = choose|j: int| 0 <= j < v.len() && #[trigger] v[j] == x;
            assert(v.contains(x));
        }
        if w.contains(x) {
            let j = choose|j: int| 0 <= j < w.len() && w[j] == x;
            assert(seen(w, w.len() as int).contains(x));
        }
        if seen(w, w.len() as int).contains(x) {
            let j = choose|j: int| 0 <= j < w.len() && #[trigger] w[j] == x;
            assert(w.contains(x));
        }
    }
    assert(seen(v, v.len() as int) =~= seen(w, w.len() as int));
    assert forall|x: Seq<u8>| seen_with(v, v.len() as int, b).contains(x) == seen_with(w, w.len() as int, b).contains(
        x,
    ) by {
        assert(seen(v, v.len() as int).contains(x) == seen(w, w.len() as int).contains(x));
    }
    assert(seen_with(v, v.len() as int, b) =~= seen_with(w, w.len() as int, b));
}

proof fn lemma_support_is_count(ds: Seq<Seq<u8>>, i: int, k: int)
    requires
        0 <= k < ds.len(),
    ensures
        support(ds, i, k) == versions(ds, i).to_multiset().count(versions(ds, i)[k]),
{
    lemma_support_counts(ds, i, k, ds.len() as int);
    assert(versions(ds, i).take(ds.len() as int) =~= versions(ds, i));
}

proof fn lemma_best_at_most(ds: Seq<Seq<u8>>, es: Seq<Seq<u8>>, i: int)
    requires
        ds.len() >= 1,
        versions(ds, i).to_multiset() == versions(es, i).to_multiset(),
        es.len() == ds.len(),
    ensures
        best(es, i) <= best(ds, i),
{
    lemma_best_attained(es, i, es.len() as int);
    lemma_best_attained(ds, i, ds.len() as int);
    let k = choose|k: int| 0 <= k < es.len() && #[trigger] support(es, i, k) == best_in(es, i, es.len() as int);
    lemma_support_is_count(es, i, k);
    let x = versions(es, i)[k];
    assert(versions(es, i).contains(x));
    vstd::seq_lib::to_multiset_contains(versions(es, i), x);
    vstd::seq_lib::to_multiset_contains(versions(ds, i), x);
    let j = choose|j: int| 0 <= j < versions(ds, i).len() && versions(ds, i)[j] == x;
    lemma_support_is_count(ds, i, j);
    assert(support(ds, i, j) <= best_in(ds, i, ds.len() as int));
}

/// Reordering the dumps changes nothing about how a sector was voted on.
proof fn lemma_same_agreement(ds: Seq<Seq<u8>>, es: Seq<Seq<u8>>, i: int)
    requires
        ds.len() >= 1,
        ds.to_multiset() == es.to_multiset(),
    ensures
        best(ds, i) == best(es, i),
        agreement(ds, i) == agreement(es, i),
        seen_with(versions(ds, i), ds.len() as int, best(ds, i)) == seen_with(
            versions(es, i),
            es.len() as int,
            best(es, i),
        ),
        seen(versions(ds, i), ds.len() as int) == seen(versions(es, i), es.len() as int),
{
    vstd::seq_lib::to_multiset_len(ds);
    vstd::seq_lib::to_multiset_len(es);
    lemma_map_keeps_multiset(ds, es, i);
    let v = versions(ds, i);
    let w = versions(es, i);
    lemma_best_at_most(ds, es, i);
    lemma_best_at_most(es, ds, i);
    lemma_seen_by_multiset(v, w, best(ds, i));
    lemma_distinct_is_seen(ds, i, ds.len() as int);
    lemma_distinct_is_seen(es, i, es.len() as int);
    lemma_leaders_are_seen(ds, i, ds.len() as int);
    lemma_leaders_are_seen(es, i, es.len() as int);
}

proof fn lemma_at_most_one(s: Set<Seq<u8>>, a: Seq<u8>, b: Seq<u8>)
    requires
        s.finite(),
        s.len() <= 1,
        s.contains(a),
        s.contains(b),
    ensures
        a == b,
{
    broadcast use vstd::set::group_set_axioms;
    if a != b {
        assert(s.remove(a).contains(b));
        assert(s.remove(a).len() == 0);
        assert(s.remove(a) =~= Set::<Seq<u8>>::empty());
    }
}

proof fn lemma_first_best_in_range(ds: Seq<Seq<u8>>, i: int, j: int)
    requires
        ds.len() >= 1,
        0 <= j,
    ensures
        0 <= first_best_from(ds, i, j) < ds.len(),
    decreases ds.len() - j,
{
    if j < ds.len() && support(ds, i, j) != best(ds, i) {
        lemma_first_best_in_range(ds, i, j + 1);
    }
}

/// The version of sector `i` that goes into the merge is the same whatever
/// order the dumps come in, unless the sector is tied.
proof fn lemma_same_winner(ds: Seq<Seq<u8>>, es: Seq<Seq<u8>>, i: int)
    requires
        ds.len() >= 1,
        ds.to_multiset() == es.to_multiset(),
        !(agreement(ds, i) is Tied),
    ensures
        0 <= winner(ds, i) < ds.len(),
        0 <= winner(es, i) < es.len(),
        sector(es[winner(es, i)], i) == sector(ds[winner(ds, i)], i),
{
    vstd::seq_lib::to_multiset_len(ds);
    vstd::seq_lib::to_multiset_len(es);
    lemma_same_agreement(ds, es, i);
    let v = versions(ds, i);
    let w = versions(es, i);
    lemma_best_attained(ds, i, ds.len() as int);
    lemma_best_attained(es, i, es.len() as int);
    let k = choose|k: int| 0 <= k < ds.len() && #[trigger] support(ds, i, k) == best_in(ds, i, ds.len() as int);
    let q = choose|q: int| 0 <= q < es.len() && #[trigger] support(es, i, q) == best_in(es, i, es.len() as int);
    lemma_first_best_finds(ds, i, 0, k);
    lemma_first_best_finds(es, i, 0, q);
    let a = winner(ds, i);
    let b = winner(es, i);
    lemma_support_is_count(ds, i, a);
    lemma_support_is_count(es, i, b);
    lemma_map_keeps_multiset(ds, es, i);
    lemma_distinct_is_seen(ds, i, ds.len() as int);
    lemma_leaders_are_seen(ds, i, ds.len() as int);
    assert(seen(v, ds.len() as int).contains(v[a]));
    assert(seen(w, es.len() as int).contains(w[b]));
    if agreement(ds, i) is Unanimous {
        lemma_at_most_one(seen(v, ds.len() as int), v[a], w[b]);
    } else {
        assert(seen_with(v, ds.len() as int, best(ds, i)).contains(v[a]));
        assert(seen_with(w, es.len() as int, best(es, i)).contains(w[b]));
        lemma_at_most_one(seen_with(v, ds.len() as int, best(ds, i)), v[a], w[b]);
    }
}

proof fn lemma_same_counts(ds: Seq<Seq<u8>>, es: Seq<Seq<u8>>, m: int, kind: int)
    requires
        ds.len() >= 1,
        ds.to_multiset() == es.to_multiset(),
    ensures
        count_in(ds, m, kind) == count_in(es, m, kind),
    decreases m,
{
    if m > 0 {
        lemma_same_counts(ds, es, m - 1, kind);
        lemma_same_agreement(ds, es, m - 1);
    }
}

proof fn lemma_merged_sector(ds: Seq<Seq<u8>>, m: int, len: int)
    requires
        ds.len() >= 1,
        0 <= m,
        m * 512 <= len,
        forall|j: int| 0 <= j < ds.len() ==> (#[trigger] ds[j]).len() == len,
    ensures
        merged(ds, m).len() == m * 512,
        forall|i: int| 0 <= i < m ==> #[trigger] sector(merged(ds, m), i) == sector(ds[winner(ds, i)], i),
    decreases m,
{
    if m > 0 {
        assert((m - 1) * 512 <= len) by (nonlinear_arith)
            requires
                m * 512 <= len,
        ;
        lemma_merged_sector(ds, m - 1, len);
        let prev = merged(ds, m - 1);
        let last = m - 1;
        if agreement(ds, last) is Tied {
        } else {
            lemma_first_best_in_range(ds, last, 0);
        }
        let w = winner(ds, last);
        assert(0 <= w < ds.len());
        assert(ds[w].len() == len);
        assert(sector(ds[w], last).len() == 512);
        assert forall|i: int| 0 <= i < m implies #[trigger] sector(merged(ds, m), i) == sector(ds[winner(ds, i)], i) by {
            if i < m - 1 {
                assert(i * 512 + 512 <= (m - 1) * 512) by (nonlinear_arith)
                    requires
                        i < m - 1,
                ;
                assert(sector(merged(ds, m), i) =~= sector(prev, i));
            } else {
                assert(sector(merged(ds, m), i) =~= sector(ds[w], last));
            }
        }
    }
}

proof fn lemma_reports_unique(ds: Seq<Seq<u8>>, n: int, a: Seq<TrackReport>, b: Seq<TrackReport>)
    requires
        reports_match(ds, n, a),
        reports_match(ds, n, b),
    ensures
        a.len() == b.len(),
        forall|r: int|
            0 <= r < a.len() ==> a[r].track == b[r].track && a[r].disputed@ == b[r].disputed@ && (
            #[trigger] a[r]).unresolved@ == b[r].unresolved@,
{
    let ta = a.map_values(|t: TrackReport| t.track);
    let tb = b.map_values(|t: TrackReport| t.track);
    assert(ascending(ta));
    assert(ascending(tb));
    assert forall|t: usize| ta.contains(t) <==> tb.contains(t) by {
        if ta.contains(t) {
            let r = choose|r: int| 0 <= r < ta.len() && ta[r] == t;
            lemma_report_has_a_disputed_sector(ds, n, a[r]);
            let x = a[r].disputed@[0];
            let s = t * 11 + x;
            assert(is_disputed(ds, s));
            assert(s / 11 == t) by (nonlinear_arith)
                requires
                    s == t * 11 + x,
                    0 <= x < 11,
            ;
            let q = choose|q: int| 0 <= q < b.len() && #[trigger] b[q].track == s / 11;
            assert(tb[q] == t);
        }
        if tb.contains(t) {
            let r = choose|r: int| 0 <= r < tb.len() && tb[r] == t;
            lemma_report_has_a_disputed_sector(ds, n, b[r]);
            let x = b[r].disputed@[0];
            let s = t * 11 + x;
            assert(is_disputed(ds, s));
            assert(s / 11 == t) by (nonlinear_arith)
                requires
                    s == t * 11 + x,
                    0 <= x < 11,
            ;
            let q = choose|q: int| 0 <= q < a.len() && #[trigger] a[q].track == s / 11;
            assert(ta[q] == t);
        }
    }
    lemma_ascending_same_members(ta, tb);
    assert forall|r: int|
        0 <= r < a.len() implies a[r].track == b[r].track && a[r].disputed@ == b[r].disputed@ && (
        #[trigger] a[r]).unresolved@ == b[r].unresolved@ by {
        assert(ta[r] == tb[r]);
        assert(report_matches(ds, n, a[r]));
        assert(report_matches(ds, n, b[r]));
        lemma_ascending_same_members(a[r].disputed@, b[r].disputed@);
        lemma_ascending_same_members(a[r].unresolved@, b[r].unresolved@);
    }
}

proof fn lemma_report_has_a_disputed_sector(ds: Seq<Seq<u8>>, n: int, r: TrackReport)
    requires
        report_matches(ds, n, r),
    ensures
        r.disputed@.len() > 0,
        r.disputed@[0] < 11,
        r.track * 11 + r.disputed@[0] < n,
        is_disputed(ds, r.track * 11 + r.disputed@[0]),
{
    assert(r.disputed@.contains(r.disputed@[0]));
}

proof fn lemma_reports_carry_over(ds: Seq<Seq<u8>>, es: Seq<Seq<u8>>, n: int, t: Seq<TrackReport>)
    requires
        ds.len() >= 1,
        ds.to_multiset() == es.to_multiset(),
        reports_match(es, n, t),
    ensures
        reports_match(ds, n, t),
{
    assert forall|s: int| #[trigger] is_disputed(ds, s) == is_disputed(es, s) && is_unresolved(ds, s) == is_unresolved(
        es,
        s,
    ) by {
        lemma_same_agreement(ds, es, s);
    }
    assert forall|r: int| 0 <= r < t.len() implies report_matches(ds, n, #[trigger] t[r]) by {
        let q = t[r];
        assert(report_matches(es, n, q));
        assert forall|x: usize| q.disputed@.contains(x) <==> (x < 11 && q.track * 11 + x < n && is_disputed(
            ds,
            q.track * 11 + x,
        )) by {
            lemma_same_agreement(ds, es, q.track * 11 + x);
        }
        assert forall|x: usize| q.unresolved@.contains(x) <==> (x < 11 && q.track * 11 + x < n && is_unresolved(
            ds,
            q.track * 11 + x,
        )) by {
            lemma_same_agreement(ds, es, q.track * 11 + x);
        }
    }
    assert forall|s: int| 0 <= s < n && #[trigger] is_disputed(ds, s) implies exists|r: int|
        0 <= r < t.len() && #[trigger] t[r].track == s / 11 by {
        assert(is_disputed(es, s));
    }
}

/// Consolidating the same dumps in another order gives the same
/// consolidation: the same counts, the same track reports, and the same
/// merged bytes on every sector that had a winner. Only a tie, which is
/// settled by whichever dump comes first, may be filled differently.
pub proof fn consolidation_ignores_dump_order(
    dumps: Seq<Vec<u8>>,
    other: Seq<Vec<u8>>,
    x: Consolidation,
    y: Consolidation,
)
    requires
        dumps.len() >= 2,
        dumps[0]@.len() % 512 == 0,
        same_lengths(dumps),
        views(other).to_multiset() == views(dumps).to_multiset(),
        consolidation_of(dumps, x),
        consolidation_of(other, y),
    ensures
        y.sources == x.sources,
        y.unanimous_sectors == x.unanimous_sectors,
        y.resolved_sectors == x.resolved_sectors,
        y.unresolved_sectors == x.unresolved_sectors,
        y.tracks@.len() == x.tracks@.len(),
        forall|r: int|
            0 <= r < x.tracks@.len() ==> y.tracks@[r].track == x.tracks@[r].track && y.tracks@[r].disputed@
                == x.tracks@[r].disputed@ && (#[trigger] y.tracks@[r]).unresolved@ == x.tracks@[r].unresolved@,
        y.bytes@.len() == x.bytes@.len(),
        forall|i: int|
            0 <= i < x.bytes@.len() / 512 && !is_unresolved(views(dumps), i) ==> #[trigger] sector(y.bytes@, i)
                == sector(x.bytes@, i),
{
    let ds = views(dumps);
    let es = views(other);
    vstd::seq_lib::to_multiset_len(ds);
    vstd::seq_lib::to_multiset_len(es);
    let len = dumps[0]@.len() as int;
    let n = len / 512;
    assert(n * 512 == len);
    assert forall|j: int| 0 <= j < ds.len() implies (#[trigger] ds[j]).len() == len by {
        assert(ds[j] == dumps[j]@);
    }
    // Every dump of the other order is one of these dumps, so as long.
    assert forall|j: int| 0 <= j < es.len() implies (#[trigger] es[j]).len() == len by {
        assert(es.contains(es[j]));
        vstd::seq_lib::to_multiset_contains(es, es[j]);
        vstd::seq_lib::to_multiset_contains(ds, es[j]);
        let k = choose|k: int| 0 <= k < ds.len() && ds[k] == es[j];
    }
    assert(es[0] == other[0]@);
    assert(other[0]@.len() == len);
    lemma_same_counts(ds, es, n, 0);
    lemma_same_counts(ds, es, n, 1);
    lemma_same_counts(ds, es, n, 2);
    lemma_reports_carry_over(ds, es, n, y.tracks@);
    lemma_reports_unique(ds, n, x.tracks@, y.tracks@);
    lemma_merged_sector(ds, n, len);
    lemma_merged_sector(es, n, len);
    assert forall|i: int| 0 <= i < x.bytes@.len() / 512 && !is_unresolved(ds, i) implies #[trigger] sector(
        y.bytes@,
        i,
    ) == sector(x.bytes@, i) by {
        lemma_same_winner(ds, es, i);
    }
}

} // verus!
