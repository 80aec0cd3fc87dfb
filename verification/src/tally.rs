//! The visit statistics kept in the key/value store, and their totals per region.
//!
//! The store holds one counter per key:
//! * `$region`: the visits from a region (keyed by the region's short code);
//! * `$region:os:$os`: the visits from a region on an operating system;
//! * `$region:browser:$browser`: the visits from a region with a browser.
use vstd::prelude::*;
use crate::assoc::{
    assoc, keys_distinct, lemma_assoc_at, lemma_assoc_dom, lemma_assoc_push, lemma_assoc_update,
};
use crate::count::{count_text, parse_count};
use crate::text::{
    contains_char, contains_seq, contains_str, has_char, lemma_three_pieces, split_on, split_pieces, texts,
};

verus! {

/// One named counter.
pub struct Counter {
    pub name: String,
    pub count: u64,
}

/// The statistics of one region: visits per operating system, visits per
/// browser, and all visits.
pub struct UAStats {
    pub os: Vec<Counter>,
    pub browsers: Vec<Counter>,
    pub visits: u64,
}

/// The statistics of the region named `region`.
pub struct RegionStats {
    pub region: String,
    pub stats: UAStats,
}

/// The statistics of every region.
pub struct RegionTotals {
    pub regions: Vec<RegionStats>,
}

/// The kinds of counter keys.
#[derive(Clone, Copy)]
pub enum KeyKind {
    Visits,
    Os,
    Browsers,
}

/// What [`UAStats`] holds: counts by operating system, counts by browser,
/// and the number of visits.
pub struct StatsView {
    pub os: Map<Seq<char>, int>,
    pub browsers: Map<Seq<char>, int>,
    pub visits: int,
}

pub open spec fn counter_pairs(cs: Seq<Counter>) -> Seq<(Seq<char>, int)> {
    cs.map_values(|c: Counter| (c.name@, c.count as int))
}

/// The counts of a list of counters, by name.
pub open spec fn counter_map(cs: Seq<Counter>) -> Map<Seq<char>, int> {
    assoc(counter_pairs(cs))
}

impl View for UAStats {
    type V = StatsView;

    open spec fn view(&self) -> StatsView {
        StatsView {
            os: counter_map(self.os@),
            browsers: counter_map(self.browsers@),
            visits: self.visits as int,
        }
    }
}

impl UAStats {
    /// No operating system and no browser is counted twice.
    pub open spec fn wf(&self) -> bool {
        keys_distinct(counter_pairs(self.os@)) && keys_distinct(counter_pairs(self.browsers@))
    }
}

pub open spec fn region_pairs(rs: Seq<RegionStats>) -> Seq<(Seq<char>, StatsView)> {
    rs.map_values(|e: RegionStats| (e.region@, e.stats@))
}

impl View for RegionTotals {
    type V = Map<Seq<char>, StatsView>;

    open spec fn view(&self) -> Map<Seq<char>, StatsView> {
        assoc(region_pairs(self.regions@))
    }
}

impl RegionTotals {
    /// No region is listed twice, and each region's statistics are well formed.
    pub open spec fn wf(&self) -> bool {
        &&& keys_distinct(region_pairs(self.regions@))
        &&& forall|i: int| 0 <= i < self.regions@.len() ==> (#[trigger] self.regions@[i]).stats.wf()
    }
}

/// Statistics with nothing counted.
pub open spec fn blank_stats() -> StatsView {
    StatsView { os: Map::empty(), browsers: Map::empty(), visits: 0 }
}

/// The statistics of `r` in `m`, or blank ones when `r` has none.
pub open spec fn stats_or_blank(m: Map<Seq<char>, StatsView>, r: Seq<char>) -> StatsView {
    if m.contains_key(r) {
        m[r]
    } else {
        blank_stats()
    }
}

/// The count of `k` in `m`, zero when `k` has none.
pub open spec fn count_or_zero(m: Map<Seq<char>, int>, k: Seq<char>) -> int {
    if m.contains_key(k) {
        m[k]
    } else {
        0
    }
}

/// `m` with `n` added to the count of `k`.
pub open spec fn bump(m: Map<Seq<char>, int>, k: Seq<char>, n: int) -> Map<Seq<char>, int> {
    m.insert(k, count_or_zero(m, k) + n)
}

// ---------------------------------------------------------------------------
// Keys

/// A key of a region's visit counter holds no `:`.
pub open spec fn is_visit_key(k: Seq<char>) -> bool {
    !has_char(k, ':')
}

/// A key of an operating-system counter holds `:os:`.
pub open spec fn is_os_key(k: Seq<char>) -> bool {
    contains_seq(k, ":os:"@)
}

/// A key of a browser counter holds `:browser:`.
pub open spec fn is_browser_key(k: Seq<char>) -> bool {
    contains_seq(k, ":browser:"@)
}

/// The `n`-th `:`-separated piece of a key.
pub open spec fn piece(k: Seq<char>, n: int) -> Seq<char> {
    split_on(k, ':')[n]
}

/// `k` is a key of the given kind.
pub open spec fn is_kind(kind: KeyKind, k: Seq<char>) -> bool {
    match kind {
        KeyKind::Visits => is_visit_key(k),
        KeyKind::Os => is_os_key(k),
        KeyKind::Browsers => is_browser_key(k),
    }
}

/// The region that a key of the given kind counts for: the key itself for a
/// visit counter, its first piece otherwise.
pub open spec fn region_of(kind: KeyKind, k: Seq<char>) -> Seq<char> {
    match kind {
        KeyKind::Visits => k,
        _ => piece(k, 0),
    }
}

/// The operating system or browser that a key counts for: its third piece.
pub open spec fn label_of(k: Seq<char>) -> Seq<char> {
    piece(k, 2)
}

/// `k` is a key of the given kind for region `r` (and, unless it is a visit
/// counter, for label `l`).
pub open spec fn hits(kind: KeyKind, k: Seq<char>, r: Seq<char>, l: Seq<char>) -> bool {
    &&& is_kind(kind, k)
    &&& region_of(kind, k) == r
    &&& (kind is Visits || label_of(k) == l)
}

/// The number in a counter's text (zero if it holds none).
pub open spec fn count_value(v: Seq<char>) -> int {
    match count_text(v) {
        Some(n) => n as int,
        None => 0,
    }
}

/// The sum of the counters in `d` whose keys are of the given kind for `r` and `l`.
pub open spec fn total_of(d: Seq<(Seq<char>, Seq<char>)>, kind: KeyKind, r: Seq<char>, l: Seq<char>) -> int
    decreases d.len(),
{
    if d.len() == 0 {
        0
    } else {
        total_of(d.drop_last(), kind, r, l) + if hits(kind, d.last().0, r, l) {
            count_value(d.last().1)
        } else {
            0
        }
    }
}

/// Some key in `d` is of the given kind for region `r`.
pub open spec fn mentions(d: Seq<(Seq<char>, Seq<char>)>, kind: KeyKind, r: Seq<char>) -> bool
    decreases d.len(),
{
    if d.len() == 0 {
        false
    } else {
        mentions(d.drop_last(), kind, r) || (is_kind(kind, d.last().0) && region_of(
            kind,
            d.last().0,
        ) == r)
    }
}

/// Some key in `d` is of the given kind for region `r` and label `l`.
pub open spec fn labelled(d: Seq<(Seq<char>, Seq<char>)>, kind: KeyKind, r: Seq<char>, l: Seq<char>) -> bool
    decreases d.len(),
{
    if d.len() == 0 {
        false
    } else {
        labelled(d.drop_last(), kind, r, l) || hits(kind, d.last().0, r, l)
    }
}

/// The statistics of region `r`, with visits from the visit counters in `dv`,
/// the counts by operating system from the counters in `dos`, and the counts
/// by browser from the counters in `db`.
pub open spec fn stats_spec(
    dv: Seq<(Seq<char>, Seq<char>)>,
    dos: Seq<(Seq<char>, Seq<char>)>,
    db: Seq<(Seq<char>, Seq<char>)>,
    r: Seq<char>,
) -> StatsView {
    StatsView {
        visits: total_of(dv, KeyKind::Visits, r, Seq::empty()),
        os: Map::new(|l: Seq<char>| labelled(dos, KeyKind::Os, r, l), |l: Seq<char>| total_of(dos, KeyKind::Os, r, l)),
        browsers: Map::new(
            |l: Seq<char>| labelled(db, KeyKind::Browsers, r, l),
            |l: Seq<char>| total_of(db, KeyKind::Browsers, r, l),
        ),
    }
}

/// The statistics of every region that some counter mentions.
pub open spec fn tally(
    dv: Seq<(Seq<char>, Seq<char>)>,
    dos: Seq<(Seq<char>, Seq<char>)>,
    db: Seq<(Seq<char>, Seq<char>)>,
) -> Map<Seq<char>, StatsView> {
    Map::new(
        |r: Seq<char>|
            mentions(dv, KeyKind::Visits, r) || mentions(dos, KeyKind::Os, r) || mentions(
                db,
                KeyKind::Browsers,
                r,
            ),
        |r: Seq<char>| stats_spec(dv, dos, db, r),
    )
}

/// The totals per region of the counters in `d`: each region that a key
/// names gets its visits (the sum of its visit counters), its counts by
/// operating system and its counts by browser (sums of the counters whose
/// keys name that region and that operating system or browser).
pub open spec fn region_totals_spec(d: Seq<(Seq<char>, Seq<char>)>) -> Map<Seq<char>, StatsView> {
    tally(d, d, d)
}

/// The texts of the `(key, value)` pairs read from the store.
pub open spec fn pairs_text(data: Seq<(String, String)>) -> Seq<(Seq<char>, Seq<char>)> {
    data.map_values(|p: (String, String)| (p.0@, p.1@))
}

/// Every counter whose key is of one of the three kinds holds a number.
pub open spec fn counts_readable(d: Seq<(Seq<char>, Seq<char>)>) -> bool {
    forall|i: int|
        0 <= i < d.len() && (is_visit_key(#[trigger] d[i].0) || is_os_key(d[i].0) || is_browser_key(
            d[i].0,
        )) ==> count_text(d[i].1) is Some
}

/// Every total fits in 64 bits.
pub open spec fn totals_fit(d: Seq<(Seq<char>, Seq<char>)>) -> bool {
    forall|kind: KeyKind, r: Seq<char>, l: Seq<char>| #[trigger] total_of(d, kind, r, l) <= u64::MAX
}

/// `m` after counting the pair `e` as a key of the given kind: when `e`'s key
/// is of that kind, its number is added to its region's visits, or to the
/// region's count for its operating system or browser.
pub open spec fn apply_entry(
    m: Map<Seq<char>, StatsView>,
    kind: KeyKind,
    e: (Seq<char>, Seq<char>),
) -> Map<Seq<char>, StatsView> {
    if is_kind(kind, e.0) {
        let r = region_of(kind, e.0);
        let s = stats_or_blank(m, r);
        let n = count_value(e.1);
        m.insert(
            r,
            match kind {
                KeyKind::Visits => StatsView { os: s.os, browsers: s.browsers, visits: s.visits + n },
                KeyKind::Os => StatsView {
                    os: bump(s.os, label_of(e.0), n),
                    browsers: s.browsers,
                    visits: s.visits,
                },
                KeyKind::Browsers => StatsView {
                    os: s.os,
                    browsers: bump(s.browsers, label_of(e.0), n),
                    visits: s.visits,
                },
            },
        )
    } else {
        m
    }
}

/// A region or label that no key names has a zero total.
pub proof fn lemma_quiet(d: Seq<(Seq<char>, Seq<char>)>, kind: KeyKind, r: Seq<char>, l: Seq<char>)
    ensures
        !labelled(d, kind, r, l) ==> total_of(d, kind, r, l) == 0,
        !mentions(d, kind, r) ==> !labelled(d, kind, r, l),
    decreases d.len(),
{
    if d.len() > 0 {
        lemma_quiet(d.drop_last(), kind, r, l);
    }
}

/// The visit total does not depend on the label it is asked with.
pub proof fn lemma_visits_any_label(d: Seq<(Seq<char>, Seq<char>)>, r: Seq<char>, l: Seq<char>)
    ensures
        total_of(d, KeyKind::Visits, r, l) == total_of(d, KeyKind::Visits, r, Seq::empty()),
    decreases d.len(),
{
    if d.len() > 0 {
        lemma_visits_any_label(d.drop_last(), r, l);
    }
}

/// The statistics of a region that no key names are blank.
proof fn lemma_blank(
    dv: Seq<(Seq<char>, Seq<char>)>,
    dos: Seq<(Seq<char>, Seq<char>)>,
    db: Seq<(Seq<char>, Seq<char>)>,
    r: Seq<char>,
)
    ensures
        stats_or_blank(tally(dv, dos, db), r) == stats_spec(dv, dos, db, r),
{
    if !tally(dv, dos, db).contains_key(r) {
        let s = stats_spec(dv, dos, db, r);
        lemma_quiet(dv, KeyKind::Visits, r, Seq::empty());
        assert forall|l: Seq<char>| !labelled(dos, KeyKind::Os, r, l) by {
            lemma_quiet(dos, KeyKind::Os, r, l);
        }
        assert forall|l: Seq<char>| !labelled(db, KeyKind::Browsers, r, l) by {
            lemma_quiet(db, KeyKind::Browsers, r, l);
        }
        assert(s.os =~= Map::empty());
        assert(s.browsers =~= Map::empty());
    }
}

/// The counts of one label, before and after counting one more pair.
proof fn lemma_label_step(
    d: Seq<(Seq<char>, Seq<char>)>,
    kind: KeyKind,
    e: (Seq<char>, Seq<char>),
    r: Seq<char>,
)
    requires
        !(kind is Visits),
        is_kind(kind, e.0),
        region_of(kind, e.0) == r,
    ensures
        Map::new(
            |l: Seq<char>| labelled(d.push(e), kind, r, l),
            |l: Seq<char>| total_of(d.push(e), kind, r, l),
        ) == bump(
            Map::new(|l: Seq<char>| labelled(d, kind, r, l), |l: Seq<char>| total_of(d, kind, r, l)),
            label_of(e.0),
            count_value(e.1),
        ),
{
    let dp = d.push(e);
    assert(dp.drop_last() =~= d);
    let old_m = Map::new(|l: Seq<char>| labelled(d, kind, r, l), |l: Seq<char>| total_of(d, kind, r, l));
    let new_m = Map::new(|l: Seq<char>| labelled(dp, kind, r, l), |l: Seq<char>| total_of(dp, kind, r, l));
    assert forall|l: Seq<char>| #[trigger] new_m.contains_key(l) == bump(old_m, label_of(e.0), count_value(e.1)).contains_key(l) by {}
    assert forall|l: Seq<char>| new_m.contains_key(l) implies #[trigger] new_m[l] == bump(old_m, label_of(e.0), count_value(e.1))[l] by {
        lemma_quiet(d, kind, r, l);
    }
    assert(new_m =~= bump(old_m, label_of(e.0), count_value(e.1)));
}

/// Counting one more pair of the given kind updates the totals as
/// [`apply_entry`] says.
pub proof fn lemma_tally_push(
    dv: Seq<(Seq<char>, Seq<char>)>,
    dos: Seq<(Seq<char>, Seq<char>)>,
    db: Seq<(Seq<char>, Seq<char>)>,
    kind: KeyKind,
    e: (Seq<char>, Seq<char>),
)
    ensures
        (match kind {
            KeyKind::Visits => tally(dv.push(e), dos, db),
            KeyKind::Os => tally(dv, dos.push(e), db),
            KeyKind::Browsers => tally(dv, dos, db.push(e)),
        }) == apply_entry(tally(dv, dos, db), kind, e),
{
    let m = tally(dv, dos, db);
    let (nv, no, nb) = match kind {
        KeyKind::Visits => (dv.push(e), dos, db),
        KeyKind::Os => (dv, dos.push(e), db),
        KeyKind::Browsers => (dv, dos, db.push(e)),
    };
    assert(dv.push(e).drop_last() =~= dv);
    assert(dos.push(e).drop_last() =~= dos);
    assert(db.push(e).drop_last() =~= db);
    let t = tally(nv, no, nb);
    let a = apply_entry(m, kind, e);
    if is_kind(kind, e.0) {
        let r0 = region_of(kind, e.0);
        lemma_blank(dv, dos, db, r0);
        assert forall|r: Seq<char>| #[trigger] t.contains_key(r) == a.contains_key(r) by {}
        assert forall|r: Seq<char>| t.contains_key(r) implies #[trigger] t[r] == a[r] by {
            if r == r0 {
                match kind {
                    KeyKind::Visits => {
                        assert(t[r].os =~= a[r].os);
                        assert(t[r].browsers =~= a[r].browsers);
                    },
                    KeyKind::Os => {
                        lemma_label_step(dos, kind, e, r);
                        assert(t[r].browsers =~= a[r].browsers);
                    },
                    KeyKind::Browsers => {
                        lemma_label_step(db, kind, e, r);
                        assert(t[r].os =~= a[r].os);
                    },
                }
            } else {
                assert(t[r].os =~= a[r].os);
                assert(t[r].browsers =~= a[r].browsers);
            }
        }
        assert(t =~= a);
    } else {
        assert forall|r: Seq<char>| #[trigger] t.contains_key(r) == a.contains_key(r) by {}
        assert forall|r: Seq<char>| t.contains_key(r) implies #[trigger] t[r] == a[r] by {
            assert(t[r].os =~= a[r].os);
            assert(t[r].browsers =~= a[r].browsers);
        }
        assert(t =~= a);
    }
}

/// A region that is no key has no visits.
proof fn lemma_no_visit_key(d: Seq<(Seq<char>, Seq<char>)>, r: Seq<char>)
    requires
        forall|j: int| 0 <= j < d.len() ==> (#[trigger] d[j]).0 != r,
    ensures
        total_of(d, KeyKind::Visits, r, Seq::empty()) == 0,
    decreases d.len(),
{
    if d.len() > 0 {
        assert forall|j: int| 0 <= j < d.drop_last().len() implies (#[trigger] d.drop_last()[j]).0 != r by {
            assert(d.drop_last()[j] == d[j]);
        }
        lemma_no_visit_key(d.drop_last(), r);
        assert(d[d.len() - 1].0 != r);
    }
}

/// With distinct keys, a visit key's total is its own counter.
proof fn lemma_single_visit(d: Seq<(Seq<char>, Seq<char>)>, i: int)
    requires
        keys_distinct(d),
        0 <= i < d.len(),
        is_visit_key(d[i].0),
    ensures
        mentions(d, KeyKind::Visits, d[i].0),
        total_of(d, KeyKind::Visits, d[i].0, Seq::empty()) == count_value(d[i].1),
    decreases d.len(),
{
    let r = d[i].0;
    let t = d.drop_last();
    if i == d.len() - 1 {
        assert forall|j: int| 0 <= j < t.len() implies (#[trigger] t[j]).0 != r by {
            assert(t[j] == d[j]);
        }
        lemma_no_visit_key(t, r);
    } else {
        assert(keys_distinct(t)) by {
            assert forall|a: int, b: int| 0 <= a < t.len() && 0 <= b < t.len() && a != b implies t[a].0 != t[b].0 by {
                assert(t[a] == d[a] && t[b] == d[b]);
            }
        }
        assert(t[i] == d[i]);
        lemma_single_visit(t, i);
        assert(d[d.len() - 1].0 != r);
    }
}

/// A region's visits are its counter: when the keys read from the store are
/// distinct (as those of a map are), a pair whose key is a visit key gives
/// the region of that name exactly the pair's number as its visits.
pub proof fn lemma_region_visits_read_back(d: Seq<(Seq<char>, Seq<char>)>, i: int)
    requires
        keys_distinct(d),
        0 <= i < d.len(),
        is_visit_key(d[i].0),
    ensures
        region_totals_spec(d).contains_key(d[i].0),
        region_totals_spec(d)[d[i].0].visits == count_value(d[i].1),
{
    lemma_single_visit(d, i);
}

/// What the pair `e` adds to the total of the given kind for `r` and `l`.
pub open spec fn contribution(e: (Seq<char>, Seq<char>), kind: KeyKind, r: Seq<char>, l: Seq<char>) -> int {
    if hits(kind, e.0, r, l) {
        count_value(e.1)
    } else {
        0
    }
}

/// Taking one pair out of the counters takes out its contribution, and no more.
proof fn lemma_remove_one(
    d: Seq<(Seq<char>, Seq<char>)>,
    j: int,
    kind: KeyKind,
    r: Seq<char>,
    l: Seq<char>,
)
    requires
        0 <= j < d.len(),
    ensures
        total_of(d, kind, r, l) == total_of(d.remove(j), kind, r, l) + contribution(d[j], kind, r, l),
        mentions(d, kind, r) == (mentions(d.remove(j), kind, r) || (is_kind(kind, d[j].0)
            && region_of(kind, d[j].0) == r)),
        labelled(d, kind, r, l) == (labelled(d.remove(j), kind, r, l) || hits(kind, d[j].0, r, l)),
    decreases d.len(),
{
    if j == d.len() - 1 {
        assert(d.remove(j) =~= d.drop_last());
    } else {
        lemma_remove_one(d.drop_last(), j, kind, r, l);
        assert(d.remove(j).drop_last() =~= d.drop_last().remove(j));
        assert(d.remove(j).last() == d.last());
        assert(d.drop_last()[j] == d[j]);
    }
}

/// Counters listed in another order have the same totals.
proof fn lemma_order_free_parts(
    d1: Seq<(Seq<char>, Seq<char>)>,
    d2: Seq<(Seq<char>, Seq<char>)>,
    kind: KeyKind,
    r: Seq<char>,
    l: Seq<char>,
)
    requires
        d1.to_multiset() == d2.to_multiset(),
    ensures
        total_of(d1, kind, r, l) == total_of(d2, kind, r, l),
        mentions(d1, kind, r) == mentions(d2, kind, r),
        labelled(d1, kind, r, l) == labelled(d2, kind, r, l),
    decreases d2.len(),
{
    broadcast use vstd::seq_lib::group_to_multiset_ensures;

    if d2.len() == 0 {
        assert(d1.to_multiset().len() == 0);
        assert(d1.len() == 0);
    } else {
        let e = d2.last();
        let t2 = d2.drop_last();
        assert(t2.push(e) =~= d2);
        assert(d2.to_multiset().count(e) > 0);
        assert(d1.contains(e));
        let j = choose|j: int| 0 <= j < d1.len() && d1[j] == e;
        let t1 = d1.remove(j);
        assert(t1.to_multiset() =~= d1.to_multiset().remove(e));
        assert(d2.to_multiset() =~= t2.to_multiset().insert(e));
        assert(t1.to_multiset() =~= t2.to_multiset());
        lemma_order_free_parts(t1, t2, kind, r, l);
        lemma_remove_one(d1, j, kind, r, l);
    }
}

/// The totals do not depend on the order in which the store lists its
/// counters: two listings of the same `(key, value)` pairs, in any order, have
/// the same totals.
pub proof fn lemma_totals_order_free(d1: Seq<(Seq<char>, Seq<char>)>, d2: Seq<(Seq<char>, Seq<char>)>)
    requires
        d1.to_multiset() == d2.to_multiset(),
    ensures
        region_totals_spec(d1) == region_totals_spec(d2),
{
    let t1 = region_totals_spec(d1);
    let t2 = region_totals_spec(d2);
    assert forall|r: Seq<char>| #[trigger] t1.contains_key(r) == t2.contains_key(r) by {
        lemma_order_free_parts(d1, d2, KeyKind::Visits, r, Seq::empty());
        lemma_order_free_parts(d1, d2, KeyKind::Os, r, Seq::empty());
        lemma_order_free_parts(d1, d2, KeyKind::Browsers, r, Seq::empty());
    }
    assert forall|r: Seq<char>| t1.contains_key(r) implies #[trigger] t1[r] == t2[r] by {
        lemma_order_free_parts(d1, d2, KeyKind::Visits, r, Seq::empty());
        assert forall|l: Seq<char>| #![trigger t1[r].os.contains_key(l)] t1[r].os.contains_key(l)
            == t2[r].os.contains_key(l) && (t1[r].os.contains_key(l) ==> t1[r].os[l] == t2[r].os[l]) by {
            lemma_order_free_parts(d1, d2, KeyKind::Os, r, l);
        }
        assert forall|l: Seq<char>| #![trigger t1[r].browsers.contains_key(l)] t1[r].browsers.contains_key(l)
            == t2[r].browsers.contains_key(l) && (t1[r].browsers.contains_key(l) ==> t1[r].browsers[l]
            == t2[r].browsers[l]) by {
            lemma_order_free_parts(d1, d2, KeyKind::Browsers, r, l);
        }
        assert(t1[r].os =~= t2[r].os);
        assert(t1[r].browsers =~= t2[r].browsers);
    }
    assert(t1 =~= t2);
}

/// A key that is no counter, of none of the three kinds, changes nothing:
/// inserting a pair with such a key anywhere in the listing leaves the
/// totals as they were, and whether they can be made (every counter
/// readable, every total within 64 bits) as it was.
pub proof fn lemma_other_key_ignored(d: Seq<(Seq<char>, Seq<char>)>, j: int, e: (Seq<char>, Seq<char>))
    requires
        0 <= j <= d.len(),
        !is_visit_key(e.0),
        !is_os_key(e.0),
        !is_browser_key(e.0),
    ensures
        region_totals_spec(d.insert(j, e)) == region_totals_spec(d),
        counts_readable(d.insert(j, e)) == counts_readable(d),
        totals_fit(d.insert(j, e)) == totals_fit(d),
{
    let d2 = d.insert(j, e);
    assert(d2.remove(j) =~= d);
    assert(d2[j] == e);
    assert forall|kind: KeyKind, r: Seq<char>, l: Seq<char>|
        #![trigger total_of(d2, kind, r, l)]
        #![trigger mentions(d2, kind, r), labelled(d2, kind, r, l)]
        total_of(d2, kind, r, l) == total_of(d, kind, r, l) && mentions(d2, kind, r) == mentions(d, kind, r)
            && labelled(d2, kind, r, l) == labelled(d, kind, r, l) by {
        lemma_remove_one(d2, j, kind, r, l);
    }
    let t1 = region_totals_spec(d2);
    let t2 = region_totals_spec(d);
    assert forall|r: Seq<char>| #[trigger] t1.contains_key(r) == t2.contains_key(r) by {
        lemma_remove_one(d2, j, KeyKind::Visits, r, Seq::empty());
        lemma_remove_one(d2, j, KeyKind::Os, r, Seq::empty());
        lemma_remove_one(d2, j, KeyKind::Browsers, r, Seq::empty());
    }
    assert forall|r: Seq<char>| t1.contains_key(r) implies #[trigger] t1[r] == t2[r] by {
        assert(total_of(d2, KeyKind::Visits, r, Seq::empty()) == total_of(d, KeyKind::Visits, r, Seq::empty()));
        assert forall|l: Seq<char>| #![trigger t1[r].os.contains_key(l)] t1[r].os.contains_key(l)
            == t2[r].os.contains_key(l) && (t1[r].os.contains_key(l) ==> t1[r].os[l] == t2[r].os[l]) by {
            assert(total_of(d2, KeyKind::Os, r, l) == total_of(d, KeyKind::Os, r, l));
            assert(labelled(d2, KeyKind::Os, r, l) == labelled(d, KeyKind::Os, r, l));
        }
        assert forall|l: Seq<char>| #![trigger t1[r].browsers.contains_key(l)] t1[r].browsers.contains_key(l)
            == t2[r].browsers.contains_key(l) && (t1[r].browsers.contains_key(l) ==> t1[r].browsers[l]
            == t2[r].browsers[l]) by {
            assert(total_of(d2, KeyKind::Browsers, r, l) == total_of(d, KeyKind::Browsers, r, l));
            assert(labelled(d2, KeyKind::Browsers, r, l) == labelled(d, KeyKind::Browsers, r, l));
        }
        assert(t1[r].os =~= t2[r].os);
        assert(t1[r].browsers =~= t2[r].browsers);
    }
    assert(t1 =~= t2);
    // Readability: the inserted pair is of no kind, the others are those of `d`.
    if counts_readable(d) {
        assert forall|i: int|
            0 <= i < d2.len() && (is_visit_key(#[trigger] d2[i].0) || is_os_key(d2[i].0)
                || is_browser_key(d2[i].0)) implies count_text(d2[i].1) is Some by {
            if i < j {
                assert(d2[i] == d[i]);
            } else if i > j {
                assert(d2[i] == d[i - 1]);
            }
        }
    }
    if counts_readable(d2) {
        assert forall|i: int|
            0 <= i < d.len() && (is_visit_key(#[trigger] d[i].0) || is_os_key(d[i].0)
                || is_browser_key(d[i].0)) implies count_text(d[i].1) is Some by {
            if i < j {
                assert(d2[i] == d[i]);
            } else {
                assert(d2[i + 1] == d[i]);
            }
        }
    }
    // Fitting: every total is the same.
    if totals_fit(d) {
        assert forall|kind: KeyKind, r: Seq<char>, l: Seq<char>| #[trigger] total_of(d2, kind, r, l) <= u64::MAX by {
            assert(total_of(d, kind, r, l) <= u64::MAX);
        }
    }
    if totals_fit(d2) {
        assert forall|kind: KeyKind, r: Seq<char>, l: Seq<char>| #[trigger] total_of(d, kind, r, l) <= u64::MAX by {
            assert(total_of(d2, kind, r, l) <= u64::MAX);
        }
    }
}

/// A prefix of the counters never has a larger total than all of them.
pub proof fn lemma_total_prefix(
    d: Seq<(Seq<char>, Seq<char>)>,
    j: int,
    kind: KeyKind,
    r: Seq<char>,
    l: Seq<char>,
)
    requires
        0 <= j <= d.len(),
    ensures
        total_of(d.take(j), kind, r, l) <= total_of(d, kind, r, l),
    decreases d.len() - j,
{
    if j < d.len() {
        lemma_total_prefix(d, j + 1, kind, r, l);
        assert(d.take(j + 1).drop_last() =~= d.take(j));
    } else {
        assert(d.take(j) =~= d);
    }
}

/// The position of a kind among the three passes over the counters.
pub open spec fn kind_rank(kind: KeyKind) -> int {
    match kind {
        KeyKind::Visits => 0,
        KeyKind::Os => 1,
        KeyKind::Browsers => 2,
    }
}

/// The counters of the given kind counted so far, when the pass for `pass`
/// has gone through the first `j` pairs: all of them for an earlier pass,
/// the first `j` for this pass, none for a later one.
pub open spec fn stage(
    d: Seq<(Seq<char>, Seq<char>)>,
    pass: KeyKind,
    kind: KeyKind,
    j: int,
) -> Seq<(Seq<char>, Seq<char>)> {
    if kind_rank(kind) < kind_rank(pass) {
        d
    } else if kind_rank(kind) == kind_rank(pass) {
        d.take(j)
    } else {
        Seq::empty()
    }
}

/// The totals when the pass for `pass` has gone through the first `j` pairs.
pub open spec fn progress(d: Seq<(Seq<char>, Seq<char>)>, pass: KeyKind, j: int) -> Map<
    Seq<char>,
    StatsView,
> {
    tally(
        stage(d, pass, KeyKind::Visits, j),
        stage(d, pass, KeyKind::Os, j),
        stage(d, pass, KeyKind::Browsers, j),
    )
}

/// Adds `n` to the counter named `name`, or starts that counter at `n`;
/// returns `false`, and changes nothing, when the sum does not fit in 64 bits.
pub fn bump_counter(cs: &mut Vec<Counter>, name: &String, n: u64) -> (ok: bool)
    requires
        keys_distinct(counter_pairs(old(cs)@)),
    ensures
        ok == (count_or_zero(counter_map(old(cs)@), name@) + n <= u64::MAX),
        keys_distinct(counter_pairs(final(cs)@)),
        ok ==> counter_map(final(cs)@) == bump(counter_map(old(cs)@), name@, n as int),
        !ok ==> final(cs)@ == old(cs)@,
{
    let ghost old_pairs = counter_pairs(cs@);
    let mut i: usize = 0;
    while i < cs.len()
        invariant
            cs@ == old(cs)@,
            old_pairs == counter_pairs(cs@),
            keys_distinct(old_pairs),
            i <= cs@.len(),
            forall|j: int| 0 <= j < i ==> cs@[j].name@ != name@,
        decreases cs.len() - i,
    {
        if cs[i].name == *name {
            proof {
                lemma_assoc_at(old_pairs, i as int);
                assert(old_pairs[i as int] == (cs@[i as int].name@, cs@[i as int].count as int));
            }
            match cs[i].count.checked_add(n) {
                None => {
                    return false;
                },
                Some(c) => {
                    cs[i].count = c;
                    proof {
                        assert(counter_pairs(cs@) =~= old_pairs.update(i as int, (name@, c as int)));
                        lemma_assoc_update(old_pairs, i as int, c as int);
                    }
                    return true;
                },
            }
        }
        i = i + 1;
    }
    proof {
        lemma_assoc_dom(old_pairs, name@);
        if assoc(old_pairs).contains_key(name@) {
            let j = choose|j: int| 0 <= j < old_pairs.len() && old_pairs[j].0 == name@;
            assert(cs@[j].name@ == name@);
        }
    }
    cs.push(Counter { name: name.clone(), count: n });
    proof {
        assert(counter_pairs(cs@) =~= old_pairs.push((name@, n as int)));
        lemma_assoc_push(old_pairs, name@, n as int);
    }
    true
}

/// The statistics of no visit.
fn blank_ua_stats() -> (s: UAStats)
    ensures
        s.wf(),
        s@ == blank_stats(),
{
    let s = UAStats { os: Vec::new(), browsers: Vec::new(), visits: 0 };
    assert(counter_pairs(s.os@) =~= Seq::empty());
    assert(counter_pairs(s.browsers@) =~= Seq::empty());
    assert(s@.os =~= Map::empty());
    assert(s@.browsers =~= Map::empty());
    s
}

/// The position of `region` in the totals, after adding it with blank
/// statistics when it was not there.
fn region_index(totals: &mut RegionTotals, region: &String) -> (i: usize)
    requires
        old(totals).wf(),
    ensures
        final(totals).wf(),
        i < final(totals).regions@.len(),
        final(totals).regions@[i as int].region@ == region@,
        final(totals).regions@[i as int].stats@ == stats_or_blank(old(totals)@, region@),
        final(totals)@ == old(totals)@.insert(region@, stats_or_blank(old(totals)@, region@)),
{
    let ghost old_pairs = region_pairs(totals.regions@);
    let mut i: usize = 0;
    while i < totals.regions.len()
        invariant
            *totals == *old(totals),
            old_pairs == region_pairs(totals.regions@),
            totals.wf(),
            i <= totals.regions@.len(),
            forall|j: int| 0 <= j < i ==> totals.regions@[j].region@ != region@,
        decreases totals.regions.len() - i,
    {
        if totals.regions[i].region == *region {
            proof {
                lemma_assoc_at(old_pairs, i as int);
                assert(old_pairs[i as int].0 == region@);
                assert(totals@ =~= totals@.insert(region@, stats_or_blank(totals@, region@)));
            }
            return i;
        }
        i = i + 1;
    }
    proof {
        lemma_assoc_dom(old_pairs, region@);
        if assoc(old_pairs).contains_key(region@) {
            let j = choose|j: int| 0 <= j < old_pairs.len() && old_pairs[j].0 == region@;
            assert(totals.regions@[j].region@ == region@);
        }
    }
    let stats = blank_ua_stats();
    let k = totals.regions.len();
    totals.regions.push(RegionStats { region: region.clone(), stats });
    proof {
        assert(region_pairs(totals.regions@) =~= old_pairs.push((region@, blank_stats())));
        lemma_assoc_push(old_pairs, region@, blank_stats());
        assert forall|j: int| 0 <= j < totals.regions@.len() implies (
        #[trigger] totals.regions@[j]).stats.wf() by {
            if j < k {
                assert(totals.regions@[j] == old(totals).regions@[j]);
            }
        }
    }
    k
}

/// Counts every pair of `data` whose key is of the kind `pass`; returns
/// `false` when a counter of that kind holds no number or a total does not
/// fit in 64 bits.
fn add_pass(totals: &mut RegionTotals, data: &Vec<(String, String)>, pass: KeyKind) -> (ok: bool)
    requires
        old(totals).wf(),
        old(totals)@ == progress(pairs_text(data@), pass, 0),
    ensures
        ok ==> final(totals).wf() && final(totals)@ == progress(
            pairs_text(data@),
            pass,
            data@.len() as int,
        ),
        !ok ==> !(counts_readable(pairs_text(data@)) && totals_fit(pairs_text(data@))),
        ok ==> forall|i: int|
            0 <= i < data@.len() && is_kind(pass, (#[trigger] pairs_text(data@)[i]).0) ==> count_text(
                pairs_text(data@)[i].1,
            ) is Some,
{
    let ghost d = pairs_text(data@);
    let mut j: usize = 0;
    while j < data.len()
        invariant
            d == pairs_text(data@),
            d.len() == data@.len(),
            j <= data@.len(),
            totals.wf(),
            totals@ == progress(d, pass, j as int),
            forall|i: int| 0 <= i < j && is_kind(pass, (#[trigger] d[i]).0) ==> count_text(d[i].1) is Some,
        decreases data.len() - j,
    {
        let key = &data[j].0;
        let value = &data[j].1;
        let ghost e = d[j as int];
        assert(e == (key@, value@));
        let matched = match pass {
            KeyKind::Visits => !contains_char(key.as_str(), ':'),
            KeyKind::Os => contains_str(key.as_str(), ":os:"),
            KeyKind::Browsers => contains_str(key.as_str(), ":browser:"),
        };
        assert(matched == is_kind(pass, key@));
        proof {
            let dv = stage(d, pass, KeyKind::Visits, j as int);
            let dos = stage(d, pass, KeyKind::Os, j as int);
            let db = stage(d, pass, KeyKind::Browsers, j as int);
            assert(d.take(j + 1) =~= d.take(j as int).push(e));
            lemma_tally_push(dv, dos, db, pass, e);
            match pass {
                KeyKind::Visits => {
                    assert(progress(d, pass, j + 1) == tally(dv.push(e), dos, db));
                },
                KeyKind::Os => {
                    assert(progress(d, pass, j + 1) == tally(dv, dos.push(e), db));
                },
                KeyKind::Browsers => {
                    assert(progress(d, pass, j + 1) == tally(dv, dos, db.push(e)));
                },
            }
            assert(progress(d, pass, j + 1) == apply_entry(progress(d, pass, j as int), pass, e));
        }
        if matched {
            let n = match parse_count(value.as_str()) {
                Some(n) => n,
                None => {
                    assert(!counts_readable(d)) by {
                        assert(is_visit_key(d[j as int].0) || is_os_key(d[j as int].0)
                            || is_browser_key(d[j as int].0));
                    }
                    return false;
                },
            };
            assert(n as int == count_value(e.1));
            let (region, label) = match pass {
                KeyKind::Visits => (key.clone(), String::new()),
                _ => {
                    let parts = split_pieces(key.as_str(), ':');
                    proof {
                        reveal_strlit(":os:");
                        reveal_strlit(":browser:");
                        lemma_three_pieces(key@, if pass is Os { ":os:"@ } else { ":browser:"@ }, ':');
                        assert(texts(parts@)[0] == parts@[0]@);
                        assert(texts(parts@)[2] == parts@[2]@);
                    }
                    (parts[0].clone(), parts[2].clone())
                },
            };
            assert(region@ == region_of(pass, key@));
            assert(!(pass is Visits) ==> label@ == label_of(key@));
            let ghost before = totals@;
            let i = region_index(totals, &region);
            let ghost mid_regions = totals.regions@;
            let ghost mid_pairs = region_pairs(totals.regions@);
            let mut entry = totals.regions.remove(i);
            assert(entry.stats.wf());
            let ghost after = apply_entry(before, pass, e);
            let ghost r = region@;
            let ghost l = if pass is Visits {
                Seq::<char>::empty()
            } else {
                label@
            };
            proof {
                assert(after.contains_key(r));
                assert(entry == mid_regions[i as int]);
                assert(entry.stats@ == stats_or_blank(before, r));
                assert(after == progress(d, pass, j + 1));
                assert(stage(d, pass, pass, j + 1) == d.take(j + 1));
                assert(after[r] == stats_spec(
                    stage(d, pass, KeyKind::Visits, j + 1),
                    stage(d, pass, KeyKind::Os, j + 1),
                    stage(d, pass, KeyKind::Browsers, j + 1),
                    r,
                ));
                lemma_total_prefix(d, j + 1, pass, r, l);
                match pass {
                    KeyKind::Visits => {
                        assert(after[r].visits == entry.stats@.visits + n);
                        assert(after[r].visits == total_of(d.take(j + 1), pass, r, l));
                    },
                    KeyKind::Os => {
                        assert(after[r].os == bump(entry.stats@.os, l, n as int));
                        assert(after[r].os.contains_key(l));
                        assert(after[r].os[l] == total_of(d.take(j + 1), pass, r, l));
                    },
                    KeyKind::Browsers => {
                        assert(after[r].browsers == bump(entry.stats@.browsers, l, n as int));
                        assert(after[r].browsers.contains_key(l));
                        assert(after[r].browsers[l] == total_of(d.take(j + 1), pass, r, l));
                    },
                }
            }
            let ok = match pass {
                KeyKind::Visits => match entry.stats.visits.checked_add(n) {
                    Some(v) => {
                        entry.stats.visits = v;
                        true
                    },
                    None => false,
                },
                KeyKind::Os => bump_counter(&mut entry.stats.os, &label, n),
                KeyKind::Browsers => bump_counter(&mut entry.stats.browsers, &label, n),
            };
            if !ok {
                assert(total_of(d, pass, r, l) > u64::MAX);
                assert(!totals_fit(d));
                return false;
            }
            totals.regions.insert(i, entry);
            proof {
                assert(totals.regions@ =~= mid_regions.update(i as int, entry));
                assert forall|k: int| 0 <= k < totals.regions@.len() implies (
                #[trigger] totals.regions@[k]).stats.wf() by {
                    if k != i {
                        assert(totals.regions@[k] == mid_regions[k]);
                    }
                }
                assert(region_pairs(totals.regions@) =~= mid_pairs.update(
                    i as int,
                    (mid_pairs[i as int].0, entry.stats@),
                ));
                lemma_assoc_update(mid_pairs, i as int, entry.stats@);
                assert(entry.stats@ =~= after[r]);
                assert(totals@ =~= after);
            }
        }
        j = j + 1;
    }
    assert(d.take(data@.len() as int) =~= d);
    true
}

/// The totals per region of the counters read from the store, as `(key,
/// value)` pairs, or `None` when a counter of one of the three kinds holds no
/// number or a total does not fit in 64 bits. The three passes add, in turn,
/// the visit counters, the operating-system counters and the browser counters.
pub fn checked_region_totals(data: &Vec<(String, String)>) -> (r: Option<RegionTotals>)
    ensures
        r is None <==> !(counts_readable(pairs_text(data@)) && totals_fit(pairs_text(data@))),
        r matches Some(t) ==> t.wf() && t@ == region_totals_spec(pairs_text(data@)),
{
    let ghost d = pairs_text(data@);
    let mut t = RegionTotals { regions: Vec::new() };
    proof {
        assert(region_pairs(t.regions@) =~= Seq::empty());
        let e = Seq::<(Seq<char>, Seq<char>)>::empty();
        assert(d.take(0) =~= e);
        assert(progress(d, KeyKind::Visits, 0) =~= t@);
    }
    if !add_pass(&mut t, data, KeyKind::Visits) {
        return None;
    }
    assert(d.take(d.len() as int) =~= d);
    assert(d.take(0) =~= Seq::<(Seq<char>, Seq<char>)>::empty());
    assert(progress(d, KeyKind::Visits, d.len() as int) == progress(d, KeyKind::Os, 0));
    if !add_pass(&mut t, data, KeyKind::Os) {
        return None;
    }
    assert(progress(d, KeyKind::Os, d.len() as int) == progress(d, KeyKind::Browsers, 0));
    if !add_pass(&mut t, data, KeyKind::Browsers) {
        return None;
    }
    assert(progress(d, KeyKind::Browsers, d.len() as int) == region_totals_spec(d));
    proof {
        assert(counts_readable(d)) by {
            assert forall|i: int|
                0 <= i < d.len() && (is_visit_key(#[trigger] d[i].0) || is_os_key(d[i].0)
                    || is_browser_key(d[i].0)) implies count_text(d[i].1) is Some by {
                assert(is_kind(KeyKind::Visits, d[i].0) || is_kind(KeyKind::Os, d[i].0) || is_kind(
                    KeyKind::Browsers,
                    d[i].0,
                ));
            }
        }
        lemma_all_fit(d, t);
    }
    Some(t)
}

/// Every count in a list of counters fits in 64 bits.
proof fn lemma_counter_bound(cs: Seq<Counter>, k: Seq<char>)
    requires
        counter_map(cs).contains_key(k),
    ensures
        counter_map(cs)[k] <= u64::MAX,
    decreases cs.len(),
{
    let p = counter_pairs(cs);
    if cs.len() > 0 {
        assert(p.drop_last() =~= counter_pairs(cs.drop_last()));
        if k != p.last().0 {
            lemma_counter_bound(cs.drop_last(), k);
        }
    }
}

/// The statistics of each listed region are those of one of its entries.
proof fn lemma_region_entry(rs: Seq<RegionStats>, k: Seq<char>)
    requires
        assoc(region_pairs(rs)).contains_key(k),
    ensures
        exists|i: int| 0 <= i < rs.len() && #[trigger] rs[i].stats@ == assoc(region_pairs(rs))[k],
    decreases rs.len(),
{
    let p = region_pairs(rs);
    assert(p.drop_last() =~= region_pairs(rs.drop_last()));
    if k == p.last().0 {
        assert(rs[rs.len() - 1].stats@ == assoc(p)[k]);
    } else {
        lemma_region_entry(rs.drop_last(), k);
        let i = choose|i: int| 0 <= i < rs.len() - 1 && #[trigger] rs.drop_last()[i].stats@ == assoc(
            region_pairs(rs.drop_last()),
        )[k];
        assert(rs[i] == rs.drop_last()[i]);
    }
}

/// A key that names a region and label names that region.
pub proof fn lemma_labelled_mentions(d: Seq<(Seq<char>, Seq<char>)>, kind: KeyKind, r: Seq<char>, l: Seq<char>)
    ensures
        labelled(d, kind, r, l) ==> mentions(d, kind, r),
    decreases d.len(),
{
    if d.len() > 0 {
        lemma_labelled_mentions(d.drop_last(), kind, r, l);
    }
}

/// When the totals could be held in 64-bit counters, every total fits in 64 bits.
proof fn lemma_all_fit(d: Seq<(Seq<char>, Seq<char>)>, t: RegionTotals)
    requires
        t.wf(),
        t@ == region_totals_spec(d),
    ensures
        totals_fit(d),
{
    assert forall|kind: KeyKind, r: Seq<char>, l: Seq<char>| #[trigger] total_of(d, kind, r, l) <= u64::MAX by {
        lemma_quiet(d, kind, r, l);
        lemma_labelled_mentions(d, kind, r, l);
        if t@.contains_key(r) {
            lemma_region_entry(t.regions@, r);
            let i = choose|i: int| 0 <= i < t.regions@.len() && #[trigger] t.regions@[i].stats@ == t@[r];
            let st = t.regions@[i].stats;
            match kind {
                KeyKind::Visits => {
                    lemma_visits_any_label(d, r, l);
                },
                KeyKind::Os => {
                    if labelled(d, kind, r, l) {
                        assert(t@[r].os.contains_key(l));
                        lemma_counter_bound(st.os@, l);
                    }
                },
                KeyKind::Browsers => {
                    if labelled(d, kind, r, l) {
                        assert(t@[r].browsers.contains_key(l));
                        lemma_counter_bound(st.browsers@, l);
                    }
                },
            }
        }
    }
}

/// The totals per region of the counters read from the store, as `(key,
/// value)` pairs, when every counter of the three kinds holds a number and
/// every total fits in 64 bits.
pub fn region_totals(data: &Vec<(String, String)>) -> (t: RegionTotals)
    requires
        counts_readable(pairs_text(data@)),
        totals_fit(pairs_text(data@)),
    ensures
        t.wf(),
        t@ == region_totals_spec(pairs_text(data@)),
{
    checked_region_totals(data).unwrap()
}

} // verus!
