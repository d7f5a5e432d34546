//! Retention policy: how long clipboard history is kept, and how much of it.
//!
//! Clips saved to a folder are exempt from both limits: anything pinned stays
//! whatever the history setting. A limit of zero or less means "keep forever"
//! for that dimension.

use vstd::prelude::*;
use crate::clipboard_formats::string_views;
use vstd::set_lib::*;
use vstd::relations::injective_on;

verus! {

/// What a single prune pass removed.
#[derive(Debug, PartialEq, Eq, Structural)]
pub struct PruneReport {
    /// Clips dropped because they were older than the retention window.
    pub by_age: u64,
    /// Clips dropped because the history was over its item limit.
    pub by_count: u64,
}

impl Default for PruneReport {
    fn default() -> (r: Self)
        ensures
            r.by_age == 0,
            r.by_count == 0,
    {
        PruneReport { by_age: 0, by_count: 0 }
    }
}

impl PruneReport {
    /// How many clips the pass removed in all.
    pub fn total(&self) -> (n: u64)
        requires
            self.by_age + self.by_count <= u64::MAX,
        ensures
            n == self.by_age + self.by_count,
    {
        self.by_age + self.by_count
    }
}

/// What retention reads of a clip.
#[derive(Debug, Clone)]
pub struct RetentionRow {
    pub uuid: String,
    /// The row id, which breaks ties between clips saved in the same second.
    pub id: i64,
    pub folder_id: Option<i64>,
    /// When the clip was saved, in seconds since the Unix epoch.
    pub created_at: i64,
}

/// The seconds in a day.
pub const SECONDS_PER_DAY: i64 = 86400;

/// The moment before which history expires, when there is an age limit.
pub open spec fn age_cutoff(now: i64, auto_delete_days: i64) -> Option<int> {
    if auto_delete_days > 0 {
        Some(now - auto_delete_days * SECONDS_PER_DAY)
    } else {
        None
    }
}

/// A history clip (one in no folder) older than the cutoff.
pub open spec fn expires(r: RetentionRow, cutoff: Option<int>) -> bool {
    &&& r.folder_id is None
    &&& cutoff matches Some(c) && r.created_at < c
}

/// A history clip that survives the age limit.
pub open spec fn in_history(r: RetentionRow, cutoff: Option<int>) -> bool {
    r.folder_id is None && !expires(r, cutoff)
}

/// `a` comes before `b` in the newest-first order: later, or as late with a
/// higher id.
pub open spec fn newer(a: RetentionRow, b: RetentionRow) -> bool {
    a.created_at > b.created_at || (a.created_at == b.created_at && a.id > b.id)
}

/// How many surviving history clips are newer than `r`.
pub open spec fn newer_count(rows: Seq<RetentionRow>, r: RetentionRow, cutoff: Option<int>) -> nat
    decreases rows.len(),
{
    if rows.len() == 0 {
        0
    } else {
        newer_count(rows.drop_last(), r, cutoff) + if in_history(rows.last(), cutoff) && newer(
            rows.last(),
            r,
        ) {
            1nat
        } else {
            0nat
        }
    }
}

/// A surviving history clip with at least `max_items` newer ones: it falls
/// outside the newest `max_items` and goes, when there is an item limit.
pub open spec fn over_limit(
    rows: Seq<RetentionRow>,
    r: RetentionRow,
    cutoff: Option<int>,
    max_items: i64,
) -> bool {
    &&& max_items > 0
    &&& in_history(r, cutoff)
    &&& newer_count(rows, r, cutoff) >= max_items
}

/// The uuids of the clips that expire, in row order.
pub open spec fn expired_uuids(rows: Seq<RetentionRow>, cutoff: Option<int>) -> Seq<Seq<char>>
    decreases rows.len(),
{
    if rows.len() == 0 {
        Seq::empty()
    } else if expires(rows.last(), cutoff) {
        expired_uuids(rows.drop_last(), cutoff).push(rows.last().uuid@)
    } else {
        expired_uuids(rows.drop_last(), cutoff)
    }
}

/// The uuids of the clips beyond the item limit among `rows.take(n)`, judged
/// against all of `rows`, in row order.
pub open spec fn excess_uuids_upto(
    rows: Seq<RetentionRow>,
    n: int,
    cutoff: Option<int>,
    max_items: i64,
) -> Seq<Seq<char>>
    decreases n,
{
    if n <= 0 || n > rows.len() {
        Seq::empty()
    } else if over_limit(rows, rows[n - 1], cutoff, max_items) {
        excess_uuids_upto(rows, n - 1, cutoff, max_items).push(rows[n - 1].uuid@)
    } else {
        excess_uuids_upto(rows, n - 1, cutoff, max_items)
    }
}

/// The uuids of the clips beyond the item limit, in row order.
pub open spec fn excess_uuids(rows: Seq<RetentionRow>, cutoff: Option<int>, max_items: i64) -> Seq<
    Seq<char>,
> {
    excess_uuids_upto(rows, rows.len() as int, cutoff, max_items)
}

/// The clips one prune pass removes.
pub struct PrunePlan {
    /// History older than the retention window.
    pub expired: Vec<String>,
    /// History beyond the item limit, among what the age limit left.
    pub excess: Vec<String>,
}

impl PrunePlan {
    /// The report for a pass that removed exactly the planned clips.
    pub fn report(&self) -> (r: PruneReport)
        ensures
            r.by_age == self.expired@.len(),
            r.by_count == self.excess@.len(),
    {
        PruneReport { by_age: self.expired.len() as u64, by_count: self.excess.len() as u64 }
    }
}

fn count_newer(rows: &Vec<RetentionRow>, r: &RetentionRow, cutoff: Option<i128>) -> (n: usize)
    ensures
        n == newer_count(
            rows@,
            *r,
            match cutoff {
                Some(c) => Some(c as int),
                None => None,
            },
        ),
{
    let ghost c = match cutoff {
        Some(c) => Some(c as int),
        None => None::<int>,
    };
    let mut n: usize = 0;
    let mut j: usize = 0;
    assert(rows@.take(0) =~= Seq::<RetentionRow>::empty());
    while j < rows.len()
        invariant
            j <= rows@.len(),
            n <= j,
            c == match cutoff {
                Some(x) => Some(x as int),
                None => None::<int>,
            },
            n == newer_count(rows@.take(j as int), *r, c),
        decreases rows.len() - j,
    {
        let s = &rows[j];
        proof {
            assert(rows@.take(j + 1).drop_last() =~= rows@.take(j as int));
            assert(rows@.take(j + 1).last() == rows@[j as int]);
        }
        let expired = match cutoff {
            Some(cut) => s.folder_id.is_none() && (s.created_at as i128) < cut,
            None => false,
        };
        let history = s.folder_id.is_none() && !expired;
        let is_newer = s.created_at > r.created_at || (s.created_at == r.created_at && s.id
            > r.id);
        if history && is_newer {
            n = n + 1;
        }
        j = j + 1;
    }
    assert(rows@.take(rows@.len() as int) =~= rows@);
    n
}

/// Decides what one prune pass removes: history older than `auto_delete_days`
/// days before `now`, then, of the history that leaves, everything beyond the
/// newest `max_items` (newest by time, then by id).
pub fn plan_prune(
    rows: &Vec<RetentionRow>,
    now: i64,
    auto_delete_days: i64,
    max_items: i64,
) -> (plan: PrunePlan)
    ensures
        string_views(plan.expired@) == expired_uuids(rows@, age_cutoff(now, auto_delete_days)),
        string_views(plan.excess@) == excess_uuids(
            rows@,
            age_cutoff(now, auto_delete_days),
            max_items,
        ),
{
    let cutoff: Option<i128> = if auto_delete_days > 0 {
        Some(now as i128 - (auto_delete_days as i128) * 86400)
    } else {
        None
    };
    let ghost c = age_cutoff(now, auto_delete_days);
    assert(c == match cutoff {
        Some(x) => Some(x as int),
        None => None::<int>,
    });
    let mut expired: Vec<String> = Vec::new();
    let mut excess: Vec<String> = Vec::new();
    let mut i: usize = 0;
    assert(rows@.take(0) =~= Seq::<RetentionRow>::empty());
    while i < rows.len()
        invariant
            i <= rows@.len(),
            c == age_cutoff(now, auto_delete_days),
            c == match cutoff {
                Some(x) => Some(x as int),
                None => None::<int>,
            },
            string_views(expired@) == expired_uuids(rows@.take(i as int), c),
            string_views(excess@) == excess_uuids_upto(rows@, i as int, c, max_items),
        decreases rows.len() - i,
    {
        let r = &rows[i];
        proof {
            assert(rows@.take(i + 1).drop_last() =~= rows@.take(i as int));
            assert(rows@.take(i + 1).last() == rows@[i as int]);
        }
        let is_expired = match cutoff {
            Some(cut) => r.folder_id.is_none() && (r.created_at as i128) < cut,
            None => false,
        };
        if is_expired {
            let ghost before = expired@;
            expired.push(r.uuid.clone());
            assert(string_views(expired@) =~= string_views(before).push(r.uuid@));
        } else if r.folder_id.is_none() && max_items > 0 {
            let newer_ones = count_newer(rows, r, cutoff);
            if newer_ones as u64 >= max_items as u64 {
                let ghost before = excess@;
                excess.push(r.uuid.clone());
                assert(string_views(excess@) =~= string_views(before).push(r.uuid@));
            }
        }
        i = i + 1;
    }
    assert(rows@.take(rows@.len() as int) =~= rows@);
    PrunePlan { expired, excess }
}

// ---------------------------------------------------------------------------
// What retention promises
// ---------------------------------------------------------------------------

/// A history clip that is still there after the pass.
pub open spec fn survives(
    rows: Seq<RetentionRow>,
    r: RetentionRow,
    cutoff: Option<int>,
    max_items: i64,
) -> bool {
    in_history(r, cutoff) && !over_limit(rows, r, cutoff, max_items)
}

proof fn lemma_push_contains(s: Seq<Seq<char>>, x: Seq<char>, u: Seq<char>)
    requires
        s.push(x).contains(u),
        x != u,
    ensures
        s.contains(u),
{
    let j = choose|j: int| 0 <= j < s.push(x).len() && #[trigger] s.push(x)[j] == u;
    assert(j < s.len());
    assert(s[j] == u);
}

proof fn lemma_expired_uuids_from_rows(rows: Seq<RetentionRow>, cutoff: Option<int>, u: Seq<char>)
    requires
        expired_uuids(rows, cutoff).contains(u),
    ensures
        exists|k: int| 0 <= k < rows.len() && expires(rows[k], cutoff) && (#[trigger] rows[k]).uuid@ == u,
    decreases rows.len(),
{
    if rows.len() > 0 {
        let rest = expired_uuids(rows.drop_last(), cutoff);
        if expires(rows.last(), cutoff) && rows.last().uuid@ == u {
            assert(rows[rows.len() - 1] == rows.last());
        } else {
            if expires(rows.last(), cutoff) {
                lemma_push_contains(rest, rows.last().uuid@, u);
            }
            lemma_expired_uuids_from_rows(rows.drop_last(), cutoff, u);
            let k = choose|k: int| 0 <= k < rows.drop_last().len() && expires(rows.drop_last()[k], cutoff) && (#[trigger] rows.drop_last()[k]).uuid@ == u;
            assert(rows[k] == rows.drop_last()[k]);
        }
    }
}

proof fn lemma_excess_uuids_from_rows(
    rows: Seq<RetentionRow>,
    n: int,
    cutoff: Option<int>,
    max_items: i64,
    u: Seq<char>,
)
    requires
        excess_uuids_upto(rows, n, cutoff, max_items).contains(u),
    ensures
        exists|k: int|
            0 <= k < rows.len() && over_limit(rows, rows[k], cutoff, max_items) && (
            #[trigger] rows[k]).uuid@ == u,
    decreases n,
{
    if 0 < n <= rows.len() {
        let rest = excess_uuids_upto(rows, n - 1, cutoff, max_items);
        if over_limit(rows, rows[n - 1], cutoff, max_items) && rows[n - 1].uuid@ == u {
        } else {
            if over_limit(rows, rows[n - 1], cutoff, max_items) {
                lemma_push_contains(rest, rows[n - 1].uuid@, u);
            }
            lemma_excess_uuids_from_rows(rows, n - 1, cutoff, max_items, u);
        }
    }
}

proof fn lemma_no_cutoff_expires_nothing(rows: Seq<RetentionRow>)
    ensures
        expired_uuids(rows, None) == Seq::<Seq<char>>::empty(),
    decreases rows.len(),
{
    if rows.len() > 0 {
        lemma_no_cutoff_expires_nothing(rows.drop_last());
    }
}

proof fn lemma_no_limit_drops_nothing(rows: Seq<RetentionRow>, n: int, cutoff: Option<int>, max_items: i64)
    requires
        max_items <= 0,
    ensures
        excess_uuids_upto(rows, n, cutoff, max_items) == Seq::<Seq<char>>::empty(),
    decreases n,
{
    if 0 < n <= rows.len() {
        lemma_no_limit_drops_nothing(rows, n - 1, cutoff, max_items);
    }
}

/// A limit of zero or less means "keep forever": with neither an age limit
/// nor an item limit, a prune pass removes nothing.
pub proof fn lemma_no_limits_keep_everything(
    rows: Seq<RetentionRow>,
    now: i64,
    auto_delete_days: i64,
    max_items: i64,
)
    requires
        auto_delete_days <= 0,
        max_items <= 0,
    ensures
        expired_uuids(rows, age_cutoff(now, auto_delete_days)).len() == 0,
        excess_uuids(rows, age_cutoff(now, auto_delete_days), max_items).len() == 0,
{
    lemma_no_cutoff_expires_nothing(rows);
    lemma_no_limit_drops_nothing(rows, rows.len() as int, None, max_items);
}

proof fn lemma_newer_count_ignores_folder_clip(
    rows: Seq<RetentionRow>,
    f: RetentionRow,
    r: RetentionRow,
    cutoff: Option<int>,
)
    requires
        f.folder_id is Some,
    ensures
        newer_count(rows.push(f), r, cutoff) == newer_count(rows, r, cutoff),
{
    assert(rows.push(f).drop_last() =~= rows);
}

proof fn lemma_excess_upto_ignores_folder_clip(
    rows: Seq<RetentionRow>,
    f: RetentionRow,
    n: int,
    cutoff: Option<int>,
    max_items: i64,
)
    requires
        f.folder_id is Some,
        n <= rows.len(),
    ensures
        excess_uuids_upto(rows.push(f), n, cutoff, max_items) == excess_uuids_upto(
            rows,
            n,
            cutoff,
            max_items,
        ),
    decreases n,
{
    if 0 < n {
        lemma_excess_upto_ignores_folder_clip(rows, f, n - 1, cutoff, max_items);
        assert(rows.push(f)[n - 1] == rows[n - 1]);
        lemma_newer_count_ignores_folder_clip(rows, f, rows[n - 1], cutoff);
    }
}

/// Law: clips saved to a folder play no part in either limit. Adding a folder
/// clip to the clips a pass looks at changes neither which clips expire nor
/// which fall beyond the item limit: only clips in plain history are ranked
/// against the limit.
pub proof fn lemma_folder_clips_do_not_count(
    rows: Seq<RetentionRow>,
    folder_clip: RetentionRow,
    now: i64,
    auto_delete_days: i64,
    max_items: i64,
)
    requires
        folder_clip.folder_id is Some,
    ensures
        expired_uuids(rows.push(folder_clip), age_cutoff(now, auto_delete_days)) == expired_uuids(
            rows,
            age_cutoff(now, auto_delete_days),
        ),
        excess_uuids(rows.push(folder_clip), age_cutoff(now, auto_delete_days), max_items)
            == excess_uuids(rows, age_cutoff(now, auto_delete_days), max_items),
{
    let c = age_cutoff(now, auto_delete_days);
    let big = rows.push(folder_clip);
    assert(big.drop_last() =~= rows);
    lemma_excess_upto_ignores_folder_clip(rows, folder_clip, rows.len() as int, c, max_items);
    assert(big[rows.len() as int] == folder_clip);
    assert(!over_limit(big, folder_clip, c, max_items));
}

/// How many clips are in plain history and survive the age limit.
pub open spec fn history_count(rows: Seq<RetentionRow>, cutoff: Option<int>) -> nat
    decreases rows.len(),
{
    if rows.len() == 0 {
        0
    } else {
        history_count(rows.drop_last(), cutoff) + if in_history(rows.last(), cutoff) {
            1nat
        } else {
            0nat
        }
    }
}

proof fn lemma_newer_count_below_history(rows: Seq<RetentionRow>, r: RetentionRow, cutoff: Option<int>)
    ensures
        newer_count(rows, r, cutoff) + (if rows.contains(r) && in_history(r, cutoff) {
            1int
        } else {
            0int
        }) <= history_count(rows, cutoff),
    decreases rows.len(),
{
    if rows.len() > 0 {
        let pre = rows.drop_last();
        lemma_newer_count_below_history(pre, r, cutoff);
        assert(rows =~= pre.push(rows.last()));
        if rows.contains(r) && !pre.contains(r) {
            let k = choose|k: int| 0 <= k < rows.len() && rows[k] == r;
            if k < pre.len() {
                assert(pre[k] == r);
            }
            assert(rows.last() == r);
        }
        if pre.contains(r) {
            let k = choose|k: int| 0 <= k < pre.len() && pre[k] == r;
            assert(rows[k] == r);
        }
    }
}

proof fn lemma_no_excess_within_limit(rows: Seq<RetentionRow>, n: int, cutoff: Option<int>, max_items: i64)
    requires
        history_count(rows, cutoff) <= max_items,
        n <= rows.len(),
    ensures
        excess_uuids_upto(rows, n, cutoff, max_items) == Seq::<Seq<char>>::empty(),
    decreases n,
{
    if 0 < n {
        lemma_no_excess_within_limit(rows, n - 1, cutoff, max_items);
        assert(rows.contains(rows[n - 1]));
        lemma_newer_count_below_history(rows, rows[n - 1], cutoff);
    }
}

/// Law: a history no longer than the item limit loses nothing to it. When at
/// most `max_items` clips of plain history survive the age limit, the pass
/// drops no clip for the item limit.
pub proof fn lemma_history_within_the_limit_is_kept(
    rows: Seq<RetentionRow>,
    now: i64,
    auto_delete_days: i64,
    max_items: i64,
)
    requires
        history_count(rows, age_cutoff(now, auto_delete_days)) <= max_items,
    ensures
        excess_uuids(rows, age_cutoff(now, auto_delete_days), max_items).len() == 0,
{
    lemma_no_excess_within_limit(rows, rows.len() as int, age_cutoff(now, auto_delete_days), max_items);
}

/// Clips saved to a folder never expire and never count against the item
/// limit: with uuids unique, no folder clip is in either list a pass removes.
pub proof fn lemma_folder_clips_are_never_pruned(
    rows: Seq<RetentionRow>,
    now: i64,
    auto_delete_days: i64,
    max_items: i64,
)
    requires
        forall|i: int, j: int| 0 <= i < j < rows.len() ==> rows[i].uuid@ != rows[j].uuid@,
    ensures
        forall|i: int|
            0 <= i < rows.len() && (#[trigger] rows[i]).folder_id is Some ==> {
                &&& !expired_uuids(rows, age_cutoff(now, auto_delete_days)).contains(rows[i].uuid@)
                &&& !excess_uuids(rows, age_cutoff(now, auto_delete_days), max_items).contains(
                    rows[i].uuid@,
                )
            },
{
    let c = age_cutoff(now, auto_delete_days);
    assert forall|i: int| 0 <= i < rows.len() && (#[trigger] rows[i]).folder_id is Some implies {
        &&& !expired_uuids(rows, c).contains(rows[i].uuid@)
        &&& !excess_uuids(rows, c, max_items).contains(rows[i].uuid@)
    } by {
        if expired_uuids(rows, c).contains(rows[i].uuid@) {
            lemma_expired_uuids_from_rows(rows, c, rows[i].uuid@);
            let k = choose|k: int| 0 <= k < rows.len() && expires(rows[k], c) && (#[trigger] rows[k]).uuid@ == rows[i].uuid@;
            assert(k == i);
        }
        if excess_uuids(rows, c, max_items).contains(rows[i].uuid@) {
            lemma_excess_uuids_from_rows(rows, rows.len() as int, c, max_items, rows[i].uuid@);
            let k = choose|k: int| 0 <= k < rows.len() && over_limit(rows, rows[k], c, max_items) && (#[trigger] rows[k]).uuid@ == rows[i].uuid@;
            assert(k == i);
        }
    }
}

proof fn lemma_newer_count_monotone(rows: Seq<RetentionRow>, a: RetentionRow, b: RetentionRow, cutoff: Option<int>)
    requires
        newer(a, b),
    ensures
        newer_count(rows, b, cutoff) >= newer_count(rows, a, cutoff),
    decreases rows.len(),
{
    if rows.len() > 0 {
        lemma_newer_count_monotone(rows.drop_last(), a, b, cutoff);
    }
}

proof fn lemma_newer_count_strict(rows: Seq<RetentionRow>, k: int, b: RetentionRow, cutoff: Option<int>)
    requires
        0 <= k < rows.len(),
        newer(rows[k], b),
        in_history(rows[k], cutoff),
    ensures
        newer_count(rows, b, cutoff) >= newer_count(rows, rows[k], cutoff) + 1,
    decreases rows.len(),
{
    let a = rows[k];
    if k == rows.len() - 1 {
        lemma_newer_count_monotone(rows.drop_last(), a, b, cutoff);
        assert(rows.last() == a);
    } else {
        assert(rows.drop_last()[k] == a);
        lemma_newer_count_strict(rows.drop_last(), k, b, cutoff);
    }
}

/// The clips dropped for the item limit are older than every clip kept:
/// what survives is the newest part of the history.
pub proof fn lemma_kept_history_is_newer_than_dropped(
    rows: Seq<RetentionRow>,
    now: i64,
    auto_delete_days: i64,
    max_items: i64,
    kept: int,
    dropped: int,
)
    requires
        forall|i: int, j: int| 0 <= i < j < rows.len() ==> rows[i].id != rows[j].id,
        0 <= kept < rows.len(),
        0 <= dropped < rows.len(),
        survives(rows, rows[kept], age_cutoff(now, auto_delete_days), max_items),
        over_limit(rows, rows[dropped], age_cutoff(now, auto_delete_days), max_items),
    ensures
        newer(rows[kept], rows[dropped]),
{
    let c = age_cutoff(now, auto_delete_days);
    if !newer(rows[kept], rows[dropped]) {
        assert(kept != dropped);
        assert(newer(rows[dropped], rows[kept]));
        lemma_newer_count_strict(rows, dropped, rows[kept], c);
    }
}

/// After a pass with an item limit, no more than `max_items` history clips
/// remain. Row ids are unique, so the newest-first order is total.
pub proof fn lemma_item_limit_is_respected(
    rows: Seq<RetentionRow>,
    now: i64,
    auto_delete_days: i64,
    max_items: i64,
)
    requires
        max_items > 0,
        forall|i: int, j: int| 0 <= i < j < rows.len() ==> rows[i].id != rows[j].id,
    ensures
        Set::new(
            |i: int|
                0 <= i < rows.len() && survives(
                    rows,
                    rows[i],
                    age_cutoff(now, auto_delete_days),
                    max_items,
                ),
        ).len() <= max_items,
{
    let c = age_cutoff(now, auto_delete_days);
    let k = Set::new(|i: int| 0 <= i < rows.len() && survives(rows, rows[i], c, max_items));
    let f = |i: int| newer_count(rows, rows[i], c) as int;
    lemma_int_range(0, rows.len() as int);
    assert(k.subset_of(set_int_range(0, rows.len() as int)));
    lemma_len_subset(k, set_int_range(0, rows.len() as int));
    assert(injective_on(f, k)) by {
        assert forall|x: int, y: int| k.contains(x) && k.contains(y) && #[trigger] f(x) == #[trigger] f(y) implies x == y by {
            if x != y {
                if newer(rows[x], rows[y]) {
                    lemma_newer_count_strict(rows, x, rows[y], c);
                } else {
                    assert(newer(rows[y], rows[x]));
                    lemma_newer_count_strict(rows, y, rows[x], c);
                }
            }
        }
    }
    let image = k.map(f);
    lemma_map_size(k, image, f);
    lemma_int_range(0, max_items as int);
    assert(image.subset_of(set_int_range(0, max_items as int))) by {
        assert forall|v: int| image.contains(v) implies set_int_range(0, max_items as int).contains(v) by {
            let x = choose|x: int| k.contains(x) && f(x) == v;
        }
    }
    lemma_len_subset(image, set_int_range(0, max_items as int));
}

} // verus!
