//! One-way cache synchronization from the authoritative external store.
//!
//! The coordinator consumes a snapshot of the external store's topology —
//! per project, either the reported feature rows or a mark that the fetch
//! failed — and mirrors it into the local cache with insert-or-update
//! semantics. A failed project is skipped without touching its cached rows,
//! and never aborts the remaining projects. Mirroring the same snapshot
//! twice leaves the cache exactly where the first run left it.

use vstd::prelude::*;

use crate::model::FeatureV;
use crate::model::GraphFeatureSync;
use crate::model::GraphFeatureSyncV;
use crate::store::Database;
use crate::store::feature_index;
use crate::store::features_unique;
use crate::store::has_feature;
use crate::store::lemma_feature_index_at;
use crate::store::row_matches;
use crate::store::sync_row;

verus! {

/// What the external store reported for one project: its feature rows, or
/// `None` when the fetch for this project failed.
#[derive(Debug, PartialEq)]
pub struct ProjectSync {
    pub path: String,
    pub features: Option<Vec<GraphFeatureSync>>,
}

/// Specification-level value of a `ProjectSync`.
#[verifier::ext_equal]
pub ghost struct ProjectSyncV {
    pub path: Seq<char>,
    pub features: Option<Seq<GraphFeatureSyncV>>,
}

impl View for ProjectSync {
    type V = ProjectSyncV;

    open spec fn view(&self) -> ProjectSyncV {
        ProjectSyncV { path: self.path@, features: self.features.deep_view() }
    }
}

impl DeepView for ProjectSync {
    type V = ProjectSyncV;

    open spec fn deep_view(&self) -> ProjectSyncV {
        self.view()
    }
}

/// The rows of all successfully fetched projects, in snapshot order.
pub open spec fn snapshot_items(ps: Seq<ProjectSyncV>) -> Seq<GraphFeatureSyncV>
    decreases ps.len(),
{
    if ps.len() == 0 {
        Seq::empty()
    } else {
        snapshot_items(ps.drop_last()) + (match ps.last().features {
            Some(gs) => gs,
            None => Seq::empty(),
        })
    }
}

/// One insert-or-update of a reported row onto the cache.
pub open spec fn sync_upsert(fs: Seq<FeatureV>, g: GraphFeatureSyncV, now: i64) -> Seq<FeatureV> {
    if has_feature(fs, g.id) {
        fs.update(feature_index(fs, g.id), sync_row(Some(fs[feature_index(fs, g.id)]), g, now))
    } else {
        fs.push(sync_row(None, g, now))
    }
}

/// The cache after mirroring a list of reported rows, in order.
pub open spec fn sync_fold(fs: Seq<FeatureV>, items: Seq<GraphFeatureSyncV>, now: i64) -> Seq<
    FeatureV,
>
    decreases items.len(),
{
    if items.len() == 0 {
        fs
    } else {
        sync_upsert(sync_fold(fs, items.drop_last(), now), items.last(), now)
    }
}

/// No two reported rows share a feature id.
pub open spec fn items_ids_unique(items: Seq<GraphFeatureSyncV>) -> bool {
    forall|i: int, j: int| 0 <= i < j < items.len() ==> items[i].id != items[j].id
}

/// Mirrors a snapshot of the external store into the cache at wall-clock
/// second `now`: every reported row of every successfully fetched project is
/// upserted, in order; failed projects are skipped without touching their
/// cached rows. Returns the number of rows upserted.
pub fn sync_snapshot(db: &mut Database, snapshot: &Vec<ProjectSync>, now: i64) -> (count: usize)
    requires
        old(db).wf(),
        snapshot_items(snapshot.deep_view()).len() <= usize::MAX,
    ensures
        final(db).wf(),
        final(db)@.sessions == old(db)@.sessions,
        final(db)@.events == old(db)@.events,
        final(db)@.config == old(db)@.config,
        final(db)@.features == sync_fold(
            old(db)@.features,
            snapshot_items(snapshot.deep_view()),
            now,
        ),
        count == snapshot_items(snapshot.deep_view()).len(),
{
    let ghost fs0 = old(db)@.features;
    let ghost ps = snapshot.deep_view();
    let np = snapshot.len();
    let mut count: usize = 0;
    let mut p: usize = 0;
    proof {
        assert(ps.take(0) =~= Seq::<ProjectSyncV>::empty());
    }
    while p < np
        invariant
            p <= np,
            np == ps.len(),
            ps == snapshot.deep_view(),
            db.wf(),
            db@.sessions == old(db)@.sessions,
            db@.events == old(db)@.events,
            db@.config == old(db)@.config,
            db@.features == sync_fold(fs0, snapshot_items(ps.take(p as int)), now),
            count == snapshot_items(ps.take(p as int)).len(),
            snapshot_items(ps).len() <= usize::MAX,
        decreases np - p,
    {
        proof {
            assert(ps[p as int] == snapshot@[p as int].deep_view());
            lemma_snapshot_items_take(ps, p as int);
        }
        match &snapshot[p].features {
            None => {
                proof {
                    assert(ps[p as int].features is None);
                    assert(snapshot_items(ps.take(p as int + 1)) =~= snapshot_items(ps.take(
                        p as int,
                    )));
                }
            },
            Some(gs) => {
                let ghost items_before = snapshot_items(ps.take(p as int));
                let ghost here = ps[p as int].features->0;
                proof {
                    assert(gs.deep_view() == here);
                    assert(snapshot_items(ps.take(p as int + 1)) == items_before + here);
                    assert(here.take(0) =~= Seq::<GraphFeatureSyncV>::empty());
                    assert(items_before + here.take(0) =~= items_before);
                    lemma_items_bound(ps, p as int, here.len() as int);
                }
                let m = gs.len();
                let mut j: usize = 0;
                while j < m
                    invariant
                        j <= m,
                        m == here.len(),
                        here == gs.deep_view(),
                        db.wf(),
                        db@.sessions == old(db)@.sessions,
                        db@.events == old(db)@.events,
                        db@.config == old(db)@.config,
                        db@.features == sync_fold(fs0, items_before + here.take(j as int), now),
                        count == items_before.len() + j,
                        items_before.len() + here.len() <= usize::MAX,
                    decreases m - j,
                {
                    let ghost pre_features = db@.features;
                    db.sync_feature_from_graph(&gs[j], now);
                    proof {
                        assert(gs@[j as int]@ == here[j as int]);
                        let pre = items_before + here.take(j as int);
                        let post = items_before + here.take(j as int + 1);
                        assert(post.drop_last() =~= pre);
                        assert(post.last() == here[j as int]);
                        assert(db@.features == sync_upsert(pre_features, here[j as int], now));
                        assert(sync_fold(fs0, post, now) == sync_upsert(
                            sync_fold(fs0, pre, now),
                            here[j as int],
                            now,
                        ));
                    }
                    count = count + 1;
                    j = j + 1;
                }
                proof {
                    assert(here.take(m as int) =~= here);
                    assert(db@.features == sync_fold(fs0, items_before + here, now));
                }
            },
        }
        p = p + 1;
    }
    proof {
        assert(ps.take(np as int) =~= ps);
    }
    count
}

/// The items of a one-project-longer prefix are the items so far followed by
/// that project's rows.
proof fn lemma_snapshot_items_take(ps: Seq<ProjectSyncV>, p: int)
    requires
        0 <= p < ps.len(),
    ensures
        snapshot_items(ps.take(p + 1)) == snapshot_items(ps.take(p)) + (match ps[p].features {
            Some(gs) => gs,
            None => Seq::<GraphFeatureSyncV>::empty(),
        }),
{
    assert(ps.take(p + 1).drop_last() =~= ps.take(p));
    assert(ps.take(p + 1).last() == ps[p]);
}

/// Any prefix of the snapshot, extended item by item, stays within the total
/// item count.
proof fn lemma_items_bound(ps: Seq<ProjectSyncV>, p: int, j: int)
    requires
        0 <= p < ps.len(),
        0 <= j <= (match ps[p].features {
            Some(gs) => gs.len() as int,
            None => 0,
        }),
    ensures
        snapshot_items(ps.take(p)).len() + j <= snapshot_items(ps).len(),
    decreases ps.len() - p,
{
    lemma_snapshot_items_take(ps, p);
    if p + 1 == ps.len() {
        assert(ps.take(p + 1) =~= ps);
    } else {
        lemma_items_bound(ps, p + 1, 0);
    }
}

/// The row an upsert leaves behind carries everything the report says, so a
/// later application of the same report — at any clock second — leaves it
/// exactly itself.
proof fn lemma_sync_row_fixed(x: Option<FeatureV>, g: GraphFeatureSyncV, now: i64, later: i64)
    ensures
        row_matches(sync_row(x, g, now), g),
        sync_row(Some(sync_row(x, g, now)), g, later) == sync_row(x, g, now),
{
    assert(row_matches(sync_row(x, g, now), g));
}

/// One upsert keeps ids unique, settles the reported row, and leaves every
/// row with a different id in place, unchanged.
proof fn lemma_sync_upsert_preserves(fs: Seq<FeatureV>, g: GraphFeatureSyncV, now: i64)
    requires
        features_unique(fs),
    ensures
        features_unique(sync_upsert(fs, g, now)),
        has_feature(sync_upsert(fs, g, now), g.id),
        sync_upsert(fs, g, now)[feature_index(sync_upsert(fs, g, now), g.id)] == sync_row(
            if has_feature(fs, g.id) {
                Some(fs[feature_index(fs, g.id)])
            } else {
                None
            },
            g,
            now,
        ),
        forall|x: Seq<char>|
            x != g.id ==> #[trigger] has_feature(sync_upsert(fs, g, now), x) == has_feature(fs, x),
        forall|x: Seq<char>|
            x != g.id && has_feature(fs, x) ==> #[trigger] sync_upsert(fs, g, now)[feature_index(
                sync_upsert(fs, g, now),
                x,
            )] == fs[feature_index(fs, x)],
{
    let post = sync_upsert(fs, g, now);
    if has_feature(fs, g.id) {
        let i = feature_index(fs, g.id);
        assert(0 <= i < fs.len() && fs[i].id == g.id);
        let row = sync_row(Some(fs[i]), g, now);
        assert(row.id == g.id);
        assert(post == fs.update(i, row));
        assert(forall|j: int| 0 <= j < post.len() ==> post[j].id == fs[j].id);
        assert(features_unique(post));
        lemma_feature_index_at(post, g.id, i);
        assert forall|x: Seq<char>| x != g.id implies #[trigger] has_feature(post, x)
            == has_feature(fs, x) by {
            if has_feature(post, x) {
                let j = choose|j: int| 0 <= j < post.len() && post[j].id == x;
                assert(fs[j].id == x);
            }
            if has_feature(fs, x) {
                let j = choose|j: int| 0 <= j < fs.len() && fs[j].id == x;
                assert(post[j].id == x);
            }
        }
        assert forall|x: Seq<char>| x != g.id && has_feature(fs, x) implies #[trigger] post[feature_index(post, x)] == fs[feature_index(fs, x)] by {
            let j = feature_index(fs, x);
            assert(0 <= j < fs.len() && fs[j].id == x);
            assert(j != i);
            assert(post[j] == fs[j]);
            lemma_feature_index_at(post, x, j);
        }
    } else {
        let row = sync_row(None, g, now);
        assert(row.id == g.id);
        assert(post == fs.push(row));
        assert forall|a: int, b: int| 0 <= a < b < post.len() implies post[a].id != post[b].id by {
            if b < fs.len() {
                assert(fs[a].id != fs[b].id);
            } else {
                assert(post[b].id == g.id);
                assert(post[a].id == fs[a].id);
                assert(!has_feature(fs, g.id));
                if fs[a].id == g.id {
                    assert(has_feature(fs, g.id));
                }
            }
        }
        lemma_feature_index_at(post, g.id, fs.len() as int);
        assert forall|x: Seq<char>| x != g.id implies #[trigger] has_feature(post, x)
            == has_feature(fs, x) by {
            if has_feature(post, x) {
                let j = choose|j: int| 0 <= j < post.len() && post[j].id == x;
                assert(j < fs.len());
                assert(fs[j].id == x);
            }
            if has_feature(fs, x) {
                let j = choose|j: int| 0 <= j < fs.len() && fs[j].id == x;
                assert(post[j].id == x);
            }
        }
        assert forall|x: Seq<char>| x != g.id && has_feature(fs, x) implies #[trigger] post[feature_index(post, x)] == fs[feature_index(fs, x)] by {
            let j = feature_index(fs, x);
            assert(0 <= j < fs.len() && fs[j].id == x);
            assert(post[j] == fs[j]);
            lemma_feature_index_at(post, x, j);
        }
    }
}

/// Folding reported rows keeps feature ids unique.
pub proof fn lemma_sync_fold_unique(fs: Seq<FeatureV>, items: Seq<GraphFeatureSyncV>, now: i64)
    requires
        features_unique(fs),
    ensures
        features_unique(sync_fold(fs, items, now)),
    decreases items.len(),
{
    if items.len() > 0 {
        lemma_sync_fold_unique(fs, items.drop_last(), now);
        lemma_sync_upsert_preserves(sync_fold(fs, items.drop_last(), now), items.last(), now);
    }
}

/// A report is settled in a cache when the row that carries its id already
/// holds everything it says, so applying it again — at any clock second —
/// would change nothing.
pub open spec fn settled(fs: Seq<FeatureV>, g: GraphFeatureSyncV) -> bool {
    &&& has_feature(fs, g.id)
    &&& row_matches(fs[feature_index(fs, g.id)], g)
}

/// After a full mirror run, every reported row is settled.
proof fn lemma_sync_fold_settles(fs: Seq<FeatureV>, items: Seq<GraphFeatureSyncV>, now: i64)
    requires
        features_unique(fs),
        items_ids_unique(items),
    ensures
        forall|k: int|
            0 <= k < items.len() ==> settled(sync_fold(fs, items, now), #[trigger] items[k]),
    decreases items.len(),
{
    if items.len() > 0 {
        let prev = sync_fold(fs, items.drop_last(), now);
        let g = items.last();
        let post = sync_fold(fs, items, now);
        lemma_sync_fold_settles(fs, items.drop_last(), now);
        lemma_sync_fold_unique(fs, items.drop_last(), now);
        lemma_sync_upsert_preserves(prev, g, now);
        assert(post == sync_upsert(prev, g, now));
        assert forall|k: int| 0 <= k < items.len() implies settled(post, #[trigger] items[k]) by {
            if k == items.len() - 1 {
                if has_feature(prev, g.id) {
                    lemma_sync_row_fixed(Some(prev[feature_index(prev, g.id)]), g, now, now);
                } else {
                    lemma_sync_row_fixed(None, g, now, now);
                }
            } else {
                assert(items[k] == items.drop_last()[k]);
                assert(items[k].id != g.id);
                assert(settled(prev, items[k]));
                assert(has_feature(post, items[k].id));
                assert(post[feature_index(post, items[k].id)] == prev[feature_index(
                    prev,
                    items[k].id,
                )]);
            }
        }
    }
}

/// Applying only settled reports changes nothing, whatever second the later
/// run happens at.
proof fn lemma_sync_fold_fixed(fs: Seq<FeatureV>, items: Seq<GraphFeatureSyncV>, later: i64)
    requires
        features_unique(fs),
        forall|k: int| 0 <= k < items.len() ==> settled(fs, #[trigger] items[k]),
    ensures
        sync_fold(fs, items, later) == fs,
    decreases items.len(),
{
    if items.len() > 0 {
        lemma_sync_fold_fixed(fs, items.drop_last(), later);
        let g = items.last();
        assert(settled(fs, g));
        assert(sync_upsert(fs, g, later) =~= fs);
    }
}

/// Mirroring an unchanged external snapshot a second time — at whatever
/// later second the next tick happens — produces exactly the cache state the
/// first run produced, provided the snapshot lists each feature id once,
/// which a store keyed by globally unique ids does.
pub proof fn lemma_sync_idempotent(
    fs: Seq<FeatureV>,
    items: Seq<GraphFeatureSyncV>,
    now: i64,
    later: i64,
)
    requires
        features_unique(fs),
        items_ids_unique(items),
    ensures
        sync_fold(sync_fold(fs, items, now), items, later) == sync_fold(fs, items, now),
{
    lemma_sync_fold_unique(fs, items, now);
    lemma_sync_fold_settles(fs, items, now);
    lemma_sync_fold_fixed(sync_fold(fs, items, now), items, later);
}

} // verus!
