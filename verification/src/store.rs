//! The local cache: an in-memory keyed store for feature, session, and event
//! records, together with the update-arbitration rule that mediates every
//! direct feature write.
//!
//! Features and sessions are keyed rows (unique ids); events are append-only
//! and numbered from one in insertion order.

use vstd::prelude::*;

use crate::model::AgentEvent;
use crate::model::AgentEventV;
use crate::model::Config;
use crate::model::ConfigV;
use crate::model::Feature;
use crate::model::FeatureV;
use crate::model::FeatureUpdate;
use crate::model::GraphFeatureSync;
use crate::model::GraphFeatureSyncV;
use crate::model::Session;
use crate::model::SessionV;
use crate::model::Stats;
use crate::model::UpdateSource;
use crate::model::applied_update;
use crate::model::override_active;
use crate::model::update_is_empty;

verus! {

/// Some row in `fs` carries the id.
pub open spec fn has_feature(fs: Seq<FeatureV>, id: Seq<char>) -> bool {
    exists|i: int| 0 <= i < fs.len() && fs[i].id == id
}

/// The index of the row carrying the id (meaningful when ids are unique).
pub open spec fn feature_index(fs: Seq<FeatureV>, id: Seq<char>) -> int {
    choose|i: int| 0 <= i < fs.len() && fs[i].id == id
}

/// No two rows share a feature id.
pub open spec fn features_unique(fs: Seq<FeatureV>) -> bool {
    forall|i: int, j: int| 0 <= i < j < fs.len() ==> fs[i].id != fs[j].id
}

/// Some row in `ss` carries the session id.
pub open spec fn has_session(ss: Seq<SessionV>, id: Seq<char>) -> bool {
    exists|i: int| 0 <= i < ss.len() && ss[i].session_id == id
}

/// The index of the session row carrying the id (meaningful when ids are unique).
pub open spec fn session_index(ss: Seq<SessionV>, id: Seq<char>) -> int {
    choose|i: int| 0 <= i < ss.len() && ss[i].session_id == id
}

/// No two rows share a session id.
pub open spec fn sessions_unique(ss: Seq<SessionV>) -> bool {
    forall|i: int, j: int| 0 <= i < j < ss.len() ==> ss[i].session_id != ss[j].session_id
}

/// Events are numbered from one in insertion order.
pub open spec fn events_numbered(es: Seq<AgentEventV>) -> bool {
    forall|i: int| 0 <= i < es.len() ==> es[i].id == Some((i + 1) as i64)
}

/// The row already carries everything the external store reports: same
/// project path, description, category, translated status booleans, and
/// steps.
pub open spec fn row_matches(f: FeatureV, g: GraphFeatureSyncV) -> bool {
    &&& f.project_dir == g.project_dir
    &&& f.description == g.description
    &&& f.category == g.category
    &&& f.passes == (g.status == "complete"@)
    &&& f.in_progress == (g.status == "in_progress"@)
    &&& f.steps == Some(g.steps)
}

/// The row an upsert from the authoritative external store leaves behind:
/// reported status translated to the two local booleans (`complete` means
/// passing, `in_progress` means in progress, anything else neither), reported
/// topology fields replacing the row's, and every field the external store
/// does not know about kept from the existing row, or defaulted on a fresh
/// one. A row that already carries everything the report says is left wholly
/// untouched — its update timestamp included — so mirroring an unchanged
/// snapshot again, however much later, changes nothing.
pub open spec fn sync_row(old_row: Option<FeatureV>, g: GraphFeatureSyncV, now: i64) -> FeatureV {
    let passes = g.status == "complete"@;
    let in_progress = g.status == "in_progress"@;
    match old_row {
        None => FeatureV {
            id: g.id,
            project_dir: g.project_dir,
            description: g.description,
            category: g.category,
            passes: passes,
            in_progress: in_progress,
            agent: None,
            steps: Some(g.steps),
            work_count: 0,
            completion_criteria: None,
            updated_at: now,
            confidence: None,
            model: None,
            is_streaming: false,
            retry_count: 0,
            token_cost: None,
            has_error: false,
            last_agent_update: None,
            manual_priority: None,
            human_override_until: None,
        },
        Some(f) => {
            if row_matches(f, g) {
                f
            } else {
                FeatureV {
                    project_dir: g.project_dir,
                    description: g.description,
                    category: g.category,
                    passes: passes,
                    in_progress: in_progress,
                    steps: Some(g.steps),
                    updated_at: now,
                    ..f
                }
            }
        },
    }
}

/// Outcome of one arbitrated feature update at second `now`: a missing row
/// is untouched and the call succeeds only for an empty update; an active
/// human override rejects an agent-sourced update outright; an empty update
/// short-circuits; otherwise the one row is sparsely merged and stamped, and
/// nothing else in the store moves.
pub open spec fn update_feature_rel(
    pre: DatabaseV,
    post: DatabaseV,
    id: Seq<char>,
    u: crate::model::FeatureUpdateV,
    source: UpdateSource,
    now: i64,
    applied: bool,
) -> bool {
    &&& post.sessions == pre.sessions
    &&& post.events == pre.events
    &&& post.config == pre.config
    &&& ({
        let fs = pre.features;
        if !has_feature(fs, id) {
            &&& post.features == fs
            &&& applied == update_is_empty(u)
        } else {
            let f = fs[feature_index(fs, id)];
            if source == UpdateSource::Agent && override_active(f, now) {
                &&& post.features == fs
                &&& !applied
            } else if update_is_empty(u) {
                &&& post.features == fs
                &&& applied
            } else {
                &&& applied
                &&& post.features == fs.update(
                    feature_index(fs, id),
                    applied_update(f, u, source, now),
                )
            }
        }
    })
}

/// Outcome of one staleness sweep at second `now`: exactly the stale rows
/// transition to `ended`, every other row and everything else in the store is
/// untouched, and `count` says how many rows changed.
pub open spec fn sweep_rel(
    pre: DatabaseV,
    post: DatabaseV,
    inactive_minutes: i64,
    now: i64,
    count: int,
) -> bool {
    &&& post.features == pre.features
    &&& post.events == pre.events
    &&& post.config == pre.config
    &&& post.sessions.len() == pre.sessions.len()
    &&& forall|i: int|
        0 <= i < pre.sessions.len() ==> post.sessions[i] == (if session_stale(
            pre.sessions[i],
            inactive_minutes,
            now,
        ) {
            SessionV { status: "ended"@, ..pre.sessions[i] }
        } else {
            pre.sessions[i]
        })
    &&& count == count_stale(pre.sessions, inactive_minutes, now)
}

/// Durable keyed storage for feature, session, and event records; every
/// feature mutation that does not come from the authoritative external store
/// passes through the arbitration rule in [`Database::update_feature_at`].
pub struct Database {
    features: Vec<Feature>,
    sessions: Vec<Session>,
    events: Vec<AgentEvent>,
    config: Config,
}

/// Specification-level value of the whole store.
#[verifier::ext_equal]
pub ghost struct DatabaseV {
    pub features: Seq<FeatureV>,
    pub sessions: Seq<SessionV>,
    pub events: Seq<AgentEventV>,
    pub config: ConfigV,
}

impl View for Database {
    type V = DatabaseV;

    closed spec fn view(&self) -> DatabaseV {
        DatabaseV {
            features: self.features.deep_view(),
            sessions: self.sessions.deep_view(),
            events: self.events.deep_view(),
            config: self.config@,
        }
    }
}

/// With unique ids, a row's position is the one `feature_index` picks.
pub proof fn lemma_feature_index_at(fs: Seq<FeatureV>, id: Seq<char>, i: int)
    requires
        features_unique(fs),
        0 <= i < fs.len(),
        fs[i].id == id,
    ensures
        has_feature(fs, id),
        feature_index(fs, id) == i,
{
    assert(has_feature(fs, id));
    let j = feature_index(fs, id);
    if i < j {
        assert(fs[i].id != fs[j].id);
    } else if j < i {
        assert(fs[j].id != fs[i].id);
    }
}

/// With unique ids, a session row's position is the one `session_index` picks.
pub proof fn lemma_session_index_at(ss: Seq<SessionV>, id: Seq<char>, i: int)
    requires
        sessions_unique(ss),
        0 <= i < ss.len(),
        ss[i].session_id == id,
    ensures
        has_session(ss, id),
        session_index(ss, id) == i,
{
    assert(has_session(ss, id));
    let j = session_index(ss, id);
    if i < j {
        assert(ss[i].session_id != ss[j].session_id);
    } else if j < i {
        assert(ss[j].session_id != ss[i].session_id);
    }
}

impl Database {
    /// Row keys are unique and events are numbered consecutively.
    pub open spec fn wf(self) -> bool {
        &&& features_unique(self@.features)
        &&& sessions_unique(self@.sessions)
        &&& events_numbered(self@.events)
    }

    /// An empty store with the default configuration.
    pub fn new() -> (db: Database)
        ensures
            db.wf(),
            db@.features.len() == 0,
            db@.sessions.len() == 0,
            db@.events.len() == 0,
            db@.config.watched_projects.len() == 0,
            db@.config.sync_server_port == 4000,
            db@.config.notifications_enabled,
            db@.config.selected_project is None,
    {
        let db = Database {
            features: Vec::new(),
            sessions: Vec::new(),
            events: Vec::new(),
            config: Config::default(),
        };
        proof {
            assert(db@.features =~= Seq::<FeatureV>::empty());
            assert(db@.sessions =~= Seq::<SessionV>::empty());
            assert(db@.events =~= Seq::<AgentEventV>::empty());
        }
        db
    }

    /// Position of the feature row with the given id, if any.
    fn find_feature(&self, feature_id: &str) -> (r: Option<usize>)
        ensures
            match r {
                Some(i) => i < self@.features.len() && self@.features[i as int].id == feature_id@,
                None => !has_feature(self@.features, feature_id@),
            },
    {
        let n = self.features.len();
        let mut i: usize = 0;
        while i < n
            invariant
                i <= n,
                n == self@.features.len(),
                forall|j: int| 0 <= j < i ==> self@.features[j].id != feature_id@,
            decreases n - i,
        {
            if crate::str_eq(self.features[i].id.as_str(), feature_id) {
                proof {
                    assert(self@.features[i as int].id == self.features@[i as int]@.id);
                }
                return Some(i);
            }
            proof {
                assert(self@.features[i as int].id == self.features@[i as int]@.id);
            }
            i = i + 1;
        }
        None
    }

    /// Position of the session row with the given id, if any.
    fn find_session(&self, session_id: &str) -> (r: Option<usize>)
        ensures
            match r {
                Some(i) => i < self@.sessions.len() && self@.sessions[i as int].session_id
                    == session_id@,
                None => !has_session(self@.sessions, session_id@),
            },
    {
        let n = self.sessions.len();
        let mut i: usize = 0;
        while i < n
            invariant
                i <= n,
                n == self@.sessions.len(),
                forall|j: int| 0 <= j < i ==> self@.sessions[j].session_id != session_id@,
            decreases n - i,
        {
            if crate::str_eq(self.sessions[i].session_id.as_str(), session_id) {
                proof {
                    assert(self@.sessions[i as int].session_id
                        == self.sessions@[i as int]@.session_id);
                }
                return Some(i);
            }
            proof {
                assert(self@.sessions[i as int].session_id == self.sessions@[i as int]@.session_id);
            }
            i = i + 1;
        }
        None
    }

    /// Point lookup of a single feature by id.
    pub fn get_feature(&self, feature_id: &str) -> (r: Option<Feature>)
        requires
            self.wf(),
        ensures
            match r {
                Some(f) => has_feature(self@.features, feature_id@) && f@ == self@.features[
                    feature_index(self@.features, feature_id@)
                ],
                None => !has_feature(self@.features, feature_id@),
            },
    {
        match self.find_feature(feature_id) {
            Some(i) => {
                let f = self.features[i].clone();
                proof {
                    lemma_feature_index_at(self@.features, feature_id@, i as int);
                }
                Some(f)
            },
            None => None,
        }
    }

    /// Insert-or-replace upsert of one feature row as reported by the
    /// authoritative external store, at wall-clock second `now`. The
    /// reported status is translated to the two local booleans; fields the
    /// external store does not know about are left exactly as they were on an
    /// existing row and get their defaults on a fresh one. A row that
    /// already carries everything the report says is left wholly untouched,
    /// its update timestamp included, which keeps the mirror idempotent
    /// across ticks.
    ///
    /// This write path deliberately bypasses the arbitration rule: the
    /// external store is the source of truth for the topology it reports,
    /// even across an active human override.
    pub fn sync_feature_from_graph(&mut self, feature: &GraphFeatureSync, now: i64)
        requires
            old(self).wf(),
        ensures
            final(self).wf(),
            final(self)@.sessions == old(self)@.sessions,
            final(self)@.events == old(self)@.events,
            final(self)@.config == old(self)@.config,
            ({
                let fs = old(self)@.features;
                let g = feature@;
                if has_feature(fs, g.id) {
                    final(self)@.features == fs.update(
                        feature_index(fs, g.id),
                        sync_row(Some(fs[feature_index(fs, g.id)]), g, now),
                    )
                } else {
                    final(self)@.features == fs.push(sync_row(None, g, now))
                }
            }),
    {
        let passes = crate::str_eq(feature.status.as_str(), "complete");
        let in_progress = crate::str_eq(feature.status.as_str(), "in_progress");
        let ghost fs = self@.features;
        match self.find_feature(feature.id.as_str()) {
            Some(i) => {
                proof {
                    lemma_feature_index_at(fs, feature@.id, i as int);
                }
                let unchanged = {
                    let row = &self.features[i];
                    crate::str_eq(row.project_dir.as_str(), feature.project_dir.as_str())
                        && crate::str_eq(row.description.as_str(), feature.description.as_str())
                        && crate::str_eq(row.category.as_str(), feature.category.as_str())
                        && row.passes == passes && row.in_progress == in_progress && (match &row
                        .steps {
                        Some(v) => crate::model::string_vecs_equal(v, &feature.steps),
                        None => false,
                    })
                };
                proof {
                    assert(unchanged == row_matches(fs[i as int], feature@));
                }
                if unchanged {
                    proof {
                        assert(self@.features =~= fs.update(
                            i as int,
                            sync_row(Some(fs[i as int]), feature@, now),
                        ));
                    }
                } else {
                    let row = &mut self.features[i];
                    row.project_dir = feature.project_dir.clone();
                    row.description = feature.description.clone();
                    row.category = feature.category.clone();
                    row.passes = passes;
                    row.in_progress = in_progress;
                    row.steps = Some(crate::model::clone_string_vec(&feature.steps));
                    row.updated_at = now;
                    proof {
                        assert(self@.features =~= fs.update(
                            i as int,
                            sync_row(Some(fs[i as int]), feature@, now),
                        ));
                        assert(features_unique(self@.features));
                    }
                }
            },
            None => {
                let new_row = Feature {
                    id: feature.id.clone(),
                    project_dir: feature.project_dir.clone(),
                    description: feature.description.clone(),
                    category: feature.category.clone(),
                    passes,
                    in_progress,
                    agent: None,
                    steps: Some(crate::model::clone_string_vec(&feature.steps)),
                    work_count: 0,
                    completion_criteria: None,
                    updated_at: now,
                    confidence: None,
                    model: None,
                    is_streaming: false,
                    retry_count: 0,
                    token_cost: None,
                    has_error: false,
                    last_agent_update: None,
                    manual_priority: None,
                    human_override_until: None,
                };
                self.features.push(new_row);
                proof {
                    assert(self@.features =~= fs.push(sync_row(None, feature@, now)));
                    assert(features_unique(self@.features));
                }
            },
        }
    }

    /// Heartbeat: insert-or-replace of a whole session row keyed by its id.
    pub fn upsert_session(&mut self, session: &Session)
        requires
            old(self).wf(),
        ensures
            final(self).wf(),
            final(self)@.features == old(self)@.features,
            final(self)@.events == old(self)@.events,
            final(self)@.config == old(self)@.config,
            ({
                let ss = old(self)@.sessions;
                let s = session@;
                if has_session(ss, s.session_id) {
                    final(self)@.sessions == ss.update(session_index(ss, s.session_id), s)
                } else {
                    final(self)@.sessions == ss.push(s)
                }
            }),
    {
        let ghost ss = self@.sessions;
        match self.find_session(session.session_id.as_str()) {
            Some(i) => {
                proof {
                    lemma_session_index_at(ss, session@.session_id, i as int);
                }
                let row = &mut self.sessions[i];
                *row = session.clone();
                proof {
                    assert(self@.sessions =~= ss.update(i as int, session@));
                    assert(sessions_unique(self@.sessions));
                }
            },
            None => {
                self.sessions.push(session.clone());
                proof {
                    assert(self@.sessions =~= ss.push(session@));
                    assert(sessions_unique(self@.sessions));
                }
            },
        }
    }

    /// Explicit status transition for one session; refreshes its activity
    /// time. A missing session id leaves the store untouched.
    pub fn update_session_status(&mut self, session_id: &str, status: &str, now: i64)
        requires
            old(self).wf(),
        ensures
            final(self).wf(),
            final(self)@.features == old(self)@.features,
            final(self)@.events == old(self)@.events,
            final(self)@.config == old(self)@.config,
            ({
                let ss = old(self)@.sessions;
                if has_session(ss, session_id@) {
                    final(self)@.sessions == ss.update(
                        session_index(ss, session_id@),
                        SessionV {
                            status: status@,
                            last_activity: now,
                            ..ss[session_index(ss, session_id@)]
                        },
                    )
                } else {
                    final(self)@.sessions == ss
                }
            }),
    {
        let ghost ss = self@.sessions;
        match self.find_session(session_id) {
            Some(i) => {
                proof {
                    lemma_session_index_at(ss, session_id@, i as int);
                }
                let row = &mut self.sessions[i];
                row.status = String::from_str(status);
                row.last_activity = now;
                proof {
                    assert(self@.sessions =~= ss.update(
                        i as int,
                        SessionV { status: status@, last_activity: now, ..ss[i as int] },
                    ));
                    assert(sessions_unique(self@.sessions));
                }
            },
            None => {
                proof {
                    assert(self@.sessions =~= ss);
                }
            },
        }
    }

    /// Appends one event record, assigning it the next id in order.
    /// Returns the id given to the record; the record's own `id` and
    /// `created_at` fields are overridden by the store.
    pub fn insert_event(&mut self, event: &AgentEvent, now: i64) -> (id: i64)
        requires
            old(self).wf(),
            old(self)@.events.len() + 1 <= i64::MAX,
        ensures
            final(self).wf(),
            final(self)@.features == old(self)@.features,
            final(self)@.sessions == old(self)@.sessions,
            final(self)@.config == old(self)@.config,
            id == old(self)@.events.len() + 1,
            final(self)@.events == old(self)@.events.push(
                AgentEventV { id: Some(id), created_at: now, ..event@ },
            ),
    {
        let ghost es = self@.events;
        let id = self.events.len() as i64 + 1;
        let mut record = event.clone();
        record.id = Some(id);
        record.created_at = now;
        self.events.push(record);
        proof {
            assert(self@.events =~= es.push(AgentEventV { id: Some(id), created_at: now, ..event@ }));
            assert(events_numbered(self@.events));
        }
        id
    }

    /// Source-aware feature update with the human-override lock, decided and
    /// applied against the store state at wall-clock second `now`; the full
    /// outcome is [`update_feature_rel`].
    ///
    /// A human-sourced update always applies and arms a five-minute lock; an
    /// agent-sourced update is rejected while the lock is active. An update
    /// that supplies no field short-circuits to `true` without touching the
    /// row (unless an active lock rejects the agent first, as the arbitration
    /// rule is checked before the row is inspected further). The returned
    /// boolean is the sole signal of acceptance.
    pub fn update_feature_at(
        &mut self,
        feature_id: &str,
        update: FeatureUpdate,
        source: UpdateSource,
        now: i64,
    ) -> (applied: bool)
        requires
            old(self).wf(),
            now <= i64::MAX - crate::OVERRIDE_WINDOW_SECS,
        ensures
            final(self).wf(),
            update_feature_rel(
                old(self)@,
                final(self)@,
                feature_id@,
                update@,
                source,
                now,
                applied,
            ),
    {
        let idx = match self.find_feature(feature_id) {
            None => {
                return update_supplies_nothing(&update);
            },
            Some(i) => i,
        };
        proof {
            lemma_feature_index_at(self@.features, feature_id@, idx as int);
        }
        if source == UpdateSource::Agent {
            let locked = match self.features[idx].human_override_until {
                Some(t) => t > now,
                None => false,
            };
            if locked {
                return false;
            }
        }
        if update_supplies_nothing(&update) {
            return true;
        }
        let ghost fs = self@.features;
        let row = &mut self.features[idx];
        apply_update_mut(row, &update, source, now);
        proof {
            assert(self@.features =~= fs.update(
                idx as int,
                applied_update(fs[idx as int], update@, source, now),
            ));
            assert(features_unique(self@.features));
        }
        true
    }
}

/// While a human override is active at call time, an agent-sourced update —
/// empty or not — leaves every field of the row, and everything else in the
/// store, exactly unchanged, and reports rejection.
pub proof fn lemma_agent_blocked_by_override(
    pre: DatabaseV,
    post: DatabaseV,
    id: Seq<char>,
    u: crate::model::FeatureUpdateV,
    now: i64,
    applied: bool,
)
    requires
        update_feature_rel(pre, post, id, u, UpdateSource::Agent, now, applied),
        has_feature(pre.features, id),
        override_active(pre.features[feature_index(pre.features, id)], now),
    ensures
        !applied,
        post == pre,
{
    assert(post =~= pre);
}

/// A human-sourced update that supplies at least one field always applies:
/// it reports acceptance and arms the override lock on the row for exactly
/// the lock window past call time, whatever lock was on the row before.
pub proof fn lemma_human_update_arms_override(
    pre: DatabaseV,
    post: DatabaseV,
    id: Seq<char>,
    u: crate::model::FeatureUpdateV,
    now: i64,
    applied: bool,
)
    requires
        update_feature_rel(pre, post, id, u, UpdateSource::Human, now, applied),
        has_feature(pre.features, id),
        !update_is_empty(u),
    ensures
        applied,
        post.features[feature_index(pre.features, id)].human_override_until == Some(
            (now + crate::OVERRIDE_WINDOW_SECS) as i64,
        ),
        post.features[feature_index(pre.features, id)].updated_at == now,
{
}

/// A session row is stale when it is still active and its last activity lies
/// more than the threshold (in minutes) before `now`.
pub open spec fn session_stale(s: SessionV, inactive_minutes: i64, now: i64) -> bool {
    s.status == "active"@ && now - s.last_activity > inactive_minutes * 60
}

/// Number of stale rows in `ss`.
pub open spec fn count_stale(ss: Seq<SessionV>, inactive_minutes: i64, now: i64) -> int
    decreases ss.len(),
{
    if ss.len() == 0 {
        0
    } else {
        count_stale(ss.drop_last(), inactive_minutes, now) + if session_stale(
            ss.last(),
            inactive_minutes,
            now,
        ) {
            1int
        } else {
            0int
        }
    }
}

/// The active rows of `ss`, in store order, considering the first `hi` rows.
pub open spec fn active_sessions_in(ss: Seq<SessionV>, hi: int) -> Seq<SessionV>
    decreases hi,
{
    if hi <= 0 {
        Seq::empty()
    } else if ss[hi - 1].status == "active"@ {
        active_sessions_in(ss, hi - 1).push(ss[hi - 1])
    } else {
        active_sessions_in(ss, hi - 1)
    }
}

impl Database {
    /// One atomic conditional sweep at wall-clock second `now`: every session
    /// that is still `active` and whose last activity lies more than
    /// `inactive_minutes` before `now` transitions to `ended`; every other
    /// row, including one refreshed by a heartbeat since becoming eligible,
    /// is left exactly as it was. Returns how many rows changed.
    pub fn cleanup_stale_sessions_at(&mut self, inactive_minutes: i64, now: i64) -> (count: usize)
        requires
            old(self).wf(),
        ensures
            final(self).wf(),
            sweep_rel(old(self)@, final(self)@, inactive_minutes, now, count as int),
    {
        let ghost ss = self@.sessions;
        let n = self.sessions.len();
        let mut count: usize = 0;
        let mut i: usize = 0;
        while i < n
            invariant
                i <= n,
                n == self@.sessions.len(),
                n == ss.len(),
                self.wf(),
                self@.features == old(self)@.features,
                self@.events == old(self)@.events,
                self@.config == old(self)@.config,
                ss == old(self)@.sessions,
                count <= i,
                count == count_stale(ss.take(i as int), inactive_minutes, now),
                forall|j: int|
                    0 <= j < i ==> self@.sessions[j] == (if session_stale(
                        ss[j],
                        inactive_minutes,
                        now,
                    ) {
                        SessionV { status: "ended"@, ..ss[j] }
                    } else {
                        ss[j]
                    }),
                forall|j: int| i <= j < n ==> self@.sessions[j] == ss[j],
            decreases n - i,
        {
            let stale = {
                let s = &self.sessions[i];
                crate::str_eq(s.status.as_str(), "active") && (now as i128) - (s.last_activity
                    as i128) > (inactive_minutes as i128) * 60
            };
            proof {
                assert(stale == session_stale(ss[i as int], inactive_minutes, now));
            }
            if stale {
                let ghost pre = self@.sessions;
                let row = &mut self.sessions[i];
                row.status = String::from_str("ended");
                count = count + 1;
                proof {
                    assert(self@.sessions =~= pre.update(
                        i as int,
                        SessionV { status: "ended"@, ..ss[i as int] },
                    ));
                }
            }
            i = i + 1;
            proof {
                assert(ss.take(i as int).drop_last() =~= ss.take(i as int - 1));
                assert(ss.take(i as int).last() == ss[i as int - 1]);
                assert forall|a: int, b: int| 0 <= a < b < n implies self@.sessions[a].session_id
                    != self@.sessions[b].session_id by {
                    assert(self@.sessions[a].session_id == ss[a].session_id);
                    assert(self@.sessions[b].session_id == ss[b].session_id);
                }
                assert(sessions_unique(self@.sessions));
            }
        }
        proof {
            assert(ss.take(n as int) =~= ss);
        }
        count
    }

    /// The sessions still marked active, most recent activity first.
    pub fn get_sessions(&self) -> (r: Vec<Session>)
        ensures
            r.deep_view() == sort_sessions(
                active_sessions_in(self@.sessions, self@.sessions.len() as int),
            ),
    {
        let n = self.sessions.len();
        let mut r: Vec<Session> = Vec::new();
        let mut i: usize = 0;
        proof {
            assert(r.deep_view() =~= Seq::<SessionV>::empty());
        }
        while i < n
            invariant
                i <= n,
                n == self@.sessions.len(),
                r.deep_view() == sort_sessions(active_sessions_in(self@.sessions, i as int)),
            decreases n - i,
        {
            if crate::str_eq(self.sessions[i].status.as_str(), "active") {
                let ghost prev = active_sessions_in(self@.sessions, i as int);
                insert_session_sorted(&mut r, self.sessions[i].clone());
                proof {
                    let next = active_sessions_in(self@.sessions, i as int + 1);
                    assert(next == prev.push(self@.sessions[i as int]));
                    assert(next.drop_last() =~= prev);
                    assert(r.deep_view() == sort_sessions(next));
                }
            }
            i = i + 1;
        }
        r
    }
}

/// A session whose activity was refreshed within the threshold before the
/// sweep runs — by a heartbeat, however late — is not marked ended: the
/// sweep leaves its row exactly as it was.
pub proof fn lemma_fresh_session_survives_sweep(
    pre: DatabaseV,
    post: DatabaseV,
    inactive_minutes: i64,
    now: i64,
    count: int,
    i: int,
)
    requires
        sweep_rel(pre, post, inactive_minutes, now, count),
        0 <= i < pre.sessions.len(),
        now - pre.sessions[i].last_activity <= inactive_minutes * 60,
    ensures
        post.sessions[i] == pre.sessions[i],
{
}

/// A qualifying session transitions to `ended` exactly once: the sweep that
/// finds it stale ends it, and a later sweep finds it no longer active, so
/// it neither changes the row again nor counts it again.
pub proof fn lemma_sweep_ends_once(
    pre: DatabaseV,
    mid: DatabaseV,
    post: DatabaseV,
    inactive_minutes: i64,
    now1: i64,
    now2: i64,
    count1: int,
    count2: int,
    i: int,
)
    requires
        sweep_rel(pre, mid, inactive_minutes, now1, count1),
        sweep_rel(mid, post, inactive_minutes, now2, count2),
        0 <= i < pre.sessions.len(),
        session_stale(pre.sessions[i], inactive_minutes, now1),
    ensures
        mid.sessions[i].status == "ended"@,
        !session_stale(mid.sessions[i], inactive_minutes, now2),
        post.sessions[i] == mid.sessions[i],
{
    reveal_strlit("active");
    reveal_strlit("ended");
    assert("ended"@[0] == 'e');
    assert("active"@[0] == 'a');
    assert("ended"@ != "active"@);
}

/// The rows among the first `hi` of `fs` that match the optional project
/// filter, in store order.
pub open spec fn features_in(fs: Seq<FeatureV>, proj: Option<Seq<char>>, hi: int) -> Seq<FeatureV>
    decreases hi,
{
    if hi <= 0 {
        Seq::empty()
    } else {
        let rest = features_in(fs, proj, hi - 1);
        if proj is None || fs[hi - 1].project_dir == proj->0 {
            rest.push(fs[hi - 1])
        } else {
            rest
        }
    }
}

/// Number of rows in `fs` that pass.
pub open spec fn count_passing(fs: Seq<FeatureV>) -> int
    decreases fs.len(),
{
    if fs.len() == 0 {
        0
    } else {
        count_passing(fs.drop_last()) + if fs.last().passes {
            1int
        } else {
            0int
        }
    }
}

/// Number of rows in `fs` that are in progress and not yet passing.
pub open spec fn count_in_progress(fs: Seq<FeatureV>) -> int
    decreases fs.len(),
{
    if fs.len() == 0 {
        0
    } else {
        count_in_progress(fs.drop_last()) + if fs.last().in_progress && !fs.last().passes {
            1int
        } else {
            0int
        }
    }
}

/// Number of rows in `ss` still marked active.
pub open spec fn count_active(ss: Seq<SessionV>) -> int
    decreases ss.len(),
{
    if ss.len() == 0 {
        0
    } else {
        count_active(ss.drop_last()) + if ss.last().status == "active"@ {
            1int
        } else {
            0int
        }
    }
}

impl Database {
    /// The features of one project, sorted ascending by id — or of all
    /// projects, sorted by project path and then id.
    pub fn get_features(&self, project_dir: Option<&str>) -> (r: Vec<Feature>)
        ensures
            r.deep_view() == sort_features(
                features_in(
                    self@.features,
                    project_dir.deep_view(),
                    self@.features.len() as int,
                ),
                project_dir.deep_view() is None,
            ),
    {
        let by_project = project_dir.is_none();
        let n = self.features.len();
        let mut r: Vec<Feature> = Vec::new();
        let mut i: usize = 0;
        proof {
            assert(r.deep_view() =~= Seq::<FeatureV>::empty());
        }
        while i < n
            invariant
                i <= n,
                n == self@.features.len(),
                by_project == (project_dir.deep_view() is None),
                r.deep_view() == sort_features(
                    features_in(self@.features, project_dir.deep_view(), i as int),
                    by_project,
                ),
            decreases n - i,
        {
            let keep = match project_dir {
                None => true,
                Some(p) => crate::str_eq(self.features[i].project_dir.as_str(), p),
            };
            if keep {
                let ghost prev = features_in(self@.features, project_dir.deep_view(), i as int);
                insert_feature_sorted(&mut r, self.features[i].clone(), by_project);
                proof {
                    let next = features_in(self@.features, project_dir.deep_view(), i as int + 1);
                    assert(next == prev.push(self@.features[i as int]));
                    assert(next.drop_last() =~= prev);
                    assert(r.deep_view() == sort_features(next, by_project));
                }
            }
            i = i + 1;
        }
        r
    }

    /// Aggregate counts over the cached features and sessions.
    pub fn get_stats(&self) -> (r: Stats)
        requires
            self@.features.len() <= i64::MAX,
            self@.sessions.len() <= i64::MAX,
        ensures
            r.total == self@.features.len(),
            r.completed == count_passing(self@.features),
            r.in_progress == count_in_progress(self@.features),
            r.active_sessions == count_active(self@.sessions),
    {
        let ghost fs = self@.features;
        let ghost ss = self@.sessions;
        let n = self.features.len();
        let mut completed: i64 = 0;
        let mut in_progress: i64 = 0;
        let mut i: usize = 0;
        while i < n
            invariant
                i <= n,
                n == self@.features.len(),
                fs == self@.features,
                0 <= completed <= i,
                0 <= in_progress <= i,
                n <= i64::MAX,
                completed == count_passing(fs.take(i as int)),
                in_progress == count_in_progress(fs.take(i as int)),
            decreases n - i,
        {
            if self.features[i].passes {
                completed = completed + 1;
            }
            if self.features[i].in_progress && !self.features[i].passes {
                in_progress = in_progress + 1;
            }
            i = i + 1;
            proof {
                assert(fs.take(i as int).drop_last() =~= fs.take(i as int - 1));
                assert(fs.take(i as int).last() == fs[i as int - 1]);
            }
        }
        let m = self.sessions.len();
        let mut active: i64 = 0;
        let mut j: usize = 0;
        while j < m
            invariant
                j <= m,
                m == self@.sessions.len(),
                ss == self@.sessions,
                0 <= active <= j,
                m <= i64::MAX,
                active == count_active(ss.take(j as int)),
            decreases m - j,
        {
            if crate::str_eq(self.sessions[j].status.as_str(), "active") {
                active = active + 1;
            }
            j = j + 1;
            proof {
                assert(ss.take(j as int).drop_last() =~= ss.take(j as int - 1));
                assert(ss.take(j as int).last() == ss[j as int - 1]);
            }
        }
        proof {
            assert(fs.take(n as int) =~= fs);
            assert(ss.take(m as int) =~= ss);
        }
        Stats { total: n as i64, completed, in_progress, active_sessions: active }
    }

    /// The current configuration.
    pub fn get_config(&self) -> (c: Config)
        ensures
            c@ == self@.config,
    {
        self.config.clone()
    }

    /// Replaces the stored configuration.
    pub fn save_config(&mut self, config: &Config)
        requires
            old(self).wf(),
        ensures
            final(self).wf(),
            final(self)@.features == old(self)@.features,
            final(self)@.sessions == old(self)@.sessions,
            final(self)@.events == old(self)@.events,
            final(self)@.config == config@,
    {
        self.config = config.clone();
    }

    /// The distinct project paths that cached features belong to, each
    /// listed once, sorted ascending.
    pub fn get_projects(&self) -> (r: Vec<String>)
        ensures
            r.deep_view().no_duplicates(),
            crate::order::strs_sorted(r.deep_view()),
            forall|a: int|
                0 <= a < r.deep_view().len() ==> is_project_of(
                    self@.features,
                    #[trigger] r.deep_view()[a],
                ),
            forall|i: int|
                0 <= i < self@.features.len() ==> r.deep_view().contains(
                    self@.features[i].project_dir,
                ),
    {
        let n = self.features.len();
        let mut r: Vec<String> = Vec::new();
        let mut i: usize = 0;
        proof {
            assert(r.deep_view() =~= Seq::<Seq<char>>::empty());
        }
        while i < n
            invariant
                i <= n,
                n == self@.features.len(),
                r.deep_view().no_duplicates(),
                crate::order::strs_sorted(r.deep_view()),
                forall|a: int|
                    0 <= a < r.deep_view().len() ==> is_project_of(
                        self@.features,
                        #[trigger] r.deep_view()[a],
                    ),
                forall|k: int|
                    0 <= k < i ==> r.deep_view().contains(self@.features[k].project_dir),
            decreases n - i,
        {
            let ghost x = self@.features[i as int].project_dir;
            if !contains_str(&r, self.features[i].project_dir.as_str()) {
                let ghost pre = r.deep_view();
                crate::order::insert_string_sorted(&mut r, self.features[i].project_dir.clone());
                proof {
                    crate::order::lemma_insert_str_no_duplicates(pre, x);
                    crate::order::lemma_insert_str_ordered(pre, x);
                    assert forall|a: int|
                        0 <= a < r.deep_view().len() implies is_project_of(
                        self@.features,
                        #[trigger] r.deep_view()[a],
                    ) by {
                        let y = r.deep_view()[a];
                        assert(r.deep_view().contains(y));
                        crate::order::lemma_insert_str_contains(pre, x, y);
                        if pre.contains(y) {
                            let b = choose|b: int| 0 <= b < pre.len() && pre[b] == y;
                            assert(is_project_of(self@.features, pre[b]));
                        } else {
                            assert(y == x);
                            assert(is_project_of(self@.features, x));
                        }
                    }
                    assert forall|k: int|
                        0 <= k < i + 1 implies r.deep_view().contains(
                        self@.features[k].project_dir,
                    ) by {
                        crate::order::lemma_insert_str_contains(
                            pre,
                            x,
                            self@.features[k].project_dir,
                        );
                    }
                }
            }
            i = i + 1;
        }
        r
    }

    /// Adds a project to the watched set unless it is already present;
    /// returns whether it was added.
    pub fn add_watched_project(&mut self, project_dir: &str) -> (added: bool)
        requires
            old(self).wf(),
        ensures
            final(self).wf(),
            final(self)@.features == old(self)@.features,
            final(self)@.sessions == old(self)@.sessions,
            final(self)@.events == old(self)@.events,
            final(self)@.config.sync_server_port == old(self)@.config.sync_server_port,
            final(self)@.config.notifications_enabled == old(self)@.config.notifications_enabled,
            final(self)@.config.selected_project == old(self)@.config.selected_project,
            ({
                let ws = old(self)@.config.watched_projects;
                if ws.contains(project_dir@) {
                    final(self)@.config.watched_projects == ws && !added
                } else {
                    final(self)@.config.watched_projects == ws.push(project_dir@) && added
                }
            }),
    {
        if contains_str(&self.config.watched_projects, project_dir) {
            false
        } else {
            let ghost ws = self@.config.watched_projects;
            self.config.watched_projects.push(String::from_str(project_dir));
            proof {
                assert(self@.config.watched_projects =~= ws.push(project_dir@));
            }
            true
        }
    }
}

/// The event is linked to the feature id.
pub open spec fn event_links_to(e: AgentEventV, fid: Seq<char>) -> bool {
    e.feature_id == Some(fid)
}

/// The event has no feature link (absent or empty) and belongs to the
/// optional project filter.
pub open spec fn event_unlinked(e: AgentEventV, proj: Option<Seq<char>>) -> bool {
    &&& (e.feature_id is None || e.feature_id->0 == Seq::<char>::empty())
    &&& (proj is None || e.project_dir == proj->0)
}

/// The events among positions `[lo, hi)` that are linked to `fid`, newest
/// position first.
pub open spec fn linked_desc(es: Seq<AgentEventV>, fid: Seq<char>, lo: int, hi: int) -> Seq<
    AgentEventV,
>
    decreases hi - lo,
{
    if hi <= lo {
        Seq::empty()
    } else if event_links_to(es[hi - 1], fid) {
        seq![es[hi - 1]] + linked_desc(es, fid, lo, hi - 1)
    } else {
        linked_desc(es, fid, lo, hi - 1)
    }
}

/// The events among positions `[lo, hi)` without a feature link that match
/// the optional project filter, newest position first.
pub open spec fn unlinked_desc(
    es: Seq<AgentEventV>,
    proj: Option<Seq<char>>,
    lo: int,
    hi: int,
) -> Seq<AgentEventV>
    decreases hi - lo,
{
    if hi <= lo {
        Seq::empty()
    } else if event_unlinked(es[hi - 1], proj) {
        seq![es[hi - 1]] + unlinked_desc(es, proj, lo, hi - 1)
    } else {
        unlinked_desc(es, proj, lo, hi - 1)
    }
}

/// A descending selection over `[lo, hi)` is the selection over `[mid, hi)`
/// followed by the selection over `[lo, mid)`.
pub proof fn lemma_linked_desc_split(es: Seq<AgentEventV>, fid: Seq<char>, lo: int, mid: int, hi: int)
    requires
        lo <= mid <= hi,
    ensures
        linked_desc(es, fid, lo, hi) == linked_desc(es, fid, mid, hi) + linked_desc(
            es,
            fid,
            lo,
            mid,
        ),
    decreases hi - mid,
{
    if hi == mid {
        assert(linked_desc(es, fid, lo, hi) =~= linked_desc(es, fid, mid, hi) + linked_desc(
            es,
            fid,
            lo,
            mid,
        ));
    } else {
        lemma_linked_desc_split(es, fid, lo, mid, hi - 1);
        assert(linked_desc(es, fid, lo, hi) =~= linked_desc(es, fid, mid, hi) + linked_desc(
            es,
            fid,
            lo,
            mid,
        ));
    }
}

/// A descending selection over `[lo, hi)` is the selection over `[mid, hi)`
/// followed by the selection over `[lo, mid)`.
pub proof fn lemma_unlinked_desc_split(
    es: Seq<AgentEventV>,
    proj: Option<Seq<char>>,
    lo: int,
    mid: int,
    hi: int,
)
    requires
        lo <= mid <= hi,
    ensures
        unlinked_desc(es, proj, lo, hi) == unlinked_desc(es, proj, mid, hi) + unlinked_desc(
            es,
            proj,
            lo,
            mid,
        ),
    decreases hi - mid,
{
    if hi == mid {
        assert(unlinked_desc(es, proj, lo, hi) =~= unlinked_desc(es, proj, mid, hi)
            + unlinked_desc(es, proj, lo, mid));
    } else {
        lemma_unlinked_desc_split(es, proj, lo, mid, hi - 1);
        assert(unlinked_desc(es, proj, lo, hi) =~= unlinked_desc(es, proj, mid, hi)
            + unlinked_desc(es, proj, lo, mid));
    }
}

impl Database {
    /// The most recent events, newest first, at most `limit` of them; a
    /// negative limit means all of them.
    pub fn get_events(&self, limit: i64) -> (r: Vec<AgentEvent>)
        requires
            self@.events.len() <= i64::MAX,
        ensures
            ({
                let es = self@.events;
                let n = es.len() as int;
                let k: int = if limit < 0 || limit > n {
                    n
                } else {
                    limit as int
                };
                &&& r.deep_view().len() == k
                &&& forall|j: int| 0 <= j < k ==> r.deep_view()[j] == es[n - 1 - j]
            }),
    {
        let n = self.events.len();
        let k: usize = if limit < 0 || limit > n as i64 {
            n
        } else {
            limit as usize
        };
        let mut r: Vec<AgentEvent> = Vec::new();
        let mut j: usize = 0;
        while j < k
            invariant
                j <= k,
                k <= n,
                n == self@.events.len(),
                r.deep_view().len() == j,
                forall|t: int|
                    0 <= t < j ==> r.deep_view()[t] == self@.events[n as int - 1 - t],
            decreases k - j,
        {
            let ghost pre = r.deep_view();
            r.push(self.events[n - 1 - j].clone());
            j = j + 1;
            proof {
                assert(r.deep_view() =~= pre.push(self@.events[n as int - (j as int)]));
            }
        }
        r
    }

    /// The events linked to one feature, newest first, at most `limit` of
    /// them; a negative limit means all of them.
    pub fn get_events_by_feature(&self, feature_id: &str, limit: i64) -> (r: Vec<AgentEvent>)
        requires
            self@.events.len() <= i64::MAX,
        ensures
            ({
                let full = linked_desc(self@.events, feature_id@, 0, self@.events.len() as int);
                let k: int = if limit < 0 || limit > full.len() {
                    full.len() as int
                } else {
                    limit as int
                };
                r.deep_view() == full.take(k)
            }),
    {
        let ghost es = self@.events;
        let ghost fid = feature_id@;
        let n = self.events.len();
        let mut r: Vec<AgentEvent> = Vec::new();
        let mut i: usize = n;
        while i > 0 && (limit < 0 || (r.len() as i64) < limit)
            invariant
                i <= n,
                n == self@.events.len(),
                es == self@.events,
                fid == feature_id@,
                n <= i64::MAX,
                r.deep_view() =~= linked_desc(es, fid, i as int, n as int),
                limit >= 0 ==> r.deep_view().len() <= limit,
            decreases i,
        {
            i = i - 1;
            let hit = match &self.events[i].feature_id {
                Some(f) => crate::str_eq(f.as_str(), feature_id),
                None => false,
            };
            proof {
                assert(hit == event_links_to(es[i as int], fid));
                lemma_linked_desc_split(es, fid, i as int, i as int + 1, n as int);
                assert(linked_desc(es, fid, i as int, i as int) =~= Seq::<AgentEventV>::empty());
                if hit {
                    assert(linked_desc(es, fid, i as int, i as int + 1) =~= seq![es[i as int]]);
                } else {
                    assert(linked_desc(es, fid, i as int, i as int + 1) =~= Seq::<
                        AgentEventV,
                    >::empty());
                }
            }
            let ghost pre = r.deep_view();
            if hit {
                r.push(self.events[i].clone());
                proof {
                    assert(r.deep_view() =~= pre.push(es[i as int]));
                }
            }
            proof {
                assert(r.deep_view() =~= linked_desc(es, fid, i as int, n as int));
            }
        }
        proof {
            let full = linked_desc(es, fid, 0, n as int);
            lemma_linked_desc_split(es, fid, 0, i as int, n as int);
            if i == 0 {
                assert(r.deep_view() =~= full);
                assert(full.take(r.deep_view().len() as int) =~= full);
            } else {
                assert(full =~= r.deep_view() + linked_desc(es, fid, 0, i as int));
                assert(full.take(r.deep_view().len() as int) =~= r.deep_view());
            }
            let k: int = if limit < 0 || limit > full.len() {
                full.len() as int
            } else {
                limit as int
            };
            assert(full.take(k) =~= r.deep_view());
        }
        r
    }

    /// The events without a feature link (absent or empty), optionally
    /// restricted to one project, newest first, at most `limit` of them; a
    /// negative limit means all of them.
    pub fn get_unlinked_events(&self, project_dir: Option<&str>, limit: i64) -> (r: Vec<
        AgentEvent,
    >)
        requires
            self@.events.len() <= i64::MAX,
        ensures
            ({
                let full = unlinked_desc(
                    self@.events,
                    project_dir.deep_view(),
                    0,
                    self@.events.len() as int,
                );
                let k: int = if limit < 0 || limit > full.len() {
                    full.len() as int
                } else {
                    limit as int
                };
                r.deep_view() == full.take(k)
            }),
    {
        let ghost es = self@.events;
        let ghost proj = project_dir.deep_view();
        let n = self.events.len();
        let mut r: Vec<AgentEvent> = Vec::new();
        let mut i: usize = n;
        while i > 0 && (limit < 0 || (r.len() as i64) < limit)
            invariant
                i <= n,
                n == self@.events.len(),
                es == self@.events,
                proj == project_dir.deep_view(),
                n <= i64::MAX,
                r.deep_view() =~= unlinked_desc(es, proj, i as int, n as int),
                limit >= 0 ==> r.deep_view().len() <= limit,
            decreases i,
        {
            i = i - 1;
            let no_link = match &self.events[i].feature_id {
                None => true,
                Some(f) => f.as_str().unicode_len() == 0,
            };
            let proj_ok = match project_dir {
                None => true,
                Some(p) => crate::str_eq(self.events[i].project_dir.as_str(), p),
            };
            proof {
                let fopt = es[i as int].feature_id;
                if fopt is Some && fopt->0.len() == 0 {
                    assert(fopt->0 =~= Seq::<char>::empty());
                }
                assert((no_link && proj_ok) == event_unlinked(es[i as int], proj));
                lemma_unlinked_desc_split(es, proj, i as int, i as int + 1, n as int);
                assert(unlinked_desc(es, proj, i as int, i as int) =~= Seq::<
                    AgentEventV,
                >::empty());
                if no_link && proj_ok {
                    assert(unlinked_desc(es, proj, i as int, i as int + 1) =~= seq![es[i as int]]);
                } else {
                    assert(unlinked_desc(es, proj, i as int, i as int + 1) =~= Seq::<
                        AgentEventV,
                    >::empty());
                }
            }
            let ghost pre = r.deep_view();
            if no_link && proj_ok {
                r.push(self.events[i].clone());
                proof {
                    assert(r.deep_view() =~= pre.push(es[i as int]));
                }
            }
            proof {
                assert(r.deep_view() =~= unlinked_desc(es, proj, i as int, n as int));
            }
        }
        proof {
            let full = unlinked_desc(es, proj, 0, n as int);
            lemma_unlinked_desc_split(es, proj, 0, i as int, n as int);
            if i == 0 {
                assert(r.deep_view() =~= full);
                assert(full.take(r.deep_view().len() as int) =~= full);
            } else {
                assert(full =~= r.deep_view() + unlinked_desc(es, proj, 0, i as int));
                assert(full.take(r.deep_view().len() as int) =~= r.deep_view());
            }
            let k: int = if limit < 0 || limit > full.len() {
                full.len() as int
            } else {
                limit as int
            };
            assert(full.take(k) =~= r.deep_view());
        }
        r
    }

    /// Links one recorded event to a feature after the fact; returns whether
    /// an event with that id existed.
    pub fn link_event_to_feature(&mut self, event_id: i64, feature_id: &str) -> (updated: bool)
        requires
            old(self).wf(),
            old(self)@.events.len() <= i64::MAX,
        ensures
            final(self).wf(),
            final(self)@.features == old(self)@.features,
            final(self)@.sessions == old(self)@.sessions,
            final(self)@.config == old(self)@.config,
            ({
                let es = old(self)@.events;
                if 1 <= event_id <= es.len() {
                    final(self)@.events == es.update(
                        event_id - 1,
                        AgentEventV { feature_id: Some(feature_id@), ..es[event_id - 1] },
                    ) && updated
                } else {
                    final(self)@.events == es && !updated
                }
            }),
    {
        let ghost es = self@.events;
        let n = self.events.len();
        if 1 <= event_id && event_id <= n as i64 {
            let idx = (event_id as usize) - 1;
            let row = &mut self.events[idx];
            row.feature_id = Some(String::from_str(feature_id));
            proof {
                assert(self@.events =~= es.update(
                    event_id - 1,
                    AgentEventV { feature_id: Some(feature_id@), ..es[event_id - 1] },
                ));
                assert(events_numbered(self@.events));
            }
            true
        } else {
            false
        }
    }
}

/// Full replacement of one keyed row: an existing row with the same id is
/// overwritten entirely, otherwise the row is appended.
pub open spec fn replace_upsert(fs: Seq<FeatureV>, f: FeatureV) -> Seq<FeatureV> {
    if has_feature(fs, f.id) {
        fs.update(feature_index(fs, f.id), f)
    } else {
        fs.push(f)
    }
}

/// The first `hi` incoming rows replace-upserted in order, each re-homed to
/// the project and stamped with the sync time.
pub open spec fn sync_features_fold(
    fs: Seq<FeatureV>,
    items: Seq<FeatureV>,
    pd: Seq<char>,
    now: i64,
    hi: int,
) -> Seq<FeatureV>
    decreases hi,
{
    if hi <= 0 {
        fs
    } else {
        replace_upsert(
            sync_features_fold(fs, items, pd, now, hi - 1),
            FeatureV { project_dir: pd, updated_at: now, ..items[hi - 1] },
        )
    }
}

impl Database {
    /// Replaces or inserts every given feature row under the given project
    /// path, stamping each with the sync time. Rows are written in order;
    /// an existing row with the same id is overwritten entirely.
    pub fn sync_features(&mut self, project_dir: &str, features: Vec<Feature>, now: i64)
        requires
            old(self).wf(),
        ensures
            final(self).wf(),
            final(self)@.sessions == old(self)@.sessions,
            final(self)@.events == old(self)@.events,
            final(self)@.config == old(self)@.config,
            final(self)@.features == sync_features_fold(
                old(self)@.features,
                features.deep_view(),
                project_dir@,
                now,
                features.deep_view().len() as int,
            ),
    {
        let ghost fs0 = self@.features;
        let ghost items = features.deep_view();
        let ghost pd = project_dir@;
        let m = features.len();
        let mut k: usize = 0;
        while k < m
            invariant
                k <= m,
                m == items.len(),
                items == features.deep_view(),
                pd == project_dir@,
                self.wf(),
                self@.sessions == old(self)@.sessions,
                self@.events == old(self)@.events,
                self@.config == old(self)@.config,
                self@.features == sync_features_fold(fs0, items, pd, now, k as int),
            decreases m - k,
        {
            let mut row = features[k].clone();
            row.project_dir = String::from_str(project_dir);
            row.updated_at = now;
            proof {
                assert(row@ =~= FeatureV { project_dir: pd, updated_at: now, ..items[k as int] });
            }
            let ghost pre = self@.features;
            match self.find_feature(row.id.as_str()) {
                Some(i) => {
                    proof {
                        lemma_feature_index_at(pre, row@.id, i as int);
                    }
                    let slot = &mut self.features[i];
                    *slot = row;
                    proof {
                        assert(self@.features =~= pre.update(i as int, FeatureV {
                            project_dir: pd,
                            updated_at: now,
                            ..items[k as int]
                        }));
                        assert(features_unique(self@.features));
                    }
                },
                None => {
                    self.features.push(row);
                    proof {
                        assert(self@.features =~= pre.push(FeatureV {
                            project_dir: pd,
                            updated_at: now,
                            ..items[k as int]
                        }));
                        assert(features_unique(self@.features));
                    }
                },
            }
            k = k + 1;
        }
    }
}

/// Listing order of two feature rows: by id within one project's listing;
/// by project path, then id, across projects.
pub open spec fn feature_le(a: FeatureV, b: FeatureV, by_project: bool) -> bool {
    if by_project && a.project_dir != b.project_dir {
        crate::order::lex_le(a.project_dir, b.project_dir)
    } else {
        crate::order::lex_le(a.id, b.id)
    }
}

/// Any two rows are ordered one way or the other.
pub proof fn lemma_feature_le_total(a: FeatureV, b: FeatureV, by_project: bool)
    ensures
        feature_le(a, b, by_project) || feature_le(b, a, by_project),
{
    crate::order::lemma_lex_le_total(a.project_dir, b.project_dir);
    crate::order::lemma_lex_le_total(a.id, b.id);
}

/// `f` placed at its position in an ascending listing: after the longest
/// prefix whose last row comes no later than it.
pub open spec fn insert_feature(s: Seq<FeatureV>, f: FeatureV, by_project: bool) -> Seq<FeatureV>
    decreases s.len(),
{
    if s.len() == 0 {
        seq![f]
    } else if feature_le(s.last(), f, by_project) {
        s.push(f)
    } else {
        insert_feature(s.drop_last(), f, by_project).push(s.last())
    }
}

/// The rows of `s` rearranged into ascending listing order, by inserting
/// each in turn.
pub open spec fn sort_features(s: Seq<FeatureV>, by_project: bool) -> Seq<FeatureV>
    decreases s.len(),
{
    if s.len() == 0 {
        Seq::empty()
    } else {
        insert_feature(sort_features(s.drop_last(), by_project), s.last(), by_project)
    }
}

/// Each row of `s` comes no later than the next.
pub open spec fn features_ordered(s: Seq<FeatureV>, by_project: bool) -> bool {
    forall|i: int| 0 <= i < s.len() - 1 ==> feature_le(#[trigger] s[i], s[i + 1], by_project)
}

proof fn lemma_insert_feature_ordered(s: Seq<FeatureV>, f: FeatureV, by_project: bool)
    requires
        features_ordered(s, by_project),
    ensures
        features_ordered(insert_feature(s, f, by_project), by_project),
        insert_feature(s, f, by_project).len() == s.len() + 1,
        insert_feature(s, f, by_project).last() == (if s.len() > 0 && !feature_le(
            s.last(),
            f,
            by_project,
        ) {
            s.last()
        } else {
            f
        }),
    decreases s.len(),
{
    if s.len() == 0 {
    } else if feature_le(s.last(), f, by_project) {
        let t = s.push(f);
        assert forall|i: int| 0 <= i < t.len() - 1 implies feature_le(#[trigger] t[i], t[i + 1], by_project) by {
            if i < s.len() - 1 {
                assert(feature_le(s[i], s[i + 1], by_project));
            }
        }
    } else {
        assert(features_ordered(s.drop_last(), by_project)) by {
            assert forall|i: int|
                0 <= i < s.drop_last().len() - 1 implies feature_le(
                #[trigger] s.drop_last()[i],
                s.drop_last()[i + 1],
                by_project,
            ) by {
                assert(feature_le(s[i], s[i + 1], by_project));
            }
        }
        lemma_insert_feature_ordered(s.drop_last(), f, by_project);
        lemma_feature_le_total(s.last(), f, by_project);
        let t0 = insert_feature(s.drop_last(), f, by_project);
        let t = t0.push(s.last());
        assert(feature_le(t0.last(), s.last(), by_project)) by {
            if s.drop_last().len() > 0 && !feature_le(s.drop_last().last(), f, by_project) {
                assert(t0.last() == s[s.len() - 2]);
                assert(feature_le(s[s.len() - 2], s[s.len() - 1], by_project));
            }
        }
        assert forall|i: int| 0 <= i < t.len() - 1 implies feature_le(#[trigger] t[i], t[i + 1], by_project) by {
            if i < t0.len() - 1 {
                assert(feature_le(t0[i], t0[i + 1], by_project));
            }
        }
    }
}

/// A sorted listing is in ascending order and one row longer per insertion.
pub proof fn lemma_sort_features_ordered(s: Seq<FeatureV>, by_project: bool)
    ensures
        features_ordered(sort_features(s, by_project), by_project),
        sort_features(s, by_project).len() == s.len(),
    decreases s.len(),
{
    if s.len() > 0 {
        lemma_sort_features_ordered(s.drop_last(), by_project);
        lemma_insert_feature_ordered(sort_features(s.drop_last(), by_project), s.last(), by_project);
    }
}

proof fn lemma_insert_feature_multiset(s: Seq<FeatureV>, f: FeatureV, by_project: bool)
    ensures
        insert_feature(s, f, by_project).to_multiset() == s.to_multiset().insert(f),
    decreases s.len(),
{
    broadcast use vstd::seq_lib::group_to_multiset_ensures;

    if s.len() == 0 {
        assert(seq![f] =~= Seq::<FeatureV>::empty().push(f));
        assert(insert_feature(s, f, by_project).to_multiset() =~= s.to_multiset().insert(f));
    } else if feature_le(s.last(), f, by_project) {
    } else {
        lemma_insert_feature_multiset(s.drop_last(), f, by_project);
        assert(s =~= s.drop_last().push(s.last()));
        assert(s.to_multiset() == s.drop_last().push(s.last()).to_multiset());
        assert(insert_feature(s, f, by_project).to_multiset() =~= s.to_multiset().insert(f));
    }
}

/// Sorting a listing rearranges exactly its rows: the multiset of rows is
/// unchanged.
pub proof fn lemma_sort_features_multiset(s: Seq<FeatureV>, by_project: bool)
    ensures
        sort_features(s, by_project).to_multiset() == s.to_multiset(),
    decreases s.len(),
{
    broadcast use vstd::seq_lib::group_to_multiset_ensures;

    if s.len() > 0 {
        lemma_sort_features_multiset(s.drop_last(), by_project);
        lemma_insert_feature_multiset(sort_features(s.drop_last(), by_project), s.last(), by_project);
        assert(s =~= s.drop_last().push(s.last()));
        assert(s.to_multiset() == s.drop_last().push(s.last()).to_multiset());
    }
}

/// Listing order test for two feature rows.
fn feature_le_exec(a: &Feature, b: &Feature, by_project: bool) -> (r: bool)
    ensures
        r == feature_le(a@, b@, by_project),
{
    if by_project && !crate::str_eq(a.project_dir.as_str(), b.project_dir.as_str()) {
        crate::order::str_le(a.project_dir.as_str(), b.project_dir.as_str())
    } else {
        crate::order::str_le(a.id.as_str(), b.id.as_str())
    }
}

/// Places one row at its position in an ascending listing.
fn insert_feature_sorted(v: &mut Vec<Feature>, f: Feature, by_project: bool)
    ensures
        final(v).deep_view() == insert_feature(old(v).deep_view(), f@, by_project),
{
    let ghost s = old(v).deep_view();
    let ghost fv = f@;
    let mut j: usize = v.len();
    proof {
        assert(s.take(j as int) =~= s);
        assert(s.skip(j as int) =~= Seq::<FeatureV>::empty());
        assert(insert_feature(s, fv, by_project) =~= insert_feature(s.take(j as int), fv, by_project)
            + s.skip(j as int));
    }
    while j > 0 && !feature_le_exec(&v[j - 1], &f, by_project)
        invariant
            j <= v@.len(),
            s == v.deep_view(),
            fv == f@,
            insert_feature(s, fv, by_project) == insert_feature(s.take(j as int), fv, by_project)
                + s.skip(j as int),
        decreases j,
    {
        proof {
            assert(v.deep_view()[j - 1] == v@[j - 1]@);
            assert(s.take(j as int).last() == s[j - 1]);
            assert(s.take(j as int).drop_last() =~= s.take(j as int - 1));
            assert(insert_feature(s.take(j as int), fv, by_project) == insert_feature(
                s.take(j as int - 1),
                fv,
                by_project,
            ).push(s[j - 1]));
            assert(insert_feature(s.take(j as int - 1), fv, by_project) + s.skip(j as int - 1)
                =~= insert_feature(s.take(j as int), fv, by_project) + s.skip(j as int));
        }
        j = j - 1;
    }
    proof {
        if j == 0 {
            assert(s.take(0) =~= Seq::<FeatureV>::empty());
            assert(insert_feature(s.take(0), fv, by_project) == seq![fv]);
        } else {
            assert(v.deep_view()[j - 1] == v@[j - 1]@);
            assert(s.take(j as int).last() == s[j - 1]);
            assert(insert_feature(s.take(j as int), fv, by_project) == s.take(j as int).push(fv));
        }
        assert(insert_feature(s, fv, by_project) =~= s.insert(j as int, fv));
    }
    v.insert(j, f);
    proof {
        assert(v.deep_view() =~= s.insert(j as int, fv));
    }
}

/// Listing order of two session rows: most recent activity first.
pub open spec fn session_before(a: SessionV, b: SessionV) -> bool {
    a.last_activity >= b.last_activity
}

/// `x` placed at its position in a most-recent-first listing: after the
/// longest prefix whose last row comes no later than it.
pub open spec fn insert_session(s: Seq<SessionV>, x: SessionV) -> Seq<SessionV>
    decreases s.len(),
{
    if s.len() == 0 {
        seq![x]
    } else if session_before(s.last(), x) {
        s.push(x)
    } else {
        insert_session(s.drop_last(), x).push(s.last())
    }
}

/// The rows of `s` rearranged most-recent-first, by inserting each in turn.
pub open spec fn sort_sessions(s: Seq<SessionV>) -> Seq<SessionV>
    decreases s.len(),
{
    if s.len() == 0 {
        Seq::empty()
    } else {
        insert_session(sort_sessions(s.drop_last()), s.last())
    }
}

/// Each row of `s` is at least as recent as the next.
pub open spec fn sessions_ordered(s: Seq<SessionV>) -> bool {
    forall|i: int| 0 <= i < s.len() - 1 ==> session_before(#[trigger] s[i], s[i + 1])
}

proof fn lemma_insert_session_ordered(s: Seq<SessionV>, x: SessionV)
    requires
        sessions_ordered(s),
    ensures
        sessions_ordered(insert_session(s, x)),
        insert_session(s, x).len() == s.len() + 1,
        insert_session(s, x).last() == (if s.len() > 0 && !session_before(s.last(), x) {
            s.last()
        } else {
            x
        }),
    decreases s.len(),
{
    if s.len() == 0 {
    } else if session_before(s.last(), x) {
        let t = s.push(x);
        assert forall|i: int| 0 <= i < t.len() - 1 implies session_before(#[trigger] t[i], t[i + 1]) by {
            if i < s.len() - 1 {
                assert(session_before(s[i], s[i + 1]));
            }
        }
    } else {
        assert(sessions_ordered(s.drop_last())) by {
            assert forall|i: int|
                0 <= i < s.drop_last().len() - 1 implies session_before(
                #[trigger] s.drop_last()[i],
                s.drop_last()[i + 1],
            ) by {
                assert(session_before(s[i], s[i + 1]));
            }
        }
        lemma_insert_session_ordered(s.drop_last(), x);
        let t0 = insert_session(s.drop_last(), x);
        let t = t0.push(s.last());
        assert(session_before(t0.last(), s.last())) by {
            if s.drop_last().len() > 0 && !session_before(s.drop_last().last(), x) {
                assert(session_before(s[s.len() - 2], s[s.len() - 1]));
            }
        }
        assert forall|i: int| 0 <= i < t.len() - 1 implies session_before(#[trigger] t[i], t[i + 1]) by {
            if i < t0.len() - 1 {
                assert(session_before(t0[i], t0[i + 1]));
            }
        }
    }
}

/// A sorted session listing is most-recent-first and keeps its length.
pub proof fn lemma_sort_sessions_ordered(s: Seq<SessionV>)
    ensures
        sessions_ordered(sort_sessions(s)),
        sort_sessions(s).len() == s.len(),
    decreases s.len(),
{
    if s.len() > 0 {
        lemma_sort_sessions_ordered(s.drop_last());
        lemma_insert_session_ordered(sort_sessions(s.drop_last()), s.last());
    }
}

proof fn lemma_insert_session_multiset(s: Seq<SessionV>, x: SessionV)
    ensures
        insert_session(s, x).to_multiset() == s.to_multiset().insert(x),
    decreases s.len(),
{
    broadcast use vstd::seq_lib::group_to_multiset_ensures;

    if s.len() == 0 {
        assert(seq![x] =~= Seq::<SessionV>::empty().push(x));
        assert(insert_session(s, x).to_multiset() =~= s.to_multiset().insert(x));
    } else if session_before(s.last(), x) {
    } else {
        lemma_insert_session_multiset(s.drop_last(), x);
        assert(s =~= s.drop_last().push(s.last()));
        assert(s.to_multiset() == s.drop_last().push(s.last()).to_multiset());
        assert(insert_session(s, x).to_multiset() =~= s.to_multiset().insert(x));
    }
}

/// Sorting a session listing rearranges exactly its rows.
pub proof fn lemma_sort_sessions_multiset(s: Seq<SessionV>)
    ensures
        sort_sessions(s).to_multiset() == s.to_multiset(),
    decreases s.len(),
{
    broadcast use vstd::seq_lib::group_to_multiset_ensures;

    if s.len() > 0 {
        lemma_sort_sessions_multiset(s.drop_last());
        lemma_insert_session_multiset(sort_sessions(s.drop_last()), s.last());
        assert(s =~= s.drop_last().push(s.last()));
        assert(s.to_multiset() == s.drop_last().push(s.last()).to_multiset());
    }
}

/// Places one row at its position in a most-recent-first listing.
fn insert_session_sorted(v: &mut Vec<Session>, x: Session)
    ensures
        final(v).deep_view() == insert_session(old(v).deep_view(), x@),
{
    let ghost s = old(v).deep_view();
    let ghost xv = x@;
    let mut j: usize = v.len();
    proof {
        assert(s.take(j as int) =~= s);
        assert(s.skip(j as int) =~= Seq::<SessionV>::empty());
        assert(insert_session(s, xv) =~= insert_session(s.take(j as int), xv) + s.skip(j as int));
    }
    while j > 0 && !(v[j - 1].last_activity >= x.last_activity)
        invariant
            j <= v@.len(),
            s == v.deep_view(),
            xv == x@,
            insert_session(s, xv) == insert_session(s.take(j as int), xv) + s.skip(j as int),
        decreases j,
    {
        proof {
            assert(v.deep_view()[j - 1] == v@[j - 1]@);
            assert(s.take(j as int).last() == s[j - 1]);
            assert(s.take(j as int).drop_last() =~= s.take(j as int - 1));
            assert(insert_session(s.take(j as int), xv) == insert_session(
                s.take(j as int - 1),
                xv,
            ).push(s[j - 1]));
            assert(insert_session(s.take(j as int - 1), xv) + s.skip(j as int - 1) =~= insert_session(
                s.take(j as int),
                xv,
            ) + s.skip(j as int));
        }
        j = j - 1;
    }
    proof {
        if j == 0 {
            assert(s.take(0) =~= Seq::<SessionV>::empty());
            assert(insert_session(s.take(0), xv) == seq![xv]);
        } else {
            assert(v.deep_view()[j - 1] == v@[j - 1]@);
            assert(s.take(j as int).last() == s[j - 1]);
            assert(insert_session(s.take(j as int), xv) == s.take(j as int).push(xv));
        }
        assert(insert_session(s, xv) =~= s.insert(j as int, xv));
    }
    v.insert(j, x);
    proof {
        assert(v.deep_view() =~= s.insert(j as int, xv));
    }
}

/// Some cached feature belongs to the project path `p`.
pub open spec fn is_project_of(fs: Seq<FeatureV>, p: Seq<char>) -> bool {
    exists|i: int| 0 <= i < fs.len() && fs[i].project_dir == p
}

/// True when some entry of `v` holds the same characters as `x`.
pub fn contains_str(v: &Vec<String>, x: &str) -> (b: bool)
    ensures
        b == v.deep_view().contains(x@),
{
    let n = v.len();
    let mut i: usize = 0;
    while i < n
        invariant
            i <= n,
            n == v@.len(),
            forall|j: int| 0 <= j < i ==> v.deep_view()[j] != x@,
        decreases n - i,
    {
        if crate::str_eq(v[i].as_str(), x) {
            proof {
                assert(v.deep_view()[i as int] == x@);
            }
            return true;
        }
        proof {
            assert(v.deep_view()[i as int] == v@[i as int]@);
        }
        i = i + 1;
    }
    proof {
        if v.deep_view().contains(x@) {
            let j = choose|j: int| 0 <= j < v.deep_view().len() && v.deep_view()[j] == x@;
            assert(v.deep_view()[j] != x@);
        }
    }
    false
}

/// True when the update supplies no field at all.
pub fn update_supplies_nothing(u: &FeatureUpdate) -> (r: bool)
    ensures
        r == update_is_empty(u@),
{
    u.passes.is_none() && u.in_progress.is_none() && u.agent.is_none() && u.confidence.is_none()
        && u.model.is_none() && u.is_streaming.is_none() && u.retry_count.is_none()
        && u.token_cost.is_none() && u.has_error.is_none() && u.manual_priority.is_none()
}

/// Applies a sparse update and the source-specific stamp to one row in place.
#[verifier::rlimit(60)]
fn apply_update_mut(f: &mut Feature, update: &FeatureUpdate, source: UpdateSource, now: i64)
    requires
        now <= i64::MAX - crate::OVERRIDE_WINDOW_SECS,
    ensures
        final(f)@ == applied_update(old(f)@, update@, source, now),
{
    if let Some(v) = update.passes {
        f.passes = v;
    }
    if let Some(v) = update.in_progress {
        f.in_progress = v;
    }
    if let Some(v) = &update.agent {
        f.agent = Some(v.clone());
    }
    if let Some(v) = update.confidence {
        f.confidence = Some(v);
    }
    if let Some(v) = &update.model {
        f.model = Some(v.clone());
    }
    if let Some(v) = update.is_streaming {
        f.is_streaming = v;
    }
    if let Some(v) = update.retry_count {
        f.retry_count = v;
    }
    if let Some(v) = update.token_cost {
        f.token_cost = Some(v);
    }
    if let Some(v) = update.has_error {
        f.has_error = v;
    }
    if let Some(v) = &update.manual_priority {
        f.manual_priority = Some(v.clone());
    }
    match source {
        UpdateSource::Human => {
            f.human_override_until = Some(now + crate::OVERRIDE_WINDOW_SECS);
        },
        UpdateSource::Agent => {
            f.last_agent_update = Some(now);
        },
    }
    f.updated_at = now;
    proof {
        assert(f@ =~= applied_update(old(f)@, update@, source, now));
    }
}

impl Database {
    /// [`Database::update_feature_at`] at the current wall-clock time.
    /// Whatever second the clock reports, the arbitration relation holds for
    /// it; a clock within three hundred seconds of the end of representable
    /// time is clamped so the override expiry still fits.
    pub fn update_feature(
        &mut self,
        feature_id: &str,
        update: FeatureUpdate,
        source: UpdateSource,
    ) -> (applied: bool)
        requires
            old(self).wf(),
        ensures
            final(self).wf(),
            exists|now: i64|
                #[trigger] update_feature_rel(
                    old(self)@,
                    final(self)@,
                    feature_id@,
                    update@,
                    source,
                    now,
                    applied,
                ),
    {
        let t = crate::clock::now_utc();
        let now = if t > i64::MAX - crate::OVERRIDE_WINDOW_SECS {
            i64::MAX - crate::OVERRIDE_WINDOW_SECS
        } else {
            t
        };
        self.update_feature_at(feature_id, update, source, now)
    }

    /// [`Database::cleanup_stale_sessions_at`] at the current wall-clock
    /// time. Whatever second the clock reports, the sweep relation holds for
    /// it.
    pub fn cleanup_stale_sessions(&mut self, inactive_minutes: i64) -> (count: usize)
        requires
            old(self).wf(),
        ensures
            final(self).wf(),
            exists|now: i64|
                #[trigger] sweep_rel(old(self)@, final(self)@, inactive_minutes, now, count as int),
    {
        let now = crate::clock::now_utc();
        self.cleanup_stale_sessions_at(inactive_minutes, now)
    }
}

} // verus!
