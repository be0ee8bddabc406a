//! Data model: features, events, sessions, configuration, and the
//! specification-level mirror of each type that contracts are written over.
//!
//! Timestamps are carried as whole seconds since the Unix epoch (`i64`), so
//! that the arbitration and staleness rules are plain integer comparisons.

use vstd::prelude::*;

verus! {

/// Who proposed a feature mutation; decides how the human-override lock applies.
#[derive(Debug, Clone, Copy, PartialEq, Eq, Structural)]
pub enum UpdateSource {
    /// Direct user interaction: always wins and arms the override lock.
    Human,
    /// Agent or hook update: rejected while a human override is active.
    Agent,
}

/// One trackable unit of engineering work, keyed by a globally unique id.
#[derive(Debug, PartialEq)]
pub struct Feature {
    pub id: String,
    pub project_dir: String,
    pub description: String,
    pub category: String,
    pub passes: bool,
    pub in_progress: bool,
    pub agent: Option<String>,
    pub steps: Option<Vec<String>>,
    pub work_count: i32,
    pub completion_criteria: Option<String>,
    pub updated_at: i64,
    pub confidence: Option<i32>,
    pub model: Option<String>,
    pub is_streaming: bool,
    pub retry_count: i32,
    pub token_cost: Option<i64>,
    pub has_error: bool,
    pub last_agent_update: Option<i64>,
    pub manual_priority: Option<String>,
    pub human_override_until: Option<i64>,
}

/// Specification-level value of a `Feature`.
#[verifier::ext_equal]
pub ghost struct FeatureV {
    pub id: Seq<char>,
    pub project_dir: Seq<char>,
    pub description: Seq<char>,
    pub category: Seq<char>,
    pub passes: bool,
    pub in_progress: bool,
    pub agent: Option<Seq<char>>,
    pub steps: Option<Seq<Seq<char>>>,
    pub work_count: i32,
    pub completion_criteria: Option<Seq<char>>,
    pub updated_at: i64,
    pub confidence: Option<i32>,
    pub model: Option<Seq<char>>,
    pub is_streaming: bool,
    pub retry_count: i32,
    pub token_cost: Option<i64>,
    pub has_error: bool,
    pub last_agent_update: Option<i64>,
    pub manual_priority: Option<Seq<char>>,
    pub human_override_until: Option<i64>,
}

impl View for Feature {
    type V = FeatureV;

    open spec fn view(&self) -> FeatureV {
        FeatureV {
            id: self.id@,
            project_dir: self.project_dir@,
            description: self.description@,
            category: self.category@,
            passes: self.passes,
            in_progress: self.in_progress,
            agent: self.agent.deep_view(),
            steps: self.steps.deep_view(),
            work_count: self.work_count,
            completion_criteria: self.completion_criteria.deep_view(),
            updated_at: self.updated_at,
            confidence: self.confidence,
            model: self.model.deep_view(),
            is_streaming: self.is_streaming,
            retry_count: self.retry_count,
            token_cost: self.token_cost,
            has_error: self.has_error,
            last_agent_update: self.last_agent_update,
            manual_priority: self.manual_priority.deep_view(),
            human_override_until: self.human_override_until,
        }
    }
}

impl DeepView for Feature {
    type V = FeatureV;

    open spec fn deep_view(&self) -> FeatureV {
        self.view()
    }
}

/// Sparse update for a feature: only the fields present are applied.
#[derive(Debug, PartialEq)]
pub struct FeatureUpdate {
    pub passes: Option<bool>,
    pub in_progress: Option<bool>,
    pub agent: Option<String>,
    pub confidence: Option<i32>,
    pub model: Option<String>,
    pub is_streaming: Option<bool>,
    pub retry_count: Option<i32>,
    pub token_cost: Option<i64>,
    pub has_error: Option<bool>,
    pub manual_priority: Option<String>,
}

/// Specification-level value of a `FeatureUpdate`.
#[verifier::ext_equal]
pub ghost struct FeatureUpdateV {
    pub passes: Option<bool>,
    pub in_progress: Option<bool>,
    pub agent: Option<Seq<char>>,
    pub confidence: Option<i32>,
    pub model: Option<Seq<char>>,
    pub is_streaming: Option<bool>,
    pub retry_count: Option<i32>,
    pub token_cost: Option<i64>,
    pub has_error: Option<bool>,
    pub manual_priority: Option<Seq<char>>,
}

impl View for FeatureUpdate {
    type V = FeatureUpdateV;

    open spec fn view(&self) -> FeatureUpdateV {
        FeatureUpdateV {
            passes: self.passes,
            in_progress: self.in_progress,
            agent: self.agent.deep_view(),
            confidence: self.confidence,
            model: self.model.deep_view(),
            is_streaming: self.is_streaming,
            retry_count: self.retry_count,
            token_cost: self.token_cost,
            has_error: self.has_error,
            manual_priority: self.manual_priority.deep_view(),
        }
    }
}

impl Default for FeatureUpdate {
    /// An update that supplies no field at all.
    fn default() -> (u: FeatureUpdate)
        ensures
            update_is_empty(u@),
    {
        FeatureUpdate {
            passes: None,
            in_progress: None,
            agent: None,
            confidence: None,
            model: None,
            is_streaming: None,
            retry_count: None,
            token_cost: None,
            has_error: None,
            manual_priority: None,
        }
    }
}

/// An update that supplies no field leaves the row untouched.
pub open spec fn update_is_empty(u: FeatureUpdateV) -> bool {
    &&& u.passes is None
    &&& u.in_progress is None
    &&& u.agent is None
    &&& u.confidence is None
    &&& u.model is None
    &&& u.is_streaming is None
    &&& u.retry_count is None
    &&& u.has_error is None
    &&& u.token_cost is None
    &&& u.manual_priority is None
}

/// Sparse merge: fields present in `u` replace the row's, absent fields are
/// left exactly as they were.
pub open spec fn apply_sparse(f: FeatureV, u: FeatureUpdateV) -> FeatureV {
    FeatureV {
        passes: if u.passes is Some { u.passes->Some_0 } else { f.passes },
        in_progress: if u.in_progress is Some { u.in_progress->Some_0 } else { f.in_progress },
        agent: if u.agent is Some { Some(u.agent->Some_0) } else { f.agent },
        confidence: if u.confidence is Some { u.confidence } else { f.confidence },
        model: if u.model is Some { Some(u.model->Some_0) } else { f.model },
        is_streaming: if u.is_streaming is Some { u.is_streaming->Some_0 } else { f.is_streaming },
        retry_count: if u.retry_count is Some { u.retry_count->Some_0 } else { f.retry_count },
        token_cost: if u.token_cost is Some { u.token_cost } else { f.token_cost },
        has_error: if u.has_error is Some { u.has_error->Some_0 } else { f.has_error },
        manual_priority: if u.manual_priority is Some {
            Some(u.manual_priority->Some_0)
        } else {
            f.manual_priority
        },
        ..f
    }
}

/// A human override locks the row while its expiry lies strictly in the future.
pub open spec fn override_active(f: FeatureV, now: i64) -> bool {
    f.human_override_until matches Some(t) && t > now
}

/// Source-specific stamp on an accepted mutation: a human touch arms the
/// override lock for the whole row, an agent write records its own time;
/// either bumps the row's update timestamp.
pub open spec fn stamped(f: FeatureV, source: UpdateSource, now: i64) -> FeatureV {
    match source {
        UpdateSource::Human => FeatureV {
            human_override_until: Some((now + crate::OVERRIDE_WINDOW_SECS) as i64),
            updated_at: now,
            ..f
        },
        UpdateSource::Agent => FeatureV { last_agent_update: Some(now), updated_at: now, ..f },
    }
}

/// The row an accepted, non-empty update leaves behind.
pub open spec fn applied_update(
    f: FeatureV,
    u: FeatureUpdateV,
    source: UpdateSource,
    now: i64,
) -> FeatureV {
    stamped(apply_sparse(f, u), source, now)
}

/// Sparse-update law: a field the update supplies takes the supplied value,
/// a field it does not supply is left exactly as it was, and the fields no
/// update can reach are always left as they were.
pub proof fn lemma_sparse_merge(f: FeatureV, u: FeatureUpdateV)
    ensures
        apply_sparse(f, u).passes == (if u.passes is Some {
            u.passes->0
        } else {
            f.passes
        }),
        apply_sparse(f, u).in_progress == (if u.in_progress is Some {
            u.in_progress->0
        } else {
            f.in_progress
        }),
        apply_sparse(f, u).agent == (if u.agent is Some {
            u.agent
        } else {
            f.agent
        }),
        apply_sparse(f, u).confidence == (if u.confidence is Some {
            u.confidence
        } else {
            f.confidence
        }),
        apply_sparse(f, u).model == (if u.model is Some {
            u.model
        } else {
            f.model
        }),
        apply_sparse(f, u).is_streaming == (if u.is_streaming is Some {
            u.is_streaming->0
        } else {
            f.is_streaming
        }),
        apply_sparse(f, u).retry_count == (if u.retry_count is Some {
            u.retry_count->0
        } else {
            f.retry_count
        }),
        apply_sparse(f, u).token_cost == (if u.token_cost is Some {
            u.token_cost
        } else {
            f.token_cost
        }),
        apply_sparse(f, u).has_error == (if u.has_error is Some {
            u.has_error->0
        } else {
            f.has_error
        }),
        apply_sparse(f, u).manual_priority == (if u.manual_priority is Some {
            u.manual_priority
        } else {
            f.manual_priority
        }),
        apply_sparse(f, u).id == f.id,
        apply_sparse(f, u).project_dir == f.project_dir,
        apply_sparse(f, u).description == f.description,
        apply_sparse(f, u).category == f.category,
        apply_sparse(f, u).steps == f.steps,
        apply_sparse(f, u).work_count == f.work_count,
        apply_sparse(f, u).completion_criteria == f.completion_criteria,
        apply_sparse(f, u).updated_at == f.updated_at,
        apply_sparse(f, u).last_agent_update == f.last_agent_update,
        apply_sparse(f, u).human_override_until == f.human_override_until,
{
}

/// Append-only record of one agent action.
#[derive(Debug, PartialEq)]
pub struct AgentEvent {
    pub id: Option<i64>,
    pub event_type: String,
    pub source_agent: String,
    pub session_id: String,
    pub project_dir: String,
    pub tool_name: Option<String>,
    pub payload: Option<String>,
    pub feature_id: Option<String>,
    pub created_at: i64,
}

/// Specification-level value of an `AgentEvent`.
#[verifier::ext_equal]
pub ghost struct AgentEventV {
    pub id: Option<i64>,
    pub event_type: Seq<char>,
    pub source_agent: Seq<char>,
    pub session_id: Seq<char>,
    pub project_dir: Seq<char>,
    pub tool_name: Option<Seq<char>>,
    pub payload: Option<Seq<char>>,
    pub feature_id: Option<Seq<char>>,
    pub created_at: i64,
}

impl View for AgentEvent {
    type V = AgentEventV;

    open spec fn view(&self) -> AgentEventV {
        AgentEventV {
            id: self.id,
            event_type: self.event_type@,
            source_agent: self.source_agent@,
            session_id: self.session_id@,
            project_dir: self.project_dir@,
            tool_name: self.tool_name.deep_view(),
            payload: self.payload.deep_view(),
            feature_id: self.feature_id.deep_view(),
            created_at: self.created_at,
        }
    }
}

impl DeepView for AgentEvent {
    type V = AgentEventV;

    open spec fn deep_view(&self) -> AgentEventV {
        self.view()
    }
}

/// One tracked span of agent activity, keyed by session id.
#[derive(Debug, PartialEq)]
pub struct Session {
    pub session_id: String,
    pub source_agent: String,
    pub project_dir: String,
    pub started_at: i64,
    pub last_activity: i64,
    pub status: String,
}

/// Specification-level value of a `Session`.
#[verifier::ext_equal]
pub ghost struct SessionV {
    pub session_id: Seq<char>,
    pub source_agent: Seq<char>,
    pub project_dir: Seq<char>,
    pub started_at: i64,
    pub last_activity: i64,
    pub status: Seq<char>,
}

impl View for Session {
    type V = SessionV;

    open spec fn view(&self) -> SessionV {
        SessionV {
            session_id: self.session_id@,
            source_agent: self.source_agent@,
            project_dir: self.project_dir@,
            started_at: self.started_at,
            last_activity: self.last_activity,
            status: self.status@,
        }
    }
}

impl DeepView for Session {
    type V = SessionV;

    open spec fn deep_view(&self) -> SessionV {
        self.view()
    }
}

/// Aggregate feature and session counts over the cache.
#[derive(Debug, Clone, Copy, PartialEq, Eq, Structural)]
pub struct Stats {
    pub total: i64,
    pub completed: i64,
    pub in_progress: i64,
    pub active_sessions: i64,
}

/// Process-wide configuration singleton.
#[derive(Debug, PartialEq)]
pub struct Config {
    pub watched_projects: Vec<String>,
    pub sync_server_port: u16,
    pub notifications_enabled: bool,
    pub selected_project: Option<String>,
}

/// Specification-level value of a `Config`.
#[verifier::ext_equal]
pub ghost struct ConfigV {
    pub watched_projects: Seq<Seq<char>>,
    pub sync_server_port: u16,
    pub notifications_enabled: bool,
    pub selected_project: Option<Seq<char>>,
}

impl View for Config {
    type V = ConfigV;

    open spec fn view(&self) -> ConfigV {
        ConfigV {
            watched_projects: self.watched_projects.deep_view(),
            sync_server_port: self.sync_server_port,
            notifications_enabled: self.notifications_enabled,
            selected_project: self.selected_project.deep_view(),
        }
    }
}

impl Default for Config {
    /// No watched projects, port 4000, notifications on, nothing selected.
    fn default() -> (c: Config)
        ensures
            c@.watched_projects.len() == 0,
            c@.sync_server_port == 4000,
            c@.notifications_enabled,
            c@.selected_project is None,
    {
        Config {
            watched_projects: Vec::new(),
            sync_server_port: 4000,
            notifications_enabled: true,
            selected_project: None,
        }
    }
}

/// Feature row as reported by the authoritative external store, ready to be
/// mirrored into the local cache.
#[derive(Debug, PartialEq)]
pub struct GraphFeatureSync {
    pub id: String,
    pub project_dir: String,
    pub description: String,
    pub category: String,
    pub status: String,
    pub steps: Vec<String>,
}

/// Specification-level value of a `GraphFeatureSync`.
#[verifier::ext_equal]
pub ghost struct GraphFeatureSyncV {
    pub id: Seq<char>,
    pub project_dir: Seq<char>,
    pub description: Seq<char>,
    pub category: Seq<char>,
    pub status: Seq<char>,
    pub steps: Seq<Seq<char>>,
}

impl View for GraphFeatureSync {
    type V = GraphFeatureSyncV;

    open spec fn view(&self) -> GraphFeatureSyncV {
        GraphFeatureSyncV {
            id: self.id@,
            project_dir: self.project_dir@,
            description: self.description@,
            category: self.category@,
            status: self.status@,
            steps: self.steps.deep_view(),
        }
    }
}

impl DeepView for GraphFeatureSync {
    type V = GraphFeatureSyncV;

    open spec fn deep_view(&self) -> GraphFeatureSyncV {
        self.view()
    }
}

/// Copy of a string vector that provably carries the same character content.
pub fn clone_string_vec(v: &Vec<String>) -> (r: Vec<String>)
    ensures
        r.deep_view() == v.deep_view(),
{
    let mut r: Vec<String> = Vec::new();
    let mut i: usize = 0;
    while i < v.len()
        invariant
            i <= v.len(),
            r@.len() == i,
            r.deep_view() =~= v.deep_view().take(i as int),
        decreases v.len() - i,
    {
        let c = v[i].clone();
        proof {
            assert(c == v@[i as int]);
        }
        r.push(c);
        i = i + 1;
        proof {
            assert(r.deep_view() =~= v.deep_view().take(i as int));
        }
    }
    proof {
        assert(r.deep_view() =~= v.deep_view());
    }
    r
}

/// True when the two string vectors hold the same strings in the same order.
pub fn string_vecs_equal(a: &Vec<String>, b: &Vec<String>) -> (r: bool)
    ensures
        r == (a.deep_view() == b.deep_view()),
{
    let n = a.len();
    if n != b.len() {
        proof {
            assert(a.deep_view().len() != b.deep_view().len());
        }
        return false;
    }
    let mut i: usize = 0;
    while i < n
        invariant
            i <= n,
            n == a@.len(),
            n == b@.len(),
            forall|j: int| 0 <= j < i ==> a.deep_view()[j] == b.deep_view()[j],
        decreases n - i,
    {
        if !crate::str_eq(a[i].as_str(), b[i].as_str()) {
            proof {
                assert(a.deep_view()[i as int] == a@[i as int]@);
                assert(b.deep_view()[i as int] == b@[i as int]@);
                assert(a.deep_view()[i as int] != b.deep_view()[i as int]);
            }
            return false;
        }
        proof {
            assert(a.deep_view()[i as int] == a@[i as int]@);
            assert(b.deep_view()[i as int] == b@[i as int]@);
        }
        i = i + 1;
    }
    proof {
        assert(a.deep_view() =~= b.deep_view());
    }
    true
}

/// Copy of an optional step list that provably carries the same content.
fn clone_steps(s: &Option<Vec<String>>) -> (r: Option<Vec<String>>)
    ensures
        r.deep_view() == s.deep_view(),
{
    match s {
        Some(v) => Some(clone_string_vec(v)),
        None => None,
    }
}

impl Clone for Feature {
    /// The copy has the same specification-level value as the original.
    fn clone(&self) -> (r: Self)
        ensures
            r@ == self@,
    {
        let r = Feature {
            id: self.id.clone(),
            project_dir: self.project_dir.clone(),
            description: self.description.clone(),
            category: self.category.clone(),
            passes: self.passes,
            in_progress: self.in_progress,
            agent: self.agent.clone(),
            steps: clone_steps(&self.steps),
            work_count: self.work_count,
            completion_criteria: self.completion_criteria.clone(),
            updated_at: self.updated_at,
            confidence: self.confidence,
            model: self.model.clone(),
            is_streaming: self.is_streaming,
            retry_count: self.retry_count,
            token_cost: self.token_cost,
            has_error: self.has_error,
            last_agent_update: self.last_agent_update,
            manual_priority: self.manual_priority.clone(),
            human_override_until: self.human_override_until,
        };
        proof {
            assert(r@ =~= self@);
        }
        r
    }
}

impl Clone for FeatureUpdate {
    /// The copy has the same specification-level value as the original.
    fn clone(&self) -> (r: Self)
        ensures
            r@ == self@,
    {
        let r = FeatureUpdate {
            passes: self.passes,
            in_progress: self.in_progress,
            agent: self.agent.clone(),
            confidence: self.confidence,
            model: self.model.clone(),
            is_streaming: self.is_streaming,
            retry_count: self.retry_count,
            token_cost: self.token_cost,
            has_error: self.has_error,
            manual_priority: self.manual_priority.clone(),
        };
        proof {
            assert(r@ =~= self@);
        }
        r
    }
}

impl Clone for AgentEvent {
    /// The copy has the same specification-level value as the original.
    fn clone(&self) -> (r: Self)
        ensures
            r@ == self@,
    {
        let r = AgentEvent {
            id: self.id,
            event_type: self.event_type.clone(),
            source_agent: self.source_agent.clone(),
            session_id: self.session_id.clone(),
            project_dir: self.project_dir.clone(),
            tool_name: self.tool_name.clone(),
            payload: self.payload.clone(),
            feature_id: self.feature_id.clone(),
            created_at: self.created_at,
        };
        proof {
            assert(r@ =~= self@);
        }
        r
    }
}

impl Clone for Session {
    /// The copy has the same specification-level value as the original.
    fn clone(&self) -> (r: Self)
        ensures
            r@ == self@,
    {
        let r = Session {
            session_id: self.session_id.clone(),
            source_agent: self.source_agent.clone(),
            project_dir: self.project_dir.clone(),
            started_at: self.started_at,
            last_activity: self.last_activity,
            status: self.status.clone(),
        };
        proof {
            assert(r@ =~= self@);
        }
        r
    }
}

impl Clone for Config {
    /// The copy has the same specification-level value as the original.
    fn clone(&self) -> (r: Self)
        ensures
            r@ == self@,
    {
        let r = Config {
            watched_projects: clone_string_vec(&self.watched_projects),
            sync_server_port: self.sync_server_port,
            notifications_enabled: self.notifications_enabled,
            selected_project: self.selected_project.clone(),
        };
        proof {
            assert(r@ =~= self@);
        }
        r
    }
}

impl Clone for GraphFeatureSync {
    /// The copy has the same specification-level value as the original.
    fn clone(&self) -> (r: Self)
        ensures
            r@ == self@,
    {
        let r = GraphFeatureSync {
            id: self.id.clone(),
            project_dir: self.project_dir.clone(),
            description: self.description.clone(),
            category: self.category.clone(),
            status: self.status.clone(),
            steps: clone_string_vec(&self.steps),
        };
        proof {
            assert(r@ =~= self@);
        }
        r
    }
}

/// Parses the boundary source tag: exactly `"human"` or `"agent"` is accepted,
/// anything else is rejected before it reaches the core.
pub fn parse_update_source(s: &str) -> (r: Option<UpdateSource>)
    ensures
        s@ == "human"@ ==> r == Some(UpdateSource::Human),
        s@ == "agent"@ ==> r == Some(UpdateSource::Agent),
        s@ != "human"@ && s@ != "agent"@ ==> r is None,
{
    proof {
        reveal_strlit("human");
        reveal_strlit("agent");
        assert("human"@[0] == 'h');
        assert("agent"@[0] == 'a');
        assert("human"@ != "agent"@);
    }
    if crate::str_eq(s, "human") {
        Some(UpdateSource::Human)
    } else if crate::str_eq(s, "agent") {
        Some(UpdateSource::Agent)
    } else {
        None
    }
}

} // verus!
