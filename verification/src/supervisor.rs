//! The process supervisor: one tagged state per model id, every transition
//! performed by a single consumer. The supervisor core decides; the
//! application layer around it spawns, kills and polls.

use vstd::prelude::*;
use crate::models::{LlamaCppConfig, LlamaCppConfigV, ModelId, ModelInfo};
use crate::strutil;

verus! {

/// The lifecycle of one inference server.
pub enum ModelState {
    Stopped,
    Starting,
    Running { port: u16, pid: u32, config: LlamaCppConfig },
}

/// The mathematical shape of a lifecycle state.
pub enum ModelStateV {
    Stopped,
    Starting,
    Running { port: u16, pid: u32, config: LlamaCppConfigV },
}

impl View for ModelState {
    type V = ModelStateV;

    open spec fn view(&self) -> ModelStateV {
        match self {
            ModelState::Stopped => ModelStateV::Stopped,
            ModelState::Starting => ModelStateV::Starting,
            ModelState::Running { port, pid, config } => ModelStateV::Running {
                port: *port,
                pid: *pid,
                config: config@,
            },
        }
    }
}

// ---------------------------------------------------------------------------
// The keyed state table
// ---------------------------------------------------------------------------

/// The views of the entries of the state table.
pub open spec fn states_view(ss: Seq<(ModelId, ModelState)>) -> Seq<(Seq<char>, ModelStateV)>
    decreases ss,
{
    if ss.len() == 0 {
        Seq::empty()
    } else {
        states_view(ss.drop_last()).push((ss.last().0@, ss.last().1@))
    }
}

pub broadcast proof fn lemma_states_view_len(ss: Seq<(ModelId, ModelState)>)
    ensures
        (#[trigger] states_view(ss)).len() == ss.len(),
    decreases ss,
{
    if ss.len() > 0 {
        lemma_states_view_len(ss.drop_last());
        assert(states_view(ss) == states_view(ss.drop_last()).push(
            (ss.last().0@, ss.last().1@),
        ));
    }
}

pub broadcast proof fn lemma_states_view_index(ss: Seq<(ModelId, ModelState)>, i: int)
    requires
        0 <= i < ss.len(),
    ensures
        #[trigger] states_view(ss)[i] == (ss[i].0@, ss[i].1@),
    decreases ss,
{
    lemma_states_view_len(ss);
    lemma_states_view_len(ss.drop_last());
    assert(states_view(ss) == states_view(ss.drop_last()).push((ss.last().0@, ss.last().1@)));
    if i == ss.len() - 1 {
        assert(states_view(ss)[i] == (ss.last().0@, ss.last().1@));
    } else {
        lemma_states_view_index(ss.drop_last(), i);
        assert(states_view(ss)[i] == states_view(ss.drop_last())[i]);
        assert(ss.drop_last()[i] == ss[i]);
    }
}

/// The state bound to `id`, searching front to back.
pub open spec fn assoc_state(ss: Seq<(Seq<char>, ModelStateV)>, id: Seq<char>) -> Option<
    ModelStateV,
>
    decreases ss.len(),
{
    if ss.len() == 0 {
        None
    } else if ss[0].0 == id {
        Some(ss[0].1)
    } else {
        assoc_state(ss.subrange(1, ss.len() as int), id)
    }
}

proof fn lemma_assoc_state_skip(ss: Seq<(Seq<char>, ModelStateV)>, id: Seq<char>, i: int)
    requires
        0 <= i <= ss.len(),
        forall|j: int| 0 <= j < i ==> (#[trigger] ss[j]).0 != id,
    ensures
        assoc_state(ss, id) == assoc_state(ss.subrange(i, ss.len() as int), id),
    decreases i,
{
    if i > 0 {
        let t = ss.subrange(1, ss.len() as int);
        lemma_assoc_state_skip(t, id, i - 1);
        assert(t.subrange(i - 1, t.len() as int) =~= ss.subrange(i, ss.len() as int));
    } else {
        assert(ss.subrange(0, ss.len() as int) =~= ss);
    }
}

proof fn lemma_assoc_state_update(
    ss: Seq<(Seq<char>, ModelStateV)>,
    i: int,
    v: ModelStateV,
    id: Seq<char>,
)
    requires
        0 <= i < ss.len(),
        forall|j: int| 0 <= j < i ==> (#[trigger] ss[j]).0 != ss[i].0,
    ensures
        assoc_state(ss.update(i, (ss[i].0, v)), ss[i].0) == Some(v),
        id != ss[i].0 ==> assoc_state(ss.update(i, (ss[i].0, v)), id) == assoc_state(ss, id),
    decreases i,
{
    let t = ss.update(i, (ss[i].0, v));
    if i == 0 {
        assert(t[0] == (ss[0].0, v));
        if id != ss[0].0 {
            assert(t.subrange(1, t.len() as int) =~= ss.subrange(1, ss.len() as int));
        }
    } else {
        assert(t[0] == ss[0]);
        assert(ss[0].0 != ss[i].0);
        let ss1 = ss.subrange(1, ss.len() as int);
        assert(forall|j: int| 0 <= j < i - 1 ==> (#[trigger] ss1[j]).0 != ss1[i - 1].0);
        lemma_assoc_state_update(ss1, i - 1, v, id);
        assert(t.subrange(1, t.len() as int) =~= ss1.update(i - 1, (ss1[i - 1].0, v)));
        assert(ss1[i - 1] == ss[i]);
    }
}

proof fn lemma_assoc_state_push(
    ss: Seq<(Seq<char>, ModelStateV)>,
    k: Seq<char>,
    v: ModelStateV,
    id: Seq<char>,
)
    requires
        forall|j: int| 0 <= j < ss.len() ==> (#[trigger] ss[j]).0 != k,
    ensures
        assoc_state(ss.push((k, v)), k) == Some(v),
        id != k ==> assoc_state(ss.push((k, v)), id) == assoc_state(ss, id),
    decreases ss.len(),
{
    let t = ss.push((k, v));
    if ss.len() == 0 {
        assert(t[0] == (k, v));
        if id != k {
            assert(t[0].0 != id);
            assert(t.subrange(1, t.len() as int).len() == 0);
            assert(assoc_state(t, id) == assoc_state(t.subrange(1, t.len() as int), id));
            assert(assoc_state(t, id) is None);
            assert(assoc_state(ss, id) is None);
        }
    } else {
        assert(t[0] == ss[0]);
        assert(ss[0].0 != k);
        let ss1 = ss.subrange(1, ss.len() as int);
        lemma_assoc_state_push(ss1, k, v, id);
        assert(t.subrange(1, t.len() as int) =~= ss1.push((k, v)));
        if id != k {
            if ss[0].0 == id {
                assert(assoc_state(t, id) == Some(t[0].1));
                assert(assoc_state(ss, id) == Some(ss[0].1));
            }
        }
    }
}

// ---------------------------------------------------------------------------
// The supervisor core
// ---------------------------------------------------------------------------

/// The supervisor's whole decision state: per-model lifecycle states, the
/// model registry, and the single active-model pointer.
pub struct SupervisorCore {
    pub states: Vec<(ModelId, ModelState)>,
    pub registry: Vec<(ModelId, ModelInfo)>,
    pub active_model: Option<ModelId>,
}

impl SupervisorCore {
    /// The lifecycle state recorded for `id`.
    pub open spec fn state_of(&self, id: Seq<char>) -> Option<ModelStateV> {
        assoc_state(states_view(self.states@), id)
    }

    /// The id of the active model, if one is set.
    pub open spec fn active_of(&self) -> Option<Seq<char>> {
        match self.active_model {
            Some(ref m) => Some(m@),
            None => None,
        }
    }

    /// Each model id appears at most once in the state table.
    pub open spec fn wf(&self) -> bool {
        forall|i: int, j: int|
            0 <= i < j < self.states@.len() ==> (#[trigger] self.states@[i]).0@ != (
            #[trigger] self.states@[j]).0@
    }

    /// A fresh core: no states, no active model.
    pub fn new(registry: Vec<(ModelId, ModelInfo)>) -> (r: SupervisorCore)
        ensures
            r.wf(),
            forall|id: Seq<char>| r.state_of(id) is None,
            r.active_of() is None,
            r.registry@ == registry@,
    {
        let r = SupervisorCore { states: Vec::new(), registry, active_model: None };
        proof {
            assert(states_view(r.states@) =~= Seq::<(Seq<char>, ModelStateV)>::empty());
            assert(forall|id: Seq<char>| r.state_of(id) is None);
        }
        r
    }

    /// Index of the entry for `id`, when there is one.
    fn find_state_index(&self, id: &ModelId) -> (r: Option<usize>)
        ensures
            match r {
                Some(i) => i < self.states@.len() && self.states@[i as int].0@ == id@
                    && self.state_of(id@) == Some(self.states@[i as int].1@) && forall|j: int|
                    0 <= j < i ==> (#[trigger] self.states@[j]).0@ != id@,
                None => self.state_of(id@) is None,
            },
    {
        broadcast use lemma_states_view_len, lemma_states_view_index;

        let ghost vs = states_view(self.states@);
        let mut i: usize = 0;
        while i < self.states.len()
            invariant
                i <= self.states@.len(),
                forall|j: int| 0 <= j < i ==> (#[trigger] self.states@[j]).0@ != id@,
            decreases self.states@.len() - i,
        {
            if strutil::eq_str(self.states[i].0.0.as_str(), id.0.as_str()) {
                proof {
                    lemma_states_view_len(self.states@);
                    assert forall|j: int| 0 <= j < i implies (#[trigger] vs[j]).0 != id@ by {
                        lemma_states_view_index(self.states@, j);
                    }
                    lemma_assoc_state_skip(vs, id@, i as int);
                    let rest = vs.subrange(i as int, vs.len() as int);
                    assert(rest[0] == vs[i as int]);
                    lemma_states_view_index(self.states@, i as int);
                    assert(vs[i as int].0 == id@);
                }
                return Some(i);
            }
            i += 1;
        }
        proof {
            lemma_states_view_len(self.states@);
            assert forall|j: int| 0 <= j < i implies (#[trigger] vs[j]).0 != id@ by {
                lemma_states_view_index(self.states@, j);
            }
            lemma_assoc_state_skip(vs, id@, i as int);
            assert(vs.subrange(i as int, vs.len() as int).len() == 0);
        }
        None
    }

    /// Record `st` as the state of `id`, replacing any earlier entry.
    fn upsert_state(&mut self, id: &ModelId, st: ModelState)
        requires
            old(self).wf(),
        ensures
            final(self).wf(),
            final(self).state_of(id@) == Some(st@),
            forall|other: Seq<char>|
                other != id@ ==> #[trigger] final(self).state_of(other) == old(self).state_of(
                    other,
                ),
            final(self).active_of() == old(self).active_of(),
            final(self).registry@ == old(self).registry@,
    {
        broadcast use lemma_states_view_len, lemma_states_view_index;

        let ghost oldvs = states_view(self.states@);
        match self.find_state_index(id) {
            Some(i) => {
                let key = self.states[i].0.dup();
                let ghost oldstates = self.states@;
                self.states.remove(i);
                self.states.insert(i, (key, st));
                proof {
                    lemma_states_view_len(oldstates);
                    lemma_states_view_len(self.states@);
                    assert(self.states@ =~= oldstates.update(i as int, (key, st)));
                    let newvs = states_view(self.states@);
                    assert forall|j: int| 0 <= j < newvs.len() implies #[trigger] newvs[j]
                        == oldvs.update(i as int, (oldvs[i as int].0, st@))[j] by {
                        lemma_states_view_index(self.states@, j);
                        lemma_states_view_index(oldstates, j);
                        lemma_states_view_index(oldstates, i as int);
                    }
                    assert(newvs =~= oldvs.update(i as int, (oldvs[i as int].0, st@)));
                    assert forall|j: int| 0 <= j < i implies (#[trigger] oldvs[j]).0 != oldvs[
                        i as int].0 by {
                        lemma_states_view_index(oldstates, j);
                        lemma_states_view_index(oldstates, i as int);
                    }
                    lemma_assoc_state_update(oldvs, i as int, st@, id@);
                    lemma_states_view_index(oldstates, i as int);
                    assert(final(self).state_of(id@) == Some(st@));
                    assert forall|other: Seq<char>| other != id@ implies #[trigger] assoc_state(
                        newvs,
                        other,
                    ) == assoc_state(oldvs, other) by {
                        lemma_assoc_state_update(oldvs, i as int, st@, other);
                    }
                    assert forall|a: int, b: int|
                        0 <= a < b < self.states@.len() implies (
                    #[trigger] self.states@[a]).0@ != (#[trigger] self.states@[b]).0@ by {
                        assert(self.states@[a].0@ == oldstates[a].0@);
                        assert(self.states@[b].0@ == oldstates[b].0@);
                    }
                }
            },
            None => {
                let key = id.dup();
                let ghost oldstates = self.states@;
                self.states.push((key, st));
                proof {
                    lemma_states_view_len(oldstates);
                    lemma_states_view_len(self.states@);
                    assert(self.states@ =~= oldstates.push((key, st)));
                    let newvs = states_view(self.states@);
                    assert forall|j: int| 0 <= j < newvs.len() implies #[trigger] newvs[j]
                        == oldvs.push((id@, st@))[j] by {
                        lemma_states_view_index(self.states@, j);
                        if j < oldvs.len() {
                            lemma_states_view_index(oldstates, j);
                        }
                    }
                    assert(newvs =~= oldvs.push((id@, st@)));
                    assert forall|j: int| 0 <= j < oldvs.len() implies (#[trigger] oldvs[j]).0
                        != id@ by {
                        if oldvs[j].0 == id@ {
                            assert forall|m: int| 0 <= m < j implies (#[trigger] oldvs.subrange(
                                0,
                                j,
                            )[m]).0 != id@ by {
                                lemma_states_view_index(oldstates, m);
                                lemma_states_view_index(oldstates, j);
                                assert(oldstates[m].0@ != oldstates[j].0@);
                            }
                            assert(forall|m: int| 0 <= m < j ==> (#[trigger] oldvs[m]).0 != id@);
                            lemma_assoc_state_skip(oldvs, id@, j);
                            let rest = oldvs.subrange(j, oldvs.len() as int);
                            assert(rest[0] == oldvs[j]);
                            assert(assoc_state(oldvs, id@) is Some);
                        }
                    }
                    lemma_assoc_state_push(oldvs, id@, st@, id@);
                    assert(final(self).state_of(id@) == Some(st@));
                    assert forall|other: Seq<char>| other != id@ implies #[trigger] assoc_state(
                        newvs,
                        other,
                    ) == assoc_state(oldvs, other) by {
                        lemma_assoc_state_push(oldvs, id@, st@, other);
                    }
                    assert forall|a: int, b: int|
                        0 <= a < b < self.states@.len() implies (
                    #[trigger] self.states@[a]).0@ != (#[trigger] self.states@[b]).0@ by {
                        lemma_states_view_index(oldstates, a);
                        if b < oldstates.len() {
                            lemma_states_view_index(oldstates, b);
                        } else {
                            lemma_states_view_index(oldstates, a);
                            assert(oldvs[a].0 != id@);
                        }
                    }
                }
            },
        }
    }
}


// ---------------------------------------------------------------------------
// Registry lookup
// ---------------------------------------------------------------------------

/// The model file path recorded for `id` in the registry, if any.
pub open spec fn registry_model_path(rs: Seq<(ModelId, ModelInfo)>, id: Seq<char>) -> Option<
    Seq<char>,
>
    decreases rs.len(),
{
    if rs.len() == 0 {
        None
    } else if rs[0].0@ == id {
        rs[0].1.model_file_path.deep_view()
    } else {
        registry_model_path(rs.subrange(1, rs.len() as int), id)
    }
}

proof fn lemma_registry_model_path_skip(rs: Seq<(ModelId, ModelInfo)>, id: Seq<char>, i: int)
    requires
        0 <= i <= rs.len(),
        forall|j: int| 0 <= j < i ==> (#[trigger] rs[j]).0@ != id,
    ensures
        registry_model_path(rs, id) == registry_model_path(rs.subrange(i, rs.len() as int), id),
    decreases i,
{
    if i > 0 {
        let t = rs.subrange(1, rs.len() as int);
        lemma_registry_model_path_skip(t, id, i - 1);
        assert(t.subrange(i - 1, t.len() as int) =~= rs.subrange(i, rs.len() as int));
    } else {
        assert(rs.subrange(0, rs.len() as int) =~= rs);
    }
}

// ---------------------------------------------------------------------------
// Start, completion, stop, queries
// ---------------------------------------------------------------------------

/// What the supervisor will do about a start request.
pub enum StartDecision {
    /// The model is already Running: reply with its cached pid, spawn nothing.
    AlreadyRunning(u32),
    /// A start is already in flight: reply with this error, spawn nothing.
    AlreadyStarting(String),
    /// Begin a start: the state is now Starting, and the caller must run
    /// this plan asynchronously and deliver the outcome to `complete_start`.
    Spawn(SpawnPlan),
}

/// Everything the asynchronous spawn task needs.
pub struct SpawnPlan {
    pub model_file_path: Option<String>,
    pub config: LlamaCppConfig,
}

/// The mathematical shape of a start decision.
pub enum StartDecisionV {
    AlreadyRunningV(u32),
    AlreadyStartingV,
    SpawnV,
}

impl StartDecision {
    /// The shape of this decision.
    pub open spec fn decision_v(&self) -> StartDecisionV {
        match self {
            StartDecision::AlreadyRunning(pid) => StartDecisionV::AlreadyRunningV(*pid),
            StartDecision::AlreadyStarting(_) => StartDecisionV::AlreadyStartingV,
            StartDecision::Spawn(_) => StartDecisionV::SpawnV,
        }
    }
}

/// How one start request transforms the state recorded for its model id,
/// and which decision it yields. Everything a start request does to the
/// state table goes through this one function.
pub open spec fn start_step(st: Option<ModelStateV>) -> (Option<ModelStateV>, StartDecisionV) {
    match st {
        Some(ModelStateV::Running { port, pid, config }) => (
            st,
            StartDecisionV::AlreadyRunningV(pid),
        ),
        Some(ModelStateV::Starting) => (st, StartDecisionV::AlreadyStartingV),
        _ => (Some(ModelStateV::Starting), StartDecisionV::SpawnV),
    }
}

impl SupervisorCore {
    /// Decide a start request, marking the model Starting when a spawn is
    /// to begin. While Running the cached pid is returned and nothing
    /// changes; while Starting the request fails and nothing changes.
    pub fn start_request(&mut self, id: &ModelId, config: &LlamaCppConfig) -> (r: StartDecision)
        requires
            old(self).wf(),
        ensures
            final(self).wf(),
            final(self).registry@ == old(self).registry@,
            final(self).active_of() == old(self).active_of(),
            (final(self).state_of(id@), r.decision_v()) == start_step(old(self).state_of(id@)),
            forall|other: Seq<char>|
                other != id@ ==> #[trigger] final(self).state_of(other) == old(self).state_of(
                    other,
                ),
            match r {
                StartDecision::AlreadyRunning(_) => *final(self) == *old(self),
                StartDecision::AlreadyStarting(msg) => *final(self) == *old(self) && msg@
                    == "Model "@ + id@ + " is already starting"@,
                StartDecision::Spawn(plan) => plan.config@ == config@
                    && plan.model_file_path.deep_view() == registry_model_path(
                    old(self).registry@,
                    id@,
                ),
            },
    {
        match self.find_state_index(id) {
            Some(i) => {
                match &self.states[i].1 {
                    ModelState::Running { pid, .. } => {
                        return StartDecision::AlreadyRunning(*pid);
                    },
                    ModelState::Starting => {
                        let mut msg = "Model ".to_owned();
                        msg.append(id.0.as_str());
                        msg.append(" is already starting");
                        proof {
                            assert(msg@ =~= "Model "@ + id@ + " is already starting"@);
                        }
                        return StartDecision::AlreadyStarting(msg);
                    },
                    ModelState::Stopped => {},
                }
            },
            None => {},
        }
        let model_file_path = self.lookup_registry_path(id);
        self.upsert_state(id, ModelState::Starting);
        StartDecision::Spawn(SpawnPlan { model_file_path, config: config.dup() })
    }

    /// The registry's model file path for `id`, if the registry knows the id.
    fn lookup_registry_path(&self, id: &ModelId) -> (r: Option<String>)
        ensures
            r.deep_view() == registry_model_path(self.registry@, id@),
    {
        let mut i: usize = 0;
        while i < self.registry.len()
            invariant
                i <= self.registry@.len(),
                forall|j: int| 0 <= j < i ==> (#[trigger] self.registry@[j]).0@ != id@,
            decreases self.registry@.len() - i,
        {
            if strutil::eq_str(self.registry[i].0.0.as_str(), id.0.as_str()) {
                proof {
                    lemma_registry_model_path_skip(self.registry@, id@, i as int);
                    let rest = self.registry@.subrange(i as int, self.registry@.len() as int);
                    assert(rest[0] == self.registry@[i as int]);
                }
                let r = match &self.registry[i].1.model_file_path {
                    Some(p) => Some(p.clone()),
                    None => None,
                };
                proof {
                    assert(r.deep_view() =~~= self.registry@[i as int].1.model_file_path.deep_view());
                }
                return r;
            }
            i += 1;
        }
        proof {
            lemma_registry_model_path_skip(self.registry@, id@, i as int);
            assert(self.registry@.subrange(i as int, self.registry@.len() as int).len() == 0);
        }
        None
    }

    /// Record a spawn outcome delivered back to the consumer loop: success
    /// makes the model Running and active, and answers the cached pid;
    /// failure returns the model to Stopped, so a later start can retry.
    pub fn complete_start(
        &mut self,
        id: &ModelId,
        outcome: Result<(u16, u32), String>,
        config: &LlamaCppConfig,
    ) -> (r: Result<u32, String>)
        requires
            old(self).wf(),
        ensures
            final(self).wf(),
            final(self).registry@ == old(self).registry@,
            forall|other: Seq<char>|
                other != id@ ==> #[trigger] final(self).state_of(other) == old(self).state_of(
                    other,
                ),
            match outcome {
                Ok((port, pid)) => r == Ok::<u32, String>(pid) && final(self).state_of(id@)
                    == Some(
                    ModelStateV::Running { port, pid, config: config@ },
                ) && final(self).active_of() == Some(id@),
                Err(e) => r == Err::<u32, String>(e) && final(self).state_of(id@) == Some(
                    ModelStateV::Stopped,
                ) && final(self).active_of() == old(self).active_of(),
            },
    {
        match outcome {
            Ok((port, pid)) => {
                self.active_model = Some(id.dup());
                self.upsert_state(
                    id,
                    ModelState::Running { port, pid, config: config.dup() },
                );
                Ok(pid)
            },
            Err(e) => {
                self.upsert_state(id, ModelState::Stopped);
                Err(e)
            },
        }
    }

    /// Stop a model: its state becomes Stopped if it was tracked, an
    /// unknown id is a successful no-op, and the active-model pointer is
    /// cleared when it pointed here. The caller kills and reaps the real
    /// process it had registered for this id.
    pub fn stop(&mut self, id: &ModelId) -> (r: Result<(), String>)
        requires
            old(self).wf(),
        ensures
            final(self).wf(),
            r is Ok,
            final(self).registry@ == old(self).registry@,
            match old(self).state_of(id@) {
                Some(_) => final(self).state_of(id@) == Some(ModelStateV::Stopped),
                None => final(self).state_of(id@) is None,
            },
            forall|other: Seq<char>|
                other != id@ ==> #[trigger] final(self).state_of(other) == old(self).state_of(
                    other,
                ),
            final(self).active_of() == (if old(self).active_of() == Some(id@) {
                None::<Seq<char>>
            } else {
                old(self).active_of()
            }),
    {
        let clear = match &self.active_model {
            Some(a) => strutil::eq_str(a.0.as_str(), id.0.as_str()),
            None => false,
        };
        if clear {
            self.active_model = None;
        }
        match self.find_state_index(id) {
            Some(_) => {
                self.upsert_state(id, ModelState::Stopped);
            },
            None => {},
        }
        Ok(())
    }

    /// The recorded port when the model is Running; the error every chat
    /// path surfaces otherwise.
    pub fn chat_port(&self, id: &ModelId) -> (r: Result<u16, String>)
        ensures
            match self.state_of(id@) {
                Some(ModelStateV::Running { port, .. }) => r == Ok::<u16, String>(port),
                _ => r is Err && r->Err_0@ == "Model "@ + id@ + " is not running"@,
            },
    {
        match self.find_state_index(id) {
            Some(i) => {
                match &self.states[i].1 {
                    ModelState::Running { port, .. } => {
                        return Ok(*port);
                    },
                    _ => {},
                }
            },
            None => {},
        }
        let mut msg = "Model ".to_owned();
        msg.append(id.0.as_str());
        msg.append(" is not running");
        proof {
            assert(msg@ =~= "Model "@ + id@ + " is not running"@);
        }
        Err(msg)
    }

    /// Whether the given model, or the active one when none is given, is
    /// Running.
    pub fn is_running(&self, id: &Option<ModelId>) -> (r: bool)
        ensures
            r == ({
                let rid = match id {
                    Some(m) => Some(m@),
                    None => self.active_of(),
                };
                match rid {
                    Some(x) => self.state_of(x) matches Some(ModelStateV::Running { .. }),
                    None => false,
                }
            }),
    {
        let target: &ModelId = match id {
            Some(m) => m,
            None => {
                match &self.active_model {
                    Some(a) => a,
                    None => {
                        return false;
                    },
                }
            },
        };
        match self.find_state_index(target) {
            Some(i) => {
                match &self.states[i].1 {
                    ModelState::Running { .. } => true,
                    _ => false,
                }
            },
            None => false,
        }
    }

    /// The active model's launch configuration, when it is Running.
    pub fn get_config(&self) -> (r: Option<LlamaCppConfig>)
        ensures
            match r {
                Some(c) => exists|aid: Seq<char>|
                    self.active_of() == Some(aid) && ((#[trigger] self.state_of(aid)) matches Some(
                        ModelStateV::Running { config, .. },
                    ) && c@ == config),
                None => match self.active_of() {
                    Some(aid) => !(self.state_of(aid) matches Some(
                        ModelStateV::Running { .. },
                    )),
                    None => true,
                },
            },
    {
        let active = match &self.active_model {
            Some(a) => a,
            None => {
                return None;
            },
        };
        match self.find_state_index(active) {
            Some(i) => {
                match &self.states[i].1 {
                    ModelState::Running { config, .. } => {
                        let c = config.dup();
                        proof {
                            assert(self.state_of(active@) matches Some(
                                ModelStateV::Running { .. },
                            ));
                        }
                        Some(c)
                    },
                    _ => None,
                }
            },
            None => None,
        }
    }

    /// The pid to sample metrics for: the active model's, when it is
    /// Running with a real pid.
    pub fn metrics_pid(&self) -> (r: Option<u32>)
        ensures
            match r {
                Some(pid) => pid != 0 && exists|aid: Seq<char>|
                    self.active_of() == Some(aid) && ((#[trigger] self.state_of(aid)) matches Some(
                        ModelStateV::Running { pid: p, .. },
                    ) && p == pid),
                None => match self.active_of() {
                    Some(aid) => match self.state_of(aid) {
                        Some(ModelStateV::Running { pid, .. }) => pid == 0,
                        _ => true,
                    },
                    None => true,
                },
            },
    {
        let active = match &self.active_model {
            Some(a) => a,
            None => {
                return None;
            },
        };
        match self.find_state_index(active) {
            Some(i) => {
                match &self.states[i].1 {
                    ModelState::Running { pid, .. } => {
                        if *pid == 0 {
                            None
                        } else {
                            Some(*pid)
                        }
                    },
                    _ => None,
                }
            },
            None => None,
        }
    }
}

// ---------------------------------------------------------------------------
// Start idempotence, stated over the one transition the requests take
// ---------------------------------------------------------------------------

/// The decisions of `n` consecutive start requests from `st`, in order.
pub open spec fn start_steps(st: Option<ModelStateV>, n: nat) -> Seq<StartDecisionV>
    decreases n,
{
    if n == 0 {
        Seq::empty()
    } else {
        let (st1, d) = start_step(st);
        seq![d].add(start_steps(st1, (n - 1) as nat))
    }
}

/// Start is idempotent while Running: any number of consecutive start
/// requests each answer the same cached pid, and none of them spawns.
pub proof fn lemma_start_idempotent_while_running(
    port: u16,
    pid: u32,
    config: LlamaCppConfigV,
    n: nat,
)
    ensures
        start_steps(Some(ModelStateV::Running { port, pid, config }), n).len() == n,
        forall|k: int|
            0 <= k < n ==> start_steps(Some(ModelStateV::Running { port, pid, config }), n)[k]
                == StartDecisionV::AlreadyRunningV(pid),
    decreases n,
{
    let st = Some(ModelStateV::Running { port, pid, config });
    if n > 0 {
        lemma_start_idempotent_while_running(port, pid, config, (n - 1) as nat);
        let tail = start_steps(st, (n - 1) as nat);
        assert(start_steps(st, n) == seq![StartDecisionV::AlreadyRunningV(pid)].add(tail));
        assert(forall|k: int|
            0 <= k < n ==> start_steps(st, n)[k] == (if k == 0 {
                StartDecisionV::AlreadyRunningV(pid)
            } else {
                tail[k - 1]
            }));
    }
}

/// Start always fails while Starting: any number of consecutive start
/// requests each answer the already-starting error, and none of them
/// spawns.
pub proof fn lemma_start_rejected_while_starting(n: nat)
    ensures
        start_steps(Some(ModelStateV::Starting), n).len() == n,
        forall|k: int|
            0 <= k < n ==> start_steps(Some(ModelStateV::Starting), n)[k]
                == StartDecisionV::AlreadyStartingV,
    decreases n,
{
    let st = Some(ModelStateV::Starting);
    if n > 0 {
        lemma_start_rejected_while_starting((n - 1) as nat);
        let tail = start_steps(st, (n - 1) as nat);
        assert(start_steps(st, n) == seq![StartDecisionV::AlreadyStartingV].add(tail));
        assert(forall|k: int|
            0 <= k < n ==> start_steps(st, n)[k] == (if k == 0 {
                StartDecisionV::AlreadyStartingV
            } else {
                tail[k - 1]
            }));
    }
}

// ---------------------------------------------------------------------------
// The bounded health check
// ---------------------------------------------------------------------------

/// Bounded readiness polling: a fixed number of attempts, never unbounded.
pub struct HealthCheck {
    pub attempts: u32,
    pub max_attempts: u32,
}

/// What the poller observed in one round.
pub enum HealthEvent {
    /// The child exited before becoming healthy; its status as text.
    Exited(String),
    /// The readiness endpoint answered success.
    Healthy,
    /// No success answer yet.
    NotReady,
}

/// What the spawn task must do next.
pub enum HealthDecision {
    /// The server is up: the start succeeds.
    Succeed,
    /// Poll again after the fixed delay.
    Retry,
    /// The start fails with this error; when `kill` is set the child must
    /// be terminated first.
    Fail { error: String, kill: bool },
}

impl HealthCheck {
    /// A fresh check with the full attempt budget.
    pub fn new(max_attempts: u32) -> (r: HealthCheck)
        ensures
            r.attempts == 0,
            r.max_attempts == max_attempts,
    {
        HealthCheck { attempts: 0, max_attempts }
    }

    /// Account one polling round. An early exit fails at once; exhausting
    /// the attempt budget fails with the timeout error and orders the
    /// child killed.
    pub fn step(&mut self, event: HealthEvent) -> (r: HealthDecision)
        requires
            old(self).attempts < old(self).max_attempts,
        ensures
            final(self).max_attempts == old(self).max_attempts,
            match event {
                HealthEvent::Exited(st) => final(self).attempts == old(self).attempts && (
                r matches HealthDecision::Fail { error, kill } && !kill && error@
                    == "llama-server exited early with status: "@ + st@),
                HealthEvent::Healthy => final(self).attempts == old(self).attempts && r
                    is Succeed,
                HealthEvent::NotReady => final(self).attempts == old(self).attempts + 1 && (if
                final(self).attempts < final(self).max_attempts {
                    r is Retry
                } else {
                    (r matches HealthDecision::Fail { error, kill } && kill && error@
                        == "Failed to start model: Healthcheck timed out"@)
                }),
            },
    {
        match event {
            HealthEvent::Exited(st) => {
                let mut msg = "llama-server exited early with status: ".to_owned();
                msg.append(st.as_str());
                HealthDecision::Fail { error: msg, kill: false }
            },
            HealthEvent::Healthy => HealthDecision::Succeed,
            HealthEvent::NotReady => {
                self.attempts = self.attempts + 1;
                if self.attempts < self.max_attempts {
                    HealthDecision::Retry
                } else {
                    HealthDecision::Fail {
                        error: "Failed to start model: Healthcheck timed out".to_owned(),
                        kill: true,
                    }
                }
            },
        }
    }
}

/// The mathematical shape of a polling decision.
pub enum HealthDecisionV {
    SucceedV,
    RetryV,
    FailV { error: Seq<char>, kill: bool },
}

impl View for HealthDecision {
    type V = HealthDecisionV;

    open spec fn view(&self) -> HealthDecisionV {
        match self {
            HealthDecision::Succeed => HealthDecisionV::SucceedV,
            HealthDecision::Retry => HealthDecisionV::RetryV,
            HealthDecision::Fail { error, kill } => HealthDecisionV::FailV {
                error: error@,
                kill: *kill,
            },
        }
    }
}

/// The final decision after `n` rounds in which the server never answers.
pub open spec fn health_run_not_ready(hc: HealthCheck, n: nat) -> HealthDecisionV
    decreases n,
{
    if n <= 1 {
        if hc.attempts + 1 < hc.max_attempts {
            HealthDecisionV::RetryV
        } else {
            HealthDecisionV::FailV {
                error: "Failed to start model: Healthcheck timed out"@,
                kill: true,
            }
        }
    } else {
        health_run_not_ready(
            HealthCheck { attempts: (hc.attempts + 1) as u32, ..hc },
            (n - 1) as nat,
        )
    }
}

/// On a run where the server never answers, the attempt budget runs out
/// after exactly `max_attempts` rounds, the last decision orders the child
/// killed with the timeout error, and delivering that failure through
/// `complete_start` leaves the model Stopped: final state Stopped, spawned
/// process terminated.
pub proof fn lemma_health_timeout_kills(hc: HealthCheck, n: nat)
    requires
        hc.attempts + n == hc.max_attempts,
        n > 0,
    ensures
        (health_run_not_ready(hc, n) matches HealthDecisionV::FailV { error, kill } && kill
            && error == "Failed to start model: Healthcheck timed out"@),
    decreases n,
{
    if n > 1 {
        let hc1 = HealthCheck { attempts: (hc.attempts + 1) as u32, ..hc };
        lemma_health_timeout_kills(hc1, (n - 1) as nat);
    }
}


// ---------------------------------------------------------------------------
// Spawn planning: paths, arguments, endpoints
// ---------------------------------------------------------------------------

/// The model file to load: the registry entry's recorded path when there
/// is one, else the configured path.
pub fn resolve_model_path(entry_path: &Option<String>, config: &LlamaCppConfig) -> (r: String)
    ensures
        r@ == match entry_path {
            Some(p) => p@,
            None => config.model_path@,
        },
{
    match entry_path {
        Some(p) => p.clone(),
        None => config.model_path.clone(),
    }
}

/// The characters after the last `/` of `s`; all of `s` when it has none.
pub open spec fn after_last_slash(s: Seq<char>) -> Seq<char>
    decreases s.len(),
{
    if s.len() == 0 {
        s
    } else if s[s.len() - 1] == '/' {
        Seq::empty()
    } else {
        after_last_slash(s.subrange(0, s.len() - 1)).push(s[s.len() - 1])
    }
}

proof fn lemma_after_last_slash_none(s: Seq<char>)
    requires
        forall|j: int| 0 <= j < s.len() ==> s[j] != '/',
    ensures
        after_last_slash(s) == s,
    decreases s.len(),
{
    if s.len() > 0 {
        lemma_after_last_slash_none(s.subrange(0, s.len() - 1));
        assert(after_last_slash(s) =~= s);
    }
}

proof fn lemma_after_last_slash_at(s: Seq<char>, i: int)
    requires
        0 <= i < s.len(),
        s[i] == '/',
        forall|j: int| i < j < s.len() ==> s[j] != '/',
    ensures
        after_last_slash(s) == s.subrange(i + 1, s.len() as int),
    decreases s.len() - i,
{
    if i == s.len() - 1 {
        assert(after_last_slash(s) =~= s.subrange(i + 1, s.len() as int));
    } else {
        let t = s.subrange(0, s.len() - 1);
        lemma_after_last_slash_at(t, i);
        assert(t.subrange(i + 1, t.len() as int) =~= s.subrange(i + 1, s.len() - 1));
        assert(after_last_slash(s) == after_last_slash(t).push(s[s.len() - 1]));
        assert(after_last_slash(s) =~= s.subrange(i + 1, s.len() as int));
    }
}

/// The file-name part of a path: what follows the last `/`.
pub fn file_name_of(path: &str) -> (r: String)
    ensures
        r@ == after_last_slash(path@),
{
    let n = path.unicode_len();
    match strutil::rfind_char(path, '/') {
        Some(i) => {
            proof {
                lemma_after_last_slash_at(path@, i as int);
            }
            strutil::substring(path, i + 1, n)
        },
        None => {
            proof {
                lemma_after_last_slash_none(path@);
            }
            strutil::substring(path, 0, n)
        },
    }
}

/// A path's file name folded to lower case.
pub open spec fn folded_file_name(path: Seq<char>) -> Seq<char> {
    after_last_slash(path).map_values(|c: char| strutil::ascii_lower(c))
}

/// Whether a configured path already names the server executable: its
/// file name, folded to lower case, mentions `llama-server`.
pub fn names_server_binary(path: &str) -> (r: bool)
    ensures
        r == strutil::contains_seq(folded_file_name(path@), "llama-server"@),
{
    let name = file_name_of(path);
    let lower = strutil::to_ascii_lower(name.as_str());
    proof {
        assert(lower@ =~= folded_file_name(path@));
    }
    strutil::contains_sub(lower.as_str(), "llama-server")
}

/// `base` with `slash_rest` (a `/`-led suffix) appended.
pub fn join_path(base: &str, slash_rest: &str) -> (r: String)
    ensures
        r@ == base@ + slash_rest@,
{
    let mut s = base.to_owned();
    s.append(slash_rest);
    s
}

/// Where the server binary stands, given which candidates exist on disk:
/// a path that already names the executable is used as it stands;
/// otherwise the direct candidate, then the build-tree candidates when the
/// path is a directory, then the plain join as a fallback whose absence
/// gives the not-found error.
pub open spec fn resolved_server_binary(
    path: Seq<char>,
    is_dir: bool,
    exists_direct: bool,
    exists_release: bool,
    exists_bin: bool,
) -> Seq<char> {
    let is_exec = strutil::contains_seq(folded_file_name(path), "llama-server"@);
    if is_exec && !is_dir {
        path
    } else if exists_direct {
        path + "/llama-server"@
    } else if is_dir && exists_release {
        path + "/build/bin/Release/llama-server"@
    } else if is_dir && exists_bin {
        path + "/bin/llama-server"@
    } else if !is_exec {
        path + "/llama-server"@
    } else {
        path
    }
}

/// Resolve where the server binary stands, mirroring the search order of
/// the spawn routine. The three `exists` flags answer, in order, whether
/// `{path}/llama-server`, `{path}/build/bin/Release/llama-server` and
/// `{path}/bin/llama-server` exist on disk.
pub fn resolve_server_binary(
    path: &str,
    is_dir: bool,
    exists_direct: bool,
    exists_release: bool,
    exists_bin: bool,
) -> (r: String)
    ensures
        r@ == resolved_server_binary(path@, is_dir, exists_direct, exists_release, exists_bin),
{
    let is_exec = names_server_binary(path);
    if is_exec && !is_dir {
        return path.to_owned();
    }
    if exists_direct {
        return join_path(path, "/llama-server");
    }
    if is_dir && exists_release {
        return join_path(path, "/build/bin/Release/llama-server");
    }
    if is_dir && exists_bin {
        return join_path(path, "/bin/llama-server");
    }
    if !is_exec {
        return join_path(path, "/llama-server");
    }
    path.to_owned()
}

/// The exact command-line arguments the server is launched with.
pub fn spawn_args(model_path: &str, config: &LlamaCppConfig) -> (r: Vec<String>)
    ensures
        r@.map_values(|a: String| a@) == seq![
            "-m"@,
            model_path@,
            "--port"@,
            strutil::dec_str(config.port as nat),
            "-c"@,
            strutil::dec_str(config.ctx_size as nat),
            "-np"@,
            strutil::dec_str(config.parallel as nat),
            "-ngl"@,
            strutil::int_str(config.n_gpu_layers as int),
        ],
{
    let mut args: Vec<String> = Vec::new();
    args.push("-m".to_owned());
    args.push(model_path.to_owned());
    args.push("--port".to_owned());
    args.push(strutil::u64_to_string(config.port as u64));
    args.push("-c".to_owned());
    args.push(strutil::u64_to_string(config.ctx_size as u64));
    args.push("-np".to_owned());
    args.push(strutil::u64_to_string(config.parallel as u64));
    args.push("-ngl".to_owned());
    args.push(strutil::i64_to_string(config.n_gpu_layers as i64));
    proof {
        assert(args@.map_values(|a: String| a@) =~= seq![
            "-m"@,
            model_path@,
            "--port"@,
            strutil::dec_str(config.port as nat),
            "-c"@,
            strutil::dec_str(config.ctx_size as nat),
            "-np"@,
            strutil::dec_str(config.parallel as nat),
            "-ngl"@,
            strutil::int_str(config.n_gpu_layers as int),
        ]);
    }
    args
}

/// The readiness endpoint polled during a start.
pub fn health_url(port: u16) -> (r: String)
    ensures
        r@ == "http://localhost:"@ + strutil::dec_str(port as nat) + "/health"@,
{
    let mut s = "http://localhost:".to_owned();
    let p = strutil::u64_to_string(port as u64);
    s.append(p.as_str());
    s.append("/health");
    proof {
        assert(s@ =~= "http://localhost:"@ + strutil::dec_str(port as nat) + "/health"@);
    }
    s
}

/// The chat-completions endpoint of the running server.
pub fn completions_url(port: u16) -> (r: String)
    ensures
        r@ == "http://localhost:"@ + strutil::dec_str(port as nat) + "/v1/chat/completions"@,
{
    let mut s = "http://localhost:".to_owned();
    let p = strutil::u64_to_string(port as u64);
    s.append(p.as_str());
    s.append("/v1/chat/completions");
    proof {
        assert(s@ =~= "http://localhost:"@ + strutil::dec_str(port as nat)
            + "/v1/chat/completions"@);
    }
    s
}

/// The error reported when the model file is missing.
pub fn model_not_found_error(path: &str) -> (r: String)
    ensures
        r@ == "Model file not found: "@ + path@,
{
    let mut s = "Model file not found: ".to_owned();
    s.append(path);
    s
}

/// The error reported when no server executable could be found.
pub fn binary_not_found_error(path: &str) -> (r: String)
    ensures
        r@ == "llama-server executable not found: "@ + path@,
{
    let mut s = "llama-server executable not found: ".to_owned();
    s.append(path);
    s
}

/// The error reported when spawning the executable itself failed.
pub fn spawn_failed_error(detail: &str) -> (r: String)
    ensures
        r@ == "Failed to spawn llama-server: "@ + detail@,
{
    let mut s = "Failed to spawn llama-server: ".to_owned();
    s.append(detail);
    s
}

} // verus!
