//! Spreads the work of subagents over several worker endpoints.
use crate::agent_settings::{
    endpoint_views, enabled_endpoints, EndpointView, NetworkAgentWorkerEndpoint,
    NetworkAgentWorkers, WorkerScheduling,
};
use crate::assoc::Assoc;
use crate::settings_content::{LanguageModelProviderSetting, LanguageModelSelection};
use crate::text::str_eq;
use vstd::prelude::*;

verus! {

/// How busy the workers are, which worker each session has, and whose turn it is.
#[derive(Debug)]
pub struct WorkerPoolRuntime {
    active_counts: Assoc<u32>,
    session_workers: Assoc<String>,
    round_robin_index: usize,
}

impl WorkerPoolRuntime {
    /// How many turns a worker is busy with.
    pub closed spec fn active(&self, worker: Seq<char>) -> nat {
        match self.active_counts.get_spec(worker) {
            Some(n) => n as nat,
            None => 0,
        }
    }

    /// Which worker a session has.
    pub closed spec fn session(&self, session: Seq<char>) -> Option<Seq<char>> {
        match self.session_workers.get_spec(session) {
            Some(w) => Some(w@),
            None => None,
        }
    }

    /// Whose turn it is.
    pub closed spec fn turn(&self) -> nat {
        self.round_robin_index as nat
    }

    /// The turn is one of at most ten workers.
    pub open spec fn wf(&self) -> bool {
        self.turn() <= 10
    }

    pub open spec fn same_counts(&self, other: &Self) -> bool {
        forall|w: Seq<char>| #[trigger] self.active(w) == other.active(w)
    }

    pub open spec fn same_sessions(&self, other: &Self) -> bool {
        forall|s: Seq<char>| #[trigger] self.session(s) == other.session(s)
    }

    pub fn active_count(&self, worker_id: &str) -> (r: u32)
        ensures
            r == self.active(worker_id@),
    {
        match self.active_counts.get(worker_id) {
            Some(n) => *n,
            None => 0,
        }
    }

    /// The load of each endpoint, as a fraction: the turns that it is busy with, and how many it
    /// takes at once, but at least one.
    pub fn load_terms(
        &self,
        workers: &NetworkAgentWorkers,
        default_model: &Option<LanguageModelSelection>,
    ) -> (r: Vec<(u32, u32)>)
        ensures
            r@.len() == workers.resolved(*default_model).len(),
            forall|i: int|
                0 <= i < r@.len() ==> {
                    let e = workers.resolved(*default_model)[i];
                    &&& (#[trigger] r@[i]).0 == self.active(e.id)
                    &&& r@[i].1 == capacity(e)
                },
    {
        let endpoints = workers.resolved_endpoints(default_model);
        let ghost all = endpoint_views(endpoints@);
        let mut r: Vec<(u32, u32)> = Vec::new();
        let mut i: usize = 0;
        while i < endpoints.len()
            invariant
                i <= endpoints@.len(),
                all == endpoint_views(endpoints@),
                r@.len() == i,
                forall|k: int|
                    0 <= k < i ==> {
                        &&& (#[trigger] r@[k]).0 == self.active(all[k].id)
                        &&& r@[k].1 == capacity(all[k])
                    },
            decreases endpoints@.len() - i,
        {
            let e = &endpoints[i];
            assert(all[i as int] == e@);
            let takes: u32 = if e.max_concurrent >= 1 {
                e.max_concurrent
            } else {
                1
            };
            r.push((self.active_count(e.id.as_str()), takes));
            i = i + 1;
        }
        r
    }
}

/// How many turns an endpoint counts as taking at once: at least one.
pub open spec fn capacity(e: EndpointView) -> nat {
    if e.max_concurrent >= 1 {
        e.max_concurrent as nat
    } else {
        1
    }
}

/// Whether `after` is `before` with one more turn on the worker.
pub open spec fn is_incremented(
    before: WorkerPoolRuntime,
    after: WorkerPoolRuntime,
    worker: Seq<char>,
) -> bool {
    &&& after.active(worker) == before.active(worker) + 1
    &&& forall|w: Seq<char>| w != worker ==> #[trigger] after.active(w) == before.active(w)
    &&& after.same_sessions(&before)
    &&& after.turn() == before.turn()
}

/// Whether `after` is `before` with one turn less on the worker, where it was busy.
pub open spec fn is_released(
    before: WorkerPoolRuntime,
    after: WorkerPoolRuntime,
    worker: Seq<char>,
) -> bool {
    &&& after.active(worker) == if before.active(worker) > 0 {
        (before.active(worker) - 1) as nat
    } else {
        0
    }
    &&& forall|w: Seq<char>| w != worker ==> #[trigger] after.active(w) == before.active(w)
    &&& after.same_sessions(&before)
    &&& after.turn() == before.turn()
}

/// Marks the start of a turn on a worker.
pub fn increment_worker(pool: &mut WorkerPoolRuntime, worker_id: &str)
    requires
        old(pool).active(worker_id@) < u32::MAX,
    ensures
        is_incremented(*old(pool), *final(pool), worker_id@),
{
    let n: u32 = pool.active_count(worker_id);
    pool.active_counts.insert(worker_id, n + 1);
}

/// Records the worker of a session.
pub fn assign_session_worker(pool: &mut WorkerPoolRuntime, session_id: &str, worker_id: &str)
    ensures
        final(pool).session(session_id@) == Some(worker_id@),
        forall|s: Seq<char>|
            s != session_id@ ==> #[trigger] final(pool).session(s) == old(pool).session(s),
        final(pool).same_counts(old(pool)),
        final(pool).turn() == old(pool).turn(),
{
    pool.session_workers.insert(session_id, worker_id.to_string());
}

/// Marks the end of a turn on a worker.
pub fn release_worker(pool: &mut WorkerPoolRuntime, worker_id: &str)
    ensures
        is_released(*old(pool), *final(pool), worker_id@),
{
    if pool.active_counts.position(worker_id).is_some() {
        let n: u32 = pool.active_count(worker_id);
        pool.active_counts.insert(worker_id, n.saturating_sub(1));
    }
}

/// A turn that has started and ended leaves the pool as it was.
pub proof fn lemma_release_undoes_increment(
    before: WorkerPoolRuntime,
    during: WorkerPoolRuntime,
    after: WorkerPoolRuntime,
    worker: Seq<char>,
)
    requires
        is_incremented(before, during, worker),
        is_released(during, after, worker),
    ensures
        after.same_counts(&before),
        after.same_sessions(&before),
        after.turn() == before.turn(),
{
    assert forall|w: Seq<char>| #[trigger] after.active(w) == before.active(w) by {
        if w != worker {
            assert(during.active(w) == before.active(w));
        }
    }
    assert forall|s: Seq<char>| #[trigger] after.session(s) == before.session(s) by {
        assert(during.session(s) == before.session(s));
    }
}

impl Default for WorkerPoolRuntime {
    fn default() -> (r: Self)
        ensures
            r.wf(),
            r.turn() == 0,
            forall|w: Seq<char>| #[trigger] r.active(w) == 0,
            forall|s: Seq<char>| #[trigger] r.session(s) is None,
    {
        WorkerPoolRuntime {
            active_counts: Assoc::new(),
            session_workers: Assoc::new(),
            round_robin_index: 0,
        }
    }
}

/// A worker, and the model that it serves.
#[derive(Debug, Clone, PartialEq)]
pub struct WorkerAssignment {
    pub worker_id: String,
    pub model: LanguageModelSelection,
}

impl WorkerAssignment {
    /// Whether this assigns the work to the endpoint.
    pub open spec fn is_for(&self, e: EndpointView) -> bool {
        &&& self.worker_id@ == e.id
        &&& self.model.provider.0@ == e.provider
        &&& self.model.model@ == e.model
        &&& !self.model.enable_thinking
        &&& self.model.effort is None
        &&& self.model.speed is None
    }

    fn from_endpoint(endpoint: &NetworkAgentWorkerEndpoint) -> (r: Self)
        ensures
            r.is_for(endpoint@),
    {
        WorkerAssignment {
            worker_id: endpoint.id.clone(),
            model: LanguageModelSelection {
                provider: LanguageModelProviderSetting(endpoint.provider.0.clone()),
                model: endpoint.model.clone(),
                enable_thinking: false,
                effort: None,
                speed: None,
            },
        }
    }
}

/// Whether a worker can take another turn.
pub open spec fn has_room(pool: WorkerPoolRuntime, e: EndpointView) -> bool {
    pool.active(e.id) < e.max_concurrent
}

/// The first endpoint with room, from the `i`-th on.
pub open spec fn first_with_room(
    pool: WorkerPoolRuntime,
    endpoints: Seq<EndpointView>,
    i: int,
) -> Option<int>
    decreases endpoints.len() - i,
{
    if i < 0 || i >= endpoints.len() {
        None
    } else if has_room(pool, endpoints[i]) {
        Some(i)
    } else {
        first_with_room(pool, endpoints, i + 1)
    }
}

/// The first endpoint with room, `offset` and more places behind the one whose turn it is, all
/// round.
pub open spec fn next_with_room(
    pool: WorkerPoolRuntime,
    endpoints: Seq<EndpointView>,
    offset: int,
) -> Option<int>
    decreases endpoints.len() - offset,
{
    if offset < 0 || offset >= endpoints.len() {
        None
    } else {
        let i = (pool.turn() + offset) % (endpoints.len() as int);
        if has_room(pool, endpoints[i]) {
            Some(i)
        } else {
            next_with_room(pool, endpoints, offset + 1)
        }
    }
}

/// The first of the least loads.
pub open spec fn is_least(loads: Seq<u32>, i: int) -> bool {
    &&& 0 <= i < loads.len()
    &&& forall|j: int| 0 <= j < loads.len() ==> loads[i] <= #[trigger] loads[j]
    &&& forall|j: int| 0 <= j < i ==> loads[i] < #[trigger] loads[j]
}

/// Whether the `i`-th endpoint is to be chosen: one with room where the scheduling looks for
/// one, else the one with the least load.
pub open spec fn is_choice(
    scheduling: WorkerScheduling,
    pool: WorkerPoolRuntime,
    endpoints: Seq<EndpointView>,
    loads: Seq<u32>,
    i: int,
) -> bool {
    let preferred = match scheduling {
        WorkerScheduling::RoundRobin => next_with_room(pool, endpoints, 0),
        WorkerScheduling::Pool => first_with_room(pool, endpoints, 0),
        WorkerScheduling::LeastBusy => None,
    };
    match preferred {
        Some(k) => i == k,
        None => is_least(loads, i),
    }
}

/// Whose turn it is once the choice has been made.
pub open spec fn turn_after(
    scheduling: WorkerScheduling,
    pool: WorkerPoolRuntime,
    endpoints: Seq<EndpointView>,
) -> nat {
    match scheduling {
        WorkerScheduling::RoundRobin => match next_with_room(pool, endpoints, 0) {
            Some(i) => ((i + 1) % (endpoints.len() as int)) as nat,
            None => pool.turn(),
        },
        _ => pool.turn(),
    }
}

fn endpoint_has_room(pool: &WorkerPoolRuntime, e: &NetworkAgentWorkerEndpoint) -> (r: bool)
    ensures
        r == has_room(*pool, e@),
{
    pool.active_count(e.id.as_str()) < e.max_concurrent
}

fn select_round_robin(
    endpoints: &Vec<NetworkAgentWorkerEndpoint>,
    pool: &mut WorkerPoolRuntime,
) -> (r: Option<usize>)
    requires
        old(pool).wf(),
        0 < endpoints@.len() <= 10,
    ensures
        match r {
            Some(i) => i < endpoints@.len() && next_with_room(
                *old(pool),
                endpoint_views(endpoints@),
                0,
            ) == Some(i as int),
            None => next_with_room(*old(pool), endpoint_views(endpoints@), 0) is None,
        },
        final(pool).wf(),
        final(pool).turn() == turn_after(
            WorkerScheduling::RoundRobin,
            *old(pool),
            endpoint_views(endpoints@),
        ),
        final(pool).same_counts(old(pool)),
        final(pool).same_sessions(old(pool)),
{
    let ghost all = endpoint_views(endpoints@);
    let len: usize = endpoints.len();
    let mut offset: usize = 0;
    while offset < len
        invariant
            *pool == *old(pool),
            pool.wf(),
            all == endpoint_views(endpoints@),
            len == endpoints@.len(),
            0 < len <= 10,
            offset <= len,
            next_with_room(*pool, all, offset as int) == next_with_room(*pool, all, 0),
        decreases len - offset,
    {
        let index: usize = (pool.round_robin_index + offset) % len;
        assert(all[index as int] == endpoints@[index as int]@);
        if endpoint_has_room(pool, &endpoints[index]) {
            pool.round_robin_index = (index + 1) % len;
            return Some(index);
        }
        offset = offset + 1;
    }
    None
}

fn select_pool(endpoints: &Vec<NetworkAgentWorkerEndpoint>, pool: &WorkerPoolRuntime) -> (r: Option<
    usize,
>)
    ensures
        match r {
            Some(i) => i < endpoints@.len() && first_with_room(
                *pool,
                endpoint_views(endpoints@),
                0,
            ) == Some(i as int),
            None => first_with_room(*pool, endpoint_views(endpoints@), 0) is None,
        },
{
    let ghost all = endpoint_views(endpoints@);
    let mut i: usize = 0;
    while i < endpoints.len()
        invariant
            all == endpoint_views(endpoints@),
            i <= endpoints@.len(),
            first_with_room(*pool, all, i as int) == first_with_room(*pool, all, 0),
        decreases endpoints@.len() - i,
    {
        assert(all[i as int] == endpoints@[i as int]@);
        if endpoint_has_room(pool, &endpoints[i]) {
            return Some(i);
        }
        i = i + 1;
    }
    None
}

fn select_least_busy(loads: &Vec<u32>) -> (r: usize)
    requires
        loads@.len() > 0,
    ensures
        is_least(loads@, r as int),
{
    let mut best: usize = 0;
    let mut i: usize = 1;
    while i < loads.len()
        invariant
            1 <= i <= loads@.len(),
            best < i,
            forall|j: int| 0 <= j < i ==> loads@[best as int] <= #[trigger] loads@[j],
            forall|j: int| 0 <= j < best ==> loads@[best as int] < #[trigger] loads@[j],
        decreases loads@.len() - i,
    {
        if loads[i] < loads[best] {
            best = i;
        }
        i = i + 1;
    }
    best
}

/// The worker for a new turn, by the given scheduling. Loads are compared by the keys in `loads`,
/// one for each endpoint.
fn select_worker(
    scheduling: WorkerScheduling,
    endpoints: &Vec<NetworkAgentWorkerEndpoint>,
    loads: &Vec<u32>,
    pool: &mut WorkerPoolRuntime,
) -> (r: usize)
    requires
        old(pool).wf(),
        0 < endpoints@.len() <= 10,
        loads@.len() == endpoints@.len(),
    ensures
        r < endpoints@.len(),
        is_choice(scheduling, *old(pool), endpoint_views(endpoints@), loads@, r as int),
        final(pool).wf(),
        final(pool).turn() == turn_after(scheduling, *old(pool), endpoint_views(endpoints@)),
        final(pool).same_counts(old(pool)),
        final(pool).same_sessions(old(pool)),
{
    match scheduling {
        WorkerScheduling::RoundRobin => match select_round_robin(endpoints, pool) {
            Some(i) => i,
            None => select_least_busy(loads),
        },
        WorkerScheduling::Pool => match select_pool(endpoints, pool) {
            Some(i) => i,
            None => select_least_busy(loads),
        },
        WorkerScheduling::LeastBusy => select_least_busy(loads),
    }
}

/// Where the endpoint with the id stands, at `i` or behind it.
pub open spec fn endpoint_position(
    endpoints: Seq<EndpointView>,
    id: Seq<char>,
    i: int,
) -> Option<int>
    decreases endpoints.len() - i,
{
    if i < 0 || i >= endpoints.len() {
        None
    } else if endpoints[i].id == id {
        Some(i)
    } else {
        endpoint_position(endpoints, id, i + 1)
    }
}

proof fn lemma_endpoint_position(endpoints: Seq<EndpointView>, i: int, k: int)
    requires
        0 <= i <= k < endpoints.len(),
    ensures
        endpoint_position(endpoints, endpoints[k].id, i) matches Some(p) && i <= p <= k,
    decreases k - i,
{
    if endpoints[i].id != endpoints[k].id {
        lemma_endpoint_position(endpoints, i + 1, k);
    }
}

fn find_endpoint(endpoints: &Vec<NetworkAgentWorkerEndpoint>, id: &str) -> (r: Option<usize>)
    ensures
        match r {
            Some(i) => i < endpoints@.len() && endpoint_position(
                endpoint_views(endpoints@),
                id@,
                0,
            ) == Some(i as int),
            None => endpoint_position(endpoint_views(endpoints@), id@, 0) is None,
        },
{
    let ghost all = endpoint_views(endpoints@);
    let mut i: usize = 0;
    while i < endpoints.len()
        invariant
            all == endpoint_views(endpoints@),
            i <= endpoints@.len(),
            endpoint_position(all, id@, i as int) == endpoint_position(all, id@, 0),
        decreases endpoints@.len() - i,
    {
        assert(all[i as int] == endpoints@[i as int]@);
        if str_eq(endpoints[i].id.as_str(), id) {
            return Some(i);
        }
        i = i + 1;
    }
    None
}

/// The worker that a session keeps, where it has one that is still there.
pub open spec fn kept_worker(
    pool: WorkerPoolRuntime,
    endpoints: Seq<EndpointView>,
    session: Option<Seq<char>>,
) -> Option<int> {
    match session {
        Some(s) => match pool.session(s) {
            Some(w) => endpoint_position(endpoints, w, 0),
            None => None,
        },
        None => None,
    }
}

/// Whether `after` is `before` once a worker was asked for, and `r` is who it is.
pub open spec fn is_acquired(
    before: WorkerPoolRuntime,
    after: WorkerPoolRuntime,
    workers: NetworkAgentWorkers,
    default_model: Option<LanguageModelSelection>,
    session: Option<Seq<char>>,
    loads: Seq<u32>,
    r: Option<WorkerAssignment>,
) -> bool {
    let endpoints = workers.resolved(default_model);
    &&& after.same_counts(&before)
    &&& if enabled_endpoints(workers.endpoints@).len() == 0 || endpoints.len() == 0 {
        &&& r is None
        &&& after.same_sessions(&before)
        &&& after.turn() == before.turn()
    } else {
        match kept_worker(before, endpoints, session) {
            Some(k) => {
                &&& r matches Some(a) && a.is_for(endpoints[k])
                &&& after.same_sessions(&before)
                &&& after.turn() == before.turn()
            },
            None => {
                &&& r matches Some(a)
                &&& assigned_by_choice(a, workers.scheduling, before, endpoints, loads)
                &&& after.turn() == turn_after(workers.scheduling, before, endpoints)
                &&& match session {
                    Some(s) => {
                        &&& after.session(s) == Some(a.worker_id@)
                        &&& forall|t: Seq<char>|
                            t != s ==> #[trigger] after.session(t) == before.session(t)
                    },
                    None => after.same_sessions(&before),
                }
            },
        }
    }
}

/// The worker for a new or resumed session. A session keeps its worker as long as it is there;
/// a new choice is recorded for the session. There is none where no endpoint is enabled, or none
/// is to be used.
pub fn acquire_worker(
    pool: &mut WorkerPoolRuntime,
    workers: &NetworkAgentWorkers,
    default_model: &Option<LanguageModelSelection>,
    session_id: Option<&str>,
    loads: &Vec<u32>,
) -> (r: Option<WorkerAssignment>)
    requires
        old(pool).wf(),
        loads@.len() == workers.resolved(*default_model).len(),
    ensures
        final(pool).wf(),
        is_acquired(
            *old(pool),
            *final(pool),
            *workers,
            *default_model,
            match session_id {
                Some(s) => Some(s@),
                None => None,
            },
            loads@,
            r,
        ),
{
    if !workers.is_active() {
        return None;
    }
    let endpoints = workers.resolved_endpoints(default_model);
    let ghost all = endpoint_views(endpoints@);
    assert(all.len() == endpoints@.len());
    if endpoints.len() == 0 {
        return None;
    }
    assert(0 < all.len() <= 10);
    match session_id {
        Some(session) => match pool.session_workers.get(session) {
            Some(worker_id) => match find_endpoint(&endpoints, worker_id.as_str()) {
                Some(k) => {
                    assert(all[k as int] == endpoints@[k as int]@);
                    return Some(WorkerAssignment::from_endpoint(&endpoints[k]));
                },
                None => {},
            },
            None => {},
        },
        None => {},
    }
    let chosen: usize = select_worker(workers.scheduling, &endpoints, loads, pool);
    let worker_id = endpoints[chosen].id.clone();
    assert(all[chosen as int] == endpoints@[chosen as int]@);
    match session_id {
        Some(session) => {
            assign_session_worker(pool, session, worker_id.as_str());
        },
        None => {},
    }
    proof {
        lemma_endpoint_position(all, 0, chosen as int);
    }
    match find_endpoint(&endpoints, worker_id.as_str()) {
        Some(k) => {
            assert(all[k as int] == endpoints@[k as int]@);
            proof {
                lemma_position_id(all, worker_id@, 0);
                assert(chosen_gives(
                    workers.scheduling,
                    *old(pool),
                    all,
                    loads@,
                    chosen as int,
                    k as int,
                ));
            }
            let r = WorkerAssignment::from_endpoint(&endpoints[k]);
            Some(r)
        },
        None => None,
    }
}

/// The `chosen`-th endpoint is to be chosen, and `k` is the first with its id.
pub open spec fn chosen_gives(
    scheduling: WorkerScheduling,
    pool: WorkerPoolRuntime,
    endpoints: Seq<EndpointView>,
    loads: Seq<u32>,
    chosen: int,
    k: int,
) -> bool {
    &&& 0 <= chosen < endpoints.len()
    &&& is_choice(scheduling, pool, endpoints, loads, chosen)
    &&& endpoint_position(endpoints, endpoints[chosen].id, 0) == Some(k)
}

/// Whether the work is assigned to the first endpoint that has the id of the chosen one.
pub open spec fn assigned_by_choice(
    a: WorkerAssignment,
    scheduling: WorkerScheduling,
    pool: WorkerPoolRuntime,
    endpoints: Seq<EndpointView>,
    loads: Seq<u32>,
) -> bool {
    exists|chosen: int, k: int| #[trigger]
        chosen_gives(scheduling, pool, endpoints, loads, chosen, k) && a.is_for(endpoints[k])
}

proof fn lemma_position_id(endpoints: Seq<EndpointView>, id: Seq<char>, i: int)
    requires
        0 <= i,
    ensures
        endpoint_position(endpoints, id, i) matches Some(k) ==> i <= k < endpoints.len()
            && endpoints[k].id == id,
    decreases endpoints.len() - i,
{
    if i < endpoints.len() && endpoints[i].id != id {
        lemma_position_id(endpoints, id, i + 1);
    }
}

/// A session that comes back gets the worker that it had, as long as the endpoints are the same,
/// whatever the workers are busy with meanwhile.
pub proof fn lemma_sessions_keep_their_worker(
    before: WorkerPoolRuntime,
    after: WorkerPoolRuntime,
    later: WorkerPoolRuntime,
    last: WorkerPoolRuntime,
    workers: NetworkAgentWorkers,
    default_model: Option<LanguageModelSelection>,
    session: Seq<char>,
    loads: Seq<u32>,
    later_loads: Seq<u32>,
    first: WorkerAssignment,
    second: Option<WorkerAssignment>,
)
    requires
        is_acquired(
            before,
            after,
            workers,
            default_model,
            Some(session),
            loads,
            Some(first),
        ),
        later.session(session) == after.session(session),
        is_acquired(
            later,
            last,
            workers,
            default_model,
            Some(session),
            later_loads,
            second,
        ),
    ensures
        second matches Some(b) && b.worker_id@ == first.worker_id@,
{
    let endpoints = workers.resolved(default_model);
    match kept_worker(before, endpoints, Some(session)) {
        Some(_) => {
            assert(after.session(session) == before.session(session));
        },
        None => {
            let (chosen, k) = choose|chosen: int, k: int| #[trigger]
                chosen_gives(workers.scheduling, before, endpoints, loads, chosen, k)
                    && first.is_for(endpoints[k]);
            lemma_position_id(endpoints, endpoints[chosen].id, 0);
            lemma_endpoint_position(endpoints, 0, k);
        },
    }
    let id = after.session(session)->0;
    lemma_position_id(endpoints, id, 0);
}

proof fn lemma_first_with_room(pool: WorkerPoolRuntime, endpoints: Seq<EndpointView>, i: int, j: int)
    requires
        0 <= i <= j < endpoints.len(),
        has_room(pool, endpoints[j]),
    ensures
        first_with_room(pool, endpoints, i) matches Some(k) && has_room(pool, endpoints[k]),
    decreases j - i,
{
    if !has_room(pool, endpoints[i]) {
        lemma_first_with_room(pool, endpoints, i + 1, j);
    }
}

proof fn lemma_next_with_room(
    pool: WorkerPoolRuntime,
    endpoints: Seq<EndpointView>,
    offset: int,
    j: int,
)
    requires
        0 <= offset <= j < endpoints.len(),
        has_room(pool, endpoints[(pool.turn() + j) % (endpoints.len() as int)]),
    ensures
        next_with_room(pool, endpoints, offset) matches Some(k) && has_room(pool, endpoints[k]),
    decreases j - offset,
{
    if !has_room(pool, endpoints[(pool.turn() + offset) % (endpoints.len() as int)]) {
        lemma_next_with_room(pool, endpoints, offset + 1, j);
    }
}

/// Where workers take turns or the first with room is looked for, no worker is chosen that is full
/// as long as another has room.
pub proof fn lemma_room_is_used(
    scheduling: WorkerScheduling,
    pool: WorkerPoolRuntime,
    endpoints: Seq<EndpointView>,
    loads: Seq<u32>,
    chosen: int,
    free: int,
)
    requires
        scheduling != WorkerScheduling::LeastBusy,
        is_choice(scheduling, pool, endpoints, loads, chosen),
        0 <= free < endpoints.len(),
        has_room(pool, endpoints[free]),
    ensures
        has_room(pool, endpoints[chosen]),
{
    match scheduling {
        WorkerScheduling::RoundRobin => {
            let n = endpoints.len() as int;
            let turn = pool.turn() as int;
            let offset = (free - turn) % n;
            vstd::arithmetic::div_mod::lemma_add_mod_noop_right(turn, free - turn, n);
            vstd::arithmetic::div_mod::lemma_small_mod(free as nat, n as nat);
            lemma_next_with_room(pool, endpoints, 0, offset);
        },
        _ => {
            lemma_first_with_room(pool, endpoints, 0, free);
        },
    }
}

/// Whether an endpoint is not busier than another: the turns that each is busy with, measured by
/// how many it takes at once.
pub open spec fn is_no_busier(pool: WorkerPoolRuntime, e: EndpointView, other: EndpointView) -> bool {
    pool.active(e.id) * capacity(other) <= pool.active(other.id) * capacity(e)
}

/// Whether the keys order the endpoints by how busy they are.
pub open spec fn orders_by_load(
    pool: WorkerPoolRuntime,
    endpoints: Seq<EndpointView>,
    loads: Seq<u32>,
) -> bool {
    &&& loads.len() == endpoints.len()
    &&& forall|i: int, j: int|
        0 <= i < endpoints.len() && 0 <= j < endpoints.len() ==> (#[trigger] loads[i]
            <= #[trigger] loads[j]) == is_no_busier(pool, endpoints[i], endpoints[j])
}

/// Whether the `i`-th endpoint is the first of the least busy ones.
pub open spec fn is_least_busy(
    pool: WorkerPoolRuntime,
    endpoints: Seq<EndpointView>,
    i: int,
) -> bool {
    &&& 0 <= i < endpoints.len()
    &&& forall|j: int|
        0 <= j < endpoints.len() ==> is_no_busier(pool, endpoints[i], #[trigger] endpoints[j])
    &&& forall|j: int|
        0 <= j < i ==> !is_no_busier(pool, #[trigger] endpoints[j], endpoints[i])
}

proof fn lemma_none_with_room(pool: WorkerPoolRuntime, endpoints: Seq<EndpointView>, i: int)
    requires
        0 <= i,
        forall|k: int| 0 <= k < endpoints.len() ==> !has_room(pool, #[trigger] endpoints[k]),
    ensures
        first_with_room(pool, endpoints, i) is None,
        next_with_room(pool, endpoints, i) is None,
    decreases endpoints.len() - i,
{
    if i < endpoints.len() {
        lemma_none_with_room(pool, endpoints, i + 1);
    }
}

/// Where the least busy worker is asked for, or every worker is full, a session without a worker
/// gets the first of the least busy ones, as long as the keys order the endpoints by their load.
pub proof fn lemma_least_busy_is_chosen(
    before: WorkerPoolRuntime,
    after: WorkerPoolRuntime,
    workers: NetworkAgentWorkers,
    default_model: Option<LanguageModelSelection>,
    session: Option<Seq<char>>,
    loads: Seq<u32>,
    r: Option<WorkerAssignment>,
    i: int,
)
    requires
        is_acquired(before, after, workers, default_model, session, loads, r),
        enabled_endpoints(workers.endpoints@).len() > 0,
        kept_worker(before, workers.resolved(default_model), session) is None,
        workers.scheduling == WorkerScheduling::LeastBusy || forall|k: int|
            0 <= k < workers.resolved(default_model).len() ==> !has_room(
                before,
                #[trigger] workers.resolved(default_model)[k],
            ),
        orders_by_load(before, workers.resolved(default_model), loads),
        is_least_busy(before, workers.resolved(default_model), i),
    ensures
        r matches Some(a) && a.worker_id@ == workers.resolved(default_model)[i].id,
{
    let endpoints = workers.resolved(default_model);
    if workers.scheduling != WorkerScheduling::LeastBusy {
        lemma_none_with_room(before, endpoints, 0);
    }
    let a = r->0;
    let (chosen, k) = choose|chosen: int, k: int| #[trigger]
        chosen_gives(workers.scheduling, before, endpoints, loads, chosen, k) && a.is_for(
            endpoints[k],
        );
    lemma_position_id(endpoints, endpoints[chosen].id, 0);
    assert(is_least(loads, chosen));
    assert(loads[chosen] <= loads[i]);
    assert(loads[i] <= loads[chosen]) by {
        assert(is_no_busier(before, endpoints[i], endpoints[chosen]));
    }
    if chosen < i {
        assert(!is_no_busier(before, endpoints[chosen], endpoints[i]));
    }
}

/// There is a worker exactly where an endpoint is enabled and some are to be used. It is one of
/// these, and the one that the session has had where that is still among them, whatever it is busy
/// with.
pub proof fn lemma_acquired_worker_is_there(
    before: WorkerPoolRuntime,
    after: WorkerPoolRuntime,
    workers: NetworkAgentWorkers,
    default_model: Option<LanguageModelSelection>,
    session: Option<Seq<char>>,
    loads: Seq<u32>,
    r: Option<WorkerAssignment>,
)
    requires
        is_acquired(before, after, workers, default_model, session, loads, r),
    ensures
        r is Some <==> enabled_endpoints(workers.endpoints@).len() > 0 && workers.resolved(
            default_model,
        ).len() > 0,
        r matches Some(a) ==> exists|k: int|
            0 <= k < workers.resolved(default_model).len() && a.is_for(
                #[trigger] workers.resolved(default_model)[k],
            ),
        r is Some ==> forall|k: int|
            0 <= k < workers.resolved(default_model).len() && session is Some && before.session(
                session->0,
            ) == Some((#[trigger] workers.resolved(default_model)[k]).id) ==> r->0.worker_id@
                == workers.resolved(default_model)[k].id,
{
    let endpoints = workers.resolved(default_model);
    if r is Some {
        let a = r->0;
        match kept_worker(before, endpoints, session) {
            Some(k) => {
                lemma_position_id(endpoints, before.session(session->0)->0, 0);
                assert(a.is_for(endpoints[k]));
            },
            None => {
                let (chosen, k) = choose|chosen: int, k: int| #[trigger]
                    chosen_gives(workers.scheduling, before, endpoints, loads, chosen, k)
                        && a.is_for(endpoints[k]);
                lemma_position_id(endpoints, endpoints[chosen].id, 0);
                assert(a.is_for(endpoints[k]));
            },
        }
        assert forall|k: int|
            0 <= k < endpoints.len() && session is Some && before.session(session->0) == Some(
                (#[trigger] endpoints[k]).id,
            ) implies a.worker_id@ == endpoints[k].id by {
            lemma_endpoint_position(endpoints, 0, k);
            lemma_position_id(endpoints, endpoints[k].id, 0);
        }
    }
}

} // verus!
