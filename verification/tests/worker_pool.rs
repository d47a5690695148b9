use unleashed_agent::agent_settings::{
    NetworkAgentWorkerEndpoint, NetworkAgentWorkers, WorkerScheduling,
};
use unleashed_agent::settings_content::LanguageModelProviderSetting;
use unleashed_agent::worker_pool::{
    acquire_worker, assign_session_worker, increment_worker, release_worker, WorkerAssignment,
    WorkerPoolRuntime,
};

fn sample_workers() -> NetworkAgentWorkers {
    NetworkAgentWorkers {
        scheduling: WorkerScheduling::LeastBusy,
        max_workers: 10,
        include_default_model: false,
        endpoints: vec![
            NetworkAgentWorkerEndpoint {
                id: "a".into(),
                provider: LanguageModelProviderSetting("worker-a".into()),
                model: "model-a".into(),
                max_concurrent: 1,
                enabled: true,
            },
            NetworkAgentWorkerEndpoint {
                id: "b".into(),
                provider: LanguageModelProviderSetting("worker-b".into()),
                model: "model-b".into(),
                max_concurrent: 1,
                enabled: true,
            },
        ],
    }
}

fn acquire(
    pool: &mut WorkerPoolRuntime,
    workers: &NetworkAgentWorkers,
    session_id: Option<&str>,
) -> Option<WorkerAssignment> {
    let loads: Vec<u32> = pool
        .load_terms(workers, &None)
        .into_iter()
        .map(|(active, takes)| (active as f32 / takes as f32).to_bits())
        .collect();
    acquire_worker(pool, workers, &None, session_id, &loads)
}

#[test]
fn least_busy_prefers_idle_worker() {
    let mut pool = WorkerPoolRuntime::default();
    let workers = sample_workers();
    let first = acquire(&mut pool, &workers, None).unwrap();
    increment_worker(&mut pool, &first.worker_id);
    release_worker(&mut pool, &first.worker_id);

    increment_worker(&mut pool, "a");

    let second = acquire(&mut pool, &workers, None).unwrap();
    assert_eq!(second.worker_id, "b");
}

#[test]
fn round_robin_cycles_workers() {
    let mut pool = WorkerPoolRuntime::default();
    let mut workers = sample_workers();
    workers.scheduling = WorkerScheduling::RoundRobin;

    let first = acquire(&mut pool, &workers, None).unwrap();
    let second = acquire(&mut pool, &workers, None).unwrap();

    assert_ne!(first.worker_id, second.worker_id);
}

#[test]
fn sticky_session_reuses_worker() {
    let mut pool = WorkerPoolRuntime::default();
    let workers = sample_workers();
    assign_session_worker(&mut pool, "session-1", "b");
    let resumed = acquire(&mut pool, &workers, Some("session-1")).unwrap();
    assert_eq!(resumed.worker_id, "b");
}

#[test]
fn a_choice_is_remembered_for_its_session() {
    let mut pool = WorkerPoolRuntime::default();
    let workers = sample_workers();
    let first = acquire(&mut pool, &workers, Some("s")).unwrap();
    increment_worker(&mut pool, &first.worker_id);
    let again = acquire(&mut pool, &workers, Some("s")).unwrap();
    assert_eq!(first.worker_id, again.worker_id);
    assert_eq!(again.model.model, format!("model-{}", again.worker_id));
}

#[test]
fn without_an_enabled_endpoint_there_is_no_worker() {
    let mut pool = WorkerPoolRuntime::default();
    let mut workers = sample_workers();
    for endpoint in &mut workers.endpoints {
        endpoint.enabled = false;
    }
    assert!(acquire(&mut pool, &workers, None).is_none());
}

#[test]
fn releasing_undoes_an_increment() {
    let mut pool = WorkerPoolRuntime::default();
    let workers = sample_workers();
    increment_worker(&mut pool, "a");
    assert_eq!(pool.load_terms(&workers, &None), vec![(1, 1), (0, 1)]);
    release_worker(&mut pool, "a");
    release_worker(&mut pool, "a");
    assert_eq!(pool.load_terms(&workers, &None), vec![(0, 1), (0, 1)]);
}

#[test]
fn workers_with_room_come_first() {
    for scheduling in [WorkerScheduling::Pool, WorkerScheduling::RoundRobin] {
        let mut pool = WorkerPoolRuntime::default();
        let mut workers = sample_workers();
        workers.scheduling = scheduling;
        increment_worker(&mut pool, "a");
        assert_eq!(pool.active_count("a"), 1);
        assert_eq!(acquire(&mut pool, &workers, None).unwrap().worker_id, "b");
        increment_worker(&mut pool, "b");
        increment_worker(&mut pool, "a");
        assert_eq!(acquire(&mut pool, &workers, None).unwrap().worker_id, "b");
    }
}

#[test]
fn without_room_for_workers_there_is_none() {
    let mut pool = WorkerPoolRuntime::default();
    let mut workers = sample_workers();
    workers.max_workers = 0;
    assert!(workers.resolved_endpoints(&None).is_empty());
    assert!(acquire(&mut pool, &workers, Some("s")).is_none());
    workers.max_workers = 1;
    assert_eq!(workers.resolved_endpoints(&None).len(), 1);
    assert_eq!(acquire(&mut pool, &workers, Some("s")).unwrap().worker_id, "a");
}

#[test]
fn loads_are_measured_by_what_a_worker_takes() {
    let mut pool = WorkerPoolRuntime::default();
    let mut workers = sample_workers();
    workers.endpoints[0].max_concurrent = 2;
    workers.endpoints[1].max_concurrent = 5;
    for _ in 0..2 {
        increment_worker(&mut pool, "b");
    }
    increment_worker(&mut pool, "a");
    assert_eq!(pool.load_terms(&workers, &None), vec![(1, 2), (2, 5)]);
    assert_eq!(acquire(&mut pool, &workers, None).unwrap().worker_id, "b");
    workers.endpoints[1].max_concurrent = 4;
    assert_eq!(acquire(&mut pool, &workers, None).unwrap().worker_id, "a");
}
