use echo::action::{read_outcome, shutdown_outcome, unsupported_outcome, Action};
use echo::bridge::reply;
use echo::cache::Cache;
use echo::dispatch::{Core, Delivery, Job, Step, SubmitError, TakeOutcome};

fn read(key: &str) -> Action {
    Action::Read { key: key.to_string() }
}

fn key_of(a: &Action) -> &str {
    match a {
        Action::Read { key } => key.as_str(),
    }
}

fn granted(core: &mut Core) -> Job {
    match core.take() {
        TakeOutcome::Granted(job) => job,
        _ => panic!("expected a job"),
    }
}

/// Drives one request to its delivery, counting capability invocations:
/// a cache hit delivers without the closure running.
fn resolve<F: FnMut(&str) -> Result<String, String>>(
    core: &mut Core,
    job: Job,
    invocations: &mut usize,
    capability: &mut F,
) -> Delivery {
    match core.start(job) {
        Step::Done(d) => d,
        Step::Invoke(job) => {
            *invocations += 1;
            let outcome = capability(key_of(&job.action));
            core.complete(job, outcome)
        },
    }
}

#[test]
fn cache_is_first_write() {
    let mut cache = Cache::new();
    let k = "k".to_string();
    assert!(cache.get(&k).is_none());
    cache.put(k.clone(), "first".to_string());
    assert_eq!(cache.get(&k).unwrap().as_str(), "first");
    cache.put(k.clone(), "second".to_string());
    assert_eq!(cache.get(&k).unwrap().as_str(), "first");
    assert!(cache.get(&"other".to_string()).is_none());
}

#[test]
fn outcome_messages_exact() {
    let r = read_outcome(read("a"), Err("denied".to_string()));
    assert_eq!(r.outcome.unwrap_err().as_str(), "Cannot Action: denied");
    let r = unsupported_outcome(read("a"));
    assert_eq!(r.outcome.unwrap_err().as_str(), "Cannot Action.");
    let r = shutdown_outcome(read("a"));
    assert_eq!(r.outcome.unwrap_err().as_str(), "Cannot Action: service shutting down.");
    let r = read_outcome(read("a"), Ok("text".to_string()));
    assert_eq!(r.outcome.unwrap().as_str(), "text");
}

#[test]
fn scenario_read_then_cached_reread() {
    // First request reads the resource; an identical second request is
    // answered from the cache, without a second capability invocation.
    let mut core = Core::new(4);
    let mut invocations: usize = 0;
    let mut capability = |key: &str| {
        assert_eq!(key, "/tmp/a.txt");
        Ok("hello".to_string())
    };

    let t1 = core.submit(read("/tmp/a.txt")).unwrap();
    let job = granted(&mut core);
    let d1 = resolve(&mut core, job, &mut invocations, &mut capability);
    assert_eq!(d1.ticket, t1);
    assert_eq!(reply(&d1).as_str(), "{\"path\":\"/tmp/a.txt\",\"content\":\"hello\"}");
    assert_eq!(invocations, 1);

    let t2 = core.submit(read("/tmp/a.txt")).unwrap();
    assert_ne!(t1, t2);
    let job = granted(&mut core);
    let d2 = resolve(&mut core, job, &mut invocations, &mut capability);
    assert_eq!(d2.ticket, t2);
    assert_eq!(reply(&d2).as_str(), "{\"path\":\"/tmp/a.txt\",\"content\":\"hello\"}");
    // The cache answered: still exactly one invocation.
    assert_eq!(invocations, 1);
}

#[test]
fn scenario_missing_resource_keeps_service_usable() {
    // A failing capability run is delivered as data; the next request on
    // the same core still completes (worker isolation).
    let mut core = Core::new(4);
    let mut invocations: usize = 0;

    let t1 = core.submit(read("/no/such/file")).unwrap();
    let job = granted(&mut core);
    let d1 = resolve(&mut core, job, &mut invocations, &mut |_key| {
        Err("No such file or directory".to_string())
    });
    assert_eq!(d1.ticket, t1);
    assert_eq!(
        reply(&d1).as_str(),
        "{\"path\":\"/no/such/file\",\"error\":\"Cannot Action: No such file or directory\"}"
    );

    // A failure fills no cache entry: retrying invokes the capability again.
    let _t2 = core.submit(read("/no/such/file")).unwrap();
    let job = granted(&mut core);
    let d2 = resolve(&mut core, job, &mut invocations, &mut |_key| Ok("late".to_string()));
    assert_eq!(d2.result.outcome.as_deref().unwrap(), "late");
    assert_eq!(invocations, 2);

    let t3 = core.submit(read("/tmp/ok")).unwrap();
    let job = granted(&mut core);
    let d3 = resolve(&mut core, job, &mut invocations, &mut |_key| Ok("fine".to_string()));
    assert_eq!(d3.ticket, t3);
    assert!(d3.result.outcome.is_ok());
}

#[test]
fn scenario_shutdown_answers_queued_job() {
    // Shutting down with a job still queued delivers a
    // service-unavailable failure instead of leaving its bridge hanging.
    let mut core = Core::new(1);
    let t_running = core.submit(read("/busy")).unwrap();
    let t_queued = core.submit(read("/waiting")).unwrap();
    let running_job = granted(&mut core);

    let drained = core.shutdown();
    assert_eq!(drained.len(), 1);
    assert_eq!(drained[0].ticket, t_queued);
    assert_eq!(
        drained[0].result.outcome.as_ref().unwrap_err().as_str(),
        "Cannot Action: service shutting down."
    );

    // New submissions fail fast; workers are told to leave.
    assert!(matches!(core.submit(read("/late")), Err(SubmitError::ShuttingDown)));
    assert!(matches!(core.take(), TakeOutcome::Shutdown));

    // The job already running still runs to completion and is delivered.
    let d = core.complete(running_job, Ok("done".to_string()));
    assert_eq!(d.ticket, t_running);
    assert_eq!(d.result.outcome.unwrap().as_str(), "done");
}

#[test]
fn backpressure_bounds_running_jobs() {
    // With pool size 2 and 3 submissions, at most 2 are in resolution at
    // once; the third waits in the queue until a slot frees up.
    let mut core = Core::new(2);
    core.submit(read("/a")).unwrap();
    core.submit(read("/b")).unwrap();
    core.submit(read("/c")).unwrap();

    let job_a = granted(&mut core);
    let _job_b = granted(&mut core);
    assert!(matches!(core.take(), TakeOutcome::Wait));

    let _ = core.complete(job_a, Ok("a".to_string()));
    let job_c = granted(&mut core);
    assert_eq!(key_of(&job_c.action), "/c");
}

#[test]
fn take_waits_on_empty_queue() {
    let mut core = Core::new(4);
    assert!(matches!(core.take(), TakeOutcome::Wait));
}

#[test]
fn routing_delivers_to_the_submitting_ticket() {
    // Two concurrent submissions, completed out of order: each delivery
    // carries its own submission's ticket and action.
    let mut core = Core::new(2);
    let t_a = core.submit(read("/a")).unwrap();
    let t_b = core.submit(read("/b")).unwrap();
    assert_ne!(t_a, t_b);

    let job_a = granted(&mut core);
    let job_b = granted(&mut core);

    // Finish b first.
    let d_b = core.complete(job_b, Ok("payload b".to_string()));
    let d_a = core.complete(job_a, Ok("payload a".to_string()));

    assert_eq!(d_b.ticket, t_b);
    assert_eq!(key_of(&d_b.result.action), "/b");
    assert_eq!(d_b.result.outcome.unwrap().as_str(), "payload b");
    assert_eq!(d_a.ticket, t_a);
    assert_eq!(key_of(&d_a.result.action), "/a");
    assert_eq!(d_a.result.outcome.unwrap().as_str(), "payload a");
}

#[test]
fn unsupported_variant_fails_uniformly() {
    let mut core = Core::new(1);
    let t = core.submit(read("/x")).unwrap();
    let job = granted(&mut core);
    let job = match core.start(job) {
        Step::Invoke(job) => job,
        Step::Done(_) => panic!("cache is empty"),
    };
    let d = core.unsupported(job);
    assert_eq!(d.ticket, t);
    assert_eq!(d.result.outcome.unwrap_err().as_str(), "Cannot Action.");

    // The worker slot is free again afterwards.
    core.submit(read("/y")).unwrap();
    let _ = granted(&mut core);
}

#[test]
fn exactly_one_outcome_per_ticket() {
    // A submission is answered exactly once: after its delivery the
    // ticket is retired and no further work exists for it anywhere.
    let mut core = Core::new(4);
    let t = core.submit(read("/once")).unwrap();
    let job = granted(&mut core);
    assert!(core.is_running(t));
    let d = core.complete(job, Ok("one".to_string()));
    assert_eq!(d.ticket, t);
    assert!(!core.is_running(t));
    assert!(matches!(core.take(), TakeOutcome::Wait));
}
