use price_scout::bridge::{classify_outcome, BridgeError, WorkerOutcome};
use price_scout::ledger::Ledger;
use price_scout::models::JobStatus;
use price_scout::scheduler::{decide_outcome, reconcile_outcome, JobOutcome};

#[test]
fn test_job_status() {
    assert_eq!(JobStatus::Pending.as_str(), "pending");
    assert_eq!(JobStatus::Running.as_str(), "running");
    assert_eq!(JobStatus::Completed.as_str(), "completed");
    assert_eq!(JobStatus::Failed.as_str(), "failed");
}

#[test]
fn test_priority_order_reverse_insertion() {
    // Two jobs for the same product, enqueued low priority first: the
    // scheduler still claims the high-priority one first.
    let mut ledger = Ledger::new();
    let low = ledger.enqueue_scraping_job(42, Some(7), 1, 1000);
    let high = ledger.enqueue_scraping_job(42, Some(7), 10, 1001);
    let pending = ledger.get_pending_jobs(10);
    assert_eq!(pending.len(), 2);
    assert_eq!(pending[0].id, high);
    assert_eq!(pending[1].id, low);
}

#[test]
fn test_fifo_among_equal_priority() {
    let mut ledger = Ledger::new();
    let later = ledger.enqueue_scraping_job(1, None, 5, 2000);
    let earlier = ledger.enqueue_scraping_job(2, None, 5, 1500);
    let pending = ledger.get_pending_jobs(10);
    assert_eq!(pending.len(), 2);
    assert_eq!(pending[0].id, earlier);
    assert_eq!(pending[1].id, later);
    assert_eq!(pending[0].scheduled_at, 1500);
}

#[test]
fn test_pending_jobs_limit() {
    let mut ledger = Ledger::new();
    for p in 0..5 {
        ledger.enqueue_scraping_job(p, None, p as i32, 100 + p);
    }
    assert_eq!(ledger.get_pending_jobs(0).len(), 0);
    let top = ledger.get_pending_jobs(2);
    assert_eq!(top.len(), 2);
    assert_eq!(top[0].priority, 4);
    assert_eq!(top[1].priority, 3);
    assert_eq!(ledger.get_pending_jobs(100).len(), 5);
}

#[test]
fn test_claim_idempotent() {
    // Racing claims are serialized by the storage engine: exactly one
    // wins, the loser observes no state change.
    let mut ledger = Ledger::new();
    let id = ledger.enqueue_scraping_job(42, Some(7), 5, 1000);
    assert!(ledger.claim_job(id, 1010));
    let after_first: Vec<_> = ledger.jobs.iter().map(|j| (j.id, j.status, j.started_at)).collect();
    assert!(!ledger.claim_job(id, 1020));
    let after_second: Vec<_> = ledger.jobs.iter().map(|j| (j.id, j.status, j.started_at)).collect();
    assert_eq!(after_first, after_second);
    assert_eq!(ledger.jobs[0].status, JobStatus::Running);
    assert_eq!(ledger.jobs[0].started_at, Some(1010));
}

#[test]
fn test_claim_unknown_job() {
    let mut ledger = Ledger::new();
    assert!(!ledger.claim_job(999, 1000));
}

#[test]
fn test_round_trip_completion() {
    // Enqueue at priority 5 for (product 42, store 7); the scheduler
    // claims it, the worker answers ok with a price, the job completes,
    // the price row exists and the history gains one row.
    let mut ledger = Ledger::new();
    let id = ledger.enqueue_scraping_job(42, Some(7), 5, 1000);
    let pending = ledger.get_pending_jobs(1);
    assert_eq!(pending.len(), 1);
    assert_eq!(pending[0].id, id);
    assert!(ledger.claim_job(id, 1010));
    assert_eq!(ledger.jobs[0].started_at, Some(1010));

    let stdout = br#"{"store": "dns", "status": "ok", "price": 129900, "count": 3, "time": 2.25, "error": null, "method": "firefox"}"#.to_vec();
    let outcome = WorkerOutcome::Exited { code: Some(0), stdout, stderr: Vec::new() };
    let decided = decide_outcome(classify_outcome(outcome));
    match &decided {
        JobOutcome::Completed(resp) => {
            assert_eq!(resp.price, Some(129900));
            assert_eq!(resp.status, "ok");
        },
        JobOutcome::Failed(msg) => panic!("unexpected failure: {}", msg),
    }
    reconcile_outcome(&mut ledger, id, 42, 7, decided, 1020);

    let job = &ledger.jobs[0];
    assert_eq!(job.status, JobStatus::Completed);
    assert_eq!(job.completed_at, Some(1020));
    assert!(job.error.is_none());
    assert_eq!(job.result.as_ref().unwrap().price, Some(129900));

    let row = ledger.get_product_price_by_store(42, 7).unwrap();
    assert_eq!(row.price, 129900);
    assert!(row.available);
    assert_eq!(ledger.price_history.len(), 1);
    assert_eq!(ledger.price_history[0].price, 129900);
}

#[test]
fn test_timeout_fails_job_without_price() {
    // A worker run that exceeds its budget yields a failed job with a
    // timeout-tagged error text and no price write, whatever the worker
    // would have produced.
    let mut ledger = Ledger::new();
    let id = ledger.enqueue_scraping_job(42, Some(7), 5, 1000);
    assert!(ledger.claim_job(id, 1010));
    let decided = decide_outcome(classify_outcome(WorkerOutcome::TimedOut));
    reconcile_outcome(&mut ledger, id, 42, 7, decided, 1030);
    let job = &ledger.jobs[0];
    assert_eq!(job.status, JobStatus::Failed);
    assert_eq!(job.error.as_deref(), Some("scraper timeout"));
    assert_eq!(job.completed_at, Some(1030));
    assert!(job.result.is_none());
    assert!(ledger.store_prices.is_empty());
    assert!(ledger.price_history.is_empty());
    assert!(ledger.get_product_price_by_store(42, 7).is_none());
}

#[test]
fn test_non_ok_status_fails_job() {
    let mut ledger = Ledger::new();
    let id = ledger.enqueue_scraping_job(8, Some(2), 1, 10);
    assert!(ledger.claim_job(id, 20));
    let stdout =
        br#"{"store": "dns", "status": "captcha", "price": null, "time": 9.0}"#.to_vec();
    let outcome = WorkerOutcome::Exited { code: Some(0), stdout, stderr: Vec::new() };
    let decided = decide_outcome(classify_outcome(outcome));
    reconcile_outcome(&mut ledger, id, 8, 2, decided, 30);
    assert_eq!(ledger.jobs[0].status, JobStatus::Failed);
    assert_eq!(ledger.jobs[0].error.as_deref(), Some("worker returned a non-ok status"));
    assert!(ledger.store_prices.is_empty());
}

#[test]
fn test_ok_without_price_fails_job() {
    let mut ledger = Ledger::new();
    let id = ledger.enqueue_scraping_job(8, Some(2), 1, 10);
    assert!(ledger.claim_job(id, 20));
    let stdout = br#"{"store": "dns", "status": "ok", "price": null, "time": 1.0}"#.to_vec();
    let outcome = WorkerOutcome::Exited { code: Some(0), stdout, stderr: Vec::new() };
    let decided = decide_outcome(classify_outcome(outcome));
    reconcile_outcome(&mut ledger, id, 8, 2, decided, 30);
    assert_eq!(ledger.jobs[0].status, JobStatus::Failed);
    assert_eq!(ledger.jobs[0].error.as_deref(), Some("worker found no price"));
}

#[test]
fn test_worker_exit_classified() {
    let outcome = WorkerOutcome::Exited {
        code: Some(2),
        stdout: Vec::new(),
        stderr: b"browser crashed".to_vec(),
    };
    match classify_outcome(outcome) {
        Err(BridgeError::WorkerExited { code, stderr }) => {
            assert_eq!(code, Some(2));
            assert_eq!(stderr, b"browser crashed".to_vec());
            let text =
                BridgeError::WorkerExited { code, stderr }.error_text();
            assert_eq!(text, "worker exited with error: browser crashed");
        },
        other => panic!("unexpected classification: {:?}", other.is_ok()),
    }
}

#[test]
fn test_error_text_replaces_invalid_bytes() {
    let e = BridgeError::WorkerExited { code: Some(1), stderr: vec![0xff] };
    assert_eq!(e.error_text(), "worker exited with error: \u{fffd}");
    let t = BridgeError::Timeout;
    assert_eq!(t.error_text(), "scraper timeout");
    let nf = BridgeError::WorkerNotFound;
    assert_eq!(nf.error_text(), "worker script not found");
}

#[test]
fn test_update_job_status_missing_row() {
    let mut ledger = Ledger::new();
    ledger.update_job_status(12345, JobStatus::Failed, Some("gone".to_string()), None, 50);
    assert!(ledger.jobs.is_empty());
}
