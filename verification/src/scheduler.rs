//! The job scheduler's decision and reconciliation logic.
//!
//! A claimed job is dispatched to one worker run; what the bridge hands
//! back is decided into the job's terminal transition, and the decision is
//! reconciled into the ledger: a success upserts the price observation and
//! completes the job in one step, any failure marks the job failed with a
//! cause string and writes no price.

use vstd::prelude::*;

use crate::bridge::BridgeError;
use crate::bridge::BridgeErrorView;
use crate::bridge::spec_classify;
use crate::bridge::spec_error_text;
use crate::bridge::WorkerOutcomeView;
use crate::ledger::finish_jobs;
use crate::ledger::jobs_model;
use crate::ledger::Ledger;
use crate::ledger::prices_model;
use crate::ledger::upsert_price_table;
use crate::models::JobStatus;
use crate::models::ScraperResponse;
use crate::models::ScraperResponseView;
use crate::models::ScrapingJobView;
use crate::models::StorePrice;
use crate::models::StorePriceView;

verus! {

// ---------------------------------------------------------------------------
// The decision
// ---------------------------------------------------------------------------

/// A claimed job's terminal transition: complete with the worker's
/// response, or fail with a human-readable cause.
pub enum JobOutcome {
    Completed(ScraperResponse),
    Failed(String),
}

#[verifier::ext_equal]
pub enum JobOutcomeView {
    Completed(ScraperResponseView),
    Failed(Seq<char>),
}

impl View for JobOutcome {
    type V = JobOutcomeView;

    open spec fn view(&self) -> JobOutcomeView {
        match self {
            JobOutcome::Completed(resp) => JobOutcomeView::Completed(resp@),
            JobOutcome::Failed(msg) => JobOutcomeView::Failed(msg@),
        }
    }
}

/// The decision on one bridge result: a job completes only on a response
/// whose status is `ok` and which carries a price; everything else fails
/// with the matching cause.
pub open spec fn spec_decide(r: Result<ScraperResponseView, BridgeErrorView>) -> JobOutcomeView {
    match r {
        Result::Ok(resp) => {
            if resp.status == "ok"@ && resp.price is Some {
                JobOutcomeView::Completed(resp)
            } else if !(resp.status == "ok"@) {
                JobOutcomeView::Failed("worker returned a non-ok status"@)
            } else {
                JobOutcomeView::Failed("worker found no price"@)
            }
        },
        Result::Err(e) => JobOutcomeView::Failed(spec_error_text(e)),
    }
}

/// Decide one bridge result; see [`spec_decide`].
pub fn decide_outcome(r: Result<ScraperResponse, BridgeError>) -> (out: JobOutcome)
    ensures
        match r {
            Result::Ok(resp) => out@ == spec_decide(
                Result::<ScraperResponseView, BridgeErrorView>::Ok(resp@),
            ),
            Result::Err(e) => out@ == spec_decide(
                Result::<ScraperResponseView, BridgeErrorView>::Err(e@),
            ),
        },
        out@ matches JobOutcomeView::Completed(resp) ==> resp.price is Some,
{
    match r {
        Ok(resp) => {
            let ok = resp.status == "ok".to_owned();
            if ok && resp.price.is_some() {
                JobOutcome::Completed(resp)
            } else if !ok {
                JobOutcome::Failed("worker returned a non-ok status".to_owned())
            } else {
                JobOutcome::Failed("worker found no price".to_owned())
            }
        },
        Err(e) => JobOutcome::Failed(e.error_text()),
    }
}

// ---------------------------------------------------------------------------
// Reconciliation
// ---------------------------------------------------------------------------

/// The price observation a completed run records.
pub open spec fn observation_of(
    product_id: int,
    store_id: int,
    resp: ScraperResponseView,
    now: int,
) -> StorePriceView {
    StorePriceView {
        id: 0,
        product_id: product_id,
        store_id: store_id,
        price: resp.price->0,
        url: Option::None,
        available: true,
        scraped_at: now,
    }
}

/// What reconciliation does to the price table: only a completed run
/// writes, and it writes exactly one upsert.
pub open spec fn spec_reconcile_prices(
    prices: Seq<StorePriceView>,
    outcome: JobOutcomeView,
    product_id: int,
    store_id: int,
    now: int,
    new_id: int,
) -> Seq<StorePriceView> {
    match outcome {
        JobOutcomeView::Completed(resp) => upsert_price_table(
            prices,
            observation_of(product_id, store_id, resp, now),
            new_id,
        ),
        JobOutcomeView::Failed(_) => prices,
    }
}

/// What reconciliation does to the job table: the terminal transition of
/// the reconciled job, with the worker's raw response kept on completion
/// and the cause string kept on failure.
pub open spec fn spec_reconcile_jobs(
    jobs: Seq<ScrapingJobView>,
    job_id: int,
    outcome: JobOutcomeView,
    now: int,
) -> Seq<ScrapingJobView> {
    match outcome {
        JobOutcomeView::Completed(resp) => finish_jobs(
            jobs,
            job_id,
            JobStatus::Completed,
            Option::None,
            Option::Some(resp),
            now,
        ),
        JobOutcomeView::Failed(msg) => finish_jobs(
            jobs,
            job_id,
            JobStatus::Failed,
            Option::Some(msg),
            Option::None,
            now,
        ),
    }
}

/// Reconcile one decided outcome into the ledger. On completion the price
/// upsert, the history append and the job's completion stand or fall
/// together — a job is never marked completed without its price write. On
/// failure nothing is written but the job's terminal state and its cause.
pub fn reconcile_outcome(
    ledger: &mut Ledger,
    job_id: i64,
    product_id: i64,
    store_id: i32,
    outcome: JobOutcome,
    now: i64,
)
    requires
        old(ledger).wf(),
        old(ledger).next_id + 2 <= i64::MAX,
        outcome@ matches JobOutcomeView::Completed(resp) ==> resp.price is Some,
        forall|i: int|
            0 <= i < jobs_model(old(ledger).jobs@).len() && (#[trigger] jobs_model(
                old(ledger).jobs@,
            )[i]).id == job_id ==> jobs_model(old(ledger).jobs@)[i].status == JobStatus::Running,
    ensures
        final(ledger).wf(),
        prices_model(final(ledger).store_prices@) =~= spec_reconcile_prices(
            prices_model(old(ledger).store_prices@),
            outcome@,
            product_id as int,
            store_id as int,
            now as int,
            old(ledger).next_id as int,
        ),
        jobs_model(final(ledger).jobs@) =~= spec_reconcile_jobs(
            jobs_model(old(ledger).jobs@),
            job_id as int,
            outcome@,
            now as int,
        ),
        outcome@ is Failed ==> final(ledger).price_history == old(ledger).price_history,
        outcome@ is Completed ==> final(ledger).price_history@.len() == old(
            ledger,
        ).price_history@.len() + 1,
        final(ledger).stores == old(ledger).stores,
        final(ledger).products == old(ledger).products,
        final(ledger).users == old(ledger).users,
        final(ledger).trackings == old(ledger).trackings,
{
    match outcome {
        JobOutcome::Completed(resp) => {
            let price_val = match resp.price {
                Some(p) => p,
                None => 0,
            };
            let obs = StorePrice {
                id: 0,
                product_id: product_id,
                store_id: store_id,
                price: price_val,
                url: None,
                available: true,
                scraped_at: now,
            };
            let _row_id = ledger.upsert_store_price(&obs);
            ledger.update_job_status(job_id, JobStatus::Completed, None, Some(resp), now);
        },
        JobOutcome::Failed(msg) => {
            ledger.update_job_status(job_id, JobStatus::Failed, Some(msg), None, now);
        },
    }
}

// ---------------------------------------------------------------------------
// Laws of reconciliation
// ---------------------------------------------------------------------------

/// Law: a worker run that exceeds its timeout always yields a failed job
/// and no price write. The timed-out outcome is classified as a timeout,
/// decided into a failure whose cause names the timeout, the price table
/// is left exactly as it was, and the reconciled job is `failed`.
pub proof fn lemma_timeout_yields_failed_job_and_no_price_write(
    prices: Seq<StorePriceView>,
    jobs: Seq<ScrapingJobView>,
    job_id: int,
    product_id: int,
    store_id: int,
    now: int,
    new_id: int,
)
    ensures
        ({
            let out = spec_decide(spec_classify(WorkerOutcomeView::TimedOut));
            &&& out == JobOutcomeView::Failed("scraper timeout"@)
            &&& spec_reconcile_prices(prices, out, product_id, store_id, now, new_id) == prices
            &&& forall|i: int|
                0 <= i < jobs.len() && (#[trigger] jobs[i]).id == job_id ==> spec_reconcile_jobs(
                    jobs,
                    job_id,
                    out,
                    now,
                )[i].status == JobStatus::Failed
        }),
{
    let out = spec_decide(spec_classify(WorkerOutcomeView::TimedOut));
    assert(out == JobOutcomeView::Failed("scraper timeout"@));
}

} // verus!
