//! The price ledger: an exact model of the durable tables the core owns
//! (stores, products, users, trackings, prices, price history and the
//! scraping job queue) together with their invariants.
//!
//! Every operation states its effect over the mathematical views of the
//! rows. The storage engine that makes these effects durable lives outside
//! the crate; it is expected to provide the same atomic semantics
//! (insert-or-update on a unique key, conditional update for the claim).

use vstd::prelude::*;
use vstd::multiset::Multiset;

use crate::models::JobStatus;
use crate::models::ScraperResponse;
use crate::models::ScrapingJob;
use crate::models::ScrapingJobView;
use crate::models::Store;
use crate::models::StoreView;
use crate::models::Product;
use crate::models::ProductView;
use crate::models::ProductSpecs;
use crate::models::User;
use crate::models::UserView;
use crate::models::Tracking;
use crate::models::StorePrice;
use crate::models::StorePriceView;
use crate::models::PriceHistory;
use crate::models::opt_str_view;

verus! {

/// A storage-level failure surfaced to the caller. The caller must not
/// assume any partial write succeeded.
#[derive(Clone, Copy, Debug, PartialEq, Eq, Structural)]
pub enum StorageError {
    /// No row matched a lookup that had to return one.
    NotFound,
    /// A write collided with a uniqueness constraint.
    Conflict,
}

// ---------------------------------------------------------------------------
// Queue ordering
// ---------------------------------------------------------------------------

/// The claim order of the pending pool: priority descending, then
/// `scheduled_at` ascending (oldest first among equal priority), then id
/// ascending as the deterministic tiebreak.
pub open spec fn job_le(a: ScrapingJobView, b: ScrapingJobView) -> bool {
    ||| a.priority > b.priority
    ||| (a.priority == b.priority && a.scheduled_at < b.scheduled_at)
    ||| (a.priority == b.priority && a.scheduled_at == b.scheduled_at && a.id <= b.id)
}

pub open spec fn jobs_sorted(s: Seq<ScrapingJobView>) -> bool {
    forall|i: int, j: int| 0 <= i < j < s.len() ==> job_le(#[trigger] s[i], #[trigger] s[j])
}

// ---------------------------------------------------------------------------
// Views of whole tables
// ---------------------------------------------------------------------------

pub open spec fn jobs_model(s: Seq<ScrapingJob>) -> Seq<ScrapingJobView> {
    s.map_values(|j: ScrapingJob| j@)
}

pub open spec fn stores_model(s: Seq<Store>) -> Seq<StoreView> {
    s.map_values(|st: Store| st@)
}

pub open spec fn products_model(s: Seq<Product>) -> Seq<ProductView> {
    s.map_values(|p: Product| p@)
}

pub open spec fn users_model(s: Seq<User>) -> Seq<UserView> {
    s.map_values(|u: User| u@)
}

pub open spec fn prices_model(s: Seq<StorePrice>) -> Seq<StorePriceView> {
    s.map_values(|p: StorePrice| p@)
}

// ---------------------------------------------------------------------------
// The ledger
// ---------------------------------------------------------------------------

/// The in-core state of the tables the orchestration core owns.
pub struct Ledger {
    pub stores: Vec<Store>,
    pub products: Vec<Product>,
    pub users: Vec<User>,
    pub trackings: Vec<Tracking>,
    pub store_prices: Vec<StorePrice>,
    pub price_history: Vec<PriceHistory>,
    pub jobs: Vec<ScrapingJob>,
    /// The row-identity generator: every generated id is below it.
    pub next_id: i64,
}

impl Ledger {
    /// The uniqueness and record invariants of the tables.
    pub open spec fn wf(self) -> bool {
        let jobs = jobs_model(self.jobs@);
        let prices = prices_model(self.store_prices@);
        let stores = stores_model(self.stores@);
        let products = products_model(self.products@);
        let users = users_model(self.users@);
        &&& self.next_id >= 1
        &&& forall|i: int| 0 <= i < jobs.len() ==> (#[trigger] jobs[i]).wf()
        &&& forall|i: int| 0 <= i < jobs.len() ==> 1 <= (#[trigger] jobs[i]).id < self.next_id
        &&& forall|i: int, j: int|
            0 <= i < j < jobs.len() ==> (#[trigger] jobs[i]).id != (#[trigger] jobs[j]).id
        &&& forall|i: int| 0 <= i < prices.len() ==> 1 <= (#[trigger] prices[i]).id < self.next_id
        &&& forall|i: int, j: int|
            0 <= i < j < prices.len() ==> !((#[trigger] prices[i]).product_id == (
            #[trigger] prices[j]).product_id && prices[i].store_id == prices[j].store_id)
        &&& forall|i: int|
            0 <= i < self.price_history@.len() ==> 1 <= (#[trigger] self.price_history@[i]).id
                < self.next_id
        &&& forall|i: int, j: int|
            0 <= i < j < stores.len() ==> (#[trigger] stores[i]).id < (#[trigger] stores[j]).id
        &&& forall|i: int| 0 <= i < products.len() ==> 1 <= (#[trigger] products[i]).id < self.next_id
        &&& forall|i: int, j: int|
            0 <= i < j < products.len() ==> (#[trigger] products[i]).id != (
            #[trigger] products[j]).id
        &&& forall|i: int| 0 <= i < users.len() ==> 1 <= (#[trigger] users[i]).id < self.next_id
        &&& forall|i: int, j: int|
            0 <= i < j < users.len() ==> (#[trigger] users[i]).id != (#[trigger] users[j]).id
        &&& forall|i: int, j: int|
            0 <= i < j < users.len() ==> (#[trigger] users[i]).telegram_id != (
            #[trigger] users[j]).telegram_id
        &&& forall|i: int|
            0 <= i < self.trackings@.len() ==> 1 <= (#[trigger] self.trackings@[i]).id
                < self.next_id
        &&& forall|i: int, j: int|
            0 <= i < j < self.trackings@.len() ==> (#[trigger] self.trackings@[i]).id != (
            #[trigger] self.trackings@[j]).id
        &&& forall|i: int, j: int|
            0 <= i < j < self.trackings@.len() ==> !((#[trigger] self.trackings@[i]).user_id == (
            #[trigger] self.trackings@[j]).user_id && self.trackings@[i].product_id
                == self.trackings@[j].product_id)
    }

    /// An empty ledger.
    pub fn new() -> (r: Ledger)
        ensures
            r.wf(),
            r.next_id == 1,
            r.jobs@.len() == 0,
            r.stores@.len() == 0,
            r.products@.len() == 0,
            r.users@.len() == 0,
            r.trackings@.len() == 0,
            r.store_prices@.len() == 0,
            r.price_history@.len() == 0,
    {
        Ledger {
            stores: Vec::new(),
            products: Vec::new(),
            users: Vec::new(),
            trackings: Vec::new(),
            store_prices: Vec::new(),
            price_history: Vec::new(),
            jobs: Vec::new(),
            next_id: 1,
        }
    }
}

// ---------------------------------------------------------------------------
// Queue transitions, as functions of the table view
// ---------------------------------------------------------------------------

/// A freshly enqueued job row.
pub open spec fn fresh_job(
    id: int,
    product_id: int,
    store_id: Option<int>,
    priority: int,
    now: int,
) -> ScrapingJobView {
    ScrapingJobView {
        id: id,
        product_id: product_id,
        store_id: store_id,
        status: JobStatus::Pending,
        priority: priority,
        scheduled_at: now,
        started_at: Option::None,
        completed_at: Option::None,
        error: Option::None,
        result: Option::None,
    }
}

/// Whether some row with this id is still in the pending pool.
pub open spec fn pending_with_id(jobs: Seq<ScrapingJobView>, id: int) -> bool {
    exists|i: int|
        0 <= i < jobs.len() && (#[trigger] jobs[i]).id == id && jobs[i].status
            == JobStatus::Pending
}

/// The row after a successful claim: running, `started_at` set.
pub open spec fn claimed_job(j: ScrapingJobView, now: int) -> ScrapingJobView {
    ScrapingJobView { status: JobStatus::Running, started_at: Option::Some(now), ..j }
}

/// The effect of one claim attempt on the whole table: the conditional
/// update touches exactly the pending rows with the claimed id.
pub open spec fn claim_jobs(jobs: Seq<ScrapingJobView>, id: int, now: int) -> Seq<
    ScrapingJobView,
> {
    jobs.map_values(
        |j: ScrapingJobView|
            if j.id == id && j.status == JobStatus::Pending {
                claimed_job(j, now)
            } else {
                j
            },
    )
}

/// The row after its terminal transition.
pub open spec fn finished_job(
    j: ScrapingJobView,
    status: JobStatus,
    error: Option<Seq<char>>,
    result: Option<crate::models::ScraperResponseView>,
    now: int,
) -> ScrapingJobView {
    ScrapingJobView {
        status: status,
        completed_at: Option::Some(now),
        error: error,
        result: result,
        ..j
    }
}

/// The effect of a terminal status update on the whole table.
pub open spec fn finish_jobs(
    jobs: Seq<ScrapingJobView>,
    id: int,
    status: JobStatus,
    error: Option<Seq<char>>,
    result: Option<crate::models::ScraperResponseView>,
    now: int,
) -> Seq<ScrapingJobView> {
    jobs.map_values(
        |j: ScrapingJobView|
            if j.id == id {
                finished_job(j, status, error, result, now)
            } else {
                j
            },
    )
}

impl Ledger {
    /// Insert a new job row with status `pending`. Each call creates a new
    /// row, by design: the core never deduplicates pending work.
    pub fn enqueue_scraping_job(
        &mut self,
        product_id: i64,
        store_id: Option<i32>,
        priority: i32,
        now: i64,
    ) -> (id: i64)
        requires
            old(self).wf(),
            old(self).next_id < i64::MAX,
        ensures
            final(self).wf(),
            id == old(self).next_id,
            final(self).next_id == old(self).next_id + 1,
            jobs_model(final(self).jobs@) =~= jobs_model(old(self).jobs@).push(
                fresh_job(
                    id as int,
                    product_id as int,
                    crate::models::opt_int_view(store_id),
                    priority as int,
                    now as int,
                ),
            ),
            final(self).stores == old(self).stores,
            final(self).products == old(self).products,
            final(self).users == old(self).users,
            final(self).trackings == old(self).trackings,
            final(self).store_prices == old(self).store_prices,
            final(self).price_history == old(self).price_history,
    {
        let id = self.next_id;
        let job = ScrapingJob {
            id: id,
            product_id: product_id,
            store_id: store_id,
            status: JobStatus::Pending,
            priority: priority,
            scheduled_at: now,
            started_at: None,
            completed_at: None,
            error: None,
            result: None,
        };
        self.jobs.push(job);
        self.next_id = id + 1;
        proof {
            assert(jobs_model(self.jobs@) =~= jobs_model(old(self).jobs@).push(
                fresh_job(
                    id as int,
                    product_id as int,
                    crate::models::opt_int_view(store_id),
                    priority as int,
                    now as int,
                ),
            ));
        }
        id
    }

    /// Claim a job: the atomic conditional pending-to-running transition.
    /// The claim succeeds only if the row is still pending; a failed claim
    /// changes nothing, so of any number of racing claim attempts exactly
    /// one wins.
    pub fn claim_job(&mut self, job_id: i64, now: i64) -> (claimed: bool)
        requires
            old(self).wf(),
        ensures
            final(self).wf(),
            claimed == pending_with_id(jobs_model(old(self).jobs@), job_id as int),
            jobs_model(final(self).jobs@) =~= claim_jobs(
                jobs_model(old(self).jobs@),
                job_id as int,
                now as int,
            ),
            !claimed ==> *final(self) == *old(self),
            final(self).next_id == old(self).next_id,
            final(self).stores == old(self).stores,
            final(self).products == old(self).products,
            final(self).users == old(self).users,
            final(self).trackings == old(self).trackings,
            final(self).store_prices == old(self).store_prices,
            final(self).price_history == old(self).price_history,
    {
        let ghost jobs0 = jobs_model(old(self).jobs@);
        let mut i: usize = 0;
        while i < self.jobs.len()
            invariant
                *self == *old(self),
                old(self).wf(),
                jobs0 == jobs_model(old(self).jobs@),
                i <= self.jobs@.len(),
                forall|k: int|
                    0 <= k < i ==> !((#[trigger] jobs0[k]).id == job_id && jobs0[k].status
                        == JobStatus::Pending),
            decreases self.jobs@.len() - i,
        {
            if self.jobs[i].id == job_id && self.jobs[i].status == JobStatus::Pending {
                self.jobs[i].status = JobStatus::Running;
                self.jobs[i].started_at = Some(now);
                proof {
                    assert(jobs0[i as int].id == job_id && jobs0[i as int].status
                        == JobStatus::Pending);
                    assert forall|k: int| 0 <= k < jobs0.len() implies jobs_model(self.jobs@)[k]
                        == claim_jobs(jobs0, job_id as int, now as int)[k] by {
                        if k != i {
                            assert(jobs0[k].id != job_id || jobs0[k].status != JobStatus::Pending);
                        }
                    }
                    assert(jobs_model(self.jobs@) =~= claim_jobs(
                        jobs0,
                        job_id as int,
                        now as int,
                    ));
                }
                return true;
            }
            i = i + 1;
        }
        proof {
            assert(jobs_model(self.jobs@) =~= claim_jobs(jobs0, job_id as int, now as int));
        }
        false
    }

    /// Record a terminal outcome for a running job: set the status, the
    /// cause or the raw worker result, and `completed_at`. A row that is
    /// not running is never touched; the state machine has no transition
    /// back to pending.
    pub fn update_job_status(
        &mut self,
        job_id: i64,
        status: JobStatus,
        error: Option<String>,
        result: Option<ScraperResponse>,
        now: i64,
    )
        requires
            old(self).wf(),
            status.is_terminal(),
            forall|i: int|
                0 <= i < jobs_model(old(self).jobs@).len() && (#[trigger] jobs_model(
                    old(self).jobs@,
                )[i]).id == job_id ==> jobs_model(old(self).jobs@)[i].status == JobStatus::Running,
        ensures
            final(self).wf(),
            jobs_model(final(self).jobs@) =~= finish_jobs(
                jobs_model(old(self).jobs@),
                job_id as int,
                status,
                opt_str_view(error),
                crate::models::opt_resp_view(result),
                now as int,
            ),
            final(self).next_id == old(self).next_id,
            final(self).stores == old(self).stores,
            final(self).products == old(self).products,
            final(self).users == old(self).users,
            final(self).trackings == old(self).trackings,
            final(self).store_prices == old(self).store_prices,
            final(self).price_history == old(self).price_history,
    {
        let ghost jobs0 = jobs_model(old(self).jobs@);
        let mut i: usize = 0;
        while i < self.jobs.len()
            invariant
                *self == *old(self),
                old(self).wf(),
                status.is_terminal(),
                jobs0 == jobs_model(old(self).jobs@),
                i <= self.jobs@.len(),
                forall|k: int| 0 <= k < i ==> (#[trigger] jobs0[k]).id != job_id,
                forall|k: int|
                    0 <= k < jobs0.len() && (#[trigger] jobs0[k]).id == job_id ==> jobs0[k].status
                        == JobStatus::Running,
            decreases self.jobs@.len() - i,
        {
            if self.jobs[i].id == job_id {
                self.jobs[i].status = status;
                self.jobs[i].completed_at = Some(now);
                self.jobs[i].error = error;
                self.jobs[i].result = result;
                proof {
                    assert forall|k: int| 0 <= k < jobs0.len() implies jobs_model(self.jobs@)[k]
                        == finish_jobs(
                        jobs0,
                        job_id as int,
                        status,
                        opt_str_view(error),
                        crate::models::opt_resp_view(result),
                        now as int,
                    )[k] by {
                        if k != i {
                            assert(jobs0[i as int].id == job_id);
                            if k < i {
                                assert(jobs0[k].id != jobs0[i as int].id);
                            } else {
                                assert(jobs0[i as int].id != jobs0[k].id);
                            }
                        }
                    }
                    assert(jobs_model(self.jobs@) =~= finish_jobs(
                        jobs0,
                        job_id as int,
                        status,
                        opt_str_view(error),
                        crate::models::opt_resp_view(result),
                        now as int,
                    ));
                }
                return ;
            }
            i = i + 1;
        }
        proof {
            assert(jobs_model(self.jobs@) =~= finish_jobs(
                jobs0,
                job_id as int,
                status,
                opt_str_view(error),
                crate::models::opt_resp_view(result),
                now as int,
            ));
        }
    }
}

// ---------------------------------------------------------------------------
// The pending pool, in claim order
// ---------------------------------------------------------------------------

/// The executable claim order; see [`job_le`].
pub fn job_le_exec(a: &ScrapingJob, b: &ScrapingJob) -> (r: bool)
    ensures
        r == job_le(a@, b@),
{
    if a.priority != b.priority {
        a.priority > b.priority
    } else if a.scheduled_at != b.scheduled_at {
        a.scheduled_at < b.scheduled_at
    } else {
        a.id <= b.id
    }
}

/// Insert one job into a vector kept in claim order.
fn insert_job_sorted(acc: &mut Vec<ScrapingJob>, x: ScrapingJob)
    requires
        jobs_sorted(jobs_model(old(acc)@)),
    ensures
        jobs_sorted(jobs_model(final(acc)@)),
        jobs_model(final(acc)@).to_multiset() =~= jobs_model(old(acc)@).to_multiset().insert(x@),
{
    let ghost m0 = jobs_model(old(acc)@);
    let mut idx: usize = 0;
    while idx < acc.len() && job_le_exec(&acc[idx], &x)
        invariant
            *acc == *old(acc),
            m0 == jobs_model(old(acc)@),
            jobs_sorted(m0),
            idx <= m0.len(),
            forall|k: int| 0 <= k < idx ==> job_le(#[trigger] m0[k], x@),
        decreases acc@.len() - idx,
    {
        idx = idx + 1;
    }
    let ghost gidx = idx as int;
    acc.insert(idx, x);
    proof {
        let m1 = jobs_model(acc@);
        let left = m0.take(gidx);
        let right = m0.skip(gidx);
        assert(m1 =~= left + seq![x@] + right);
        broadcast use vstd::seq_lib::group_to_multiset_ensures;

        vstd::seq_lib::lemma_multiset_commutative(left + seq![x@], right);
        vstd::seq_lib::lemma_multiset_commutative(left, seq![x@]);
        vstd::seq_lib::lemma_multiset_commutative(left, right);
        assert(m0 =~= left + right);
        assert(seq![x@].to_multiset() =~= Multiset::empty().insert(x@));
        assert(m1.to_multiset() =~= m0.to_multiset().insert(x@));
        assert forall|i: int, j: int| 0 <= i < j < m1.len() implies job_le(m1[i], m1[j]) by {
            if gidx < m1.len() - 1 && !(gidx == m1.len()) {
            }
            if i == gidx {
                if j > gidx {
                    assert(m1[j] == m0[j - 1]);
                    if gidx < m0.len() {
                        assert(!job_le(m0[gidx], x@) || gidx == m0.len());
                    }
                }
            }
        }
    }
}

impl Ledger {
    /// The pending jobs, in claim order — priority descending, then
    /// `scheduled_at` ascending — up to `limit` rows. When the pool is
    /// larger than `limit`, every omitted pending job comes after every
    /// returned one in claim order.
    pub fn get_pending_jobs(&self, limit: i32) -> (r: Vec<ScrapingJob>)
        requires
            self.wf(),
            limit >= 0,
        ensures
            ({
                let pend = jobs_model(self.jobs@).filter(
                    |j: ScrapingJobView| j.status == JobStatus::Pending,
                );
                let rm = jobs_model(r@);
                &&& jobs_sorted(rm)
                &&& rm.len() == if limit as int <= pend.len() {
                    limit as int
                } else {
                    pend.len() as int
                }
                &&& forall|b: ScrapingJobView| #[trigger]
                    rm.to_multiset().count(b) <= pend.to_multiset().count(b)
                &&& forall|a: ScrapingJobView, b: ScrapingJobView|
                    #[trigger] rm.to_multiset().count(a) > 0 && #[trigger] rm.to_multiset().count(
                        b,
                    ) < pend.to_multiset().count(b) ==> job_le(a, b)
                &&& limit as int >= pend.len() ==> rm.to_multiset() =~= pend.to_multiset()
            }),
    {
        let ghost pending_pred = |j: ScrapingJobView| j.status == JobStatus::Pending;
        let mut sorted: Vec<ScrapingJob> = Vec::new();
        proof {
            assert(jobs_model(sorted@) =~= Seq::<ScrapingJobView>::empty());
            assert(jobs_model(self.jobs@).take(0) =~= Seq::<ScrapingJobView>::empty());
            assert(Seq::<ScrapingJobView>::empty().filter(pending_pred)
                =~= Seq::<ScrapingJobView>::empty());
        }
        let mut i: usize = 0;
        while i < self.jobs.len()
            invariant
                self.wf(),
                pending_pred == (|j: ScrapingJobView| j.status == JobStatus::Pending),
                i <= self.jobs@.len(),
                jobs_sorted(jobs_model(sorted@)),
                jobs_model(sorted@).to_multiset() =~= jobs_model(self.jobs@).take(i as int).filter(
                    pending_pred,
                ).to_multiset(),
            decreases self.jobs@.len() - i,
        {
            let ghost prefix = jobs_model(self.jobs@).take(i as int);
            let ghost prefix1 = jobs_model(self.jobs@).take(i as int + 1);
            proof {
                broadcast use vstd::seq_lib::group_to_multiset_ensures;
                broadcast use Seq::lemma_filter_push;

                assert(prefix1 =~= prefix.push(jobs_model(self.jobs@)[i as int]));
            }
            if self.jobs[i].status == JobStatus::Pending {
                let j = self.jobs[i].duplicate();
                insert_job_sorted(&mut sorted, j);
            }
            i = i + 1;
        }
        proof {
            assert(jobs_model(self.jobs@).take(self.jobs@.len() as int) =~= jobs_model(
                self.jobs@,
            ));
        }
        let ghost full = jobs_model(sorted@);
        let limit_n: usize = limit as usize;
        if sorted.len() > limit_n {
            sorted.truncate(limit_n);
        }
        proof {
            let pend = jobs_model(self.jobs@).filter(pending_pred);
            let rm = jobs_model(sorted@);
            broadcast use vstd::seq_lib::group_to_multiset_ensures;

            assert(full.to_multiset() =~= pend.to_multiset());
            assert(full.to_multiset().len() == pend.to_multiset().len());
            assert(full.len() == pend.len());
            if full.len() > limit_n {
                let taken = full.take(limit_n as int);
                let rest = full.skip(limit_n as int);
                assert(rm =~= taken);
                assert(full =~= taken + rest);
                vstd::seq_lib::lemma_multiset_commutative(taken, rest);
                assert forall|a: ScrapingJobView, b: ScrapingJobView|
                    #[trigger] rm.to_multiset().count(a) > 0 && #[trigger] rm.to_multiset().count(
                        b,
                    ) < pend.to_multiset().count(b) implies job_le(a, b) by {
                    assert(rest.to_multiset().count(b) > 0);
                    assert(rest.contains(b));
                    assert(rm.contains(a));
                    let kb = choose|kb: int| 0 <= kb < rest.len() && rest[kb] == b;
                    let ka = choose|ka: int| 0 <= ka < rm.len() && rm[ka] == a;
                    assert(full[limit_n + kb] == b);
                    assert(full[ka] == a);
                }
            } else {
                assert(rm =~= full);
            }
        }
        sorted
    }
}

// ---------------------------------------------------------------------------
// Prices: conflict-safe upsert and best-price queries
// ---------------------------------------------------------------------------

/// At most one price row per (product, store) pair.
pub open spec fn price_keys_unique(prices: Seq<StorePriceView>) -> bool {
    forall|i: int, j: int|
        0 <= i < j < prices.len() ==> !((#[trigger] prices[i]).product_id == (
        #[trigger] prices[j]).product_id && prices[i].store_id == prices[j].store_id)
}

pub open spec fn has_price_key(prices: Seq<StorePriceView>, pid: int, sid: int) -> bool {
    exists|i: int|
        0 <= i < prices.len() && (#[trigger] prices[i]).product_id == pid && prices[i].store_id
            == sid
}

/// One observation folded into an existing row: the mutable columns are
/// overwritten in place, identity and key stay.
pub open spec fn overwritten_price(row: StorePriceView, obs: StorePriceView) -> StorePriceView {
    StorePriceView {
        price: obs.price,
        url: obs.url,
        available: obs.available,
        scraped_at: obs.scraped_at,
        ..row
    }
}

/// The effect of one upsert on the price table: overwrite the row with the
/// observation's key if there is one, else append a new row under `new_id`.
pub open spec fn upsert_price_table(
    prices: Seq<StorePriceView>,
    obs: StorePriceView,
    new_id: int,
) -> Seq<StorePriceView> {
    if has_price_key(prices, obs.product_id, obs.store_id) {
        prices.map_values(
            |r: StorePriceView|
                if r.product_id == obs.product_id && r.store_id == obs.store_id {
                    overwritten_price(r, obs)
                } else {
                    r
                },
        )
    } else {
        prices.push(StorePriceView { id: new_id, ..obs })
    }
}

impl Ledger {
    /// Record one price observation: insert a new `StorePrice` row or
    /// atomically overwrite the columns of the row with the same
    /// (product, store) key — last write wins, never a second row — and
    /// append one `PriceHistory` row for the observation. Returns the
    /// price row's durable identity. The `id` field of the argument is
    /// ignored; row identities are generated here.
    pub fn upsert_store_price(&mut self, price: &StorePrice) -> (id: i64)
        requires
            old(self).wf(),
            old(self).next_id + 2 <= i64::MAX,
        ensures
            final(self).wf(),
            prices_model(final(self).store_prices@) =~= upsert_price_table(
                prices_model(old(self).store_prices@),
                price@,
                old(self).next_id as int,
            ),
            has_price_key(
                prices_model(old(self).store_prices@),
                price@.product_id,
                price@.store_id,
            ) ==> {
                &&& forall|i: int|
                    0 <= i < prices_model(old(self).store_prices@).len() && (
                    #[trigger] prices_model(old(self).store_prices@)[i]).product_id
                        == price@.product_id && prices_model(old(self).store_prices@)[i].store_id
                        == price@.store_id ==> id == prices_model(old(self).store_prices@)[i].id
                &&& final(self).next_id == old(self).next_id + 1
                &&& final(self).price_history@ =~= old(self).price_history@.push(
                    PriceHistory {
                        id: old(self).next_id,
                        product_id: price.product_id,
                        store_id: price.store_id,
                        price: price.price,
                        available: price.available,
                        recorded_at: price.scraped_at,
                    },
                )
            },
            !has_price_key(
                prices_model(old(self).store_prices@),
                price@.product_id,
                price@.store_id,
            ) ==> {
                &&& id == old(self).next_id
                &&& final(self).next_id == old(self).next_id + 2
                &&& final(self).price_history@ =~= old(self).price_history@.push(
                    PriceHistory {
                        id: (old(self).next_id + 1) as i64,
                        product_id: price.product_id,
                        store_id: price.store_id,
                        price: price.price,
                        available: price.available,
                        recorded_at: price.scraped_at,
                    },
                )
            },
            final(self).stores == old(self).stores,
            final(self).products == old(self).products,
            final(self).users == old(self).users,
            final(self).trackings == old(self).trackings,
            final(self).jobs == old(self).jobs,
    {
        let ghost prices0 = prices_model(old(self).store_prices@);
        let mut i: usize = 0;
        while i < self.store_prices.len()
            invariant
                *self == *old(self),
                old(self).wf(),
                old(self).next_id + 2 <= i64::MAX,
                prices0 == prices_model(old(self).store_prices@),
                i <= self.store_prices@.len(),
                forall|k: int|
                    0 <= k < i ==> !((#[trigger] prices0[k]).product_id == price@.product_id
                        && prices0[k].store_id == price@.store_id),
            decreases self.store_prices@.len() - i,
        {
            if self.store_prices[i].product_id == price.product_id && self.store_prices[i].store_id
                == price.store_id {
                let row_id = self.store_prices[i].id;
                self.store_prices[i].price = price.price;
                self.store_prices[i].url = crate::models::clone_opt_string(&price.url);
                self.store_prices[i].available = price.available;
                self.store_prices[i].scraped_at = price.scraped_at;
                let hist_id = self.next_id;
                self.price_history.push(
                    PriceHistory {
                        id: hist_id,
                        product_id: price.product_id,
                        store_id: price.store_id,
                        price: price.price,
                        available: price.available,
                        recorded_at: price.scraped_at,
                    },
                );
                self.next_id = hist_id + 1;
                proof {
                    assert(prices0[i as int].product_id == price@.product_id
                        && prices0[i as int].store_id == price@.store_id);
                    assert(has_price_key(prices0, price@.product_id, price@.store_id));
                    assert forall|k: int| 0 <= k < prices0.len() implies prices_model(
                        self.store_prices@,
                    )[k] == upsert_price_table(prices0, price@, old(self).next_id as int)[k] by {
                        if k != i {
                            if k < i {
                                assert(!(prices0[k].product_id == prices0[i as int].product_id
                                    && prices0[k].store_id == prices0[i as int].store_id));
                            } else {
                                assert(!(prices0[i as int].product_id == prices0[k].product_id
                                    && prices0[i as int].store_id == prices0[k].store_id));
                            }
                        }
                    }
                    assert(prices_model(self.store_prices@) =~= upsert_price_table(
                        prices0,
                        price@,
                        old(self).next_id as int,
                    ));
                }
                return row_id;
            }
            i = i + 1;
        }
        let row_id = self.next_id;
        let row = StorePrice {
            id: row_id,
            product_id: price.product_id,
            store_id: price.store_id,
            price: price.price,
            url: crate::models::clone_opt_string(&price.url),
            available: price.available,
            scraped_at: price.scraped_at,
        };
        self.store_prices.push(row);
        self.price_history.push(
            PriceHistory {
                id: row_id + 1,
                product_id: price.product_id,
                store_id: price.store_id,
                price: price.price,
                available: price.available,
                recorded_at: price.scraped_at,
            },
        );
        self.next_id = row_id + 2;
        proof {
            assert(!has_price_key(prices0, price@.product_id, price@.store_id));
            assert(prices_model(self.store_prices@) =~= upsert_price_table(
                prices0,
                price@,
                old(self).next_id as int,
            ));
        }
        row_id
    }
}

/// The "cheapest offer" order: price ascending, ties broken
/// deterministically by store id, then row id.
pub open spec fn price_le(a: StorePriceView, b: StorePriceView) -> bool {
    ||| a.price < b.price
    ||| (a.price == b.price && a.store_id < b.store_id)
    ||| (a.price == b.price && a.store_id == b.store_id && a.id <= b.id)
}

pub open spec fn prices_sorted(s: Seq<StorePriceView>) -> bool {
    forall|i: int, j: int| 0 <= i < j < s.len() ==> price_le(#[trigger] s[i], #[trigger] s[j])
}

/// The executable "cheapest offer" order; see [`price_le`].
pub fn price_le_exec(a: &StorePrice, b: &StorePrice) -> (r: bool)
    ensures
        r == price_le(a@, b@),
{
    if a.price != b.price {
        a.price < b.price
    } else if a.store_id != b.store_id {
        a.store_id < b.store_id
    } else {
        a.id <= b.id
    }
}

/// Insert one price row into a vector kept in cheapest-offer order.
fn insert_price_sorted(acc: &mut Vec<StorePrice>, x: StorePrice)
    requires
        prices_sorted(prices_model(old(acc)@)),
    ensures
        prices_sorted(prices_model(final(acc)@)),
        prices_model(final(acc)@).to_multiset() =~= prices_model(
            old(acc)@,
        ).to_multiset().insert(x@),
{
    let ghost m0 = prices_model(old(acc)@);
    let mut idx: usize = 0;
    while idx < acc.len() && price_le_exec(&acc[idx], &x)
        invariant
            *acc == *old(acc),
            m0 == prices_model(old(acc)@),
            prices_sorted(m0),
            idx <= m0.len(),
            forall|k: int| 0 <= k < idx ==> price_le(#[trigger] m0[k], x@),
        decreases acc@.len() - idx,
    {
        idx = idx + 1;
    }
    let ghost gidx = idx as int;
    acc.insert(idx, x);
    proof {
        let m1 = prices_model(acc@);
        let left = m0.take(gidx);
        let right = m0.skip(gidx);
        assert(m1 =~= left + seq![x@] + right);
        broadcast use vstd::seq_lib::group_to_multiset_ensures;

        vstd::seq_lib::lemma_multiset_commutative(left + seq![x@], right);
        vstd::seq_lib::lemma_multiset_commutative(left, seq![x@]);
        vstd::seq_lib::lemma_multiset_commutative(left, right);
        assert(m0 =~= left + right);
        assert(seq![x@].to_multiset() =~= Multiset::empty().insert(x@));
        assert(m1.to_multiset() =~= m0.to_multiset().insert(x@));
        assert forall|i: int, j: int| 0 <= i < j < m1.len() implies price_le(m1[i], m1[j]) by {
            if i == gidx {
                if j > gidx {
                    assert(m1[j] == m0[j - 1]);
                    if gidx < m0.len() {
                        assert(!price_le(m0[gidx], x@) || gidx == m0.len());
                    }
                }
            }
        }
    }
}

impl Ledger {
    /// Up to `limit` available offers for a product, cheapest first, ties
    /// broken deterministically by store id. Unavailable offers are never
    /// returned; when the table holds more than `limit` available offers,
    /// every omitted one costs at least as much as every returned one.
    pub fn get_best_prices(&self, product_id: i64, limit: i32) -> (r: Vec<StorePrice>)
        requires
            self.wf(),
            limit >= 0,
        ensures
            ({
                let offers = prices_model(self.store_prices@).filter(
                    |p: StorePriceView| p.product_id == product_id as int && p.available,
                );
                let rm = prices_model(r@);
                &&& prices_sorted(rm)
                &&& rm.len() == if limit as int <= offers.len() {
                    limit as int
                } else {
                    offers.len() as int
                }
                &&& forall|b: StorePriceView| #[trigger]
                    rm.to_multiset().count(b) <= offers.to_multiset().count(b)
                &&& forall|a: StorePriceView, b: StorePriceView|
                    #[trigger] rm.to_multiset().count(a) > 0 && #[trigger] rm.to_multiset().count(
                        b,
                    ) < offers.to_multiset().count(b) ==> price_le(a, b)
                &&& limit as int >= offers.len() ==> rm.to_multiset() =~= offers.to_multiset()
            }),
    {
        let ghost offer_pred = |p: StorePriceView| p.product_id == product_id as int && p.available;
        let mut sorted: Vec<StorePrice> = Vec::new();
        proof {
            assert(prices_model(sorted@) =~= Seq::<StorePriceView>::empty());
            assert(prices_model(self.store_prices@).take(0) =~= Seq::<StorePriceView>::empty());
            assert(Seq::<StorePriceView>::empty().filter(offer_pred)
                =~= Seq::<StorePriceView>::empty());
        }
        let mut i: usize = 0;
        while i < self.store_prices.len()
            invariant
                self.wf(),
                offer_pred == (
                |p: StorePriceView| p.product_id == product_id as int && p.available
                ),
                i <= self.store_prices@.len(),
                prices_sorted(prices_model(sorted@)),
                prices_model(sorted@).to_multiset() =~= prices_model(self.store_prices@).take(
                    i as int,
                ).filter(offer_pred).to_multiset(),
            decreases self.store_prices@.len() - i,
        {
            let ghost prefix = prices_model(self.store_prices@).take(i as int);
            let ghost prefix1 = prices_model(self.store_prices@).take(i as int + 1);
            proof {
                broadcast use vstd::seq_lib::group_to_multiset_ensures;
                broadcast use Seq::lemma_filter_push;

                assert(prefix1 =~= prefix.push(prices_model(self.store_prices@)[i as int]));
            }
            if self.store_prices[i].product_id == product_id && self.store_prices[i].available {
                let p = self.store_prices[i].duplicate();
                insert_price_sorted(&mut sorted, p);
            }
            i = i + 1;
        }
        proof {
            assert(prices_model(self.store_prices@).take(self.store_prices@.len() as int)
                =~= prices_model(self.store_prices@));
        }
        let ghost full = prices_model(sorted@);
        let limit_n: usize = limit as usize;
        if sorted.len() > limit_n {
            sorted.truncate(limit_n);
        }
        proof {
            let offers = prices_model(self.store_prices@).filter(offer_pred);
            let rm = prices_model(sorted@);
            broadcast use vstd::seq_lib::group_to_multiset_ensures;

            assert(full.to_multiset() =~= offers.to_multiset());
            assert(full.to_multiset().len() == offers.to_multiset().len());
            assert(full.len() == offers.len());
            if full.len() > limit_n {
                let taken = full.take(limit_n as int);
                let rest = full.skip(limit_n as int);
                assert(rm =~= taken);
                assert(full =~= taken + rest);
                vstd::seq_lib::lemma_multiset_commutative(taken, rest);
                assert forall|a: StorePriceView, b: StorePriceView|
                    #[trigger] rm.to_multiset().count(a) > 0 && #[trigger] rm.to_multiset().count(
                        b,
                    ) < offers.to_multiset().count(b) implies price_le(a, b) by {
                    assert(rest.to_multiset().count(b) > 0);
                    assert(rest.contains(b));
                    assert(rm.contains(a));
                    let kb = choose|kb: int| 0 <= kb < rest.len() && rest[kb] == b;
                    let ka = choose|ka: int| 0 <= ka < rm.len() && rm[ka] == a;
                    assert(full[limit_n + kb] == b);
                    assert(full[ka] == a);
                }
            } else {
                assert(rm =~= full);
            }
        }
        sorted
    }

    /// The price row of one (product, store) pair, if the pair has one.
    pub fn get_product_price_by_store(&self, product_id: i64, store_id: i32) -> (r: Option<
        StorePrice,
    >)
        requires
            self.wf(),
        ensures
            r is Some == has_price_key(
                prices_model(self.store_prices@),
                product_id as int,
                store_id as int,
            ),
            r is Some ==> forall|i: int|
                0 <= i < prices_model(self.store_prices@).len() && (#[trigger] prices_model(
                    self.store_prices@,
                )[i]).product_id == product_id as int && prices_model(self.store_prices@)[i].store_id
                    == store_id as int ==> r->0@ == prices_model(self.store_prices@)[i],
    {
        let ghost prices0 = prices_model(self.store_prices@);
        let mut i: usize = 0;
        while i < self.store_prices.len()
            invariant
                self.wf(),
                prices0 == prices_model(self.store_prices@),
                i <= self.store_prices@.len(),
                forall|k: int|
                    0 <= k < i ==> !((#[trigger] prices0[k]).product_id == product_id as int
                        && prices0[k].store_id == store_id as int),
            decreases self.store_prices@.len() - i,
        {
            if self.store_prices[i].product_id == product_id && self.store_prices[i].store_id
                == store_id {
                let row = self.store_prices[i].duplicate();
                proof {
                    assert forall|k: int|
                        0 <= k < prices0.len() && (#[trigger] prices0[k]).product_id
                            == product_id as int && prices0[k].store_id
                            == store_id as int implies row@ == prices0[k] by {
                        if k != i {
                            if k < i {
                                assert(!(prices0[k].product_id == prices0[i as int].product_id
                                    && prices0[k].store_id == prices0[i as int].store_id));
                            } else {
                                assert(!(prices0[i as int].product_id == prices0[k].product_id
                                    && prices0[i as int].store_id == prices0[k].store_id));
                            }
                        }
                    }
                }
                return Some(row);
            }
            i = i + 1;
        }
        None
    }
}

// ---------------------------------------------------------------------------
// Stores
// ---------------------------------------------------------------------------

pub open spec fn has_store_id(stores: Seq<StoreView>, id: int) -> bool {
    exists|i: int| 0 <= i < stores.len() && (#[trigger] stores[i]).id == id
}

impl Ledger {
    /// Seed one store row. The table is kept ordered by id; a second store
    /// under an existing id is refused.
    pub fn add_store(&mut self, store: Store) -> (r: Result<(), StorageError>)
        requires
            old(self).wf(),
        ensures
            final(self).wf(),
            r is Err <==> has_store_id(stores_model(old(self).stores@), store@.id),
            r is Err ==> *final(self) == *old(self) && r->Err_0 == StorageError::Conflict,
            r is Ok ==> stores_model(final(self).stores@).to_multiset() =~= stores_model(
                old(self).stores@,
            ).to_multiset().insert(store@),
            final(self).next_id == old(self).next_id,
            final(self).products == old(self).products,
            final(self).users == old(self).users,
            final(self).trackings == old(self).trackings,
            final(self).store_prices == old(self).store_prices,
            final(self).price_history == old(self).price_history,
            final(self).jobs == old(self).jobs,
    {
        let ghost m0 = stores_model(old(self).stores@);
        let mut idx: usize = 0;
        while idx < self.stores.len() && self.stores[idx].id < store.id
            invariant
                *self == *old(self),
                old(self).wf(),
                m0 == stores_model(old(self).stores@),
                idx <= m0.len(),
                forall|k: int| 0 <= k < idx ==> (#[trigger] m0[k]).id < store@.id,
            decreases self.stores@.len() - idx,
        {
            idx = idx + 1;
        }
        if idx < self.stores.len() && self.stores[idx].id == store.id {
            return Err(StorageError::Conflict);
        }
        proof {
            assert forall|i: int| 0 <= i < m0.len() implies (#[trigger] m0[i]).id != store@.id by {
                if i >= idx && idx < m0.len() {
                    if i > idx {
                        assert(m0[idx as int].id < m0[i].id);
                    }
                }
            }
        }
        let ghost gidx = idx as int;
        self.stores.insert(idx, store);
        proof {
            let m1 = stores_model(self.stores@);
            let left = m0.take(gidx);
            let right = m0.skip(gidx);
            assert(m1 =~= left + seq![store@] + right);
            broadcast use vstd::seq_lib::group_to_multiset_ensures;

            vstd::seq_lib::lemma_multiset_commutative(left + seq![store@], right);
            vstd::seq_lib::lemma_multiset_commutative(left, seq![store@]);
            vstd::seq_lib::lemma_multiset_commutative(left, right);
            assert(m0 =~= left + right);
            assert(seq![store@].to_multiset() =~= Multiset::empty().insert(store@));
            assert(m1.to_multiset() =~= m0.to_multiset().insert(store@));
            assert forall|i: int, j: int| 0 <= i < j < m1.len() implies (#[trigger] m1[i]).id < (
            #[trigger] m1[j]).id by {
                if i == gidx && j > gidx {
                    assert(m1[j] == m0[j - 1]);
                    if gidx < m0.len() {
                        assert(!(m0[gidx].id < store@.id));
                    }
                }
            }
        }
        Ok(())
    }

    /// All stores, ordered by id.
    pub fn get_stores(&self) -> (r: Vec<Store>)
        requires
            self.wf(),
        ensures
            stores_model(r@) =~= stores_model(self.stores@),
    {
        let mut out: Vec<Store> = Vec::new();
        let mut i: usize = 0;
        while i < self.stores.len()
            invariant
                self.wf(),
                i <= self.stores@.len(),
                stores_model(out@) =~= stores_model(self.stores@).take(i as int),
            decreases self.stores@.len() - i,
        {
            let ghost m_prev = stores_model(out@);
            let row = self.stores[i].duplicate();
            proof {
                assert(row@ == stores_model(self.stores@)[i as int]);
                assert(m_prev == stores_model(self.stores@).take(i as int));
                assert(m_prev.len() == i as int);
            }
            out.push(row);
            proof {
                assert forall|k: int| 0 <= k < out@.len() implies stores_model(out@)[k]
                    == stores_model(self.stores@).take(i as int + 1)[k] by {
                    if k < i as int {
                        assert(stores_model(out@)[k] == m_prev[k]);
                    } else {
                        assert(stores_model(out@)[k] == row@);
                    }
                }
                assert(stores_model(out@) =~= stores_model(self.stores@).take(i as int + 1));
            }
            i = i + 1;
        }
        proof {
            assert(stores_model(self.stores@).take(self.stores@.len() as int) =~= stores_model(
                self.stores@,
            ));
        }
        out
    }

    /// The stores whose scraping method is not flagged flaky, ordered by
    /// id — the pool a default bulk run draws from.
    pub fn get_stable_stores(&self) -> (r: Vec<Store>)
        requires
            self.wf(),
        ensures
            stores_model(r@) =~= stores_model(self.stores@).filter(|s: StoreView| !s.unstable),
    {
        let ghost stable_pred = |s: StoreView| !s.unstable;
        let mut out: Vec<Store> = Vec::new();
        proof {
            assert(stores_model(out@) =~= Seq::<StoreView>::empty());
            assert(stores_model(self.stores@).take(0) =~= Seq::<StoreView>::empty());
            assert(Seq::<StoreView>::empty().filter(stable_pred) =~= Seq::<StoreView>::empty());
        }
        let mut i: usize = 0;
        while i < self.stores.len()
            invariant
                self.wf(),
                stable_pred == (|s: StoreView| !s.unstable),
                i <= self.stores@.len(),
                stores_model(out@) =~= stores_model(self.stores@).take(i as int).filter(
                    stable_pred,
                ),
            decreases self.stores@.len() - i,
        {
            let ghost prefix = stores_model(self.stores@).take(i as int);
            let ghost prefix1 = stores_model(self.stores@).take(i as int + 1);
            proof {
                broadcast use Seq::lemma_filter_push;

                assert(prefix1 =~= prefix.push(stores_model(self.stores@)[i as int]));
            }
            if !self.stores[i].unstable {
                out.push(self.stores[i].duplicate());
            }
            i = i + 1;
        }
        proof {
            assert(stores_model(self.stores@).take(self.stores@.len() as int) =~= stores_model(
                self.stores@,
            ));
        }
        out
    }

    /// The first store carrying this name, if any.
    pub fn get_store_by_name(&self, name: &str) -> (r: Option<Store>)
        requires
            self.wf(),
        ensures
            r is Some == (exists|i: int|
                0 <= i < stores_model(self.stores@).len() && (#[trigger] stores_model(
                    self.stores@,
                )[i]).name == name@),
            r is Some ==> exists|i: int|
                {
                    &&& 0 <= i < stores_model(self.stores@).len()
                    &&& (#[trigger] stores_model(self.stores@)[i]).name == name@
                    &&& r->0@ == stores_model(self.stores@)[i]
                    &&& forall|k: int|
                        0 <= k < i ==> (#[trigger] stores_model(self.stores@)[k]).name != name@
                },
    {
        let ghost m0 = stores_model(self.stores@);
        let mut i: usize = 0;
        while i < self.stores.len()
            invariant
                self.wf(),
                m0 == stores_model(self.stores@),
                i <= m0.len(),
                forall|k: int| 0 <= k < i ==> (#[trigger] m0[k]).name != name@,
            decreases self.stores@.len() - i,
        {
            if string_eq_str(&self.stores[i].name, name) {
                let row = self.stores[i].duplicate();
                proof {
                    assert((#[trigger] stores_model(self.stores@)[i as int]).name == name@);
                    assert(row@ == stores_model(self.stores@)[i as int]);
                    assert forall|k: int| 0 <= k < i implies (#[trigger] stores_model(
                        self.stores@,
                    )[k]).name != name@ by {
                        assert(m0[k] == stores_model(self.stores@)[k]);
                    }
                }
                return Some(row);
            }
            i = i + 1;
        }
        proof {
            assert forall|k: int| 0 <= k < stores_model(self.stores@).len() implies (
            #[trigger] stores_model(self.stores@)[k]).name != name@ by {
                assert(m0[k] == stores_model(self.stores@)[k]);
            }
        }
        None
    }

    /// The store with this id; storage reports the missing row as an
    /// error.
    pub fn get_store(&self, id: i32) -> (r: Result<Store, StorageError>)
        requires
            self.wf(),
        ensures
            r is Ok == has_store_id(stores_model(self.stores@), id as int),
            r is Err ==> r->Err_0 == StorageError::NotFound,
            r is Ok ==> forall|i: int|
                0 <= i < stores_model(self.stores@).len() && (#[trigger] stores_model(
                    self.stores@,
                )[i]).id == id as int ==> r->Ok_0@ == stores_model(self.stores@)[i],
    {
        let ghost m0 = stores_model(self.stores@);
        let mut i: usize = 0;
        while i < self.stores.len()
            invariant
                self.wf(),
                m0 == stores_model(self.stores@),
                i <= m0.len(),
                forall|k: int| 0 <= k < i ==> (#[trigger] m0[k]).id != id as int,
            decreases self.stores@.len() - i,
        {
            if self.stores[i].id == id {
                let row = self.stores[i].duplicate();
                proof {
                    assert forall|k: int|
                        0 <= k < m0.len() && (#[trigger] m0[k]).id == id as int implies row@
                        == m0[k] by {
                        if k != i {
                            if k < i {
                                assert(m0[k].id < m0[i as int].id);
                            } else {
                                assert(m0[i as int].id < m0[k].id);
                            }
                        }
                    }
                }
                return Ok(row);
            }
            i = i + 1;
        }
        Err(StorageError::NotFound)
    }
}

/// Whether a string holds the same characters as a borrowed one.
pub fn string_eq_str(a: &String, b: &str) -> (r: bool)
    ensures
        r == (a@ == b@),
{
    let r = crate::protocol::bytes_eq(a.as_str().as_bytes(), b.as_bytes());
    proof {
        if r {
            vstd::utf8::encode_utf8_decode_utf8(a@);
            vstd::utf8::encode_utf8_decode_utf8(b@);
        }
    }
    r
}

// ---------------------------------------------------------------------------
// Products
// ---------------------------------------------------------------------------

/// The view of an optional borrowed string.
pub open spec fn opt_ref_str_view(o: Option<&str>) -> Option<Seq<char>> {
    match o {
        Option::Some(s) => Option::Some(s@),
        Option::None => Option::None,
    }
}

/// An owned copy of an optional borrowed string.
pub fn opt_str_to_owned(o: Option<&str>) -> (r: Option<String>)
    ensures
        opt_str_view(r) == opt_ref_str_view(o),
{
    match o {
        Some(s) => Some(s.to_owned()),
        None => None,
    }
}

pub open spec fn has_product_id(products: Seq<ProductView>, id: int) -> bool {
    exists|i: int| 0 <= i < products.len() && (#[trigger] products[i]).id == id
}

impl Ledger {
    /// Insert a new catalog product and return its generated identity.
    pub fn create_product(
        &mut self,
        name: &str,
        category: Option<&str>,
        specs: &ProductSpecs,
        search_query: Option<&str>,
        now: i64,
    ) -> (id: i64)
        requires
            old(self).wf(),
            old(self).next_id < i64::MAX,
        ensures
            final(self).wf(),
            id == old(self).next_id,
            final(self).next_id == old(self).next_id + 1,
            products_model(final(self).products@) =~= products_model(old(self).products@).push(
                ProductView {
                    id: id as int,
                    name: name@,
                    category: opt_ref_str_view(category),
                    specs: specs@,
                    search_query: opt_ref_str_view(search_query),
                    created_at: now as int,
                    updated_at: now as int,
                },
            ),
            final(self).stores == old(self).stores,
            final(self).users == old(self).users,
            final(self).trackings == old(self).trackings,
            final(self).store_prices == old(self).store_prices,
            final(self).price_history == old(self).price_history,
            final(self).jobs == old(self).jobs,
    {
        let id = self.next_id;
        let row = Product {
            id: id,
            name: name.to_owned(),
            category: opt_str_to_owned(category),
            specs: specs.duplicate(),
            search_query: opt_str_to_owned(search_query),
            created_at: now,
            updated_at: now,
        };
        self.products.push(row);
        self.next_id = id + 1;
        proof {
            assert(products_model(self.products@) =~= products_model(old(self).products@).push(
                ProductView {
                    id: id as int,
                    name: name@,
                    category: opt_ref_str_view(category),
                    specs: specs@,
                    search_query: opt_ref_str_view(search_query),
                    created_at: now as int,
                    updated_at: now as int,
                },
            ));
        }
        id
    }

    /// The product with this id; storage reports the missing row as an
    /// error.
    pub fn get_product(&self, id: i64) -> (r: Result<Product, StorageError>)
        requires
            self.wf(),
        ensures
            r is Ok == has_product_id(products_model(self.products@), id as int),
            r is Err ==> r->Err_0 == StorageError::NotFound,
            r is Ok ==> forall|i: int|
                0 <= i < products_model(self.products@).len() && (#[trigger] products_model(
                    self.products@,
                )[i]).id == id as int ==> r->Ok_0@ == products_model(self.products@)[i],
    {
        let ghost m0 = products_model(self.products@);
        let mut i: usize = 0;
        while i < self.products.len()
            invariant
                self.wf(),
                m0 == products_model(self.products@),
                i <= m0.len(),
                forall|k: int| 0 <= k < i ==> (#[trigger] m0[k]).id != id as int,
            decreases self.products@.len() - i,
        {
            if self.products[i].id == id {
                let row = self.products[i].duplicate();
                proof {
                    assert forall|k: int|
                        0 <= k < m0.len() && (#[trigger] products_model(self.products@)[k]).id
                            == id as int implies row@ == products_model(self.products@)[k] by {
                        if k != i {
                            if k < i {
                                assert(m0[k].id != m0[i as int].id);
                            } else {
                                assert(m0[i as int].id != m0[k].id);
                            }
                        }
                    }
                    assert((#[trigger] products_model(self.products@)[i as int]).id == id as int);
                }
                return Ok(row);
            }
            i = i + 1;
        }
        proof {
            assert forall|k: int| 0 <= k < m0.len() implies (#[trigger] products_model(
                self.products@,
            )[k]).id != id as int by {
                assert(m0[k] == products_model(self.products@)[k]);
            }
        }
        Err(StorageError::NotFound)
    }
}

// ---------------------------------------------------------------------------
// Product search
// ---------------------------------------------------------------------------

/// ASCII letter folding; bytes outside the ASCII letters pass unchanged,
/// so multi-byte characters compare exactly.
pub open spec fn lower_byte(b: u8) -> u8 {
    if 0x41 <= b <= 0x5a {
        (b + 0x20) as u8
    } else {
        b
    }
}

pub open spec fn match_at(hay: Seq<u8>, needle: Seq<u8>, k: int) -> bool {
    forall|m: int|
        0 <= m < needle.len() ==> lower_byte(hay[k + m]) == lower_byte(#[trigger] needle[m])
}

/// Whether the needle occurs in the hay, letters compared without regard
/// to ASCII case.
pub open spec fn contains_ci(hay: Seq<u8>, needle: Seq<u8>) -> bool {
    exists|k: int| 0 <= k && k + needle.len() <= hay.len() && match_at(hay, needle, k)
}

/// Whether a product name matches a search query, on the names' encoded
/// bytes.
pub open spec fn name_matches(name: Seq<char>, query: Seq<char>) -> bool {
    contains_ci(vstd::utf8::encode_utf8(name), vstd::utf8::encode_utf8(query))
}

fn lower_exec(b: u8) -> (r: u8)
    ensures
        r == lower_byte(b),
{
    if 0x41 <= b && b <= 0x5a {
        b + 0x20
    } else {
        b
    }
}

fn match_at_exec(hay: &[u8], needle: &[u8], k: usize) -> (r: bool)
    requires
        k + needle@.len() <= hay@.len(),
        hay@.len() <= usize::MAX,
    ensures
        r == match_at(hay@, needle@, k as int),
{
    let mut m: usize = 0;
    while m < needle.len()
        invariant
            k + needle@.len() <= hay@.len(),
            hay@.len() <= usize::MAX,
            m <= needle@.len(),
            forall|q: int| 0 <= q < m ==> lower_byte(hay@[k + q]) == lower_byte(#[trigger] needle@[q]),
        decreases needle@.len() - m,
    {
        if lower_exec(hay[k + m]) != lower_exec(needle[m]) {
            proof {
                assert(lower_byte(hay@[k + m as int]) != lower_byte(needle@[m as int]));
            }
            return false;
        }
        m = m + 1;
    }
    true
}

/// Whether the needle occurs in the hay, without regard to ASCII case.
pub fn contains_ci_exec(hay: &[u8], needle: &[u8]) -> (r: bool)
    ensures
        r == contains_ci(hay@, needle@),
{
    if needle.len() > hay.len() {
        return false;
    }
    if needle.len() == 0 {
        proof {
            assert(match_at(hay@, needle@, 0));
        }
        return true;
    }
    let bound = hay.len() - needle.len();
    let mut k: usize = 0;
    while k <= bound
        invariant
            1 <= needle@.len() <= hay@.len(),
            hay@.len() <= usize::MAX,
            bound == hay@.len() - needle@.len(),
            k <= bound + 1,
            forall|q: int| 0 <= q < k ==> !match_at(hay@, needle@, q),
        decreases bound + 1 - k,
    {
        if match_at_exec(hay, needle, k) {
            return true;
        }
        k = k + 1;
    }
    false
}

/// The listing order of search results: most recently updated first, ties
/// broken by id.
pub open spec fn product_le(a: ProductView, b: ProductView) -> bool {
    ||| a.updated_at > b.updated_at
    ||| (a.updated_at == b.updated_at && a.id <= b.id)
}

pub open spec fn products_sorted(s: Seq<ProductView>) -> bool {
    forall|i: int, j: int| 0 <= i < j < s.len() ==> product_le(#[trigger] s[i], #[trigger] s[j])
}

fn product_le_exec(a: &Product, b: &Product) -> (r: bool)
    ensures
        r == product_le(a@, b@),
{
    if a.updated_at != b.updated_at {
        a.updated_at > b.updated_at
    } else {
        a.id <= b.id
    }
}

/// Insert one product into a vector kept in listing order.
fn insert_product_sorted(acc: &mut Vec<Product>, x: Product)
    requires
        products_sorted(products_model(old(acc)@)),
    ensures
        products_sorted(products_model(final(acc)@)),
        products_model(final(acc)@).to_multiset() =~= products_model(
            old(acc)@,
        ).to_multiset().insert(x@),
{
    let ghost m0 = products_model(old(acc)@);
    let mut idx: usize = 0;
    while idx < acc.len() && product_le_exec(&acc[idx], &x)
        invariant
            *acc == *old(acc),
            m0 == products_model(old(acc)@),
            products_sorted(m0),
            idx <= m0.len(),
            forall|k: int| 0 <= k < idx ==> product_le(#[trigger] m0[k], x@),
        decreases acc@.len() - idx,
    {
        idx = idx + 1;
    }
    let ghost gidx = idx as int;
    acc.insert(idx, x);
    proof {
        let m1 = products_model(acc@);
        let left = m0.take(gidx);
        let right = m0.skip(gidx);
        assert(m1 =~= left + seq![x@] + right);
        broadcast use vstd::seq_lib::group_to_multiset_ensures;

        vstd::seq_lib::lemma_multiset_commutative(left + seq![x@], right);
        vstd::seq_lib::lemma_multiset_commutative(left, seq![x@]);
        vstd::seq_lib::lemma_multiset_commutative(left, right);
        assert(m0 =~= left + right);
        assert(seq![x@].to_multiset() =~= Multiset::empty().insert(x@));
        assert(m1.to_multiset() =~= m0.to_multiset().insert(x@));
        assert forall|i: int, j: int| 0 <= i < j < m1.len() implies product_le(m1[i], m1[j]) by {
            if i == gidx {
                if j > gidx {
                    assert(m1[j] == m0[j - 1]);
                    if gidx < m0.len() {
                        assert(!product_le(m0[gidx], x@) || gidx == m0.len());
                    }
                }
            }
        }
    }
}

impl Ledger {
    /// The products whose name contains the query, letters compared
    /// without regard to ASCII case, most recently updated first, at most
    /// fifty rows; beyond fifty matches, every omitted match was updated
    /// no later than every returned one.
    pub fn search_products(&self, query: &str) -> (r: Vec<Product>)
        requires
            self.wf(),
        ensures
            ({
                let hits = products_model(self.products@).filter(
                    |p: ProductView| name_matches(p.name, query@),
                );
                let rm = products_model(r@);
                &&& products_sorted(rm)
                &&& rm.len() == if 50 <= hits.len() {
                    50int
                } else {
                    hits.len() as int
                }
                &&& forall|b: ProductView| #[trigger]
                    rm.to_multiset().count(b) <= hits.to_multiset().count(b)
                &&& forall|a: ProductView, b: ProductView|
                    #[trigger] rm.to_multiset().count(a) > 0 && #[trigger] rm.to_multiset().count(
                        b,
                    ) < hits.to_multiset().count(b) ==> product_le(a, b)
                &&& 50 >= hits.len() ==> rm.to_multiset() =~= hits.to_multiset()
            }),
    {
        let ghost hit_pred = |p: ProductView| name_matches(p.name, query@);
        let mut sorted: Vec<Product> = Vec::new();
        proof {
            assert(products_model(sorted@) =~= Seq::<ProductView>::empty());
            assert(products_model(self.products@).take(0) =~= Seq::<ProductView>::empty());
            assert(Seq::<ProductView>::empty().filter(hit_pred) =~= Seq::<ProductView>::empty());
        }
        let mut i: usize = 0;
        while i < self.products.len()
            invariant
                self.wf(),
                hit_pred == (|p: ProductView| name_matches(p.name, query@)),
                i <= self.products@.len(),
                products_sorted(products_model(sorted@)),
                products_model(sorted@).to_multiset() =~= products_model(self.products@).take(
                    i as int,
                ).filter(hit_pred).to_multiset(),
            decreases self.products@.len() - i,
        {
            let ghost prefix = products_model(self.products@).take(i as int);
            let ghost prefix1 = products_model(self.products@).take(i as int + 1);
            proof {
                broadcast use vstd::seq_lib::group_to_multiset_ensures;
                broadcast use Seq::lemma_filter_push;

                assert(prefix1 =~= prefix.push(products_model(self.products@)[i as int]));
            }
            let hit = contains_ci_exec(
                self.products[i].name.as_str().as_bytes(),
                query.as_bytes(),
            );
            proof {
                assert(hit == name_matches(products_model(self.products@)[i as int].name, query@));
            }
            if hit {
                let p = self.products[i].duplicate();
                insert_product_sorted(&mut sorted, p);
            }
            i = i + 1;
        }
        proof {
            assert(products_model(self.products@).take(self.products@.len() as int)
                =~= products_model(self.products@));
        }
        let ghost full = products_model(sorted@);
        let limit_n: usize = 50;
        if sorted.len() > limit_n {
            sorted.truncate(limit_n);
        }
        proof {
            let hits = products_model(self.products@).filter(hit_pred);
            let rm = products_model(sorted@);
            broadcast use vstd::seq_lib::group_to_multiset_ensures;

            assert(full.to_multiset() =~= hits.to_multiset());
            assert(full.to_multiset().len() == hits.to_multiset().len());
            assert(full.len() == hits.len());
            if full.len() > limit_n {
                let taken = full.take(limit_n as int);
                let rest = full.skip(limit_n as int);
                assert(rm =~= taken);
                assert(full =~= taken + rest);
                vstd::seq_lib::lemma_multiset_commutative(taken, rest);
                assert forall|a: ProductView, b: ProductView|
                    #[trigger] rm.to_multiset().count(a) > 0 && #[trigger] rm.to_multiset().count(
                        b,
                    ) < hits.to_multiset().count(b) implies product_le(a, b) by {
                    assert(rest.to_multiset().count(b) > 0);
                    assert(rest.contains(b));
                    assert(rm.contains(a));
                    let kb = choose|kb: int| 0 <= kb < rest.len() && rest[kb] == b;
                    let ka = choose|ka: int| 0 <= ka < rm.len() && rm[ka] == a;
                    assert(full[limit_n + kb] == b);
                    assert(full[ka] == a);
                }
            } else {
                assert(rm =~= full);
            }
        }
        sorted
    }
}

// ---------------------------------------------------------------------------
// Users
// ---------------------------------------------------------------------------

pub open spec fn has_telegram_id(users: Seq<UserView>, tid: int) -> bool {
    exists|i: int| 0 <= i < users.len() && (#[trigger] users[i]).telegram_id == tid
}

/// The effect of one user upsert, keyed on the unique messenger id: the
/// existing row keeps its identity and creation time and takes the new
/// name and activity time, or a new row is appended under `new_id`.
pub open spec fn upsert_user_table(
    users: Seq<UserView>,
    tid: int,
    username: Option<Seq<char>>,
    now: int,
    new_id: int,
) -> Seq<UserView> {
    if has_telegram_id(users, tid) {
        users.map_values(
            |u: UserView|
                if u.telegram_id == tid {
                    UserView { username: username, last_active_at: Option::Some(now), ..u }
                } else {
                    u
                },
        )
    } else {
        users.push(
            UserView {
                id: new_id,
                telegram_id: tid,
                username: username,
                created_at: now,
                last_active_at: Option::Some(now),
            },
        )
    }
}

impl Ledger {
    /// Create the user with this messenger id, or refresh the existing
    /// row's name and activity time; returns the row's identity.
    pub fn upsert_user(&mut self, telegram_id: i64, username: Option<&str>, now: i64) -> (id: i64)
        requires
            old(self).wf(),
            old(self).next_id < i64::MAX,
        ensures
            final(self).wf(),
            users_model(final(self).users@) =~= upsert_user_table(
                users_model(old(self).users@),
                telegram_id as int,
                opt_ref_str_view(username),
                now as int,
                old(self).next_id as int,
            ),
            has_telegram_id(users_model(old(self).users@), telegram_id as int) ==> {
                &&& final(self).next_id == old(self).next_id
                &&& forall|i: int|
                    0 <= i < users_model(old(self).users@).len() && (#[trigger] users_model(
                        old(self).users@,
                    )[i]).telegram_id == telegram_id as int ==> id == users_model(
                        old(self).users@,
                    )[i].id
            },
            !has_telegram_id(users_model(old(self).users@), telegram_id as int) ==> {
                &&& id == old(self).next_id
                &&& final(self).next_id == old(self).next_id + 1
            },
            final(self).stores == old(self).stores,
            final(self).products == old(self).products,
            final(self).trackings == old(self).trackings,
            final(self).store_prices == old(self).store_prices,
            final(self).price_history == old(self).price_history,
            final(self).jobs == old(self).jobs,
    {
        let ghost m0 = users_model(old(self).users@);
        let mut i: usize = 0;
        while i < self.users.len()
            invariant
                *self == *old(self),
                old(self).wf(),
                m0 == users_model(old(self).users@),
                i <= m0.len(),
                forall|k: int| 0 <= k < i ==> (#[trigger] m0[k]).telegram_id != telegram_id as int,
            decreases self.users@.len() - i,
        {
            if self.users[i].telegram_id == telegram_id {
                let row_id = self.users[i].id;
                self.users[i].username = opt_str_to_owned(username);
                self.users[i].last_active_at = Some(now);
                proof {
                    assert(m0[i as int].telegram_id == telegram_id as int);
                    assert(has_telegram_id(m0, telegram_id as int));
                    assert forall|k: int| 0 <= k < m0.len() implies users_model(self.users@)[k]
                        == upsert_user_table(
                        m0,
                        telegram_id as int,
                        opt_ref_str_view(username),
                        now as int,
                        old(self).next_id as int,
                    )[k] by {
                        if k != i {
                            if k < i {
                                assert(m0[k].telegram_id != m0[i as int].telegram_id);
                            } else {
                                assert(m0[i as int].telegram_id != m0[k].telegram_id);
                            }
                        }
                    }
                    assert(users_model(self.users@) =~= upsert_user_table(
                        m0,
                        telegram_id as int,
                        opt_ref_str_view(username),
                        now as int,
                        old(self).next_id as int,
                    ));
                }
                return row_id;
            }
            i = i + 1;
        }
        let row_id = self.next_id;
        let row = User {
            id: row_id,
            telegram_id: telegram_id,
            username: opt_str_to_owned(username),
            created_at: now,
            last_active_at: Some(now),
        };
        self.users.push(row);
        self.next_id = row_id + 1;
        proof {
            assert(!has_telegram_id(m0, telegram_id as int));
            assert(users_model(self.users@) =~= upsert_user_table(
                m0,
                telegram_id as int,
                opt_ref_str_view(username),
                now as int,
                old(self).next_id as int,
            ));
        }
        row_id
    }

    /// The user with this messenger id, if any.
    pub fn get_user_by_telegram_id(&self, telegram_id: i64) -> (r: Option<User>)
        requires
            self.wf(),
        ensures
            r is Some == has_telegram_id(users_model(self.users@), telegram_id as int),
            r is Some ==> forall|i: int|
                0 <= i < users_model(self.users@).len() && (#[trigger] users_model(
                    self.users@,
                )[i]).telegram_id == telegram_id as int ==> r->0@ == users_model(self.users@)[i],
    {
        let ghost m0 = users_model(self.users@);
        let mut i: usize = 0;
        while i < self.users.len()
            invariant
                self.wf(),
                m0 == users_model(self.users@),
                i <= m0.len(),
                forall|k: int| 0 <= k < i ==> (#[trigger] m0[k]).telegram_id != telegram_id as int,
            decreases self.users@.len() - i,
        {
            if self.users[i].telegram_id == telegram_id {
                let row = self.users[i].duplicate();
                proof {
                    assert((#[trigger] users_model(self.users@)[i as int]).telegram_id
                        == telegram_id as int);
                    assert forall|k: int|
                        0 <= k < m0.len() && (#[trigger] users_model(self.users@)[k]).telegram_id
                            == telegram_id as int implies row@ == users_model(self.users@)[k] by {
                        if k != i {
                            if k < i {
                                assert(m0[k].telegram_id != m0[i as int].telegram_id);
                            } else {
                                assert(m0[i as int].telegram_id != m0[k].telegram_id);
                            }
                        }
                    }
                }
                return Some(row);
            }
            i = i + 1;
        }
        proof {
            assert forall|k: int| 0 <= k < m0.len() implies (#[trigger] users_model(
                self.users@,
            )[k]).telegram_id != telegram_id as int by {
                assert(m0[k] == users_model(self.users@)[k]);
            }
        }
        None
    }
}

// ---------------------------------------------------------------------------
// Trackings
// ---------------------------------------------------------------------------

pub open spec fn has_tracking_key(trackings: Seq<Tracking>, user_id: int, product_id: int) -> bool {
    exists|i: int|
        0 <= i < trackings.len() && (#[trigger] trackings[i]).user_id == user_id
            && trackings[i].product_id == product_id
}

pub open spec fn has_tracking_id(trackings: Seq<Tracking>, id: int) -> bool {
    exists|i: int| 0 <= i < trackings.len() && (#[trigger] trackings[i]).id == id
}

/// The effect of one tracking upsert, keyed on the unique (user, product)
/// pair: the existing subscription takes the new target price, or a new
/// row is appended under `new_id`.
pub open spec fn upsert_tracking_table(
    trackings: Seq<Tracking>,
    user_id: i64,
    product_id: i64,
    target_price: Option<i32>,
    now: i64,
    new_id: i64,
) -> Seq<Tracking> {
    if has_tracking_key(trackings, user_id as int, product_id as int) {
        trackings.map_values(
            |t: Tracking|
                if t.user_id == user_id && t.product_id == product_id {
                    Tracking { target_price: target_price, ..t }
                } else {
                    t
                },
        )
    } else {
        trackings.push(
            Tracking {
                id: new_id,
                user_id: user_id,
                product_id: product_id,
                target_price: target_price,
                created_at: now,
            },
        )
    }
}

/// The listing order of a user's subscriptions: newest first, ties broken
/// by id.
pub open spec fn tracking_le(a: Tracking, b: Tracking) -> bool {
    ||| a.created_at > b.created_at
    ||| (a.created_at == b.created_at && a.id <= b.id)
}

pub open spec fn trackings_sorted(s: Seq<Tracking>) -> bool {
    forall|i: int, j: int| 0 <= i < j < s.len() ==> tracking_le(#[trigger] s[i], #[trigger] s[j])
}

fn tracking_le_exec(a: &Tracking, b: &Tracking) -> (r: bool)
    ensures
        r == tracking_le(*a, *b),
{
    if a.created_at != b.created_at {
        a.created_at > b.created_at
    } else {
        a.id <= b.id
    }
}

/// Insert one subscription into a vector kept in listing order.
fn insert_tracking_sorted(acc: &mut Vec<Tracking>, x: Tracking)
    requires
        trackings_sorted(old(acc)@),
    ensures
        trackings_sorted(final(acc)@),
        final(acc)@.to_multiset() =~= old(acc)@.to_multiset().insert(x),
{
    let ghost m0 = old(acc)@;
    let mut idx: usize = 0;
    while idx < acc.len() && tracking_le_exec(&acc[idx], &x)
        invariant
            *acc == *old(acc),
            m0 == old(acc)@,
            trackings_sorted(m0),
            idx <= m0.len(),
            forall|k: int| 0 <= k < idx ==> tracking_le(#[trigger] m0[k], x),
        decreases acc@.len() - idx,
    {
        idx = idx + 1;
    }
    let ghost gidx = idx as int;
    acc.insert(idx, x);
    proof {
        let m1 = acc@;
        let left = m0.take(gidx);
        let right = m0.skip(gidx);
        assert(m1 =~= left + seq![x] + right);
        broadcast use vstd::seq_lib::group_to_multiset_ensures;

        vstd::seq_lib::lemma_multiset_commutative(left + seq![x], right);
        vstd::seq_lib::lemma_multiset_commutative(left, seq![x]);
        vstd::seq_lib::lemma_multiset_commutative(left, right);
        assert(m0 =~= left + right);
        assert(seq![x].to_multiset() =~= Multiset::empty().insert(x));
        assert(m1.to_multiset() =~= m0.to_multiset().insert(x));
        assert forall|i: int, j: int| 0 <= i < j < m1.len() implies tracking_le(m1[i], m1[j]) by {
            if i == gidx {
                if j > gidx {
                    assert(m1[j] == m0[j - 1]);
                    if gidx < m0.len() {
                        assert(!tracking_le(m0[gidx], x) || gidx == m0.len());
                    }
                }
            }
        }
    }
}

impl Ledger {
    /// Create a subscription of a user to a product, or retarget the
    /// existing one — at most one per (user, product) pair; returns the
    /// row's identity.
    pub fn create_tracking(
        &mut self,
        user_id: i64,
        product_id: i64,
        target_price: Option<i32>,
        now: i64,
    ) -> (id: i64)
        requires
            old(self).wf(),
            old(self).next_id < i64::MAX,
        ensures
            final(self).wf(),
            final(self).trackings@ =~= upsert_tracking_table(
                old(self).trackings@,
                user_id,
                product_id,
                target_price,
                now,
                old(self).next_id,
            ),
            has_tracking_key(old(self).trackings@, user_id as int, product_id as int) ==> {
                &&& final(self).next_id == old(self).next_id
                &&& forall|i: int|
                    0 <= i < old(self).trackings@.len() && (#[trigger] old(
                        self,
                    ).trackings@[i]).user_id == user_id && old(self).trackings@[i].product_id
                        == product_id ==> id == old(self).trackings@[i].id
            },
            !has_tracking_key(old(self).trackings@, user_id as int, product_id as int) ==> {
                &&& id == old(self).next_id
                &&& final(self).next_id == old(self).next_id + 1
            },
            final(self).stores == old(self).stores,
            final(self).products == old(self).products,
            final(self).users == old(self).users,
            final(self).store_prices == old(self).store_prices,
            final(self).price_history == old(self).price_history,
            final(self).jobs == old(self).jobs,
    {
        let ghost m0 = old(self).trackings@;
        let mut i: usize = 0;
        while i < self.trackings.len()
            invariant
                *self == *old(self),
                old(self).wf(),
                m0 == old(self).trackings@,
                i <= m0.len(),
                forall|k: int|
                    0 <= k < i ==> !((#[trigger] m0[k]).user_id == user_id && m0[k].product_id
                        == product_id),
            decreases self.trackings@.len() - i,
        {
            if self.trackings[i].user_id == user_id && self.trackings[i].product_id == product_id {
                let row_id = self.trackings[i].id;
                self.trackings[i].target_price = target_price;
                proof {
                    assert(m0[i as int].user_id == user_id && m0[i as int].product_id
                        == product_id);
                    assert(has_tracking_key(m0, user_id as int, product_id as int));
                    assert forall|k: int| 0 <= k < m0.len() implies self.trackings@[k]
                        == upsert_tracking_table(
                        m0,
                        user_id,
                        product_id,
                        target_price,
                        now,
                        old(self).next_id,
                    )[k] by {
                        if k != i {
                            if k < i {
                                assert(!(m0[k].user_id == m0[i as int].user_id && m0[k].product_id
                                    == m0[i as int].product_id));
                            } else {
                                assert(!(m0[i as int].user_id == m0[k].user_id
                                    && m0[i as int].product_id == m0[k].product_id));
                            }
                        }
                    }
                    assert(self.trackings@ =~= upsert_tracking_table(
                        m0,
                        user_id,
                        product_id,
                        target_price,
                        now,
                        old(self).next_id,
                    ));
                }
                return row_id;
            }
            i = i + 1;
        }
        let row_id = self.next_id;
        self.trackings.push(
            Tracking {
                id: row_id,
                user_id: user_id,
                product_id: product_id,
                target_price: target_price,
                created_at: now,
            },
        );
        self.next_id = row_id + 1;
        proof {
            assert(!has_tracking_key(m0, user_id as int, product_id as int));
            assert(self.trackings@ =~= upsert_tracking_table(
                m0,
                user_id,
                product_id,
                target_price,
                now,
                old(self).next_id,
            ));
        }
        row_id
    }

    /// A user's subscriptions, newest first.
    pub fn get_user_trackings(&self, user_id: i64) -> (r: Vec<Tracking>)
        requires
            self.wf(),
        ensures
            trackings_sorted(r@),
            r@.to_multiset() =~= self.trackings@.filter(
                |t: Tracking| t.user_id == user_id,
            ).to_multiset(),
    {
        let ghost user_pred = |t: Tracking| t.user_id == user_id;
        let mut sorted: Vec<Tracking> = Vec::new();
        proof {
            assert(self.trackings@.take(0) =~= Seq::<Tracking>::empty());
            assert(Seq::<Tracking>::empty().filter(user_pred) =~= Seq::<Tracking>::empty());
        }
        let mut i: usize = 0;
        while i < self.trackings.len()
            invariant
                self.wf(),
                user_pred == (|t: Tracking| t.user_id == user_id),
                i <= self.trackings@.len(),
                trackings_sorted(sorted@),
                sorted@.to_multiset() =~= self.trackings@.take(i as int).filter(
                    user_pred,
                ).to_multiset(),
            decreases self.trackings@.len() - i,
        {
            let ghost prefix = self.trackings@.take(i as int);
            let ghost prefix1 = self.trackings@.take(i as int + 1);
            proof {
                broadcast use vstd::seq_lib::group_to_multiset_ensures;
                broadcast use Seq::lemma_filter_push;

                assert(prefix1 =~= prefix.push(self.trackings@[i as int]));
            }
            if self.trackings[i].user_id == user_id {
                let t = self.trackings[i];
                insert_tracking_sorted(&mut sorted, t);
            }
            i = i + 1;
        }
        proof {
            assert(self.trackings@.take(self.trackings@.len() as int) =~= self.trackings@);
        }
        sorted
    }

    /// The subscription with this id; storage reports the missing row as
    /// an error.
    pub fn get_tracking(&self, id: i64) -> (r: Result<Tracking, StorageError>)
        requires
            self.wf(),
        ensures
            r is Ok == has_tracking_id(self.trackings@, id as int),
            r is Err ==> r->Err_0 == StorageError::NotFound,
            r is Ok ==> forall|i: int|
                0 <= i < self.trackings@.len() && (#[trigger] self.trackings@[i]).id
                    == id as int ==> r->Ok_0 == self.trackings@[i],
    {
        let ghost m0 = self.trackings@;
        let mut i: usize = 0;
        while i < self.trackings.len()
            invariant
                self.wf(),
                m0 == self.trackings@,
                i <= m0.len(),
                forall|k: int| 0 <= k < i ==> (#[trigger] m0[k]).id != id as int,
            decreases self.trackings@.len() - i,
        {
            if self.trackings[i].id == id {
                let row = self.trackings[i];
                proof {
                    assert forall|k: int|
                        0 <= k < m0.len() && (#[trigger] self.trackings@[k]).id
                            == id as int implies row == self.trackings@[k] by {
                        if k != i {
                            if k < i {
                                assert(m0[k].id != m0[i as int].id);
                            } else {
                                assert(m0[i as int].id != m0[k].id);
                            }
                        }
                    }
                    assert((#[trigger] self.trackings@[i as int]).id == id as int);
                }
                return Ok(row);
            }
            i = i + 1;
        }
        Err(StorageError::NotFound)
    }
}

// ---------------------------------------------------------------------------
// Laws of the upsert
// ---------------------------------------------------------------------------

/// Law: an upsert keeps the key unique and leaves exactly one row with the
/// observation's key, holding the observation's values.
pub proof fn lemma_upsert_keeps_keys_unique(
    prices: Seq<StorePriceView>,
    obs: StorePriceView,
    new_id: int,
)
    requires
        price_keys_unique(prices),
    ensures
        price_keys_unique(upsert_price_table(prices, obs, new_id)),
        has_price_key(upsert_price_table(prices, obs, new_id), obs.product_id, obs.store_id),
        forall|i: int|
            0 <= i < upsert_price_table(prices, obs, new_id).len() && (
            #[trigger] upsert_price_table(prices, obs, new_id)[i]).product_id == obs.product_id
                && upsert_price_table(prices, obs, new_id)[i].store_id == obs.store_id ==> {
                let row = upsert_price_table(prices, obs, new_id)[i];
                row.price == obs.price && row.url == obs.url && row.available == obs.available
                    && row.scraped_at == obs.scraped_at
            },
{
    let out = upsert_price_table(prices, obs, new_id);
    if has_price_key(prices, obs.product_id, obs.store_id) {
        assert forall|i: int, j: int|
            0 <= i < j < out.len() implies !((#[trigger] out[i]).product_id == (
        #[trigger] out[j]).product_id && out[i].store_id == out[j].store_id) by {
            assert(out[i].product_id == prices[i].product_id && out[i].store_id
                == prices[i].store_id);
            assert(out[j].product_id == prices[j].product_id && out[j].store_id
                == prices[j].store_id);
        }
        let w = choose|w: int|
            0 <= w < prices.len() && (#[trigger] prices[w]).product_id == obs.product_id
                && prices[w].store_id == obs.store_id;
        assert(out[w].product_id == obs.product_id && out[w].store_id == obs.store_id);
    } else {
        assert(out[prices.len() as int].product_id == obs.product_id);
        assert forall|i: int, j: int|
            0 <= i < j < out.len() implies !((#[trigger] out[i]).product_id == (
        #[trigger] out[j]).product_id && out[i].store_id == out[j].store_id) by {
            if j == prices.len() as int {
                assert(!(prices[i].product_id == obs.product_id && prices[i].store_id
                    == obs.store_id));
            }
        }
    }
}

/// Law: upserting for the same (product, store) key twice leaves exactly
/// one row for that key, holding the later observation's values, and the
/// table does not grow with the second upsert. (At the ledger operation,
/// each of the two upserts also appends its own `PriceHistory` row.)
pub proof fn lemma_upsert_last_write_wins(
    prices: Seq<StorePriceView>,
    o1: StorePriceView,
    o2: StorePriceView,
    id1: int,
    id2: int,
)
    requires
        price_keys_unique(prices),
        o1.product_id == o2.product_id,
        o1.store_id == o2.store_id,
    ensures
        ({
            let once = upsert_price_table(prices, o1, id1);
            let twice = upsert_price_table(once, o2, id2);
            &&& twice.len() == once.len()
            &&& price_keys_unique(twice)
            &&& has_price_key(twice, o2.product_id, o2.store_id)
            &&& forall|i: int|
                0 <= i < twice.len() && (#[trigger] twice[i]).product_id == o2.product_id
                    && twice[i].store_id == o2.store_id ==> {
                    let row = twice[i];
                    row.price == o2.price && row.url == o2.url && row.available == o2.available
                        && row.scraped_at == o2.scraped_at
                }
        }),
{
    let once = upsert_price_table(prices, o1, id1);
    let twice = upsert_price_table(once, o2, id2);
    lemma_upsert_keeps_keys_unique(prices, o1, id1);
    lemma_upsert_keeps_keys_unique(once, o2, id2);
    assert(has_price_key(once, o2.product_id, o2.store_id));
    assert(twice.len() == once.len());
}

// ---------------------------------------------------------------------------
// Laws of the claim order
// ---------------------------------------------------------------------------

/// Law: strict priority. In a list in claim order, a job of higher priority
/// stands before every job of lower priority, wherever the two were in the
/// table — so a pending job at a higher priority is claimed first.
pub proof fn lemma_higher_priority_first(s: Seq<ScrapingJobView>, i: int, j: int)
    requires
        jobs_sorted(s),
        0 <= i < s.len(),
        0 <= j < s.len(),
        s[i].priority > s[j].priority,
    ensures
        i < j,
{
    if i > j {
        assert(job_le(s[j], s[i]));
    }
}

/// Law: FIFO fairness among equals. In a list in claim order, of two jobs
/// of equal priority the one scheduled earlier stands first.
pub proof fn lemma_fifo_among_equal_priority(s: Seq<ScrapingJobView>, i: int, j: int)
    requires
        jobs_sorted(s),
        0 <= i < s.len(),
        0 <= j < s.len(),
        s[i].priority == s[j].priority,
        s[i].scheduled_at < s[j].scheduled_at,
    ensures
        i < j,
{
    if i > j {
        assert(job_le(s[j], s[i]));
    }
}

// ---------------------------------------------------------------------------
// Laws of the claim
// ---------------------------------------------------------------------------

/// Law: no transition returns a job to pending. Neither a claim nor a
/// terminal update makes any row pending that was not already pending;
/// a retry of a failed job can only be a new enqueue decision.
pub proof fn lemma_never_back_to_pending(
    jobs: Seq<ScrapingJobView>,
    id: int,
    status: JobStatus,
    error: Option<Seq<char>>,
    result: Option<crate::models::ScraperResponseView>,
    now: int,
    i: int,
)
    requires
        0 <= i < jobs.len(),
        status.is_terminal(),
    ensures
        claim_jobs(jobs, id, now)[i].status == JobStatus::Pending ==> jobs[i].status
            == JobStatus::Pending,
        finish_jobs(jobs, id, status, error, result, now)[i].status == JobStatus::Pending
            ==> jobs[i].status == JobStatus::Pending,
{
}

/// Law: claiming is idempotent under races. Once a claim on a job has gone
/// through, no row with that id is pending any more, so a later claim
/// attempt on the same id finds nothing to win and leaves the table exactly
/// as it was: of racing claim attempts, serialized by the storage engine,
/// exactly the first over a pending row wins.
pub proof fn lemma_claim_exactly_one_winner(
    jobs: Seq<ScrapingJobView>,
    id: int,
    t1: int,
    t2: int,
)
    ensures
        !pending_with_id(claim_jobs(jobs, id, t1), id),
        claim_jobs(claim_jobs(jobs, id, t1), id, t2) =~= claim_jobs(jobs, id, t1),
{
    let once = claim_jobs(jobs, id, t1);
    assert forall|i: int| 0 <= i < once.len() implies !((#[trigger] once[i]).id == id && once[i].status
        == JobStatus::Pending) by {
        assert(once[i] == if jobs[i].id == id && jobs[i].status == JobStatus::Pending {
            claimed_job(jobs[i], t1)
        } else {
            jobs[i]
        });
    }
    assert(claim_jobs(once, id, t2) =~= once);
}

} // verus!
