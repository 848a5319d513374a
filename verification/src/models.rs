//! Data model of the orchestration core.
//!
//! Timestamps are integer Unix epoch seconds; prices are integer
//! minor-currency units (kopecks). Types that carry heap data (strings)
//! have a mathematical view struct used by all contracts.

use vstd::prelude::*;

verus! {

// ---------------------------------------------------------------------------
// Job status
// ---------------------------------------------------------------------------

/// State machine of a scraping job: `Pending -> Running -> {Completed, Failed}`.
#[derive(Clone, Copy, Debug, PartialEq, Eq, Structural)]
pub enum JobStatus {
    Pending,
    Running,
    Completed,
    Failed,
}

impl JobStatus {
    /// The storage-level tag of each status.
    pub open spec fn spec_str(self) -> Seq<char> {
        match self {
            JobStatus::Pending => "pending"@,
            JobStatus::Running => "running"@,
            JobStatus::Completed => "completed"@,
            JobStatus::Failed => "failed"@,
        }
    }

    /// A status is terminal when no further transition leaves it.
    pub open spec fn is_terminal(self) -> bool {
        self == JobStatus::Completed || self == JobStatus::Failed
    }

    pub fn as_str(&self) -> (ret: &'static str)
        ensures
            ret@ == self.spec_str(),
    {
        match self {
            JobStatus::Pending => "pending",
            JobStatus::Running => "running",
            JobStatus::Completed => "completed",
            JobStatus::Failed => "failed",
        }
    }
}

/// The legal transitions of the job state machine. A job never returns to
/// `Pending`; retries are a new enqueue decision made outside the core.
pub open spec fn legal_transition(from: JobStatus, to: JobStatus) -> bool {
    ||| (from == JobStatus::Pending && to == JobStatus::Running)
    ||| (from == JobStatus::Running && to.is_terminal())
}

// ---------------------------------------------------------------------------
// Store method
// ---------------------------------------------------------------------------

/// Which worker strategy a store is scraped with.
#[derive(Clone, Copy, Debug, PartialEq, Eq, Structural)]
pub enum StoreMethod {
    Firefox,
    PlaywrightDirect,
    PlaywrightStealth,
    OzonFirefox,
    CitilinkFirefox,
    AvitoFirefox,
    YandexMarketSpecial,
}

impl StoreMethod {
    pub open spec fn spec_str(self) -> Seq<char> {
        match self {
            StoreMethod::Firefox => "firefox"@,
            StoreMethod::PlaywrightDirect => "playwright_direct"@,
            StoreMethod::PlaywrightStealth => "playwright_stealth"@,
            StoreMethod::OzonFirefox => "ozon_firefox"@,
            StoreMethod::CitilinkFirefox => "citilink_firefox"@,
            StoreMethod::AvitoFirefox => "avito_firefox"@,
            StoreMethod::YandexMarketSpecial => "yandex_market_special"@,
        }
    }

    pub fn as_str(&self) -> (ret: &'static str)
        ensures
            ret@ == self.spec_str(),
    {
        match self {
            StoreMethod::Firefox => "firefox",
            StoreMethod::PlaywrightDirect => "playwright_direct",
            StoreMethod::PlaywrightStealth => "playwright_stealth",
            StoreMethod::OzonFirefox => "ozon_firefox",
            StoreMethod::CitilinkFirefox => "citilink_firefox",
            StoreMethod::AvitoFirefox => "avito_firefox",
            StoreMethod::YandexMarketSpecial => "yandex_market_special",
        }
    }
}

/// The view of an optional string: the character sequence, if present.
pub open spec fn opt_str_view(o: Option<String>) -> Option<Seq<char>> {
    match o {
        Option::Some(s) => Option::Some(s@),
        Option::None => Option::None,
    }
}

/// An owned copy of an optional string, equal as a value.
pub fn clone_opt_string(o: &Option<String>) -> (r: Option<String>)
    ensures
        r == *o,
{
    match o {
        Some(s) => Some(s.clone()),
        None => None,
    }
}

// ---------------------------------------------------------------------------
// Stores
// ---------------------------------------------------------------------------

/// An online store that workers scrape.
#[derive(Clone, Debug)]
pub struct Store {
    pub id: i32,
    pub name: String,
    pub base_url: String,
    pub method: String,
    pub parser: String,
    /// Stores whose scraping method is known to be flaky are excluded from
    /// default bulk runs.
    pub unstable: bool,
    pub created_at: i64,
}

#[verifier::ext_equal]
pub struct StoreView {
    pub id: int,
    pub name: Seq<char>,
    pub base_url: Seq<char>,
    pub method: Seq<char>,
    pub parser: Seq<char>,
    pub unstable: bool,
    pub created_at: int,
}

impl View for Store {
    type V = StoreView;

    open spec fn view(&self) -> StoreView {
        StoreView {
            id: self.id as int,
            name: self.name@,
            base_url: self.base_url@,
            method: self.method@,
            parser: self.parser@,
            unstable: self.unstable,
            created_at: self.created_at as int,
        }
    }
}

// ---------------------------------------------------------------------------
// Products
// ---------------------------------------------------------------------------

/// Free-form structured attributes of a product.
#[derive(Clone, Debug)]
pub struct ProductSpecs {
    pub screen: Option<String>,
    pub cpu: Option<String>,
    pub ram: Option<i32>,
    pub ssd: Option<i32>,
    pub article: Option<String>,
    pub color: Option<String>,
    pub condition: Option<String>,
    pub warranty: Option<String>,
    pub year: Option<i32>,
}

#[verifier::ext_equal]
pub struct ProductSpecsView {
    pub screen: Option<Seq<char>>,
    pub cpu: Option<Seq<char>>,
    pub ram: Option<int>,
    pub ssd: Option<int>,
    pub article: Option<Seq<char>>,
    pub color: Option<Seq<char>>,
    pub condition: Option<Seq<char>>,
    pub warranty: Option<Seq<char>>,
    pub year: Option<int>,
}

pub open spec fn opt_int_view(o: Option<i32>) -> Option<int> {
    match o {
        Option::Some(v) => Option::Some(v as int),
        Option::None => Option::None,
    }
}

impl View for ProductSpecs {
    type V = ProductSpecsView;

    open spec fn view(&self) -> ProductSpecsView {
        ProductSpecsView {
            screen: opt_str_view(self.screen),
            cpu: opt_str_view(self.cpu),
            ram: opt_int_view(self.ram),
            ssd: opt_int_view(self.ssd),
            article: opt_str_view(self.article),
            color: opt_str_view(self.color),
            condition: opt_str_view(self.condition),
            warranty: opt_str_view(self.warranty),
            year: opt_int_view(self.year),
        }
    }
}

/// A catalog product that jobs and prices reference.
#[derive(Clone, Debug)]
pub struct Product {
    pub id: i64,
    pub name: String,
    pub category: Option<String>,
    pub specs: ProductSpecs,
    pub search_query: Option<String>,
    pub created_at: i64,
    pub updated_at: i64,
}

#[verifier::ext_equal]
pub struct ProductView {
    pub id: int,
    pub name: Seq<char>,
    pub category: Option<Seq<char>>,
    pub specs: ProductSpecsView,
    pub search_query: Option<Seq<char>>,
    pub created_at: int,
    pub updated_at: int,
}

impl View for Product {
    type V = ProductView;

    open spec fn view(&self) -> ProductView {
        ProductView {
            id: self.id as int,
            name: self.name@,
            category: opt_str_view(self.category),
            specs: self.specs@,
            search_query: opt_str_view(self.search_query),
            created_at: self.created_at as int,
            updated_at: self.updated_at as int,
        }
    }
}

// ---------------------------------------------------------------------------
// Users and trackings
// ---------------------------------------------------------------------------

/// A user of the tracker, identified by a unique messenger id.
#[derive(Clone, Debug)]
pub struct User {
    pub id: i64,
    pub telegram_id: i64,
    pub username: Option<String>,
    pub created_at: i64,
    pub last_active_at: Option<i64>,
}

#[verifier::ext_equal]
pub struct UserView {
    pub id: int,
    pub telegram_id: int,
    pub username: Option<Seq<char>>,
    pub created_at: int,
    pub last_active_at: Option<int>,
}

pub open spec fn opt_i64_view(o: Option<i64>) -> Option<int> {
    match o {
        Option::Some(v) => Option::Some(v as int),
        Option::None => Option::None,
    }
}

impl View for User {
    type V = UserView;

    open spec fn view(&self) -> UserView {
        UserView {
            id: self.id as int,
            telegram_id: self.telegram_id as int,
            username: opt_str_view(self.username),
            created_at: self.created_at as int,
            last_active_at: opt_i64_view(self.last_active_at),
        }
    }
}

/// A user's subscription to a product, at most one per (user, product) pair.
#[derive(Clone, Copy, Debug, PartialEq, Eq, Structural)]
pub struct Tracking {
    pub id: i64,
    pub user_id: i64,
    pub product_id: i64,
    pub target_price: Option<i32>,
    pub created_at: i64,
}

// ---------------------------------------------------------------------------
// Prices
// ---------------------------------------------------------------------------

/// The latest known price of a (product, store) pair; at most one row per
/// pair, replaced in place by each new observation.
#[derive(Clone, Debug)]
pub struct StorePrice {
    pub id: i64,
    pub product_id: i64,
    pub store_id: i32,
    /// Integer minor-currency units (kopecks).
    pub price: i32,
    pub url: Option<String>,
    pub available: bool,
    pub scraped_at: i64,
}

#[verifier::ext_equal]
pub struct StorePriceView {
    pub id: int,
    pub product_id: int,
    pub store_id: int,
    pub price: int,
    pub url: Option<Seq<char>>,
    pub available: bool,
    pub scraped_at: int,
}

impl View for StorePrice {
    type V = StorePriceView;

    open spec fn view(&self) -> StorePriceView {
        StorePriceView {
            id: self.id as int,
            product_id: self.product_id as int,
            store_id: self.store_id as int,
            price: self.price as int,
            url: opt_str_view(self.url),
            available: self.available,
            scraped_at: self.scraped_at as int,
        }
    }
}

/// One appended audit row per price observation, never updated or deleted.
#[derive(Clone, Copy, Debug, PartialEq, Eq, Structural)]
pub struct PriceHistory {
    pub id: i64,
    pub product_id: i64,
    pub store_id: i32,
    pub price: i32,
    pub available: bool,
    pub recorded_at: i64,
}

// ---------------------------------------------------------------------------
// Worker protocol records
// ---------------------------------------------------------------------------

/// A request handed to one worker invocation.
#[derive(Clone, Debug)]
pub struct ScraperRequest {
    pub store: String,
    pub query: String,
    pub method: String,
}

#[verifier::ext_equal]
pub struct ScraperRequestView {
    pub store: Seq<char>,
    pub query: Seq<char>,
    pub method: Seq<char>,
}

impl View for ScraperRequest {
    type V = ScraperRequestView;

    open spec fn view(&self) -> ScraperRequestView {
        ScraperRequestView { store: self.store@, query: self.query@, method: self.method@ }
    }
}

/// The single structured record a worker emits on its standard output.
///
/// `time_text` holds the elapsed-seconds number literal exactly as the
/// worker wrote it; the core never computes with it.
#[derive(Clone, Debug)]
pub struct ScraperResponse {
    pub store: String,
    pub status: String,
    pub price: Option<i32>,
    pub count: Option<i32>,
    pub time_text: String,
    pub error: Option<String>,
    pub method: Option<String>,
}

#[verifier::ext_equal]
pub struct ScraperResponseView {
    pub store: Seq<char>,
    pub status: Seq<char>,
    pub price: Option<int>,
    pub count: Option<int>,
    pub time_text: Seq<char>,
    pub error: Option<Seq<char>>,
    pub method: Option<Seq<char>>,
}

impl View for ScraperResponse {
    type V = ScraperResponseView;

    open spec fn view(&self) -> ScraperResponseView {
        ScraperResponseView {
            store: self.store@,
            status: self.status@,
            price: opt_int_view(self.price),
            count: opt_int_view(self.count),
            time_text: self.time_text@,
            error: opt_str_view(self.error),
            method: opt_str_view(self.method),
        }
    }
}

/// The view of an optional worker response.
pub open spec fn opt_resp_view(o: Option<ScraperResponse>) -> Option<ScraperResponseView> {
    match o {
        Option::Some(r) => Option::Some(r@),
        Option::None => Option::None,
    }
}

// ---------------------------------------------------------------------------
// Scraping jobs
// ---------------------------------------------------------------------------

/// One unit of scheduled scraping work, the queue row. Never deleted.
#[derive(Clone, Debug)]
pub struct ScrapingJob {
    pub id: i64,
    pub product_id: i64,
    /// Absent means "any applicable store", resolved by the scheduler.
    pub store_id: Option<i32>,
    pub status: JobStatus,
    /// Higher runs first.
    pub priority: i32,
    pub scheduled_at: i64,
    pub started_at: Option<i64>,
    pub completed_at: Option<i64>,
    pub error: Option<String>,
    pub result: Option<ScraperResponse>,
}

#[verifier::ext_equal]
pub struct ScrapingJobView {
    pub id: int,
    pub product_id: int,
    pub store_id: Option<int>,
    pub status: JobStatus,
    pub priority: int,
    pub scheduled_at: int,
    pub started_at: Option<int>,
    pub completed_at: Option<int>,
    pub error: Option<Seq<char>>,
    pub result: Option<ScraperResponseView>,
}

impl View for ScrapingJob {
    type V = ScrapingJobView;

    open spec fn view(&self) -> ScrapingJobView {
        ScrapingJobView {
            id: self.id as int,
            product_id: self.product_id as int,
            store_id: opt_int_view(self.store_id),
            status: self.status,
            priority: self.priority as int,
            scheduled_at: self.scheduled_at as int,
            started_at: opt_i64_view(self.started_at),
            completed_at: opt_i64_view(self.completed_at),
            error: opt_str_view(self.error),
            result: match self.result {
                Option::Some(r) => Option::Some(r@),
                Option::None => Option::None,
            },
        }
    }
}

impl Store {
    /// An owned copy, equal as a value.
    pub fn duplicate(&self) -> (r: Store)
        ensures
            r == *self,
    {
        Store {
            id: self.id,
            name: self.name.clone(),
            base_url: self.base_url.clone(),
            method: self.method.clone(),
            parser: self.parser.clone(),
            unstable: self.unstable,
            created_at: self.created_at,
        }
    }
}

impl ProductSpecs {
    /// An owned copy, equal as a value.
    pub fn duplicate(&self) -> (r: ProductSpecs)
        ensures
            r == *self,
    {
        ProductSpecs {
            screen: clone_opt_string(&self.screen),
            cpu: clone_opt_string(&self.cpu),
            ram: self.ram,
            ssd: self.ssd,
            article: clone_opt_string(&self.article),
            color: clone_opt_string(&self.color),
            condition: clone_opt_string(&self.condition),
            warranty: clone_opt_string(&self.warranty),
            year: self.year,
        }
    }
}

impl Product {
    /// An owned copy, equal as a value.
    pub fn duplicate(&self) -> (r: Product)
        ensures
            r == *self,
    {
        Product {
            id: self.id,
            name: self.name.clone(),
            category: clone_opt_string(&self.category),
            specs: self.specs.duplicate(),
            search_query: clone_opt_string(&self.search_query),
            created_at: self.created_at,
            updated_at: self.updated_at,
        }
    }
}

impl User {
    /// An owned copy, equal as a value.
    pub fn duplicate(&self) -> (r: User)
        ensures
            r == *self,
    {
        User {
            id: self.id,
            telegram_id: self.telegram_id,
            username: clone_opt_string(&self.username),
            created_at: self.created_at,
            last_active_at: self.last_active_at,
        }
    }
}

impl StorePrice {
    /// An owned copy, equal as a value.
    pub fn duplicate(&self) -> (r: StorePrice)
        ensures
            r == *self,
    {
        StorePrice {
            id: self.id,
            product_id: self.product_id,
            store_id: self.store_id,
            price: self.price,
            url: clone_opt_string(&self.url),
            available: self.available,
            scraped_at: self.scraped_at,
        }
    }
}

impl ScraperResponse {
    /// An owned copy, equal as a value.
    pub fn duplicate(&self) -> (r: ScraperResponse)
        ensures
            r == *self,
    {
        ScraperResponse {
            store: self.store.clone(),
            status: self.status.clone(),
            price: self.price,
            count: self.count,
            time_text: self.time_text.clone(),
            error: clone_opt_string(&self.error),
            method: clone_opt_string(&self.method),
        }
    }
}

impl ScrapingJob {
    /// An owned copy, equal as a value.
    pub fn duplicate(&self) -> (r: ScrapingJob)
        ensures
            r == *self,
    {
        ScrapingJob {
            id: self.id,
            product_id: self.product_id,
            store_id: self.store_id,
            status: self.status,
            priority: self.priority,
            scheduled_at: self.scheduled_at,
            started_at: self.started_at,
            completed_at: self.completed_at,
            error: clone_opt_string(&self.error),
            result: match &self.result {
                Some(r) => Some(r.duplicate()),
                None => None,
            },
        }
    }
}

impl ScrapingJobView {
    /// The record-level invariant of one job row: `started_at` is set once,
    /// at the pending-to-running transition; `completed_at` is set if and
    /// only if the status is terminal.
    pub open spec fn wf(self) -> bool {
        &&& (self.status == JobStatus::Pending ==> self.started_at is None && self.error is None
            && self.result is None)
        &&& (self.status != JobStatus::Pending ==> self.started_at is Some)
        &&& (self.completed_at is Some <==> self.status.is_terminal())
    }
}

} // verus!
