//! The worker bridge: classifying one time-bounded worker run.
//!
//! Spawning the worker, feeding it its arguments, racing its exit against
//! the deadline and reaping it are process I/O and live outside the crate;
//! what comes back is a [`WorkerOutcome`]. This module builds the argument
//! list a worker is invoked with, classifies the outcome into a typed
//! response or a [`BridgeError`], and renders the human-readable cause
//! string a failed job records.

use vstd::prelude::*;
use vstd::string::StringExecFns;
use vstd::utf8::valid_utf8;
use vstd::utf8::decode_utf8;

use crate::models::ScraperRequest;
use crate::models::ScraperResponse;
use crate::models::ScraperResponseView;
use crate::protocol::parse_worker_record;
use crate::protocol::spec_parse_worker_record;

verus! {

// ---------------------------------------------------------------------------
// Outcomes and errors
// ---------------------------------------------------------------------------

/// What one worker run came to, as the process supervisor saw it. A run
/// that hit its deadline carries no output at all: a timed-out worker's
/// output is discarded by construction, never decoded.
pub enum WorkerOutcome {
    /// The deadline elapsed first; the process was forcibly terminated.
    TimedOut,
    /// The process exited on its own, with its exit code (absent when the
    /// process was ended by a signal) and its two captured streams.
    Exited { code: Option<i32>, stdout: Vec<u8>, stderr: Vec<u8> },
}

#[verifier::ext_equal]
pub enum WorkerOutcomeView {
    TimedOut,
    Exited { code: Option<int>, stdout: Seq<u8>, stderr: Seq<u8> },
}

impl View for WorkerOutcome {
    type V = WorkerOutcomeView;

    open spec fn view(&self) -> WorkerOutcomeView {
        match self {
            WorkerOutcome::TimedOut => WorkerOutcomeView::TimedOut,
            WorkerOutcome::Exited { code, stdout, stderr } => WorkerOutcomeView::Exited {
                code: crate::models::opt_int_view(*code),
                stdout: stdout@,
                stderr: stderr@,
            },
        }
    }
}

/// Why a worker run produced no usable response.
pub enum BridgeError {
    /// The worker program could not be resolved: a configuration defect,
    /// never retried.
    WorkerNotFound,
    /// The run exceeded its time budget and was terminated.
    Timeout,
    /// The worker exited with a non-zero status; its error stream is kept.
    WorkerExited { code: Option<i32>, stderr: Vec<u8> },
    /// The worker exited cleanly but its output is not one well-formed
    /// record of the protocol; the raw output is kept for diagnosis.
    MalformedOutput { raw: Vec<u8> },
}

#[verifier::ext_equal]
pub enum BridgeErrorView {
    WorkerNotFound,
    Timeout,
    WorkerExited { code: Option<int>, stderr: Seq<u8> },
    MalformedOutput { raw: Seq<u8> },
}

impl View for BridgeError {
    type V = BridgeErrorView;

    open spec fn view(&self) -> BridgeErrorView {
        match self {
            BridgeError::WorkerNotFound => BridgeErrorView::WorkerNotFound,
            BridgeError::Timeout => BridgeErrorView::Timeout,
            BridgeError::WorkerExited { code, stderr } => BridgeErrorView::WorkerExited {
                code: crate::models::opt_int_view(*code),
                stderr: stderr@,
            },
            BridgeError::MalformedOutput { raw } => BridgeErrorView::MalformedOutput { raw: raw@ },
        }
    }
}

// ---------------------------------------------------------------------------
// Classification
// ---------------------------------------------------------------------------

/// How one worker outcome is classified: a timeout is a failure whatever
/// the worker wrote, a non-zero exit keeps the error stream, and a clean
/// exit is decoded as exactly one protocol record.
pub open spec fn spec_classify(o: WorkerOutcomeView) -> Result<
    ScraperResponseView,
    BridgeErrorView,
> {
    match o {
        WorkerOutcomeView::TimedOut => Result::Err(BridgeErrorView::Timeout),
        WorkerOutcomeView::Exited { code, stdout, stderr } => {
            if code != Option::Some(0int) {
                Result::Err(BridgeErrorView::WorkerExited { code: code, stderr: stderr })
            } else {
                match spec_parse_worker_record(stdout) {
                    Option::Some(v) => Result::Ok(v),
                    Option::None => Result::Err(BridgeErrorView::MalformedOutput { raw: stdout }),
                }
            }
        },
    }
}

/// Classify one worker outcome; see [`spec_classify`]. Every outcome maps
/// to a value — a worker-side failure is never a crash of the scheduler.
pub fn classify_outcome(o: WorkerOutcome) -> (r: Result<ScraperResponse, BridgeError>)
    ensures
        match r {
            Result::Ok(resp) => spec_classify(o@) == Result::<
                ScraperResponseView,
                BridgeErrorView,
            >::Ok(resp@),
            Result::Err(e) => spec_classify(o@) == Result::<
                ScraperResponseView,
                BridgeErrorView,
            >::Err(e@),
        },
{
    match o {
        WorkerOutcome::TimedOut => Err(BridgeError::Timeout),
        WorkerOutcome::Exited { code, stdout, stderr } => {
            let zero = match code {
                Some(c) => c == 0,
                None => false,
            };
            if !zero {
                Err(BridgeError::WorkerExited { code: code, stderr: stderr })
            } else {
                let parsed = parse_worker_record(stdout.as_slice());
                match parsed {
                    Some(resp) => Ok(resp),
                    None => Err(BridgeError::MalformedOutput { raw: stdout }),
                }
            }
        },
    }
}

// ---------------------------------------------------------------------------
// Cause strings
// ---------------------------------------------------------------------------

/// A name for what alloc's `String::from_utf8_lossy` returns: a function
/// of the bytes alone.
pub uninterp spec fn lossy_of(bytes: Seq<u8>) -> Seq<char>;

/// Relies on alloc's `String::from_utf8_lossy`: its result depends on the
/// bytes alone, and on valid UTF-8 it is exactly their decoding.
#[verifier::external_body]
fn from_utf8_lossy(bytes: &[u8]) -> (r: String)
    ensures
        r@ == lossy_of(bytes@),
        valid_utf8(bytes@) ==> r@ == decode_utf8(bytes@),
{
    String::from_utf8_lossy(bytes).into_owned()
}

/// The cause string each bridge error records on the failed job.
pub open spec fn spec_error_text(e: BridgeErrorView) -> Seq<char> {
    match e {
        BridgeErrorView::WorkerNotFound => "worker script not found"@,
        BridgeErrorView::Timeout => "scraper timeout"@,
        BridgeErrorView::WorkerExited { code, stderr } => "worker exited with error: "@ + lossy_of(
            stderr,
        ),
        BridgeErrorView::MalformedOutput { raw } => "malformed worker output: "@ + lossy_of(raw),
    }
}

impl BridgeError {
    /// The human-readable cause recorded on the failed job.
    pub fn error_text(&self) -> (r: String)
        ensures
            r@ == spec_error_text(self@),
    {
        match self {
            BridgeError::WorkerNotFound => "worker script not found".to_owned(),
            BridgeError::Timeout => "scraper timeout".to_owned(),
            BridgeError::WorkerExited { code, stderr } => {
                let mut s = "worker exited with error: ".to_owned();
                let tail = from_utf8_lossy(stderr.as_slice());
                s.append(tail.as_str());
                s
            },
            BridgeError::MalformedOutput { raw } => {
                let mut s = "malformed worker output: ".to_owned();
                let tail = from_utf8_lossy(raw.as_slice());
                s.append(tail.as_str());
                s
            },
        }
    }
}

// ---------------------------------------------------------------------------
// The request encoding
// ---------------------------------------------------------------------------

/// The argument list one worker invocation is started with: the flag that
/// selects structured output, the store under scrape, and the search
/// method tag the request carries.
pub fn worker_args(request: &ScraperRequest) -> (r: Vec<String>)
    ensures
        r@.len() == 3,
        r@[0]@ == "--json"@,
        r@[1]@ == "--store="@ + request.store@,
        r@[2]@ == "--method="@ + request.method@,
{
    let mut args: Vec<String> = Vec::new();
    args.push("--json".to_owned());
    let mut store_arg = "--store=".to_owned();
    store_arg.append(request.store.as_str());
    args.push(store_arg);
    let mut method_arg = "--method=".to_owned();
    method_arg.append(request.method.as_str());
    args.push(method_arg);
    args
}

// ---------------------------------------------------------------------------
// Laws of classification
// ---------------------------------------------------------------------------

/// Law: a worker run that exceeds its deadline is classified as a timeout,
/// whatever the worker would have written — the outcome of a timed-out run
/// carries no output to decode.
pub proof fn lemma_timeout_classified_as_timeout(o: WorkerOutcomeView)
    requires
        o is TimedOut,
    ensures
        spec_classify(o) == Result::<ScraperResponseView, BridgeErrorView>::Err(
            BridgeErrorView::Timeout,
        ),
        spec_error_text(BridgeErrorView::Timeout) == "scraper timeout"@,
{
}

/// Law: a clean exit whose output is not one well-formed protocol record
/// is classified as malformed output carrying the raw bytes — a protocol
/// violation is a value, never a crash.
pub proof fn lemma_malformed_output_classified(code: Option<int>, stdout: Seq<u8>, stderr: Seq<u8>)
    requires
        code == Option::Some(0int),
        spec_parse_worker_record(stdout) is None,
    ensures
        spec_classify(WorkerOutcomeView::Exited { code, stdout, stderr }) == Result::<
            ScraperResponseView,
            BridgeErrorView,
        >::Err(BridgeErrorView::MalformedOutput { raw: stdout }),
{
}

} // verus!
