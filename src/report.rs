//! The outcome of fetching each page, and the run's summary.

use vstd::prelude::*;
use vstd::string::StringExecFns;

verus! {

/// The outcome of fetching one page.
#[derive(Clone, Debug)]
pub struct PageResult {
    pub url: String,
    /// The HTTP status, or 0 where no response was received.
    pub status_code: u16,
    /// The body's size in bytes; 0 where it was not read.
    pub content_length: usize,
    /// The `content-type` header, or `unknown`.
    pub mime_type: String,
    /// Set exactly where the fetch or the saving of the body failed.
    pub error: Option<String>,
}

impl PageResult {
    /// A result without a response carries an error.
    pub open spec fn wf(&self) -> bool {
        self.status_code == 0 ==> self.error is Some
    }
}

/// How far the transfer of one page got.
pub enum Transfer {
    /// No response was received.
    RequestFailed { cause: String },
    /// A response came, but its body could not be read.
    BodyFailed { status_code: u16, content_type: Option<String>, cause: String },
    /// The whole body was read.
    Received { status_code: u16, content_type: Option<String>, content_length: usize },
}

impl Transfer {
    /// A status that a response carries is never 0.
    pub open spec fn wf(&self) -> bool {
        match self {
            Transfer::RequestFailed { .. } => true,
            Transfer::BodyFailed { status_code, .. } => *status_code != 0,
            Transfer::Received { status_code, .. } => *status_code != 0,
        }
    }
}

/// The content type as reported: the header's value, or `unknown` without one.
pub open spec fn mime_or_unknown(content_type: Option<String>) -> Seq<char> {
    match content_type {
        Some(c) => c@,
        None => "unknown"@,
    }
}

pub open spec fn opt_view(o: Option<String>) -> Option<Seq<char>> {
    match o {
        Some(s) => Some(s@),
        None => None,
    }
}

fn mime_type_of(content_type: Option<String>) -> (r: String)
    ensures
        r@ == mime_or_unknown(content_type),
{
    match content_type {
        Some(c) => c,
        None => String::from_str("unknown"),
    }
}

/// The result for `url` after `transfer`, where `save_error` is the failure
/// to save a received body, if saving was attempted and failed. A request
/// that failed gives status 0, size 0 and type `unknown`; a body that could
/// not be read gives size 0; a failed save keeps status, size and type.
pub fn page_result(url: &str, transfer: Transfer, save_error: Option<String>) -> (r: PageResult)
    requires
        transfer.wf(),
    ensures
        r.wf(),
        r.url@ == url@,
        match transfer {
            Transfer::RequestFailed { cause } => {
                &&& r.status_code == 0
                &&& r.content_length == 0
                &&& r.mime_type@ == "unknown"@
                &&& opt_view(r.error) == Some("Request failed: "@ + cause@)
            },
            Transfer::BodyFailed { status_code, content_type, cause } => {
                &&& r.status_code == status_code
                &&& r.content_length == 0
                &&& r.mime_type@ == mime_or_unknown(content_type)
                &&& opt_view(r.error) == Some("Failed to read response body: "@ + cause@)
            },
            Transfer::Received { status_code, content_type, content_length } => {
                &&& r.status_code == status_code
                &&& r.content_length == content_length
                &&& r.mime_type@ == mime_or_unknown(content_type)
                &&& opt_view(r.error) == match save_error {
                    Some(e) => Some("Failed to save file: "@ + e@),
                    None => None,
                }
            },
        },
{
    let url = String::from_str(url);
    match transfer {
        Transfer::RequestFailed { cause } => PageResult {
            url,
            status_code: 0,
            content_length: 0,
            mime_type: String::from_str("unknown"),
            error: Some(String::from_str("Request failed: ").concat(cause.as_str())),
        },
        Transfer::BodyFailed { status_code, content_type, cause } => PageResult {
            url,
            status_code,
            content_length: 0,
            mime_type: mime_type_of(content_type),
            error: Some(String::from_str("Failed to read response body: ").concat(cause.as_str())),
        },
        Transfer::Received { status_code, content_type, content_length } => PageResult {
            url,
            status_code,
            content_length,
            mime_type: mime_type_of(content_type),
            error: match save_error {
                Some(e) => Some(String::from_str("Failed to save file: ").concat(e.as_str())),
                None => None,
            },
        },
    }
}

/// The number of results without an error.
pub open spec fn count_ok(s: Seq<PageResult>) -> nat
    decreases s.len(),
{
    if s.len() == 0 {
        0
    } else {
        count_ok(s.drop_last()) + if s.last().error is None { 1nat } else { 0nat }
    }
}

/// The number of results with an error.
pub open spec fn count_failed(s: Seq<PageResult>) -> nat
    decreases s.len(),
{
    if s.len() == 0 {
        0
    } else {
        count_failed(s.drop_last()) + if s.last().error is Some { 1nat } else { 0nat }
    }
}

/// Every result has an error or has none.
pub proof fn lemma_counts_partition(s: Seq<PageResult>)
    ensures
        count_ok(s) + count_failed(s) == s.len(),
    decreases s.len(),
{
    if s.len() > 0 {
        lemma_counts_partition(s.drop_last());
    }
}

/// The results of one run, in the order their fetches were started.
pub struct RunReport {
    pub results: Vec<PageResult>,
    pub successful: usize,
    pub failed: usize,
}

/// The report over `results`, order kept, with the numbers of results
/// without and with an error.
pub fn summarize(results: Vec<PageResult>) -> (r: RunReport)
    ensures
        r.results@ == results@,
        r.successful == count_ok(results@),
        r.failed == count_failed(results@),
        r.successful + r.failed == results.len(),
{
    let mut successful: usize = 0;
    let mut i: usize = 0;
    while i < results.len()
        invariant
            i <= results.len(),
            successful == count_ok(results@.take(i as int)),
            successful <= i,
        decreases results.len() - i,
    {
        assert(results@.take(i as int + 1).drop_last() =~= results@.take(i as int));
        if results[i].error.is_none() {
            successful = successful + 1;
        }
        i = i + 1;
    }
    assert(results@.take(i as int) =~= results@);
    proof {
        lemma_counts_partition(results@);
    }
    let failed = results.len() - successful;
    RunReport { results, successful, failed }
}

} // verus!
