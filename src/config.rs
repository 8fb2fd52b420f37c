//! The run's configuration as plain values, and the decisions read off it.
//! Reading the configuration file is the caller's part.
use vstd::prelude::*;
use vstd::utf8::encode_utf8;
use crate::text::bytes_eq;

verus! {

/// Settings of a run.
pub struct Config {
    /// Root directory of the aggregated logs.
    pub log_directory: String,
    /// Number of compute workers; the machine's core count when absent.
    pub worker_pool_size: Option<usize>,
    /// Core ids to pin workers to, by worker index.
    pub core_ids: Option<Vec<usize>>,
    /// Domain rules.
    pub query_domain: Vec<String>,
    /// IP rules.
    pub source_ip: Vec<String>,
    /// Hour prefixes of the files to read.
    pub query_time_hour: Option<Vec<String>>,
    /// Day prefixes of the files to read.
    pub query_time_day: Option<Vec<String>>,
    /// `yes` (in any case) to also search the native logs.
    pub is_query_native_log: String,
    /// Root directory of the native logs.
    pub native_log_loc: Option<String>,
    /// Base directory of the native task's results.
    pub native_log_result_loc: Option<String>,
    /// Base directory of the aggregated task's results.
    pub aggregated_log_result_loc: Option<String>,
}

/// What `str::to_lowercase` makes of a string.
pub uninterp spec fn lower_of(s: Seq<char>) -> Seq<char>;

/// Relies on `str::to_lowercase`, which depends on the characters alone.
#[verifier::external_body]
fn lowercase(s: &str) -> (r: String)
    ensures
        r@ == lower_of(s@),
{
    s.to_lowercase()
}

/// Whether an already lower-cased answer is `yes`.
pub fn answer_is_yes(lowered: &str) -> (r: bool)
    ensures
        r == (lowered@ == "yes"@),
{
    let r = bytes_eq(lowered.as_bytes(), "yes".as_bytes());
    proof {
        vstd::utf8::encode_utf8_decode_utf8(lowered@);
        vstd::utf8::encode_utf8_decode_utf8("yes"@);
    }
    r
}

/// A rule list given as one string: nothing when it is empty, else that one
/// rule.
pub fn rules_from_text(s: String) -> (r: Vec<String>)
    ensures
        s@.len() == 0 ==> r@.len() == 0,
        s@.len() != 0 ==> r@.len() == 1 && r@[0]@ == s@,
{
    if s.as_str().is_empty() {
        Vec::new()
    } else {
        let mut v: Vec<String> = Vec::new();
        v.push(s);
        v
    }
}

impl Config {
    /// The number of workers: the configured size, or `available`.
    pub fn pool_size(&self, available: usize) -> (r: usize)
        ensures
            r == match self.worker_pool_size {
                Some(n) => n,
                None => available,
            },
    {
        match self.worker_pool_size {
            Some(n) => n,
            None => available,
        }
    }

    /// The core that worker `i` is pinned to, if one is configured for it.
    pub fn core_for_worker(&self, i: usize) -> (r: Option<usize>)
        ensures
            r == match self.core_ids {
                Some(ids) => if i < ids@.len() {
                    Some(ids@[i as int])
                } else {
                    None
                },
                None => None,
            },
    {
        match &self.core_ids {
            Some(ids) => if i < ids.len() {
                Some(ids[i])
            } else {
                None
            },
            None => None,
        }
    }

    /// Whether the native logs are searched too: the setting is `yes` in any
    /// case.
    pub fn native_enabled(&self) -> (r: bool)
        ensures
            r == (lower_of(self.is_query_native_log@) == "yes"@),
    {
        let lowered = lowercase(self.is_query_native_log.as_str());
        answer_is_yes(lowered.as_str())
    }
}

} // verus!
