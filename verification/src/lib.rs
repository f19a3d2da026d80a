//! Backup-artifact scanner core: candidate URL generation, response
//! classification, success-rate scheduling, and per-host adaptive state.
//!
//! The library is pure decision logic. Network transport, file I/O and
//! progress display live outside it and feed plain values in and out.
use vstd::prelude::*;

pub mod catalog;
pub mod classify;
pub mod headers;
pub mod hoststate;
pub mod patterns;
pub mod sched;
pub mod stats;
pub mod text;
pub mod urlinfo;

verus! {

/// Errors of the scanner core. Configuration errors abort a run;
/// scan errors describe a failure inside an ongoing scan.
#[derive(Debug, Clone)]
pub enum BackerError {
    /// Bad configuration: an unparseable target URL or unusable input.
    Config(String),
    /// A failure during scanning.
    Scan(String),
    /// Anything else.
    Other(String),
}

/// How a result list is rendered by the persistence collaborator.
#[derive(Debug, Clone, Copy, PartialEq, Eq, Structural)]
pub enum OutputFormat {
    Json,
    Csv,
    Markdown,
}

/// Scan-wide configuration.
#[derive(Debug, Clone)]
pub struct ScanConfig {
    /// Path of the file that lists the target sites.
    pub targets_file: String,
    /// Path of an optional custom pattern list.
    pub patterns_file: Option<String>,
    /// Requested number of concurrent probes.
    pub threads: usize,
    /// Request timeout in seconds.
    pub timeout: u64,
    /// Retry budget (exposed; a candidate is probed once by design).
    pub retry_count: u32,
    /// The fixed User-Agent, used when header spoofing is off.
    pub user_agent: String,
    /// Output rendering format.
    pub output_format: OutputFormat,
    /// Optional output path.
    pub output_file: Option<String>,
    /// Whether discovered content is marked as verified.
    pub verify_content: bool,
    /// Debug logging toggle.
    pub debug: bool,
}

impl Default for ScanConfig {
    fn default() -> (c: Self)
        ensures
            c.targets_file@ == Seq::<char>::empty(),
            c.patterns_file is None,
            c.threads == 10,
            c.timeout == 30,
            c.retry_count == 3,
            c.output_format == OutputFormat::Json,
            c.output_file is None,
            !c.verify_content,
            !c.debug,
    {
        ScanConfig {
            targets_file: String::new(),
            patterns_file: None,
            threads: 10,
            timeout: 30,
            retry_count: 3,
            user_agent: String::from_str(
                "Mozilla/5.0 (Windows NT 10.0; Win64; x64) AppleWebKit/537.36 (KHTML, like Gecko) Chrome/91.0.4472.124 Safari/537.36",
            ),
            output_format: OutputFormat::Json,
            output_file: None,
            verify_content: false,
            debug: false,
        }
    }
}

/// One discovered backup artifact.
#[derive(Debug, Clone)]
pub struct ScanResult {
    /// The candidate URL that was confirmed.
    pub url: String,
    /// HTTP status code of the confirming response.
    pub status_code: u16,
    /// Content-Type header, when present.
    pub content_type: Option<String>,
    /// Content-Length header, when present.
    pub content_length: Option<u64>,
    /// Whether the content itself was verified.
    pub verified: bool,
}

} // verus!
