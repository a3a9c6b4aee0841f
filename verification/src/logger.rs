//! The log.

use crate::config::LogConfig;
use crate::home::{configured_dir, resolve_configured_work_dir};
use crate::text::opt_str;
use vstd::prelude::*;

verus! {

/// `chrono::Local::now`, formatted: the time and its offset where the program
/// runs. Nothing is claimed of it, as it differs from call to call and from
/// place to place.
#[verifier::external_body]
fn local_time() -> (r: String) {
    chrono::Local::now().format("%Y-%m-%dT%H:%M:%S%.3f%:z").to_string()
}

/// A line of the log.
pub open spec fn line_text(time: Seq<char>, level: Seq<char>, message: Seq<char>) -> Seq<char> {
    time + " "@ + level + " "@ + message + "\n"@
}

/// A line of the log.
pub fn log_line(time: &str, level: &str, message: &str) -> (r: String)
    ensures
        r@ == line_text(time@, level@, message@),
{
    let mut out = String::from_str(time);
    out.append(" ");
    out.append(level);
    out.append(" ");
    out.append(message);
    out.append("\n");
    out
}

/// The line that logs what happens in the ordinary course of things.
pub fn info(message: &str) -> (r: String)
    ensures
        exists|time: Seq<char>| r@ == #[trigger] line_text(time, "INFO"@, message@),
{
    let time = local_time();
    log_line(time.as_str(), "INFO", message)
}

/// The line that logs what went wrong.
pub fn error(message: &str) -> (r: String)
    ensures
        exists|time: Seq<char>| r@ == #[trigger] line_text(time, "ERROR"@, message@),
{
    let time = local_time();
    log_line(time.as_str(), "ERROR", message)
}

/// Where the log is kept: at the configured place, given the user's home
/// directory, else in the directory for temporary files.
pub fn log_path(config: &LogConfig, env_home: Option<&str>) -> (r: String)
    ensures
        ({
            let configured = match config.path {
                Some(path) => configured_dir(path@, opt_str(env_home)),
                None => None,
            };
            r@ == match configured {
                Some(path) => path,
                None => "/tmp/llm-loop.log"@,
            }
        }),
{
    let configured = match &config.path {
        Some(path) => resolve_configured_work_dir(path.as_str(), env_home),
        None => None,
    };
    match configured {
        Some(path) => path,
        None => String::from_str("/tmp/llm-loop.log"),
    }
}

/// Whether the log is emptied before the next line, given its size where that
/// is known. A limit of zero is none.
pub fn should_truncate(size: Option<u64>, max_size: u64) -> (r: bool)
    ensures
        r == (max_size > 0 && size is Some && size->0 >= max_size),
{
    match size {
        Some(n) => max_size > 0 && n >= max_size,
        None => false,
    }
}

} // verus!
