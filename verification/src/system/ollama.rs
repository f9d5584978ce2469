//! Finding, starting and waiting for a local Ollama install: the decisions.
//! Running the commands and making the requests is the caller's part.

use vstd::prelude::*;
use crate::text::concat2;

verus! {

/// How long to wait for a started server, in milliseconds.
pub const DEFAULT_WAIT_TIMEOUT_MS: u64 = 8000;

/// How long to pause between checks, in milliseconds.
pub const POLL_INTERVAL_MS: u64 = 400;

/// The commands to try, in order, to find Ollama: `ollama` on the path,
/// then the installer's default places (on Windows under the given
/// `LOCALAPPDATA` and `ProgramFiles` folders, where those are set).
pub open spec fn candidates_spec(windows: bool, local_app_data: Option<Seq<char>>, program_files: Option<Seq<char>>) -> Seq<
    Seq<char>,
> {
    if windows {
        seq!["ollama"@] + match local_app_data {
            Some(d) => seq![d + "\\Programs\\Ollama\\ollama.exe"@],
            None => seq![],
        } + match program_files {
            Some(d) => seq![d + "\\Ollama\\ollama.exe"@],
            None => seq![],
        }
    } else {
        seq!["ollama"@, "/usr/local/bin/ollama"@, "/opt/homebrew/bin/ollama"@]
    }
}

/// The commands to try to find Ollama.
pub fn ollama_candidates(windows: bool, local_app_data: Option<String>, program_files: Option<String>) -> (r: Vec<
    String,
>)
    ensures
        r@.map_values(|s: String| s@) == candidates_spec(
            windows,
            match local_app_data {
                Some(d) => Some(d@),
                None => None,
            },
            match program_files {
                Some(d) => Some(d@),
                None => None,
            },
        ),
{
    let mut r: Vec<String> = Vec::new();
    r.push("ollama".to_owned());
    if windows {
        let ghost a = r@.map_values(|s: String| s@);
        match &local_app_data {
            Some(d) => {
                r.push(concat2(d.as_str(), "\\Programs\\Ollama\\ollama.exe"));
            },
            None => {},
        }
        let ghost b = r@.map_values(|s: String| s@);
        match &program_files {
            Some(d) => {
                r.push(concat2(d.as_str(), "\\Ollama\\ollama.exe"));
            },
            None => {},
        }
        assert(r@.map_values(|s: String| s@) =~= candidates_spec(
            windows,
            match local_app_data {
                Some(d) => Some(d@),
                None => None,
            },
            match program_files {
                Some(d) => Some(d@),
                None => None,
            },
        ));
    } else {
        r.push("/usr/local/bin/ollama".to_owned());
        r.push("/opt/homebrew/bin/ollama".to_owned());
        assert(r@.map_values(|s: String| s@) =~= seq!["ollama"@, "/usr/local/bin/ollama"@, "/opt/homebrew/bin/ollama"@]);
    }
    r
}

/// What to do while waiting for the server.
pub enum WaitStep {
    /// It answers: stop, successfully.
    Ready,
    /// Time is up: stop, unsuccessfully.
    GiveUp,
    /// Pause, then check again.
    Retry,
}

/// The next step of waiting, given whether the server answered and how long
/// the wait has lasted.
pub fn wait_step(reachable: bool, elapsed_ms: u64, timeout_ms: u64) -> (s: WaitStep)
    ensures
        reachable ==> s is Ready,
        !reachable && elapsed_ms >= timeout_ms ==> s is GiveUp,
        !reachable && elapsed_ms < timeout_ms ==> s is Retry,
{
    if reachable {
        WaitStep::Ready
    } else if elapsed_ms >= timeout_ms {
        WaitStep::GiveUp
    } else {
        WaitStep::Retry
    }
}

/// The command to run Ollama with: the one found, else plain `ollama`.
pub fn ollama_command(found: Option<String>) -> (r: String)
    ensures
        r@ == match found {
            Some(f) => f@,
            None => "ollama"@,
        },
{
    match found {
        Some(f) => f,
        None => "ollama".to_owned(),
    }
}

} // verus!
