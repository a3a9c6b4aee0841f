//! The commands of the command line.

use crate::error::{AppError, AppResult, ErrorView};
use crate::text::same_text;
use vstd::prelude::*;

verus! {

/// What the program is asked to do.
#[derive(Debug, Clone, Copy, PartialEq, Eq, Structural)]
pub enum CliCommand {
    /// Run as a daemon.
    Daemon,
    /// Log in.
    Login,
    /// Look for faults in the setup.
    Doctor,
    /// Show what the running daemon uses.
    Resources,
}

/// How the program is called.
pub open spec fn usage_text() -> Seq<char> {
    "usage: llm-loop [login|doctor|resources]"@
}

/// The command that a word stands for.
pub open spec fn command_of(word: Seq<char>) -> Option<CliCommand> {
    if word == "login"@ {
        Some(CliCommand::Login)
    } else if word == "doctor"@ {
        Some(CliCommand::Doctor)
    } else if word == "resources"@ {
        Some(CliCommand::Resources)
    } else {
        None
    }
}

/// Whether a word asks how the program is called.
pub open spec fn asks_for_help(word: Seq<char>) -> bool {
    word == "help"@ || word == "--help"@ || word == "-h"@
}

impl CliCommand {
    /// Reads the command line, without the name of the program.
    pub fn parse(args: Vec<String>) -> (r: AppResult<Self>)
        ensures
            if args@.len() == 0 {
                r == Ok::<CliCommand, AppError>(CliCommand::Daemon)
            } else if args@.len() > 1 {
                r is Err && r->Err_0@ == ErrorView::Cli(
                    "command `"@ + args@[0]@ + "` does not accept extra args\n"@ + usage_text(),
                )
            } else {
                match command_of(args@[0]@) {
                    Some(command) => r == Ok::<CliCommand, AppError>(command),
                    None => r is Err && r->Err_0@ == ErrorView::Cli(
                        if asks_for_help(args@[0]@) {
                            usage_text()
                        } else {
                            "unknown command `"@ + args@[0]@ + "`\n"@ + usage_text()
                        },
                    ),
                }
            },
    {
        if args.len() == 0 {
            return Ok(CliCommand::Daemon);
        }
        let word = args[0].as_str();
        if args.len() > 1 {
            let mut text = String::from_str("command `");
            text.append(word);
            text.append("` does not accept extra args\n");
            text.append("usage: llm-loop [login|doctor|resources]");
            return Err(AppError::Cli(text));
        }
        if same_text(word, "login") {
            return Ok(CliCommand::Login);
        }
        if same_text(word, "doctor") {
            return Ok(CliCommand::Doctor);
        }
        if same_text(word, "resources") {
            return Ok(CliCommand::Resources);
        }
        if same_text(word, "help") || same_text(word, "--help") || same_text(word, "-h") {
            return Err(
                AppError::Cli(String::from_str("usage: llm-loop [login|doctor|resources]")),
            );
        }
        let mut text = String::from_str("unknown command `");
        text.append(word);
        text.append("`\n");
        text.append("usage: llm-loop [login|doctor|resources]");
        Err(AppError::Cli(text))
    }
}

/// The words that the program knows, and no others, are commands or ask how it
/// is called.
pub proof fn law_known_words_are_commands(word: Seq<char>)
    ensures
        command_of("login"@) == Some(CliCommand::Login),
        command_of("doctor"@) == Some(CliCommand::Doctor),
        command_of("resources"@) == Some(CliCommand::Resources),
        asks_for_help("help"@) && asks_for_help("--help"@) && asks_for_help("-h"@),
        command_of(word) is Some ==> !asks_for_help(word) && command_of(word) != Some(
            CliCommand::Daemon,
        ),
        word.len() == 0 ==> command_of(word) is None && !asks_for_help(word),
{
    reveal_strlit("login");
    reveal_strlit("doctor");
    reveal_strlit("resources");
    reveal_strlit("help");
    reveal_strlit("--help");
    reveal_strlit("-h");
    assert("login"@.len() == 5 && "doctor"@.len() == 6 && "resources"@.len() == 9);
    assert("help"@.len() == 4 && "--help"@.len() == 6 && "-h"@.len() == 2);
    assert("doctor"@[0] == 'd' && "--help"@[0] == '-');
}

} // verus!
