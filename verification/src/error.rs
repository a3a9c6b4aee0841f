//! The errors of the library.

use vstd::prelude::*;

verus! {

/// The result of an operation that may fail.
pub type AppResult<T> = Result<T, AppError>;

/// Why an operation failed. Failures of the system or of another library are
/// held as they describe themselves.
#[derive(Debug, Clone, PartialEq, Eq)]
pub enum AppError {
    /// Access to files or paths failed.
    Io(String),
    /// The configuration could not be read.
    Config(String),
    /// JSON could not be read or written.
    Json(String),
    /// An HTTP request failed.
    Http(String),
    /// There is no home directory to keep the application's files in.
    MissingHome,
    /// The configuration names a channel that is not known.
    UnsupportedChannel(String),
    /// A channel failed.
    Channel(String),
    /// A provider failed.
    Provider(String),
    /// A tool failed.
    Tool(String),
    /// A scheduled task failed.
    Cron(String),
    /// The command line is not understood.
    Cli(String),
}

/// The contents of an error.
pub enum ErrorView {
    Io(Seq<char>),
    Config(Seq<char>),
    Json(Seq<char>),
    Http(Seq<char>),
    MissingHome,
    UnsupportedChannel(Seq<char>),
    Channel(Seq<char>),
    Provider(Seq<char>),
    Tool(Seq<char>),
    Cron(Seq<char>),
    Cli(Seq<char>),
}

impl View for AppError {
    type V = ErrorView;

    open spec fn view(&self) -> ErrorView {
        match self {
            AppError::Io(m) => ErrorView::Io(m@),
            AppError::Config(m) => ErrorView::Config(m@),
            AppError::Json(m) => ErrorView::Json(m@),
            AppError::Http(m) => ErrorView::Http(m@),
            AppError::MissingHome => ErrorView::MissingHome,
            AppError::UnsupportedChannel(m) => ErrorView::UnsupportedChannel(m@),
            AppError::Channel(m) => ErrorView::Channel(m@),
            AppError::Provider(m) => ErrorView::Provider(m@),
            AppError::Tool(m) => ErrorView::Tool(m@),
            AppError::Cron(m) => ErrorView::Cron(m@),
            AppError::Cli(m) => ErrorView::Cli(m@),
        }
    }
}

impl ErrorView {
    /// What kind of failure it is, and what failed.
    pub open spec fn text(self) -> Seq<char> {
        match self {
            ErrorView::Io(m) => "io error: "@ + m,
            ErrorView::Config(m) => "config parse error: "@ + m,
            ErrorView::Json(m) => "json error: "@ + m,
            ErrorView::Http(m) => "http error: "@ + m,
            ErrorView::MissingHome => "HOME is not set; cannot resolve ~/.llm-loop"@,
            ErrorView::UnsupportedChannel(m) => "unsupported channel kind: "@ + m,
            ErrorView::Channel(m) => "channel error: "@ + m,
            ErrorView::Provider(m) => "provider error: "@ + m,
            ErrorView::Tool(m) => "tool error: "@ + m,
            ErrorView::Cron(m) => "cron error: "@ + m,
            ErrorView::Cli(m) => "cli error: "@ + m,
        }
    }
}

impl AppError {
    /// The error as people read it.
    pub fn to_text(&self) -> (r: String)
        ensures
            r@ == self@.text(),
    {
        match self {
            AppError::Io(m) => labelled("io error: ", m),
            AppError::Config(m) => labelled("config parse error: ", m),
            AppError::Json(m) => labelled("json error: ", m),
            AppError::Http(m) => labelled("http error: ", m),
            AppError::MissingHome => String::from_str("HOME is not set; cannot resolve ~/.llm-loop"),
            AppError::UnsupportedChannel(m) => labelled("unsupported channel kind: ", m),
            AppError::Channel(m) => labelled("channel error: ", m),
            AppError::Provider(m) => labelled("provider error: ", m),
            AppError::Tool(m) => labelled("tool error: ", m),
            AppError::Cron(m) => labelled("cron error: ", m),
            AppError::Cli(m) => labelled("cli error: ", m),
        }
    }

    /// A failure of a channel.
    pub fn channel(message: &str) -> (r: AppError)
        ensures
            r@ == ErrorView::Channel(message@),
    {
        AppError::Channel(String::from_str(message))
    }
}

fn labelled(label: &str, message: &String) -> (r: String)
    ensures
        r@ == label@ + message@,
{
    let mut out = String::from_str(label);
    out.append(message.as_str());
    out
}

} // verus!
