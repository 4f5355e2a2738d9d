use vstd::prelude::*;

verus! {

/// `std::io::Error`, carried through the library unread.
#[verifier::external_type_specification]
#[verifier::external_body]
pub struct ExIoError(std::io::Error);

pub type AppResult<T> = Result<T, AppError>;

/// Why a run could not go on.
#[derive(Debug)]
pub enum AppError {
    Cli(String),
    Io { context: String, source: std::io::Error },
    Iso { context: String },
    Manifest { context: String, source: std::io::Error },
}

/// `e` is a command-line error with message `msg`.
pub open spec fn is_cli_error(e: AppError, msg: Seq<char>) -> bool {
    e matches AppError::Cli(m) && m@ == msg
}

/// `e` is an error about the ISO image's structure with context `msg`.
pub open spec fn is_iso_error(e: AppError, msg: Seq<char>) -> bool {
    e matches AppError::Iso { context } && context@ == msg
}

/// The exit status the program reports for an error.
pub open spec fn spec_exit_code(e: AppError) -> u8 {
    match e {
        AppError::Cli(_) => 2,
        _ => 1,
    }
}

impl AppError {
    pub fn io(context: String, source: std::io::Error) -> (e: AppError)
        ensures
            e == (AppError::Io { context, source }),
    {
        AppError::Io { context, source }
    }

    pub fn iso(context: String) -> (e: AppError)
        ensures
            is_iso_error(e, context@),
    {
        AppError::Iso { context }
    }

    pub fn manifest(context: String, source: std::io::Error) -> (e: AppError)
        ensures
            e == (AppError::Manifest { context, source }),
    {
        AppError::Manifest { context, source }
    }

    /// The message printed for the error: the context, then for an I/O
    /// error `: ` and the system's description of it.
    pub fn message(&self) -> (r: String)
        ensures
            match *self {
                AppError::Cli(m) => r@ == m@,
                AppError::Iso { context } => r@ == context@,
                AppError::Io { context, .. } => exists|t: Seq<char>| r@ == context@ + ": "@ + t,
                AppError::Manifest { context, .. } => exists|t: Seq<char>| r@ == context@ + ": "@
                    + t,
            },
    {
        match self {
            AppError::Cli(m) => m.clone(),
            AppError::Iso { context } => context.clone(),
            AppError::Io { context, source } | AppError::Manifest { context, source } => {
                let t = source.to_string();
                let mut r = context.clone();
                r.append(": ");
                r.append(t.as_str());
                assert(r@ == context@ + ": "@ + t@);
                r
            },
        }
    }

    pub fn exit_code(&self) -> (code: u8)
        ensures
            code == spec_exit_code(*self),
    {
        match self {
            AppError::Cli(_) => 2,
            AppError::Io { .. } | AppError::Iso { .. } | AppError::Manifest { .. } => 1,
        }
    }
}

} // verus!
