//! What can go wrong, as a value.

use vstd::prelude::*;

verus! {

/// A fatal error. The text type `T` is `String` in programs and `Seq<char>` in
/// specifications.
#[derive(Debug, PartialEq, Eq)]
pub enum BtramError<T = String> {
    /// The configuration file cannot be opened.
    ConfigError,
    /// The configuration holds something that cannot be used.
    BadConfig(T),
    /// The `subvol` option of a mount is not an absolute path.
    BadSubvolPath(T),
    /// An external command failed or answered unintelligibly.
    CommandFailed(T),
    /// An external command wrote bytes that are not UTF-8; the text says where.
    InvalidUtf8(T),
}

impl DeepView for BtramError {
    type V = BtramError<Seq<char>>;

    open spec fn deep_view(&self) -> BtramError<Seq<char>> {
        match *self {
            BtramError::ConfigError => BtramError::ConfigError,
            BtramError::BadConfig(s) => BtramError::BadConfig(s@),
            BtramError::BadSubvolPath(s) => BtramError::BadSubvolPath(s@),
            BtramError::CommandFailed(s) => BtramError::CommandFailed(s@),
            BtramError::InvalidUtf8(s) => BtramError::InvalidUtf8(s@),
        }
    }
}

/// The meaning of a result.
pub open spec fn result_view<T: DeepView>(result: Result<T, BtramError>) -> Result<
    T::V,
    BtramError<Seq<char>>,
> {
    match result {
        Ok(value) => Ok(value.deep_view()),
        Err(e) => Err(e.deep_view()),
    }
}

/// The text in which an error is reported.
pub open spec fn error_text(e: BtramError<Seq<char>>) -> Seq<char> {
    match e {
        BtramError::ConfigError => "Missing or inaccessible config"@,
        BtramError::BadConfig(s) => "Bad config: "@ + s,
        BtramError::BadSubvolPath(s) => "Bad subvol path: "@ + s,
        BtramError::CommandFailed(s) => "Command execution failed: "@ + s,
        BtramError::InvalidUtf8(s) => s,
    }
}

impl BtramError {
    /// The error as a text for the user.
    pub fn message(&self) -> (text: String)
        ensures
            text@ == error_text(self.deep_view()),
    {
        let mut text = String::new();
        match self {
            BtramError::ConfigError => {
                text.append("Missing or inaccessible config");
                assert(text@ =~= "Missing or inaccessible config"@);
            },
            BtramError::BadConfig(s) => {
                text = "Bad config: ".to_owned();
                text.append(s.as_str());
            },
            BtramError::BadSubvolPath(s) => {
                text = "Bad subvol path: ".to_owned();
                text.append(s.as_str());
            },
            BtramError::CommandFailed(s) => {
                text = "Command execution failed: ".to_owned();
                text.append(s.as_str());
            },
            BtramError::InvalidUtf8(s) => {
                text = s.clone();
            },
        }
        text
    }
}

/// The text of an error says of what kind it is and names the cause.
pub proof fn law_errors_name_their_cause(s: Seq<char>)
    ensures
        error_text(BtramError::ConfigError) == "Missing or inaccessible config"@,
        error_text(BtramError::BadConfig(s)) == "Bad config: "@ + s,
        error_text(BtramError::BadSubvolPath(s)) == "Bad subvol path: "@ + s,
        error_text(BtramError::CommandFailed(s)) == "Command execution failed: "@ + s,
        error_text(BtramError::InvalidUtf8(s)) == s,
{
}

} // verus!
