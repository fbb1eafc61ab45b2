//! Error type shared by the library and both tools.
use jiff::Error as JiffError;
use vstd::prelude::*;

verus! {

/// Error type for this crate.
#[derive(Debug)]
#[non_exhaustive]
pub enum Error {
    /// A time input that is not a clock time.
    Time(String),
    /// A date input that is not `YYYY-MM-DD`.
    Date(String),
    /// A zone input that is not a label, an offset or an IANA name.
    Zone(String, JiffError),
    /// A config entry whose first word is not an IANA zone.
    Place(String, JiffError),
    /// A moment that cannot be represented in the source zone.
    Moment(JiffError),
}

/// Result type for this crate.
pub type Result<T = ()> = core::result::Result<T, Error>;

/// How `format!("{:?}", ..)` writes a string: in double quotes, with
/// special chars escaped.
pub uninterp spec fn debug_quoted(text: Seq<char>) -> Seq<char>;

/// `format!("{:?}", text)`: the `Debug` form of a string.
#[verifier::external_body]
fn quoted(text: &str) -> (res: String)
    ensures
        res@ == debug_quoted(text@),
{
    format!("{text:?}")
}

/// The text that an error opens with.
pub open spec fn message_head(e: Error) -> Seq<char> {
    match e {
        Error::Time(_) => "time must look like 20:30, 8.30pm or 8pm, got "@,
        Error::Date(_) => "date must look like 2026-09-22, got "@,
        Error::Zone(_, _) => "zone must be a config label, an offset like GMT+4 or an IANA name, got "@,
        Error::Place(_, _) => "config entry must start with an IANA zone, got "@,
        Error::Moment(_) => "moment cannot be represented in the source zone"@,
    }
}

/// The input that an error quotes, if any.
pub open spec fn quoted_input(e: Error) -> Option<Seq<char>> {
    match e {
        Error::Time(s) => Some(s@),
        Error::Date(s) => Some(s@),
        Error::Zone(s, _) => Some(s@),
        Error::Place(s, _) => Some(s@),
        Error::Moment(_) => None,
    }
}

/// The message of an error, given the quoted form of its input.
pub open spec fn message_with(e: Error, quoted: Seq<char>) -> Seq<char> {
    match quoted_input(e) {
        Some(_) => message_head(e) + quoted,
        None => message_head(e),
    }
}

/// The message shown to the user for an error.
pub open spec fn error_message(e: Error) -> Seq<char> {
    match quoted_input(e) {
        Some(input) => message_with(e, debug_quoted(input)),
        None => message_with(e, Seq::empty()),
    }
}

impl Error {
    /// The input the error is about, if it quotes one.
    pub fn input(&self) -> (res: Option<&String>)
        ensures
            match res {
                Some(s) => quoted_input(*self) == Some(s@),
                None => quoted_input(*self) is None,
            },
    {
        match self {
            Error::Time(s) => Some(s),
            Error::Date(s) => Some(s),
            Error::Zone(s, _) => Some(s),
            Error::Place(s, _) => Some(s),
            Error::Moment(_) => None,
        }
    }

    /// The message of the error, where `quoted` is the quoted form of its
    /// input; errors without an input ignore it.
    pub fn message_with(&self, quoted: &str) -> (res: String)
        ensures
            res@ == message_with(*self, quoted@),
    {
        let head = match self {
            Error::Time(_) => "time must look like 20:30, 8.30pm or 8pm, got ",
            Error::Date(_) => "date must look like 2026-09-22, got ",
            Error::Zone(_, _) => "zone must be a config label, an offset like GMT+4 or an IANA name, got ",
            Error::Place(_, _) => "config entry must start with an IANA zone, got ",
            Error::Moment(_) => "moment cannot be represented in the source zone",
        };
        let head = String::from_str(head);
        match self {
            Error::Moment(_) => head,
            _ => head.concat(quoted),
        }
    }

    /// The message shown to the user, as the error's `Display` would write it.
    pub fn message(&self) -> (res: String)
        ensures
            res@ == error_message(*self),
    {
        match self.input() {
            Some(input) => {
                let q = quoted(input.as_str());
                self.message_with(q.as_str())
            },
            None => self.message_with(""),
        }
    }
}

} // verus!
