//! The error of this library.
use vstd::prelude::*;
use vstd::std_specs::convert::FromSpecImpl;
use vstd::string::StringExecFns;

verus! {

/// The error type of `std::io`. Nothing of its inside is known here.
#[verifier::external_type_specification]
#[verifier::external_body]
pub struct ExIoError(std::io::Error);

/// An error with the message that describes it.
#[derive(Debug)]
pub struct OverviewerError {
    msg: String,
}

impl View for OverviewerError {
    type V = Seq<char>;

    /// The message.
    closed spec fn view(&self) -> Seq<char> {
        self.msg@
    }
}

/// What stands before the message of an error that came from reading.
pub open spec fn io_prefix() -> Seq<char> {
    seq!['I', 'O', 'E', 'r', 'r', 'o', 'r', ':', ' ']
}

/// What stands before the message when an error is shown.
pub open spec fn shown_prefix() -> Seq<char> {
    "OverviewerError: "@
}

/// Calls `to_string` on an error of `std::io`: the words in which it describes itself.
#[verifier::external_body]
fn io_error_text(e: &std::io::Error) -> (text: String) {
    e.to_string()
}

impl OverviewerError {
    /// The message of this error.
    pub fn description(&self) -> (r: &str)
        ensures
            r@ == self@,
    {
        self.msg.as_str()
    }

    /// The error as it is shown: its message after the name of the type.
    pub fn to_text(&self) -> (r: String)
        ensures
            r@ == shown_prefix() + self@,
    {
        let mut r = String::from_str("OverviewerError: ");
        r.append(self.msg.as_str());
        r
    }

    /// The error for a failure of reading or unpacking that describes itself as
    /// `text`: its message is `text` behind `IOError: `.
    pub fn from_io_text(text: &str) -> (r: OverviewerError)
        ensures
            r@ == io_prefix() + text@,
    {
        proof {
            reveal_strlit("IOError: ");
        }
        let mut msg = String::from_str("IOError: ");
        assert(msg@ =~= io_prefix());
        msg.append(text);
        OverviewerError { msg }
    }

    /// The error for a failure of reading or unpacking: its message is what `e` says
    /// of itself, behind `IOError: `.
    pub fn from_io(e: std::io::Error) -> (r: OverviewerError)
        ensures
            io_prefix().is_prefix_of(r@),
    {
        let text = io_error_text(&e);
        OverviewerError::from_io_text(text.as_str())
    }
}

impl From<String> for OverviewerError {
    /// The error with the message `e`.
    fn from(e: String) -> (r: OverviewerError)
        ensures
            r@ == e@,
    {
        OverviewerError { msg: e }
    }
}

impl FromSpecImpl<String> for OverviewerError {
    open spec fn obeys_from_spec() -> bool {
        true
    }

    closed spec fn from_spec(e: String) -> OverviewerError {
        OverviewerError { msg: e }
    }
}

impl From<&'static str> for OverviewerError {
    /// The error with the message `e`.
    fn from(e: &'static str) -> (r: OverviewerError)
        ensures
            r@ == e@,
    {
        OverviewerError { msg: String::from_str(e) }
    }
}

/// No text can be made into a `String` in a specification: what `from` returns for
/// a `&str` is stated at `from` itself.
impl FromSpecImpl<&'static str> for OverviewerError {
    open spec fn obeys_from_spec() -> bool {
        false
    }

    closed spec fn from_spec(e: &'static str) -> OverviewerError {
        arbitrary()
    }
}

} // verus!
