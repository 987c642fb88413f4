//! What comes of running a command.

use vstd::prelude::*;

use crate::failure::Failure;

verus! {

/// What `String::from_utf8_lossy` makes of a sequence of bytes.
pub uninterp spec fn utf8_lossy(bytes: Seq<u8>) -> Seq<char>;

/// `String::from_utf8_lossy`: valid UTF-8 is decoded as it stands; in any other
/// input the ill-formed parts are replaced, the same way each time. How many
/// replacement characters stand for an ill-formed part is left unsaid.
#[verifier::external_body]
pub(crate) fn lossy_text(bytes: &[u8]) -> (r: String)
    ensures
        r@ == utf8_lossy(bytes@),
        vstd::utf8::valid_utf8(bytes@) ==> r@ == vstd::utf8::decode_utf8(bytes@),
{
    String::from_utf8_lossy(bytes).into_owned()
}

/// What came of running a command.
#[derive(Debug)]
pub enum RunOutcome {
    /// It could not be started; the failure says why.
    NotStarted(Failure),
    /// It ran to its end.
    Finished { success: bool, stdout: Vec<u8>, stderr: Vec<u8> },
}

/// The command ran and reported success.
pub open spec fn succeeded(o: RunOutcome) -> bool {
    o matches RunOutcome::Finished { success, .. } && success
}

/// Whether the command ran and reported success.
pub fn has_succeeded(o: &RunOutcome) -> (r: bool)
    ensures
        r == succeeded(*o),
{
    match o {
        RunOutcome::NotStarted(_) => false,
        RunOutcome::Finished { success, .. } => *success,
    }
}

/// What a command printed.
pub open spec fn printed(o: RunOutcome) -> Seq<char> {
    match o {
        RunOutcome::NotStarted(_) => Seq::empty(),
        RunOutcome::Finished { stdout, .. } => utf8_lossy(stdout@),
    }
}

/// What a command complained about.
pub open spec fn complained(o: RunOutcome) -> Seq<char> {
    match o {
        RunOutcome::NotStarted(_) => Seq::empty(),
        RunOutcome::Finished { stderr, .. } => utf8_lossy(stderr@),
    }
}

} // verus!
