//! Why something did not work.

use vstd::prelude::*;

use crate::text;

verus! {

/// What failed, and the causes behind it, each behind the one before it.
#[derive(Debug)]
pub struct Failure {
    pub message: String,
    pub causes: Vec<String>,
}

/// A `Failure` as mathematical values.
#[verifier::ext_equal]
pub struct FailureView {
    pub message: Seq<char>,
    pub causes: Seq<Seq<char>>,
}

impl View for Failure {
    type V = FailureView;

    open spec fn view(&self) -> FailureView {
        FailureView { message: self.message@, causes: text::texts(self.causes@) }
    }
}

/// A failure without a cause behind it.
pub open spec fn plain_of(message: Seq<char>) -> FailureView {
    FailureView { message, causes: Seq::empty() }
}

/// A failure with one cause behind it.
pub open spec fn caused_of(message: Seq<char>, cause: Seq<char>) -> FailureView {
    FailureView { message, causes: seq![cause] }
}

/// A failure with another one, and its causes, behind it.
pub open spec fn wrapped_of(message: Seq<char>, inner: FailureView) -> FailureView {
    FailureView { message, causes: seq![inner.message] + inner.causes }
}

/// A failure and its causes in one line.
pub open spec fn chain_of(f: FailureView) -> Seq<char> {
    text::join_of(seq![f.message] + f.causes, ": "@)
}

impl Failure {
    /// A failure that needs no further cause.
    pub fn plain(message: &str) -> (r: Failure)
        ensures
            r@ == plain_of(message@),
    {
        let r = Failure { message: message.to_string(), causes: Vec::new() };
        assert(r@ =~= plain_of(message@));
        r
    }

    /// A failure with a cause behind it.
    pub fn caused(message: &str, cause: &str) -> (r: Failure)
        ensures
            r@ == caused_of(message@, cause@),
    {
        let r = Failure { message: message.to_string(), causes: vec![cause.to_string()] };
        assert(r@ =~= caused_of(message@, cause@));
        r
    }

    /// A failure with another one, and its causes, behind it.
    pub fn wrapped(message: &str, inner: &Failure) -> (r: Failure)
        ensures
            r@ == wrapped_of(message@, inner@),
    {
        let mut causes: Vec<String> = Vec::new();
        causes.push(inner.message.clone());
        assert(text::texts(causes@) =~= seq![inner.message@]);
        text::push_all(&mut causes, &inner.causes);
        Failure { message: message.to_string(), causes }
    }

    /// The failure and its causes in one line.
    pub fn chain(&self) -> (r: String)
        ensures
            r@ == chain_of(self@),
    {
        let mut all: Vec<String> = Vec::new();
        all.push(self.message.clone());
        assert(text::texts(all@) =~= seq![self.message@]);
        text::push_all(&mut all, &self.causes);
        text::join(&all, ": ")
    }
}

/// A failure in one line is what failed and each cause in its order, with a
/// colon and a blank before each; a cause that is put in front comes first.
pub proof fn causes_follow_what_failed(
    message: Seq<char>,
    cause: Seq<char>,
    inner: FailureView,
)
    ensures
        chain_of(plain_of(message)) == message,
        chain_of(caused_of(message, cause)) == message + ": "@ + cause,
        chain_of(wrapped_of(message, inner)) == message + ": "@ + chain_of(inner),
        caused_of(message, cause) == wrapped_of(message, plain_of(cause)),
        plain_of(message).message == message,
        wrapped_of(message, inner).message == message,
        wrapped_of(message, inner).causes[0] == inner.message,
        wrapped_of(message, inner).causes.drop_first() == inner.causes,
{
    let none = Seq::<Seq<char>>::empty();
    assert(seq![message] + none =~= seq![message]);
    let two = seq![message] + seq![cause];
    assert(two.drop_last() =~= seq![message]);
    let w = wrapped_of(message, inner);
    let all = seq![message] + w.causes;
    text::lemma_join_first(all, ": "@);
    assert(all.drop_first() =~= seq![inner.message] + inner.causes);
    assert(w.causes.drop_first() =~= inner.causes);
    assert(seq![cause] + none =~= seq![cause]);
}

} // verus!
