//! What a handler is given for the length of one dispatch, and what the
//! parser holds a handler by.

use vstd::prelude::*;
use crate::token::{following, has_value, is_flag, named_flag, texts};

verus! {

/// One dispatch in progress: the tokens, the place of the flag token that is
/// being dispatched, and whether its value has been taken.
///
/// The handler gets a `Dispatch` and the flag. It may fetch the flag's value
/// with [`Dispatch::eargf`] or [`Dispatch::argf`]; the parser then steps
/// over the value as well as the flag. A handler has one fetch for each
/// dispatch: whether the value was taken is a yes or a no, not a count, so a
/// second fetch returns the same token again and moves nothing.
pub struct Dispatch<'t> {
    tokens: &'t Vec<String>,
    at: usize,
    taken: bool,
}

impl<'t> Dispatch<'t> {
    /// The tokens that are being scanned.
    pub closed spec fn tokens(&self) -> Seq<Seq<char>> {
        texts(self.tokens@)
    }

    /// The index of the flag token that is being dispatched.
    pub closed spec fn at(&self) -> int {
        self.at as int
    }

    /// Whether the flag's value has been taken.
    pub closed spec fn taken(&self) -> bool {
        self.taken
    }

    /// The dispatch has just been opened for `flag`: nothing is taken yet, a
    /// flag token other than the program's name is being dispatched, and
    /// `flag` is the flag that it names where it names one.
    pub open spec fn opened_for(&self, flag: char) -> bool {
        &&& !self.taken()
        &&& 1 <= self.at() < self.tokens().len()
        &&& is_flag(self.tokens()[self.at()])
        &&& named_flag(self.tokens()[self.at()]) matches Some(named) ==> named == flag
    }

    /// The dispatch of the token at `at`, with nothing taken.
    pub(crate) fn open(tokens: &'t Vec<String>, at: usize) -> (dispatch: Self)
        ensures
            dispatch.tokens() == texts(tokens@),
            dispatch.at() == at,
            !dispatch.taken(),
    {
        Dispatch { tokens, at, taken: false }
    }

    /// Ends the dispatch and says whether the value was taken.
    pub(crate) fn close(self) -> (taken: bool)
        ensures
            taken == self.taken(),
    {
        self.taken
    }

    /// The value of the flag, which must be there: the token right after the
    /// flag token.
    ///
    /// A flag that is given to `eargf` promises a value. Where no token
    /// follows, or an empty one, the promise is broken and there is nothing
    /// to go on with: the precondition rules such a call out, and a handler
    /// that makes it unchecked ends in a panic.
    pub fn eargf(&mut self) -> (value: &'t str)
        requires
            has_value(old(self).tokens(), old(self).at()),
        ensures
            value@ == old(self).tokens()[old(self).at() + 1],
            final(self).taken(),
            final(self).tokens() == old(self).tokens(),
            final(self).at() == old(self).at(),
    {
        let value = following(self.tokens, self.at).expect("Expected an argument, but found none.");
        self.taken = true;
        value
    }

    /// The value of the flag, if there is one: the token right after the flag
    /// token, unless that is missing or empty. Without a value nothing is
    /// taken.
    pub fn argf(&mut self) -> (value: Option<&'t str>)
        ensures
            value is Some == has_value(old(self).tokens(), old(self).at()),
            value matches Some(s) ==> s@ == old(self).tokens()[old(self).at() + 1],
            final(self).taken() == (old(self).taken() || value is Some),
            final(self).tokens() == old(self).tokens(),
            final(self).at() == old(self).at(),
    {
        let value = following(self.tokens, self.at);
        if value.is_some() {
            self.taken = true;
        }
        value
    }
}

/// What the parser calls for each flag. Nothing is asked of what a handler
/// does with the dispatch: known of the dispatch after the call is that the
/// handler left it so.
pub(crate) trait Handler {
    /// The handler can be called on any dispatch over `tokens` that has just
    /// been opened for the flag it is called with.
    spec fn ready(&self, tokens: Seq<Seq<char>>) -> bool;

    /// The handler, called with `flag`, may leave `dispatch` as it does: the
    /// dispatch as it was handed over and as it came back are one outcome of
    /// the call.
    spec fn outcome(&self, dispatch: &mut Dispatch<'_>, flag: char) -> bool;

    /// One call of the handler. The handler itself is after the call what it
    /// was before it.
    fn handle(&mut self, dispatch: &mut Dispatch<'_>, flag: char)
        requires
            old(self).ready(old(dispatch).tokens()),
            old(dispatch).opened_for(flag),
        ensures
            forall|tokens: Seq<Seq<char>>| final(self).ready(tokens) == old(self).ready(tokens),
            forall|d: &mut Dispatch<'_>, f: char| final(self).outcome(d, f) == old(self).outcome(d, f),
            exists|given: &mut Dispatch<'_>|
                *given == *old(dispatch) && *final(given) == *final(dispatch) && #[trigger] old(
                    self,
                ).outcome(given, flag),
    ;
}

/// A closure as a handler.
pub(crate) struct Callback<C> {
    pub(crate) f: C,
}

impl<C: FnMut(&mut Dispatch<'_>, char)> Handler for Callback<C> {
    open spec fn ready(&self, tokens: Seq<Seq<char>>) -> bool {
        forall|dispatch: &mut Dispatch<'_>, flag: char|
            dispatch.tokens() == tokens && dispatch.opened_for(flag) ==> call_requires(
                self.f,
                (dispatch, flag),
            )
    }

    open spec fn outcome(&self, dispatch: &mut Dispatch<'_>, flag: char) -> bool {
        call_ensures(self.f, (dispatch, flag), ())
    }

    fn handle(&mut self, dispatch: &mut Dispatch<'_>, flag: char) {
        let ghost f = self.f;
        let ghost before = *dispatch;
        (self.f)(dispatch, flag);
        proof {
            let given = choose|given: &mut Dispatch<'_>|
                *given == before && *final(given) == *dispatch && call_ensures(
                    f,
                    (given, flag),
                    (),
                );
            assert(old(self).outcome(given, flag));
        }
    }
}

} // verus!
