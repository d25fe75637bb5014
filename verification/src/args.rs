//! The parser: the argument vector, the cursor of the scan, and the handler.

use vstd::prelude::*;
use crate::dispatch::{Callback, Dispatch, Handler};
use crate::scan::{
    accounts_for,
    cursor_after,
    flag_in_force,
    halted,
    legal,
    lemma_one_more,
    none_taken,
    position,
    stride,
    taken_under_flag,
};
use crate::token::{
    flag_after,
    following,
    has_value,
    named_flag,
    second_char,
    starts_flag,
    tail,
    texts,
};

verus! {

/// A parser over an argument vector whose first token is the program's name.
pub struct Args<'a> {
    argv: Vec<String>,
    flag: Option<char>,
    pos: usize,
    taken: bool,
    callback: Option<Box<dyn Handler + 'a>>,
}

impl<'a> Args<'a> {
    /// The tokens, the program's name first.
    pub closed spec fn tokens(&self) -> Seq<Seq<char>> {
        texts(self.argv@)
    }

    /// The index of the token that the scan has come to.
    pub closed spec fn cursor(&self) -> int {
        self.pos as int
    }

    /// The flag that was dispatched last.
    pub closed spec fn current_flag(&self) -> Option<char> {
        self.flag
    }

    /// Whether the value of the flag at the cursor has been taken.
    pub closed spec fn consumed(&self) -> bool {
        self.taken
    }

    /// Whether a handler is registered.
    pub closed spec fn has_callback(&self) -> bool {
        self.callback is Some
    }

    /// The registered handler, if there is one, can be called.
    pub closed spec fn callback_ready(&self) -> bool {
        self.callback matches Some(handler) ==> handler.ready(self.tokens())
    }

    /// The registered handler, called with `flag`, may leave `dispatch` as it
    /// does.
    pub closed spec fn callback_outcome(&self, dispatch: &mut Dispatch<'_>, flag: char) -> bool {
        self.callback matches Some(handler) && handler.outcome(dispatch, flag)
    }

    /// The handler of `self` is the handler of `other`: what is an outcome of
    /// the one is an outcome of the other.
    pub open spec fn same_callback(&self, other: &Self) -> bool {
        forall|dispatch: &mut Dispatch<'_>, flag: char|
            self.callback_outcome(dispatch, flag) == other.callback_outcome(dispatch, flag)
    }

    /// The cursor is past the program's name and not past the end, and a
    /// value counts as taken only where one follows the cursor.
    pub open spec fn wf(&self) -> bool {
        &&& 1 <= self.cursor() <= self.tokens().len()
        &&& self.consumed() ==> has_value(self.tokens(), self.cursor())
        &&& self.callback_ready()
    }

    /// A parser over `argv`, with the cursor on the token after the program's
    /// name and no handler.
    pub fn new(argv: Vec<String>) -> (args: Self)
        requires
            argv.len() >= 1,
        ensures
            args.wf(),
            args.tokens() == texts(argv@),
            args.cursor() == 1,
            args.current_flag() is None,
            !args.consumed(),
            !args.has_callback(),
    {
        Args { argv, flag: None, pos: 1, taken: false, callback: None }
    }

    /// The program's name.
    pub fn argv0(&self) -> (name: &str)
        requires
            self.wf(),
        ensures
            name@ == self.tokens()[0],
    {
        self.argv[0].as_str()
    }

    /// Registers `cb` as the handler, in place of any earlier one.
    ///
    /// [`Args::parse`] calls the handler once for each flag token, with the
    /// dispatch and the flag. The handler must accept every dispatch over
    /// these tokens that has just been opened for its flag; what it does
    /// with it is up to it. It has one fetch for each dispatch: a second one
    /// returns the same token again and moves nothing. The outcomes of the
    /// registered handler are those of `cb`.
    pub fn with_cb<C>(self, cb: C) -> (args: Self) where C: FnMut(&mut Dispatch<'_>, char) + 'a
        requires
            self.wf(),
            forall|dispatch: &mut Dispatch<'_>, flag: char|
                dispatch.tokens() == self.tokens() && dispatch.opened_for(flag) ==> call_requires(
                    cb,
                    (dispatch, flag),
                ),
        ensures
            args.wf(),
            args.has_callback(),
            forall|dispatch: &mut Dispatch<'_>, flag: char|
                args.callback_outcome(dispatch, flag) == call_ensures(cb, (dispatch, flag), ()),
            args.tokens() == self.tokens(),
            args.cursor() == self.cursor(),
            args.current_flag() == self.current_flag(),
            args.consumed() == self.consumed(),
    {
        let mut args = self;
        let handler: Box<dyn Handler + 'a> = Box::new(Callback { f: cb });
        // The slot is built before it is stored: built in the assignment it
        // would be coerced once more, and the proof would lose the handler.
        let slot = Some(handler);
        args.callback = slot;
        args
    }

    /// The value of the flag at the cursor, which must be there: the token
    /// right after the cursor.
    ///
    /// A flag that is given to `eargf` promises a value. Where no token
    /// follows, or an empty one, the promise is broken and there is nothing
    /// to go on with: the precondition rules such a call out, and code that
    /// makes it unchecked ends in a panic.
    pub fn eargf(&mut self) -> (value: &str)
        requires
            old(self).wf(),
            has_value(old(self).tokens(), old(self).cursor()),
        ensures
            value@ == old(self).tokens()[old(self).cursor() + 1],
            final(self).consumed(),
            final(self).wf(),
            final(self).tokens() == old(self).tokens(),
            final(self).cursor() == old(self).cursor(),
            final(self).current_flag() == old(self).current_flag(),
            final(self).has_callback() == old(self).has_callback(),
            final(self).same_callback(old(self)),
    {
        self.taken = true;
        following(&self.argv, self.pos).expect("Expected an argument, but found none.")
    }

    /// The value of the flag at the cursor, if there is one: the token right
    /// after the cursor, unless that is missing or empty. Without a value
    /// nothing is taken.
    pub fn argf(&mut self) -> (value: Option<&str>)
        requires
            old(self).wf(),
        ensures
            value is Some == has_value(old(self).tokens(), old(self).cursor()),
            value matches Some(s) ==> s@ == old(self).tokens()[old(self).cursor() + 1],
            final(self).consumed() == (old(self).consumed() || value is Some),
            final(self).wf(),
            final(self).tokens() == old(self).tokens(),
            final(self).cursor() == old(self).cursor(),
            final(self).current_flag() == old(self).current_flag(),
            final(self).has_callback() == old(self).has_callback(),
            final(self).same_callback(old(self)),
    {
        let value = following(&self.argv, self.pos);
        if value.is_some() {
            self.taken = true;
        }
        value
    }

    /// Whether the scan goes on: a flag token stands at the cursor.
    pub fn at_flag(&self) -> (b: bool)
        requires
            self.wf(),
        ensures
            b == !halted(self.tokens(), self.cursor()),
    {
        self.pos < self.argv.len() && starts_flag(self.argv[self.pos].as_str())
    }

    /// Opens the dispatch of the flag token at the cursor and returns the
    /// flag in force: the one that the token names, or, where it names none,
    /// the one that was in force before. Nothing counts as taken yet.
    pub fn enter(&mut self) -> (flag: Option<char>)
        requires
            old(self).wf(),
            !halted(old(self).tokens(), old(self).cursor()),
        ensures
            flag == flag_after(old(self).current_flag(), old(self).tokens()[old(self).cursor()]),
            final(self).current_flag() == flag,
            !final(self).consumed(),
            final(self).wf(),
            final(self).tokens() == old(self).tokens(),
            final(self).cursor() == old(self).cursor(),
            final(self).has_callback() == old(self).has_callback(),
            final(self).same_callback(old(self)),
    {
        self.taken = false;
        if let Some(flag) = second_char(self.argv[self.pos].as_str()) {
            self.flag = Some(flag);
        }
        self.flag
    }

    /// Hands the dispatch that is open at the cursor to the handler, which is
    /// taken out of the parser for the length of the call and put back after
    /// it, and says whether the handler took the value: what is returned is
    /// what one call of the handler, on a dispatch of the token at the cursor
    /// with nothing taken, left in the dispatch. Without a handler nobody is
    /// called and nothing is taken.
    fn dispatch(&mut self, flag: char) -> (taken: bool)
        requires
            old(self).wf(),
            !halted(old(self).tokens(), old(self).cursor()),
            named_flag(old(self).tokens()[old(self).cursor()]) matches Some(named) ==> named
                == flag,
        ensures
            !old(self).has_callback() ==> !taken,
            old(self).has_callback() ==> exists|given: &mut Dispatch<'_>|
                given.tokens() == old(self).tokens() && given.at() == old(self).cursor()
                    && !given.taken() && #[trigger] old(self).callback_outcome(given, flag)
                    && final(given).taken() == taken,
            final(self).wf(),
            final(self).tokens() == old(self).tokens(),
            final(self).cursor() == old(self).cursor(),
            final(self).current_flag() == old(self).current_flag(),
            final(self).consumed() == old(self).consumed(),
            final(self).has_callback() == old(self).has_callback(),
            final(self).same_callback(old(self)),
    {
        let slot = self.callback.take();
        match slot {
            Some(mut handler) => {
                let ghost called = handler;
                let mut dispatch = Dispatch::open(&self.argv, self.pos);
                let ghost opened = dispatch;
                handler.handle(&mut dispatch, flag);
                proof {
                    let given = choose|given: &mut Dispatch<'_>|
                        *given == opened && *final(given) == dispatch && #[trigger] called.outcome(
                            given,
                            flag,
                        );
                    assert(old(self).callback_outcome(given, flag));
                }
                let taken = dispatch.close();
                // Built before it is stored, as in `with_cb`.
                let slot = Some(handler);
                self.callback = slot;
                taken
            },
            None => false,
        }
    }

    /// Closes the dispatch at the cursor: the cursor moves past the flag
    /// token, and past its value where that was taken.
    pub fn advance(&mut self)
        requires
            old(self).wf(),
            !halted(old(self).tokens(), old(self).cursor()),
        ensures
            final(self).cursor() == old(self).cursor() + stride(old(self).consumed()),
            final(self).cursor() > old(self).cursor(),
            !final(self).consumed(),
            final(self).wf(),
            final(self).tokens() == old(self).tokens(),
            final(self).current_flag() == old(self).current_flag(),
            final(self).has_callback() == old(self).has_callback(),
            final(self).same_callback(old(self)),
    {
        assert(self.tokens().len() == self.argv.len());
        if self.taken {
            self.taken = false;
            self.pos += 2;
        } else {
            self.pos += 1;
        }
    }

    /// A copy of the tokens from the cursor on, in their order.
    pub fn rest(&self) -> (rest: Vec<String>)
        requires
            self.wf(),
        ensures
            texts(rest@) == self.tokens().subrange(self.cursor(), self.tokens().len() as int),
    {
        tail(&self.argv, self.pos)
    }

    /// Scans the tokens from the one after the program's name and returns
    /// what is left when the scan stops.
    ///
    /// Each flag token is dispatched to the handler, under the flag that its
    /// second character names; a token that is `-` alone is dispatched under
    /// the flag that was in force before, and is passed over where none was.
    /// Where the handler took the value and one follows the flag, the cursor
    /// moves past both tokens, else past the flag token. The scan stops at
    /// the first token that is no flag, or at the end.
    ///
    /// What the handler decides is not known here. Stated is what holds of
    /// every handler: some sequence of decisions, one for each dispatch,
    /// accounts for the scan. Each decision under a flag is the handler's: it
    /// is one outcome of the handler, called with that flag on a dispatch of
    /// that token with nothing taken, and the value counts as taken where
    /// the handler took it and one follows. Without a handler no value is
    /// taken. The handler is after the scan what it was before it.
    pub fn parse(&mut self) -> (rest: Vec<String>)
        requires
            old(self).wf(),
        ensures
            final(self).wf(),
            final(self).tokens() == old(self).tokens(),
            final(self).has_callback() == old(self).has_callback(),
            final(self).same_callback(old(self)),
            !final(self).consumed(),
            texts(rest@) == old(self).tokens().subrange(
                final(self).cursor(),
                old(self).tokens().len() as int,
            ),
            exists|takes: Seq<bool>|
                (#[trigger] accounts_for(
                    old(self).tokens(),
                    old(self).current_flag(),
                    takes,
                    final(self).cursor(),
                    final(self).current_flag(),
                )) && (old(self).has_callback() || none_taken(takes)) && (forall|k: int|
                    0 <= k < takes.len() ==> (#[trigger] flag_in_force(
                        old(self).tokens(),
                        old(self).current_flag(),
                        takes.take(k + 1),
                    ) matches Some(flag) ==> old(self).has_callback() ==> exists|
                        given: &mut Dispatch<'_>,
                    |
                        given.tokens() == old(self).tokens() && given.at() == position(takes, k)
                            && !given.taken() && #[trigger] old(self).callback_outcome(given, flag)
                            && takes[k] == (final(given).taken() && has_value(
                            old(self).tokens(),
                            position(takes, k),
                        )))),
    {
        self.taken = false;
        self.pos = 1;
        let ghost mut takes: Seq<bool> = Seq::empty();
        while self.at_flag()
            invariant
                self.wf(),
                !self.consumed(),
                self.tokens() == old(self).tokens(),
                self.has_callback() == old(self).has_callback(),
                self.same_callback(old(self)),
                legal(self.tokens(), takes),
                taken_under_flag(self.tokens(), old(self).current_flag(), takes),
                self.cursor() == cursor_after(takes),
                self.current_flag() == flag_in_force(self.tokens(), old(self).current_flag(), takes),
                old(self).has_callback() || none_taken(takes),
                forall|k: int|
                    0 <= k < takes.len() ==> (#[trigger] flag_in_force(
                        old(self).tokens(),
                        old(self).current_flag(),
                        takes.take(k + 1),
                    ) matches Some(flag) ==> old(self).has_callback() ==> exists|
                        given: &mut Dispatch<'_>,
                    |
                        given.tokens() == old(self).tokens() && given.at() == position(takes, k)
                            && !given.taken() && #[trigger] old(self).callback_outcome(given, flag)
                            && takes[k] == (final(given).taken() && has_value(
                            old(self).tokens(),
                            position(takes, k),
                        ))),
            decreases self.tokens().len() - self.cursor(),
        {
            let ghost at = self.cursor();
            if let Some(flag) = self.enter() {
                let ghost entered = *self;
                let taken = self.dispatch(flag);
                if taken {
                    // What the handler fetched is fetched on the parser, which
                    // steps over a value only where one follows.
                    let _ = self.argf();
                }
                proof {
                    if old(self).has_callback() {
                        let given = choose|given: &mut Dispatch<'_>|
                            given.tokens() == old(self).tokens() && given.at() == at
                                && !given.taken() && #[trigger] entered.callback_outcome(
                                given,
                                flag,
                            ) && final(given).taken() == taken;
                        assert(old(self).callback_outcome(given, flag));
                        assert(self.consumed() == (final(given).taken() && has_value(
                            old(self).tokens(),
                            at,
                        )));
                    }
                }
            }
            proof {
                let more = takes.push(self.consumed());
                lemma_one_more(self.tokens(), takes, self.consumed());
                assert(more.take(takes.len() as int) =~= takes);
                assert(more.take(more.len() as int) =~= more);
                assert forall|k: int| 0 <= k < more.len() implies (#[trigger] flag_in_force(
                    old(self).tokens(),
                    old(self).current_flag(),
                    more.take(k + 1),
                ) matches Some(flag) ==> old(self).has_callback() ==> exists|
                    given: &mut Dispatch<'_>,
                |
                    given.tokens() == old(self).tokens() && given.at() == position(more, k)
                        && !given.taken() && #[trigger] old(self).callback_outcome(given, flag)
                        && more[k] == (final(given).taken() && has_value(
                        old(self).tokens(),
                        position(more, k),
                    ))) by {
                    if k < takes.len() {
                        assert(more.take(k + 1) =~= takes.take(k + 1));
                        assert(more.take(k) =~= takes.take(k));
                    }
                }
                takes = more;
            }
            self.advance();
        }
        assert(accounts_for(
            old(self).tokens(),
            old(self).current_flag(),
            takes,
            self.cursor(),
            self.current_flag(),
        ));
        self.rest()
    }
}

} // verus!
