//! What tokens are handed to: a callback, with a record of what it was given.

use vstd::prelude::*;

use crate::analyze::model::TokenView;
use crate::analyze::Token;

verus! {

/// Something that a callback can be given, of which the record says what it was.
pub trait Audible {
    /// The token that it is.
    spec fn as_token(&self) -> TokenView;
}

impl<'a> Audible for Token<'a> {
    open spec fn as_token(&self) -> TokenView {
        TokenView { text: self.text@, position: self.position as nat }
    }
}

/// A callback that is given tokens until it answers `false`, with a record of them.
///
/// The record is one of every call. The callback is private, and only [`Listener::hear`] can call
/// it. There the type of what is heard is a parameter of which nothing is known, so the one value
/// that `hear` is given can neither be copied nor made anew: a call uses it up, and there is one
/// call of the callback for each call of `hear`.
pub struct Listener<C> {
    callback: C,
    heard: Ghost<Seq<TokenView>>,
    open: bool,
}

impl<C> Listener<C> {
    /// The callback.
    pub closed spec fn callback(&self) -> C {
        self.callback
    }

    /// The tokens that the callback was given, in order.
    pub closed spec fn heard(&self) -> Seq<TokenView> {
        self.heard@
    }

    /// Whether the callback has not answered `false` yet.
    pub closed spec fn wants_more(&self) -> bool {
        self.open
    }
}

impl<C: FnMut(Token<'_>) -> bool> Listener<C> {
    /// Whether the callback can be called with every token.
    pub open spec fn callable(&self) -> bool {
        forall|token: Token<'_>| call_requires(self.callback(), (token,))
    }
}

impl<C> Listener<C> {
    /// A listener that has heard nothing.
    pub fn new(callback: C) -> (listener: Self)
        ensures
            listener.callback() == callback,
            listener.heard() == Seq::<TokenView>::empty(),
            listener.wants_more(),
    {
        Self { callback, heard: Ghost(Seq::empty()), open: true }
    }

    /// Gives `token` to the callback. Returns its answer: whether it wants more.
    pub fn hear<A: Audible>(&mut self, token: A) -> (go_on: bool) where C: FnMut(A) -> bool
        requires
            call_requires(old(self).callback(), (token,)),
            old(self).wants_more(),
        ensures
            final(self).callback() == old(self).callback(),
            final(self).heard() == old(self).heard().push(token.as_token()),
            final(self).wants_more() == go_on,
            call_ensures(old(self).callback(), (token,), go_on),
    {
        let ghost view = token.as_token();
        let go_on = (self.callback)(token);
        proof {
            self.heard@ = self.heard@.push(view);
        }
        self.open = go_on;
        go_on
    }
}

/// A token is heard as it is given: with its own text and at its own position.
pub proof fn law_tokens_are_heard_as_they_are(token: Token<'_>)
    ensures
        token.as_token().text == token.text@,
        token.as_token().position == token.position,
{
}

} // verus!
