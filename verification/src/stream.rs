//! The token source: a finite run of tokens that is read from the front, one
//! token at a time, with one token of lookahead.

use vstd::prelude::*;

verus! {

/// Tokens that are still to be read, first one first.
///
/// The view of a `Tokens` is the sequence of those tokens in reading order.
#[derive(Debug)]
pub struct Tokens<I> {
    /// The tokens still to be read, the next one last.
    stack: Vec<I>,
}

impl<I> View for Tokens<I> {
    type V = Seq<I>;

    closed spec fn view(&self) -> Seq<I> {
        Seq::new(self.stack@.len(), |i: int| self.stack@[self.stack@.len() - 1 - i])
    }
}

impl<I> Tokens<I> {
    /// A source that yields `items` from first to last.
    pub fn new(items: Vec<I>) -> (r: Tokens<I>)
        ensures
            r@ == items@,
    {
        let ghost all = items@;
        let mut items = items;
        let mut stack: Vec<I> = Vec::new();
        while items.len() > 0
            invariant
                items@.len() + stack@.len() == all.len(),
                items@ == all.subrange(0, items@.len() as int),
                forall|k: int|
                    0 <= k < stack@.len() ==> #[trigger] stack@[k] == all[all.len() - 1 - k],
            decreases items@.len(),
        {
            match items.pop() {
                Some(item) => {
                    stack.push(item);
                    assert(items@ =~= all.subrange(0, items@.len() as int));
                },
                None => {},
            }
        }
        let r = Tokens { stack };
        assert(r@ =~= all);
        r
    }

    /// How many tokens are left.
    pub fn len(&self) -> (r: usize)
        ensures
            r == self@.len(),
    {
        self.stack.len()
    }

    /// Whether no token is left.
    pub fn is_empty(&self) -> (r: bool)
        ensures
            r == (self@.len() == 0),
    {
        self.stack.len() == 0
    }

    /// The next token, without taking it.
    pub fn peek(&self) -> (r: Option<&I>)
        ensures
            self@.len() == 0 ==> r is None,
            self@.len() > 0 ==> r == Some(&self@[0]),
    {
        let n = self.stack.len();
        if n == 0 {
            None
        } else {
            Some(&self.stack[n - 1])
        }
    }

    /// Takes the next token.
    pub fn next(&mut self) -> (r: Option<I>)
        ensures
            old(self)@.len() == 0 ==> r is None && final(self)@ == old(self)@,
            old(self)@.len() > 0 ==> r == Some(old(self)@[0]) && final(self)@ == old(self)@.skip(1),
    {
        let r = self.stack.pop();
        assert(old(self)@.len() > 0 ==> self@ =~= old(self)@.skip(1));
        assert(old(self)@.len() == 0 ==> self@ =~= old(self)@);
        r
    }

    /// The tokens that are left, in reading order.
    pub fn into_vec(self) -> (r: Vec<I>)
        ensures
            r@ == self@,
    {
        let ghost all = self@;
        let mut stack = self.stack;
        let mut out: Vec<I> = Vec::new();
        while stack.len() > 0
            invariant
                stack@.len() + out@.len() == all.len(),
                forall|k: int| 0 <= k < out@.len() ==> out@[k] == #[trigger] all[k],
                forall|k: int|
                    0 <= k < stack@.len() ==> #[trigger] stack@[k] == all[all.len() - 1 - k],
            decreases stack@.len(),
        {
            match stack.pop() {
                Some(item) => {
                    out.push(item);
                },
                None => {},
            }
        }
        assert(out@ =~= all);
        out
    }
    /// Splits off the tokens that stand before the first one on which `stop`
    /// holds: they are returned, and `self` keeps that token and all behind
    /// it. Where `stop` holds on no token, all are returned.
    pub fn split_before<F: Fn(&I) -> bool>(&mut self, stop: &F) -> (front: Tokens<I>)
        requires
            is_predicate::<I, F>(*stop),
        ensures
            front@ == old(self)@.take(shown_len(old(self)@, holds_on::<I, F>(*stop)) as int),
            final(self)@ == old(self)@.skip(shown_len(old(self)@, holds_on::<I, F>(*stop)) as int),
            front@ + final(self)@ == old(self)@,
    {
        let ghost all = self@;
        let n = self.stack.len();
        let mut i = n;
        while i > 0 && !stop(&self.stack[i - 1])
            invariant
                self@ == all,
                n == self.stack@.len(),
                i <= n,
                is_predicate::<I, F>(*stop),
                forall|j: int| 0 <= j < n - i ==> !holds_on::<I, F>(*stop)(#[trigger] all[j]),
            decreases i,
        {
            assert(all[n - i] == self.stack@[i - 1]);
            i = i - 1;
        }
        proof {
            if i > 0 {
                assert(all[n - i] == self.stack@[i - 1]);
            }
            lemma_shown_len(all, holds_on::<I, F>(*stop), (n - i) as nat);
        }
        let front = Tokens { stack: self.stack.split_off(i) };
        assert(front@ =~= all.take(n - i));
        assert(self@ =~= all.skip(n - i));
        assert(front@ + self@ =~= all);
        front
    }

    /// Puts `front` back before the tokens of `self`.
    pub fn unread(&mut self, front: Tokens<I>)
        ensures
            final(self)@ == front@ + old(self)@,
    {
        let mut front = front;
        let ghost pushed = front@;
        self.stack.append(&mut front.stack);
        assert(self@ =~= pushed + old(self)@);
    }
}

/// Whether `stop` may be called on every token and answers the same on the
/// same token.
pub open spec fn is_predicate<I, F: Fn(&I) -> bool>(stop: F) -> bool {
    &&& forall|token: &I| #[trigger] call_requires(stop, (token,))
    &&& forall|token: &I|
        !(#[trigger] call_ensures(stop, (token,), true) && call_ensures(stop, (token,), false))
}

/// The tokens on which the executable predicate `stop` holds.
pub open spec fn holds_on<I, F: Fn(&I) -> bool>(stop: F) -> spec_fn(I) -> bool {
    |token: I| call_ensures(stop, (&token,), true)
}

/// How many tokens stand before the first one on which `stop` holds.
pub open spec fn shown_len<I>(tokens: Seq<I>, stop: spec_fn(I) -> bool) -> nat
    decreases tokens.len(),
{
    if tokens.len() == 0 || stop(tokens[0]) {
        0
    } else {
        1 + shown_len(tokens.skip(1), stop)
    }
}

/// [`shown_len`] is the index of the first token on which `stop` holds, or
/// the length where there is none.
pub proof fn lemma_shown_len<I>(tokens: Seq<I>, stop: spec_fn(I) -> bool, k: nat)
    requires
        k <= tokens.len(),
        forall|j: int| 0 <= j < k ==> !stop(#[trigger] tokens[j]),
        k < tokens.len() ==> stop(tokens[k as int]),
    ensures
        shown_len(tokens, stop) == k,
    decreases k,
{
    if k > 0 {
        assert(!stop(tokens[0]));
        assert forall|j: int| 0 <= j < k - 1 implies !stop(#[trigger] tokens.skip(1)[j]) by {
            assert(tokens.skip(1)[j] == tokens[j + 1]);
        }
        lemma_shown_len(tokens.skip(1), stop, (k - 1) as nat);
    }
}

} // verus!
