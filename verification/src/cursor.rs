//! The cursor over a token sequence, as the grammar sees it.
//!
//! A token sequence `ts` stands for the state of a cursor: `ts[0]` is the
//! token under examination, `ts[1]` the one ahead, and beyond its end every
//! token is the end-of-input token.

use vstd::prelude::*;
use crate::token::TokenView;

verus! {

/// The token under examination.
pub open spec fn current(ts: Seq<TokenView>) -> TokenView {
    if ts.len() > 0 {
        ts[0]
    } else {
        TokenView::EndOfFile
    }
}

/// The token one ahead.
pub open spec fn peek(ts: Seq<TokenView>) -> TokenView {
    if ts.len() > 1 {
        ts[1]
    } else {
        TokenView::EndOfFile
    }
}

/// The cursor after `n` advances.
#[verifier::opaque]
pub open spec fn advance_by(ts: Seq<TokenView>, n: nat) -> Seq<TokenView> {
    if n <= ts.len() {
        ts.skip(n as int)
    } else {
        Seq::empty()
    }
}

/// Advancing `a` times and then `b` times is advancing `a + b` times.
pub proof fn lemma_advance_by_sum(ts: Seq<TokenView>, a: nat, b: nat)
    ensures
        advance_by(advance_by(ts, a), b) == advance_by(ts, a + b),
{
    reveal(advance_by);
    if a + b <= ts.len() {
        assert(ts.skip(a as int).skip(b as int) =~= ts.skip((a + b) as int));
    } else if a <= ts.len() {
        assert(advance_by(ts.skip(a as int), b) =~= Seq::<TokenView>::empty());
    } else {
        assert(advance_by(Seq::<TokenView>::empty(), b) =~= Seq::<TokenView>::empty());
    }
}

/// Not advancing changes nothing.
pub broadcast proof fn lemma_advance_by_none(ts: Seq<TokenView>)
    ensures
        #[trigger] advance_by(ts, 0) == ts,
{
    reveal(advance_by);
    assert(ts.skip(0) =~= ts);
}

/// Advancing never lengthens what remains.
pub broadcast proof fn lemma_advance_by_len(ts: Seq<TokenView>, n: nat)
    ensures
        #[trigger] advance_by(ts, n).len() == if n <= ts.len() {
            ts.len() - n
        } else {
            0
        },
{
    reveal(advance_by);
}

/// After one advance the token that was ahead is under examination.
pub proof fn lemma_peek_is_next(ts: Seq<TokenView>)
    ensures
        current(advance_by(ts, 1)) == peek(ts),
{
    reveal(advance_by);
}

/// Joining nothing to a list changes nothing.
pub broadcast proof fn lemma_join_empty<T>(list: Seq<T>)
    ensures
        #[trigger] (list + Seq::<T>::empty()) == list,
        #[trigger] (Seq::<T>::empty() + list) == list,
{
    assert(list + Seq::<T>::empty() =~= list);
    assert(Seq::<T>::empty() + list =~= list);
}

/// Lists join in order, however they are grouped.
pub proof fn lemma_join_grouping<T>(a: Seq<T>, b: Seq<T>, c: Seq<T>)
    ensures
        (a + b) + c == a + (b + c),
{
    assert((a + b) + c =~= a + (b + c));
}

/// Pushing an item is joining it at the end.
pub broadcast proof fn lemma_push_is_join<T>(list: Seq<T>, item: T)
    ensures
        #[trigger] list.push(item) == list + seq![item],
{
    assert(list.push(item) =~= list + seq![item]);
}

} // verus!
