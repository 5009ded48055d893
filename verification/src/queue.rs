//! The FIFO queue of accepted wrappers awaiting decryption.
//!
//! A wrapper enters the queue when its block commits and leaves exactly
//! once, in order, when the next block replays its revealed payload.

use vstd::prelude::*;
use crate::transaction::{WrapperTx, WrapperTxV, copy_wrapper};

verus! {

/// The first-in-first-out queue of wrappers.
pub struct TxQueue {
    pub txs: Vec<WrapperTx>,
}

impl View for TxQueue {
    type V = Seq<WrapperTxV>;

    open spec fn view(&self) -> Seq<WrapperTxV> {
        self.txs@.map_values(|w: WrapperTx| w@)
    }
}

impl TxQueue {
    /// An empty queue.
    pub fn new() -> (r: TxQueue)
        ensures
            r@ == Seq::<WrapperTxV>::empty(),
    {
        let q = TxQueue { txs: Vec::new() };
        proof {
            assert(q@ =~= Seq::<WrapperTxV>::empty());
        }
        q
    }

    /// The number of queued wrappers.
    pub fn len(&self) -> (r: usize)
        ensures
            r == self@.len(),
    {
        self.txs.len()
    }

    /// Whether the queue is empty.
    pub fn is_empty(&self) -> (r: bool)
        ensures
            r == (self@.len() == 0),
    {
        self.txs.len() == 0
    }

    /// Appends a wrapper at the back.
    pub fn push(&mut self, w: WrapperTx)
        ensures
            final(self)@ == old(self)@.push(w@),
    {
        self.txs.push(w);
        proof {
            assert(self@ =~= old(self)@.push(w@));
        }
    }

    /// Removes and returns the front wrapper, if any.
    pub fn pop(&mut self) -> (r: Option<WrapperTx>)
        ensures
            match r {
                Some(w) => old(self)@.len() > 0 && w@ == old(self)@[0] && final(self)@ == old(
                    self,
                )@.drop_first(),
                None => old(self)@.len() == 0 && final(self)@ == old(self)@,
            },
    {
        if self.txs.len() == 0 {
            return None;
        }
        let w = self.txs.remove(0);
        proof {
            assert(self@ =~= old(self)@.drop_first());
        }
        Some(w)
    }

    /// A copy of the wrapper at the given position.
    pub fn get(&self, i: usize) -> (r: WrapperTx)
        requires
            i < self@.len(),
        ensures
            r@ == self@[i as int],
    {
        copy_wrapper(&self.txs[i])
    }
}

} // verus!
