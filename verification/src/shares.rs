//! The shares of a miner since the last report.

use crate::bytes::{be_value, lemma_be_bound, lemma_pow256_monotone, pow256};
use vstd::prelude::*;

verus! {

/// The difficulty that a single hash would have met.
#[derive(Debug, Clone, Copy, PartialEq, Eq, Structural)]
pub enum ShareDifficulty {
    Finite(u128),
    /// Higher than every number.
    Unbounded,
}

/// The upper half of the target of difficulty one.
pub const DIFF1_HIGH: u128 = 0x0000_0000_FFFF_0000_0000_0000_0000_0000;

/// The difficulty of a hash: the upper half of the target of difficulty one, divided by the
/// upper half of the hash.
pub open spec fn difficulty_of_hash(hash: Seq<u8>) -> ShareDifficulty {
    let high = be_value(hash.take(16));
    if high > 0 {
        ShareDifficulty::Finite((DIFF1_HIGH as nat / high) as u128)
    } else {
        ShareDifficulty::Unbounded
    }
}

/// The higher of two difficulties.
pub open spec fn higher_difficulty(a: ShareDifficulty, b: ShareDifficulty) -> ShareDifficulty {
    match (a, b) {
        (ShareDifficulty::Finite(x), ShareDifficulty::Finite(y)) => if y > x {
            b
        } else {
            a
        },
        (ShareDifficulty::Unbounded, _) => a,
        _ => b,
    }
}

/// The difficulty of a hash.
pub fn share_difficulty(hash: &[u8; 32]) -> (difficulty: ShareDifficulty)
    ensures
        difficulty == difficulty_of_hash(hash@),
{
    let mut high: u128 = 0;
    let mut i: usize = 0;
    assert(hash@.take(0).len() == 0);
    assert(pow256(16) == 0x1_0000_0000_0000_0000_0000_0000_0000_0000) by {
        reveal_with_fuel(pow256, 17);
    }
    while i < 16
        invariant
            i <= 16,
            high as nat == be_value(hash@.take(i as int)),
            pow256(16) == 0x1_0000_0000_0000_0000_0000_0000_0000_0000,
        decreases 16 - i,
    {
        proof {
            let next = hash@.take(i + 1);
            assert(next.drop_last() =~= hash@.take(i as int));
            assert(next.last() == hash@[i as int]);
            lemma_be_bound(next);
            lemma_pow256_monotone((i + 1) as nat, 16);
        }
        high = high * 256 + hash[i] as u128;
        i = i + 1;
    }
    if high > 0 {
        ShareDifficulty::Finite(DIFF1_HIGH / high)
    } else {
        ShareDifficulty::Unbounded
    }
}

/// The shares of one report.
#[derive(Debug, Clone, PartialEq)]
pub struct ShareAggregate {
    pub shares_valid: u32,
    pub shares_invalid: u32,
    pub shares_stale: u32,
    /// The pool difficulty that each valid share was held to, in their order.
    pub difficulties: Vec<u64>,
    /// The highest difficulty that any valid share would have met.
    pub peak_share_diff: ShareDifficulty,
}

/// The shares of one report as a mathematical value.
pub struct ShareAggregateView {
    pub shares_valid: u32,
    pub shares_invalid: u32,
    pub shares_stale: u32,
    pub difficulties: Seq<u64>,
    pub peak_share_diff: ShareDifficulty,
}

impl View for ShareAggregate {
    type V = ShareAggregateView;

    open spec fn view(&self) -> ShareAggregateView {
        ShareAggregateView {
            shares_valid: self.shares_valid,
            shares_invalid: self.shares_invalid,
            shares_stale: self.shares_stale,
            difficulties: self.difficulties@,
            peak_share_diff: self.peak_share_diff,
        }
    }
}

/// No shares yet.
pub open spec fn no_shares() -> ShareAggregateView {
    ShareAggregateView {
        shares_valid: 0,
        shares_invalid: 0,
        shares_stale: 0,
        difficulties: Seq::empty(),
        peak_share_diff: ShareDifficulty::Finite(0),
    }
}

impl ShareAggregateView {
    /// One difficulty is kept for each valid share.
    pub open spec fn wf(self) -> bool {
        self.difficulties.len() == self.shares_valid
    }

    /// One more valid share, with the given final hash.
    pub open spec fn with_valid(self, difficulty: u64, hash: Seq<u8>) -> ShareAggregateView {
        ShareAggregateView {
            shares_valid: (self.shares_valid + 1) as u32,
            difficulties: self.difficulties.push(difficulty),
            peak_share_diff: higher_difficulty(self.peak_share_diff, difficulty_of_hash(hash)),
            ..self
        }
    }

    /// One more share for a job that is not active any more.
    pub open spec fn with_stale(self) -> ShareAggregateView {
        ShareAggregateView { shares_stale: (self.shares_stale + 1) as u32, ..self }
    }

    /// One more invalid share.
    pub open spec fn with_invalid(self) -> ShareAggregateView {
        ShareAggregateView { shares_invalid: (self.shares_invalid + 1) as u32, ..self }
    }
}

impl ShareAggregate {
    /// No shares yet.
    pub fn new() -> (shares: ShareAggregate)
        ensures
            shares@ == no_shares(),
    {
        ShareAggregate {
            shares_valid: 0,
            shares_invalid: 0,
            shares_stale: 0,
            difficulties: Vec::new(),
            peak_share_diff: ShareDifficulty::Finite(0),
        }
    }

    /// Counts a valid share.
    pub fn add_valid(&mut self, difficulty: u64, hash: &[u8; 32])
        requires
            old(self).shares_valid < u32::MAX,
        ensures
            final(self)@ == old(self)@.with_valid(difficulty, hash@),
    {
        let reached: ShareDifficulty = share_difficulty(hash);
        self.shares_valid = self.shares_valid + 1;
        self.difficulties.push(difficulty);
        self.peak_share_diff = match (self.peak_share_diff, reached) {
            (ShareDifficulty::Finite(x), ShareDifficulty::Finite(y)) => if y > x {
                reached
            } else {
                self.peak_share_diff
            },
            (ShareDifficulty::Unbounded, _) => self.peak_share_diff,
            _ => reached,
        };
    }

    /// Counts an invalid share.
    pub fn add_invalid(&mut self)
        requires
            old(self).shares_invalid < u32::MAX,
        ensures
            final(self)@ == old(self)@.with_invalid(),
    {
        self.shares_invalid = self.shares_invalid + 1;
    }

    /// Counts a share for a job that is not active any more.
    pub fn add_stale(&mut self)
        requires
            old(self).shares_stale < u32::MAX,
        ensures
            final(self)@ == old(self)@.with_stale(),
    {
        self.shares_stale = self.shares_stale + 1;
    }

    /// Whether there is nothing to report: stale shares alone make no report.
    pub fn is_empty(&self) -> (empty: bool)
        ensures
            empty == (self@.shares_valid == 0 && self@.shares_invalid == 0),
    {
        self.shares_valid == 0 && self.shares_invalid == 0
    }
}

} // verus!
