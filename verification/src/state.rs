//! What a strategy knows of its account when it decides.

use crate::scalar::Scalar;
use vstd::prelude::*;

verus! {

/// The strategies.
#[derive(Debug, Clone, Copy, PartialEq, Eq, Hash, Structural)]
pub enum StrategyId {
    A,
    B,
    C,
}

/// An open position of one strategy.
#[derive(Debug, Clone, Copy, PartialEq, Eq, Structural)]
pub struct Position {
    /// Size; negative when short.
    pub size: Scalar,
    pub entry_price: Scalar,
    pub unrealized_pnl: Scalar,
    pub realized_pnl: Scalar,
}

/// The account at one moment.
#[derive(Debug, Clone, Copy, PartialEq, Eq, Structural)]
pub struct StateSnapshot {
    pub position_a: Option<Position>,
    pub position_b: Option<Position>,
    pub position_c: Option<Position>,
    pub global_position: Scalar,
    pub global_position_limit: Scalar,
    pub lot_multiplier: Scalar,
}

impl StateSnapshot {
    /// The position of a strategy, if it has one.
    pub open spec fn held(self, strategy_id: StrategyId) -> Option<Position> {
        match strategy_id {
            StrategyId::A => self.position_a,
            StrategyId::B => self.position_b,
            StrategyId::C => self.position_c,
        }
    }

    /// The position of a strategy, if it has one.
    pub fn position(&self, strategy_id: StrategyId) -> (r: Option<Position>)
        ensures
            r == self.held(strategy_id),
    {
        match strategy_id {
            StrategyId::A => self.position_a,
            StrategyId::B => self.position_b,
            StrategyId::C => self.position_c,
        }
    }

    /// Buying one more unit stays within the limit on the global position.
    pub open spec fn buy_within_limit(self) -> bool {
        self.global_position.plus(Scalar::of_int(1)).at_most(self.global_position_limit)
    }

    /// Selling one more unit stays within the limit on the global position.
    pub open spec fn sell_within_limit(self) -> bool {
        self.global_position_limit.negated().at_most(
            self.global_position.minus(Scalar::of_int(1)),
        )
    }

    /// Whether buying one more unit stays within the limit on the global position.
    pub fn buy_allowed(&self) -> (r: bool)
        ensures
            r == self.buy_within_limit(),
    {
        self.global_position.add(Scalar::from_u64(1)).le(self.global_position_limit)
    }

    /// Whether selling one more unit stays within the limit on the global position.
    pub fn sell_allowed(&self) -> (r: bool)
        ensures
            r == self.sell_within_limit(),
    {
        self.global_position.sub(Scalar::from_u64(1)).ge(self.global_position_limit.neg_of())
    }
}

} // verus!
