//! Order sides, position sides and order kinds shared by the order book,
//! the reserved-order manager and the exchange request types.

use vstd::prelude::*;

verus! {

#[derive(Clone, Copy, Debug, PartialEq, Eq, Structural)]
pub enum Side {
    Buy,
    Sell,
}

impl Side {
    /// The opposite side.
    pub fn inv(&self) -> (r: Side)
        ensures
            r == (match *self {
                Side::Buy => Side::Sell,
                Side::Sell => Side::Buy,
            }),
    {
        match self {
            Side::Buy => Side::Sell,
            Side::Sell => Side::Buy,
        }
    }

    /// The position side that an opening order on this side creates.
    pub fn to_pos(&self) -> (r: PosSide)
        ensures
            r == (match *self {
                Side::Buy => PosSide::Long,
                Side::Sell => PosSide::Short,
            }),
    {
        match self {
            Side::Buy => PosSide::Long,
            Side::Sell => PosSide::Short,
        }
    }

    /// Position of this side in a `[buy, sell]` pair.
    pub fn index(&self) -> (r: usize)
        ensures
            r == (match *self {
                Side::Buy => 0int,
                Side::Sell => 1int,
            }),
    {
        match self {
            Side::Buy => 0,
            Side::Sell => 1,
        }
    }
}

#[derive(Clone, Copy, Debug, PartialEq, Eq, Structural)]
pub enum PosSide {
    Long,
    Short,
}

impl PosSide {
    /// The order side that opens a position on this side.
    pub fn to_side(&self) -> (r: Side)
        ensures
            r == (match *self {
                PosSide::Long => Side::Buy,
                PosSide::Short => Side::Sell,
            }),
    {
        match self {
            PosSide::Long => Side::Buy,
            PosSide::Short => Side::Sell,
        }
    }

    /// `+1` for long exposure, `-1` for short.
    pub fn sign(&self) -> (r: i64)
        ensures
            r == (match *self {
                PosSide::Long => 1int,
                PosSide::Short => -1int,
            }),
    {
        match self {
            PosSide::Long => 1,
            PosSide::Short => -1,
        }
    }
}

#[derive(Clone, Copy, Debug, PartialEq, Eq, Structural)]
pub enum OrderType {
    Limit,
    Market,
    Stop,
    StopLimit,
}

impl OrderType {
    /// Stop and stop-limit orders invert the crossing side when they fire.
    pub fn is_stoploss(&self) -> (r: bool)
        ensures
            r == (*self == OrderType::Stop || *self == OrderType::StopLimit),
    {
        match self {
            OrderType::Stop | OrderType::StopLimit => true,
            _ => false,
        }
    }
}

} // verus!
