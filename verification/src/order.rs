//! Orders, their price priority, and the trades that matching produces.

use vstd::prelude::*;

verus! {

/// The side of the market an order stands on.
#[derive(Debug, PartialEq, Eq, Copy, Clone, Structural)]
pub enum OrderType {
    Buy,
    Sell,
}

/// A limit order.
///
/// `quantity` is what is still open. An order with nothing open is filled:
/// it never trades and never rests in a book.
#[derive(Debug, PartialEq, Eq, Copy, Clone, Structural)]
pub struct Order {
    pub id: usize,
    pub order_type: OrderType,
    pub price: u32,
    pub quantity: u32,
}

/// One match between an incoming buy order and a resting sell order.
#[derive(Debug, PartialEq, Eq, Copy, Clone, Structural)]
pub struct Trade {
    pub buy_id: usize,
    pub sell_id: usize,
    /// Always the price of the resting sell order.
    pub price: u32,
    pub quantity_traded: u32,
}

impl Order {
    /// Price priority among resting offers: the lower price goes first.
    /// Nothing but the price takes part.
    pub open spec fn outranks(self, other: Order) -> bool {
        self.price <= other.price
    }

    /// Whether anything of the order is still open.
    pub open spec fn live(self) -> bool {
        self.quantity > 0
    }

    pub fn new(id: usize, order_type: OrderType, price: u32, quantity: u32) -> (order: Order)
        ensures
            order == (Order { id, order_type, price, quantity }),
    {
        Order { id, order_type, price, quantity }
    }

    /// Decides price priority between two offers.
    pub fn has_priority_over(&self, other: &Order) -> (first: bool)
        ensures
            first == self.outranks(*other),
    {
        self.price <= other.price
    }
}

/// Price priority is a total preorder on orders, and it looks at the price
/// alone: two orders of one price rank alike whatever else they hold.
pub proof fn lemma_priority_total_preorder(a: Order, b: Order, c: Order)
    ensures
        a.outranks(a),
        a.outranks(b) || b.outranks(a),
        a.outranks(b) && b.outranks(c) ==> a.outranks(c),
        a.price == b.price ==> a.outranks(c) == b.outranks(c) && c.outranks(a) == c.outranks(b),
{
}

} // verus!
