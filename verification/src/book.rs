//! The book of resting sell orders.
//!
//! A book is modelled as the sequence of its orders in the order in which
//! they will be matched: cheapest first, and among offers of one price the
//! one that arrived first.

use crate::order::{Order, OrderType};
use std::collections::VecDeque;
use vstd::prelude::*;

verus! {

/// Prices never fall from one position of `s` to a later one.
pub open spec fn sorted_by_price(s: Seq<Order>) -> bool {
    forall|i: int, j: int| 0 <= i <= j < s.len() ==> s[i].price <= s[j].price
}

/// What holds of the contents of every book: all of its orders are live
/// sell orders, and they stand in price order.
pub open spec fn resting(s: Seq<Order>) -> bool {
    &&& forall|i: int| 0 <= i < s.len() ==> (#[trigger] s[i]).order_type == OrderType::Sell
    &&& forall|i: int| 0 <= i < s.len() ==> (#[trigger] s[i]).quantity > 0
    &&& sorted_by_price(s)
}

/// The number of orders in `s` that ask `limit` or less.
pub open spec fn rank(s: Seq<Order>, limit: u32) -> nat
    decreases s.len(),
{
    if s.len() == 0 {
        0
    } else {
        rank(s.drop_last(), limit) + if s.last().price <= limit {
            1nat
        } else {
            0nat
        }
    }
}

/// The book `s` with `order` added: behind every offer that asks no more
/// than it does, ahead of every offer that asks more.
pub open spec fn placed(s: Seq<Order>, order: Order) -> Seq<Order> {
    s.insert(rank(s, order.price) as int, order)
}

/// The book `s` after a sell order was submitted to it. An order with
/// nothing open is filled already and does not come to rest.
pub open spec fn rested(s: Seq<Order>, order: Order) -> Seq<Order> {
    if order.quantity > 0 {
        placed(s, order)
    } else {
        s
    }
}

/// The book that a sequence of sell orders builds, submitted one after the
/// other to an empty book.
pub open spec fn after_sells(sells: Seq<Order>) -> Seq<Order>
    decreases sells.len(),
{
    if sells.len() == 0 {
        Seq::empty()
    } else {
        rested(after_sells(sells.drop_last()), sells.last())
    }
}

/// In a sorted book the orders that ask `limit` or less are exactly the
/// first `rank(s, limit)` ones.
pub proof fn lemma_rank_splits(s: Seq<Order>, limit: u32)
    requires
        sorted_by_price(s),
    ensures
        rank(s, limit) <= s.len(),
        forall|i: int| 0 <= i < s.len() ==> ((#[trigger] s[i]).price <= limit <==> i < rank(s, limit)),
    decreases s.len(),
{
    if s.len() > 0 {
        let front = s.drop_last();
        lemma_rank_splits(front, limit);
        assert forall|i: int| 0 <= i < s.len() implies ((#[trigger] s[i]).price <= limit <==> i
            < rank(s, limit)) by {
            if i < front.len() {
                assert(front[i] == s[i]);
            }
        }
    }
}

/// The only position that splits a sorted book at `limit` is its rank.
pub proof fn lemma_rank_unique(s: Seq<Order>, limit: u32, k: int)
    requires
        sorted_by_price(s),
        0 <= k <= s.len(),
        forall|i: int| 0 <= i < k ==> (#[trigger] s[i]).price <= limit,
        forall|i: int| k <= i < s.len() ==> (#[trigger] s[i]).price > limit,
    ensures
        rank(s, limit) == k,
{
    lemma_rank_splits(s, limit);
    let r = rank(s, limit) as int;
    if r < k {
        assert(s[r].price <= limit);
    } else if k < r {
        assert(s[k].price > limit);
    }
}

/// Adding a live sell order to a book gives a book again, one order longer,
/// and the new order is found at its rank.
pub proof fn lemma_placed_resting(s: Seq<Order>, order: Order)
    requires
        resting(s),
        order.order_type == OrderType::Sell,
        order.quantity > 0,
    ensures
        resting(placed(s, order)),
        placed(s, order).len() == s.len() + 1,
        placed(s, order)[rank(s, order.price) as int] == order,
{
    lemma_rank_splits(s, order.price);
    let k = rank(s, order.price) as int;
    let t = placed(s, order);
    assert forall|i: int| 0 <= i < t.len() implies #[trigger] t[i] == if i < k {
        s[i]
    } else if i == k {
        order
    } else {
        s[i - 1]
    } by {}
}

/// A book holds the live ones among the orders that were put into it, and
/// no others.
pub proof fn lemma_placed_contains(s: Seq<Order>, order: Order, other: Order)
    ensures
        placed(s, order).contains(other) <==> s.contains(other) || other == order,
{
    lemma_rank_bound(s, order.price);
    let k = rank(s, order.price) as int;
    let t = placed(s, order);
    if t.contains(other) {
        let i = choose|i: int| 0 <= i < t.len() && t[i] == other;
        if i < k {
            assert(s[i] == other);
        } else if i > k {
            assert(s[i - 1] == other);
        }
    }
    if s.contains(other) {
        let i = choose|i: int| 0 <= i < s.len() && s[i] == other;
        if i < k {
            assert(t[i] == other);
        } else {
            assert(t[i + 1] == other);
        }
    }
    if other == order {
        assert(t[k] == other);
    }
}

/// The rank of a price in a book is at most the length of the book.
pub proof fn lemma_rank_bound(s: Seq<Order>, limit: u32)
    ensures
        rank(s, limit) <= s.len(),
    decreases s.len(),
{
    if s.len() > 0 {
        lemma_rank_bound(s.drop_last(), limit);
    }
}

/// Sell orders submitted one after the other build a book, and the book
/// holds exactly the live ones among them.
pub proof fn lemma_after_sells(sells: Seq<Order>)
    requires
        forall|i: int| 0 <= i < sells.len() ==> (#[trigger] sells[i]).order_type == OrderType::Sell,
    ensures
        resting(after_sells(sells)),
        forall|o: Order|
            #[trigger] after_sells(sells).contains(o) <==> sells.contains(o) && o.quantity > 0,
    decreases sells.len(),
{
    if sells.len() > 0 {
        let front = sells.drop_last();
        let last = sells.last();
        lemma_after_sells(front);
        let inner = after_sells(front);
        if last.quantity > 0 {
            lemma_placed_resting(inner, last);
        }
        assert forall|o: Order| #[trigger]
            after_sells(sells).contains(o) <==> sells.contains(o) && o.quantity > 0 by {
            if last.quantity > 0 {
                lemma_placed_contains(inner, last, o);
            }
            if sells.contains(o) {
                let i = choose|i: int| 0 <= i < sells.len() && sells[i] == o;
                if i < front.len() {
                    assert(front[i] == o);
                }
            }
            if front.contains(o) {
                let i = choose|i: int| 0 <= i < front.len() && front[i] == o;
                assert(sells[i] == o);
            }
        }
    }
}

/// The resting sell orders, held in matching order.
pub struct Book {
    orders: VecDeque<Order>,
}

impl View for Book {
    type V = Seq<Order>;

    /// The orders of the book, best offer first.
    closed spec fn view(&self) -> Seq<Order> {
        self.orders@
    }
}

impl Book {
    /// The invariant of the type: see [`resting`].
    pub open spec fn wf(&self) -> bool {
        resting(self@)
    }

    /// An empty book.
    pub fn new() -> (book: Book)
        ensures
            book.wf(),
            book@ == Seq::<Order>::empty(),
    {
        Book { orders: VecDeque::new() }
    }

    /// The number of resting orders.
    pub fn len(&self) -> (n: usize)
        ensures
            n == self@.len(),
    {
        self.orders.len()
    }

    pub fn is_empty(&self) -> (empty: bool)
        ensures
            empty == (self@.len() == 0),
    {
        self.orders.len() == 0
    }

    /// The best offer: the cheapest order, and the earliest of that price.
    /// The order stays in the book.
    pub fn best(&self) -> (best: Option<Order>)
        ensures
            best == if self@.len() == 0 {
                None
            } else {
                Some(self@[0])
            },
    {
        if self.orders.len() == 0 {
            None
        } else {
            Some(self.orders[0])
        }
    }

    /// The resting orders in matching order.
    pub fn orders(&self) -> (all: Vec<Order>)
        ensures
            all@ == self@,
    {
        let mut all: Vec<Order> = Vec::new();
        let n = self.orders.len();
        let mut i: usize = 0;
        while i < n
            invariant
                n == self.orders@.len(),
                i <= n,
                all@ == self.orders@.take(i as int),
            decreases n - i,
        {
            all.push(self.orders[i]);
            i += 1;
        }
        all
    }

    /// The position at which an order asking `price` is placed.
    fn position(&self, price: u32) -> (k: usize)
        requires
            self.wf(),
        ensures
            k == rank(self@, price),
    {
        let mut low: usize = 0;
        let mut high: usize = self.orders.len();
        while low < high
            invariant
                self.wf(),
                low <= high <= self.orders@.len(),
                forall|i: int| 0 <= i < low ==> (#[trigger] self.orders@[i]).price <= price,
                forall|i: int| high <= i < self.orders@.len() ==> (#[trigger] self.orders@[i]).price > price,
            decreases high - low,
        {
            let mid = low + (high - low) / 2;
            if self.orders[mid].price <= price {
                low = mid + 1;
            } else {
                high = mid;
            }
        }
        proof {
            lemma_rank_unique(self@, price, low as int);
        }
        low
    }

    /// Puts a sell order to rest: behind every offer that asks no more than
    /// it does, ahead of every offer that asks more. An order with nothing
    /// open is filled already and leaves the book as it was.
    pub fn insert(&mut self, order: Order)
        requires
            old(self).wf(),
            order.order_type == OrderType::Sell,
        ensures
            final(self).wf(),
            final(self)@ == rested(old(self)@, order),
            rank(old(self)@, order.price) <= old(self)@.len(),
            forall|i: int|
                0 <= i < old(self)@.len() ==> ((#[trigger] old(self)@[i]).price <= order.price <==> i
                    < rank(old(self)@, order.price)),
    {
        proof {
            lemma_rank_splits(self@, order.price);
        }
        if order.quantity > 0 {
            let k = self.position(order.price);
            proof {
                lemma_placed_resting(self@, order);
            }
            self.orders.insert(k, order);
        }
    }

    /// Takes the best offer out of the book.
    pub fn take_best(&mut self) -> (best: Option<Order>)
        requires
            old(self).wf(),
        ensures
            final(self).wf(),
            best == if old(self)@.len() == 0 {
                None
            } else {
                Some(old(self)@[0])
            },
            final(self)@ == if old(self)@.len() == 0 {
                old(self)@
            } else {
                old(self)@.skip(1)
            },
    {
        self.orders.pop_front()
    }

    /// Fills `traded` units of the best offer. What is left of it keeps its
    /// place; an offer filled to the end leaves the book.
    pub fn fill_best(&mut self, traded: u32)
        requires
            old(self).wf(),
            old(self)@.len() > 0,
            traded <= old(self)@[0].quantity,
        ensures
            final(self).wf(),
            final(self)@ == if traded == old(self)@[0].quantity {
                old(self)@.skip(1)
            } else {
                old(self)@.update(
                    0,
                    (Order { quantity: (old(self)@[0].quantity - traded) as u32, ..old(self)@[0] }),
                )
            },
    {
        let best = self.orders.pop_front();
        match best {
            Some(order) => {
                if traded < order.quantity {
                    let left = Order {
                        id: order.id,
                        order_type: order.order_type,
                        price: order.price,
                        quantity: order.quantity - traded,
                    };
                    self.orders.push_front(left);
                }
            },
            None => {},
        }
    }
}

} // verus!
