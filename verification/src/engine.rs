//! The matching engine: the owner of the book.

use crate::book::{rank, rested, resting, Book};
use crate::guarantees::{
    lemma_no_over_consumption, lemma_price_compatibility, lemma_quantity_conservation,
    lemma_rejection, lemma_trade_count,
};
use crate::matching::{
    available, book_after, trade_at, trade_count, trade_count_from, traded_total, trades_at,
    trades_of, volume,
};
use crate::order::{Order, OrderType, Trade};
use crate::record::{parse_order, parsed, InvalidOrder};
use vstd::prelude::*;

verus! {

/// Takes orders one at a time. Sell orders come to rest in the book; a buy
/// order is matched against the book at once and what it cannot fill is
/// dropped.
pub struct MatchingEngine {
    book: Book,
}

impl View for MatchingEngine {
    type V = Seq<Order>;

    /// The resting sell orders, best offer first.
    closed spec fn view(&self) -> Seq<Order> {
        self.book@
    }
}

impl MatchingEngine {
    /// The invariant of the type: see [`resting`].
    pub open spec fn wf(&self) -> bool {
        resting(self@)
    }

    /// An engine with an empty book.
    pub fn new() -> (engine: MatchingEngine)
        ensures
            engine.wf(),
            engine@ == Seq::<Order>::empty(),
    {
        MatchingEngine { book: Book::new() }
    }

    /// Puts a sell order to rest behind the offers that ask no more than it
    /// does. Nothing is matched. An order with nothing open is filled
    /// already and leaves the book as it was.
    pub fn submit_sell(&mut self, order: Order)
        requires
            old(self).wf(),
            order.order_type == OrderType::Sell,
        ensures
            final(self).wf(),
            final(self)@ == rested(old(self)@, order),
            rank(old(self)@, order.price) <= old(self)@.len(),
            forall|i: int|
                0 <= i < old(self)@.len() ==> ((#[trigger] old(self)@[i]).price <= order.price <==> i
                    < rank(old(self)@, order.price)),
    {
        self.book.insert(order);
    }

    /// Matches a buy order against the book and returns the trades in the
    /// order in which they were made.
    ///
    /// Matching starts at the best offer and goes on while the order still
    /// seeks something and the best offer asks no more than its limit. Each
    /// trade is made at the resting order's price. A resting order filled to
    /// the end leaves the book. What the buy order could not fill is
    /// dropped: it does not come to rest.
    pub fn submit_buy(&mut self, order: Order) -> (trades: Vec<Trade>)
        requires
            old(self).wf(),
            order.order_type == OrderType::Buy,
        ensures
            final(self).wf(),
            trades@ == trades_of(old(self)@, order),
            final(self)@ == book_after(old(self)@, order),
            trades@.len() == trade_count(old(self)@, order),
            trades@.len() <= old(self)@.len(),
            !trades_at(old(self)@, order, trades@.len() as int),
            forall|j: int| 0 <= j < trades@.len() ==> #[trigger] trades_at(old(self)@, order, j),
            forall|j: int|
                0 <= j < trades@.len() ==> {
                    let trade = #[trigger] trades@[j];
                    &&& trade.buy_id == order.id
                    &&& trade.sell_id == old(self)@[j].id
                    &&& trade.price == old(self)@[j].price
                    &&& trade.price <= order.price
                    &&& 0 < trade.quantity_traded <= old(self)@[j].quantity
                },
            traded_total(trades@) == if available(old(self)@, order.price) < order.quantity {
                available(old(self)@, order.price)
            } else {
                order.quantity as int
            },
            traded_total(trades@) == volume(old(self)@, old(self)@.len() as int) - volume(
                final(self)@,
                final(self)@.len() as int,
            ),
            old(self)@.len() == 0 || old(self)@[0].price > order.price ==> trades@.len() == 0
                && final(self)@ == old(self)@,
    {
        let ghost before = self@;
        let mut trades: Vec<Trade> = Vec::new();
        let mut remaining: u32 = order.quantity;
        loop
            invariant_except_break
                self.wf(),
                trades@.len() <= before.len(),
                self@ == before.skip(trades@.len() as int),
                volume(before, trades@.len() as int) + remaining == order.quantity,
                trades@ == Seq::new(trades@.len(), |j: int| trade_at(before, order, j)),
                trade_count(before, order) == trade_count_from(before, order, trades@.len() as int),
            ensures
                self.wf(),
                trades@ == trades_of(before, order),
                self@ == book_after(before, order),
            decreases before.len() - trades@.len(),
        {
            let ghost done = trades@.len() as int;
            if remaining == 0 {
                break ;
            }
            let best = match self.book.best() {
                Some(best) => best,
                None => {
                    break ;
                },
            };
            if best.price > order.price {
                break ;
            }
            let traded = if remaining < best.quantity {
                remaining
            } else {
                best.quantity
            };
            trades.push(
                Trade {
                    buy_id: order.id,
                    sell_id: best.id,
                    price: best.price,
                    quantity_traded: traded,
                },
            );
            self.book.fill_best(traded);
            remaining = remaining - traded;
            assert(trade_count_from(before, order, done) == trade_count_from(
                before,
                order,
                done + 1,
            ));
            if traded < best.quantity {
                break ;
            }
        }
        proof {
            lemma_trade_count(before, order);
            lemma_price_compatibility(before, order);
            lemma_quantity_conservation(before, order);
            lemma_no_over_consumption(before, order);
            if before.len() == 0 || before[0].price > order.price {
                lemma_rejection(before, order);
            }
        }
        trades
    }

    /// Takes an order of either side: see [`MatchingEngine::submit_sell`]
    /// and [`MatchingEngine::submit_buy`]. A sell order makes no trades.
    pub fn submit(&mut self, order: Order) -> (trades: Vec<Trade>)
        requires
            old(self).wf(),
        ensures
            final(self).wf(),
            order.order_type == OrderType::Sell ==> trades@.len() == 0 && final(self)@ == rested(
                old(self)@,
                order,
            ),
            order.order_type == OrderType::Buy ==> trades@ == trades_of(old(self)@, order)
                && final(self)@ == book_after(old(self)@, order),
    {
        match order.order_type {
            OrderType::Sell => {
                self.submit_sell(order);
                Vec::new()
            },
            OrderType::Buy => self.submit_buy(order),
        }
    }

    /// Reads an order from a line of text and takes it. A line that is not
    /// an order is refused and leaves the book as it was.
    pub fn submit_line(&mut self, line: &str) -> (result: Result<Vec<Trade>, InvalidOrder>)
        requires
            old(self).wf(),
        ensures
            final(self).wf(),
            match parsed(line@) {
                Ok(order) => {
                    &&& result is Ok
                    &&& order.order_type == OrderType::Sell ==> result->Ok_0@.len() == 0
                        && final(self)@ == rested(old(self)@, order)
                    &&& order.order_type == OrderType::Buy ==> result->Ok_0@ == trades_of(
                        old(self)@,
                        order,
                    ) && final(self)@ == book_after(old(self)@, order)
                },
                Err(fault) => result == Err::<Vec<Trade>, InvalidOrder>(fault) && final(self)@ == old(
                    self,
                )@,
            },
    {
        match parse_order(line) {
            Ok(order) => Ok(self.submit(order)),
            Err(fault) => Err(fault),
        }
    }

    /// The best offer in the book, if there is one.
    pub fn best_offer(&self) -> (best: Option<Order>)
        ensures
            best == if self@.len() == 0 {
                None
            } else {
                Some(self@[0])
            },
    {
        self.book.best()
    }

    /// The number of resting orders.
    pub fn resting_count(&self) -> (n: usize)
        ensures
            n == self@.len(),
    {
        self.book.len()
    }

    /// The resting orders in matching order.
    pub fn resting_orders(&self) -> (all: Vec<Order>)
        ensures
            all@ == self@,
    {
        self.book.orders()
    }
}

} // verus!
