//! What a buy order does to a book: the trades it makes and the book it
//! leaves, as functions of the book before and of the order.

use crate::order::{Order, Trade};
use vstd::prelude::*;

verus! {

/// The open quantity of the first `n` orders of `s` taken together.
pub open spec fn volume(s: Seq<Order>, n: int) -> int
    decreases n,
{
    if n <= 0 {
        0
    } else {
        volume(s, n - 1) + s[n - 1].quantity
    }
}

/// Everything in `s` that can be had for `limit` or less.
pub open spec fn available(s: Seq<Order>, limit: u32) -> int
    decreases s.len(),
{
    if s.len() == 0 {
        0
    } else {
        available(s.drop_last(), limit) + if s.last().price <= limit {
            s.last().quantity as int
        } else {
            0
        }
    }
}

/// Whether `buyer` trades with the order at position `j` of `book`: the
/// order asks no more than the buyer's limit, and the orders ahead of it do
/// not fill the buyer.
pub open spec fn trades_at(book: Seq<Order>, buyer: Order, j: int) -> bool {
    &&& 0 <= j < book.len()
    &&& book[j].price <= buyer.price
    &&& volume(book, j) < buyer.quantity
}

/// The first position from `j` on at which `buyer` does not trade.
pub open spec fn trade_count_from(book: Seq<Order>, buyer: Order, j: int) -> int
    decreases book.len() - j,
{
    if trades_at(book, buyer, j) {
        trade_count_from(book, buyer, j + 1)
    } else {
        j
    }
}

/// The number of trades that `buyer` makes against `book`: matching walks
/// the book from the best offer on and ends at the first order with which
/// the buyer does not trade.
pub open spec fn trade_count(book: Seq<Order>, buyer: Order) -> int {
    trade_count_from(book, buyer, 0)
}

/// The trade between `buyer` and the order at position `j` of `book`. It is
/// made at the resting order's price, for all of the resting order or for
/// what the buyer still seeks, whichever is less.
pub open spec fn trade_at(book: Seq<Order>, buyer: Order, j: int) -> Trade {
    let sought = buyer.quantity - volume(book, j);
    Trade {
        buy_id: buyer.id,
        sell_id: book[j].id,
        price: book[j].price,
        quantity_traded: if sought < book[j].quantity {
            sought as u32
        } else {
            book[j].quantity
        },
    }
}

/// The trades that `buyer` makes against `book`, in the order in which they
/// are made.
pub open spec fn trades_of(book: Seq<Order>, buyer: Order) -> Seq<Trade> {
    Seq::new(trade_count(book, buyer) as nat, |j: int| trade_at(book, buyer, j))
}

/// The book that `buyer` leaves behind. The orders it has filled are gone;
/// the last order it traded with stays, with what is left of it, unless it
/// was filled too.
pub open spec fn book_after(book: Seq<Order>, buyer: Order) -> Seq<Order> {
    let n = trade_count(book, buyer);
    if n > 0 && volume(book, n) > buyer.quantity {
        book.skip(n - 1).update(
            0,
            Order { quantity: (volume(book, n) - buyer.quantity) as u32, ..book[n - 1] },
        )
    } else {
        book.skip(n)
    }
}

/// The quantities of `trades` added up.
pub open spec fn traded_total(trades: Seq<Trade>) -> int
    decreases trades.len(),
{
    if trades.len() == 0 {
        0
    } else {
        traded_total(trades.drop_last()) + trades.last().quantity_traded
    }
}

/// The count started at `j` ends at a position where the buyer does not
/// trade, and the buyer trades at every position passed on the way.
pub proof fn lemma_trade_count_from(book: Seq<Order>, buyer: Order, j: int)
    requires
        0 <= j <= book.len(),
    ensures
        j <= trade_count_from(book, buyer, j) <= book.len(),
        !trades_at(book, buyer, trade_count_from(book, buyer, j)),
        forall|i: int|
            j <= i < trade_count_from(book, buyer, j) ==> #[trigger] trades_at(book, buyer, i),
    decreases book.len() - j,
{
    if trades_at(book, buyer, j) {
        lemma_trade_count_from(book, buyer, j + 1);
    }
}

/// The volume of a book grows with the number of orders counted.
pub proof fn lemma_volume_grows(s: Seq<Order>, m: int, n: int)
    requires
        0 <= m <= n,
    ensures
        0 <= volume(s, m) <= volume(s, n),
    decreases n,
{
    if m < n {
        lemma_volume_grows(s, m, n - 1);
    } else if n > 0 {
        lemma_volume_grows(s, m - 1, n - 1);
    }
}

} // verus!
