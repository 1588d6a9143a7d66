//! What matching guarantees, proved of every book and every buy order.

use crate::book::{
    after_sells, lemma_after_sells, lemma_rank_splits, rank, resting, sorted_by_price,
};
use crate::matching::{
    available, book_after, lemma_trade_count_from, lemma_volume_grows, trade_at, trade_count,
    traded_total, trades_at, trades_of, volume,
};
use crate::order::{Order, OrderType, Trade};
use vstd::prelude::*;

verus! {

/// What is left open of the order at position `j` of `book` once `buyer`
/// has been matched.
pub open spec fn left_at(book: Seq<Order>, buyer: Order, j: int) -> int {
    if 0 <= j < trade_count(book, buyer) {
        book[j].quantity - trade_at(book, buyer, j).quantity_traded
    } else {
        book[j].quantity as int
    }
}

/// The buyer trades with the first `trade_count` orders of the book and
/// not with the next one.
pub proof fn lemma_trade_count(book: Seq<Order>, buyer: Order)
    ensures
        0 <= trade_count(book, buyer) <= book.len(),
        trades_of(book, buyer).len() == trade_count(book, buyer),
        !trades_at(book, buyer, trade_count(book, buyer)),
        forall|j: int|
            0 <= j < trade_count(book, buyer) ==> #[trigger] trades_at(book, buyer, j),
{
    lemma_trade_count_from(book, buyer, 0);
}

/// Every trade is made with the order at its own position in the book, at
/// that order's price and within the buyer's limit, for more than nothing
/// and for no more than the order has open.
pub proof fn lemma_price_compatibility(book: Seq<Order>, buyer: Order)
    requires
        resting(book),
    ensures
        forall|j: int|
            0 <= j < trades_of(book, buyer).len() ==> {
                let trade = #[trigger] trades_of(book, buyer)[j];
                &&& trade.buy_id == buyer.id
                &&& trade.sell_id == book[j].id
                &&& trade.price == book[j].price
                &&& trade.price <= buyer.price
                &&& 0 < trade.quantity_traded <= book[j].quantity
            },
{
    lemma_trade_count(book, buyer);
    assert forall|j: int| 0 <= j < trades_of(book, buyer).len() implies {
        let trade = #[trigger] trades_of(book, buyer)[j];
        &&& trade.buy_id == buyer.id
        &&& trade.sell_id == book[j].id
        &&& trade.price == book[j].price
        &&& trade.price <= buyer.price
        &&& 0 < trade.quantity_traded <= book[j].quantity
    } by {
        assert(trades_at(book, buyer, j));
    }
}

/// A buy order that finds no offer within its limit, or that asks for
/// nothing, makes no trade and leaves the book as it was.
pub proof fn lemma_rejection(book: Seq<Order>, buyer: Order)
    requires
        book.len() == 0 || book[0].price > buyer.price || buyer.quantity == 0,
    ensures
        trades_of(book, buyer) == Seq::<Trade>::empty(),
        book_after(book, buyer) == book,
{
}

/// A buy order makes a trade exactly when it asks for something and the
/// best offer is within its limit. Its first trade is then made with the
/// best offer, and no resting order asks less than that trade's price.
pub proof fn lemma_best_offer_first(book: Seq<Order>, buyer: Order)
    requires
        resting(book),
    ensures
        trades_of(book, buyer).len() > 0 <==> buyer.quantity > 0 && book.len() > 0 && book[0].price
            <= buyer.price,
        trades_of(book, buyer).len() > 0 ==> {
            &&& trades_of(book, buyer)[0].sell_id == book[0].id
            &&& trades_of(book, buyer)[0].price == book[0].price
            &&& forall|i: int|
                0 <= i < book.len() ==> trades_of(book, buyer)[0].price <= (#[trigger] book[i]).price
        },
{
    lemma_trade_count(book, buyer);
}

/// Price priority. Of sell orders submitted one after the other to an
/// empty book, a buy order that follows trades first with a live one of
/// the lowest price, and it trades at all exactly when it asks for
/// something and a live one of them is within its limit.
pub proof fn lemma_price_priority(sells: Seq<Order>, buyer: Order)
    requires
        forall|i: int| 0 <= i < sells.len() ==> (#[trigger] sells[i]).order_type == OrderType::Sell,
    ensures
        trades_of(after_sells(sells), buyer).len() > 0 <==> buyer.quantity > 0 && exists|i: int|
            0 <= i < sells.len() && (#[trigger] sells[i]).quantity > 0 && sells[i].price
                <= buyer.price,
        trades_of(after_sells(sells), buyer).len() > 0 ==> {
            let first = trades_of(after_sells(sells), buyer)[0];
            &&& exists|i: int|
                0 <= i < sells.len() && (#[trigger] sells[i]).quantity > 0 && sells[i].id
                    == first.sell_id && sells[i].price == first.price
            &&& forall|i: int|
                0 <= i < sells.len() && (#[trigger] sells[i]).quantity > 0 ==> first.price
                    <= sells[i].price
        },
{
    let book = after_sells(sells);
    lemma_after_sells(sells);
    lemma_best_offer_first(book, buyer);
    if exists|i: int|
        0 <= i < sells.len() && (#[trigger] sells[i]).quantity > 0 && sells[i].price
            <= buyer.price {
        let i = choose|i: int|
            0 <= i < sells.len() && (#[trigger] sells[i]).quantity > 0 && sells[i].price
                <= buyer.price;
        assert(book.contains(sells[i]));
    }
    if book.len() > 0 {
        assert(book.contains(book[0]));
    }
    if trades_of(book, buyer).len() > 0 {
        let first = trades_of(book, buyer)[0];
        assert forall|i: int|
            0 <= i < sells.len() && (#[trigger] sells[i]).quantity > 0 implies first.price
            <= sells[i].price by {
            assert(book.contains(sells[i]));
        }
    }
}

/// The first `k` trades of a buy order take the volume of the first `k`
/// orders, but no more than the buyer asks for.
proof fn lemma_traded_prefix(book: Seq<Order>, buyer: Order, k: int)
    requires
        0 <= k <= trade_count(book, buyer),
    ensures
        traded_total(Seq::new(k as nat, |j: int| trade_at(book, buyer, j))) == if volume(book, k)
            < buyer.quantity {
            volume(book, k)
        } else {
            buyer.quantity as int
        },
    decreases k,
{
    lemma_trade_count(book, buyer);
    let trades = Seq::new(k as nat, |j: int| trade_at(book, buyer, j));
    if k > 0 {
        lemma_traded_prefix(book, buyer, k - 1);
        assert(trades.drop_last() =~= Seq::new((k - 1) as nat, |j: int| trade_at(book, buyer, j)));
        assert(trades_at(book, buyer, k - 1));
    }
}

/// In a sorted book, what can be had within a limit is the volume of the
/// orders up to the limit's rank.
pub proof fn lemma_available_is_volume(s: Seq<Order>, limit: u32)
    requires
        sorted_by_price(s),
    ensures
        available(s, limit) == volume(s, rank(s, limit) as int),
    decreases s.len(),
{
    if s.len() > 0 {
        let front = s.drop_last();
        lemma_available_is_volume(front, limit);
        lemma_rank_splits(s, limit);
        lemma_rank_splits(front, limit);
        lemma_volume_prefix(s, front, rank(front, limit) as int);
    }
}

/// The volume of the first `n` orders depends on those orders alone.
pub proof fn lemma_volume_prefix(s: Seq<Order>, t: Seq<Order>, n: int)
    requires
        n <= s.len(),
        n <= t.len(),
        forall|i: int| 0 <= i < n ==> s[i].quantity == t[i].quantity,
    ensures
        volume(s, n) == volume(t, n),
    decreases n,
{
    if n > 0 {
        lemma_volume_prefix(s, t, n - 1);
    }
}

/// Quantity conservation. The trades of a buy order add up to what the
/// buyer asks for, or to all that the book offers within the buyer's
/// limit, whichever is less: never more than the buyer asks for, and as
/// much exactly when the book offers that much within the limit.
pub proof fn lemma_quantity_conservation(book: Seq<Order>, buyer: Order)
    requires
        resting(book),
    ensures
        traded_total(trades_of(book, buyer)) == if available(book, buyer.price) < buyer.quantity {
            available(book, buyer.price)
        } else {
            buyer.quantity as int
        },
        traded_total(trades_of(book, buyer)) <= buyer.quantity,
        traded_total(trades_of(book, buyer)) == buyer.quantity <==> available(book, buyer.price)
            >= buyer.quantity,
{
    let n = trade_count(book, buyer);
    let r = rank(book, buyer.price) as int;
    lemma_trade_count(book, buyer);
    lemma_traded_prefix(book, buyer, n);
    lemma_available_is_volume(book, buyer.price);
    lemma_rank_splits(book, buyer.price);
    if n > 0 {
        assert(trades_at(book, buyer, n - 1));
    }
    lemma_volume_grows(book, n, r);
}

/// The volume of a book from position `k` on.
pub proof fn lemma_volume_skip(s: Seq<Order>, k: int, m: int)
    requires
        0 <= k,
        0 <= m,
        k + m <= s.len(),
    ensures
        volume(s.skip(k), m) == volume(s, k + m) - volume(s, k),
    decreases m,
{
    if m > 0 {
        lemma_volume_skip(s, k, m - 1);
    }
}

/// What is left of each order the buyer trades with: nothing of all but
/// the last one, and of the last one whatever its volume goes beyond what
/// the buyer asks for.
proof fn lemma_left_at(book: Seq<Order>, buyer: Order, j: int)
    requires
        resting(book),
        0 <= j < trade_count(book, buyer),
    ensures
        volume(book, j) < buyer.quantity,
        volume(book, j + 1) == volume(book, j) + book[j].quantity,
        j + 1 < trade_count(book, buyer) ==> left_at(book, buyer, j) == 0,
        j + 1 == trade_count(book, buyer) ==> left_at(book, buyer, j) == if volume(book, j + 1)
            > buyer.quantity {
            volume(book, j + 1) - buyer.quantity
        } else {
            0
        },
        0 <= left_at(book, buyer, j) < book[j].quantity,
{
    lemma_trade_count(book, buyer);
    assert(trades_at(book, buyer, j));
    if j + 1 < trade_count(book, buyer) {
        assert(trades_at(book, buyer, j + 1));
    }
}

/// No over-consumption. Matching leaves a book again. It takes from each
/// order no more than the order has open; the orders it has filled are
/// gone from the book, and every other order stands where it stood, with
/// what is left of it. What has left the book is what was traded.
pub proof fn lemma_no_over_consumption(book: Seq<Order>, buyer: Order)
    requires
        resting(book),
    ensures
        resting(book_after(book, buyer)),
        book_after(book, buyer).len() <= book.len(),
        forall|j: int|
            0 <= j < book.len() ==> 0 <= #[trigger] left_at(book, buyer, j) <= book[j].quantity,
        forall|j: int|
            0 <= j < book.len() - book_after(book, buyer).len() ==> #[trigger] left_at(
                book,
                buyer,
                j,
            ) == 0,
        forall|i: int|
            0 <= i < book_after(book, buyer).len() ==> {
                let j = book.len() - book_after(book, buyer).len() + i;
                &&& left_at(book, buyer, j) > 0
                &&& #[trigger] book_after(book, buyer)[i] == Order {
                    quantity: left_at(book, buyer, j) as u32,
                    ..book[j]
                }
            },
        volume(book, book.len() as int) - volume(
            book_after(book, buyer),
            book_after(book, buyer).len() as int,
        ) == traded_total(trades_of(book, buyer)),
{
    let n = trade_count(book, buyer);
    let after = book_after(book, buyer);
    let gone = book.len() - after.len();
    lemma_trade_count(book, buyer);
    lemma_traded_prefix(book, buyer, n);
    let partly = n > 0 && volume(book, n) > buyer.quantity;
    assert forall|j: int| 0 <= j < book.len() implies 0 <= #[trigger] left_at(book, buyer, j)
        <= book[j].quantity by {
        if j < n {
            lemma_left_at(book, buyer, j);
        }
    }
    assert forall|j: int| 0 <= j < gone implies #[trigger] left_at(book, buyer, j) == 0 by {
        lemma_left_at(book, buyer, j);
    }
    assert forall|i: int| 0 <= i < after.len() implies {
        let j = gone + i;
        &&& left_at(book, buyer, j) > 0
        &&& #[trigger] after[i] == Order { quantity: left_at(book, buyer, j) as u32, ..book[j] }
    } by {
        let j = gone + i;
        assert(book[j].quantity > 0);
        if j < n {
            lemma_left_at(book, buyer, j);
        }
    }
    assert forall|i: int, j: int| 0 <= i <= j < after.len() implies after[i].price
        <= after[j].price by {
        assert(after[i].price == book[gone + i].price);
        assert(after[j].price == book[gone + j].price);
    }
    assert(volume(book, book.len() as int) - volume(after, after.len() as int) == traded_total(
        trades_of(book, buyer),
    )) by {
        if partly {
            let rest = book.skip(n - 1);
            lemma_left_at(book, buyer, n - 1);
            lemma_volume_skip(book, n - 1, book.len() - n + 1);
            lemma_volume_prefix_update(rest, after, rest.len() as int);
        } else {
            lemma_volume_skip(book, n, book.len() - n);
        }
    }
}

/// Two books that differ in the open quantity of their best offer alone
/// differ by as much in volume.
proof fn lemma_volume_prefix_update(s: Seq<Order>, t: Seq<Order>, n: int)
    requires
        1 <= n <= s.len(),
        s.len() == t.len(),
        forall|i: int| 1 <= i < n ==> s[i].quantity == t[i].quantity,
    ensures
        volume(s, n) - s[0].quantity == volume(t, n) - t[0].quantity,
    decreases n,
{
    if n > 1 {
        lemma_volume_prefix_update(s, t, n - 1);
    } else {
        assert(volume(s, 0) == 0 && volume(t, 0) == 0);
    }
}

} // verus!
