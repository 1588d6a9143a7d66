//! Orders read from lines of text, and trades written as lines of text.
//!
//! An order line holds, separated by white space: the order's id, which
//! may carry colons (`7:`); its side, `Buy` or `Sell`; its quantity; two
//! fields that are not read; and its price. Fields after the sixth are not
//! read either. `12: Sell 5 BTC @ 100 USD` is such a line.

use crate::order::{Order, OrderType, Trade};
use crate::text::{
    append_decimal, chars_of, contents, decimal, number, parse_number, split_words, words,
};
use vstd::prelude::*;

verus! {

/// Why a line is not an order.
#[derive(Debug, PartialEq, Eq, Copy, Clone, Structural)]
pub enum InvalidOrder {
    /// The line ends before a field that has to be read.
    MalformedRecord,
    /// The side is neither `Buy` nor `Sell`.
    InvalidSide,
    /// The id, the quantity or the price is not a number, or is too large
    /// for its field.
    InvalidNumber,
}

/// `s` without its colons.
pub open spec fn without_colons(s: Seq<char>) -> Seq<char>
    decreases s.len(),
{
    if s.len() == 0 {
        s
    } else if s.last() == ':' {
        without_colons(s.drop_last())
    } else {
        without_colons(s.drop_last()).push(s.last())
    }
}

/// The side that `word` names.
pub open spec fn side_of(word: Seq<char>) -> Option<OrderType> {
    if word == seq!['B', 'u', 'y'] {
        Some(OrderType::Buy)
    } else if word == seq!['S', 'e', 'l', 'l'] {
        Some(OrderType::Sell)
    } else {
        None
    }
}

/// The order that `line` holds, or why it holds none. The fields are read
/// from left to right and the first fault found decides the error.
pub open spec fn parsed(line: Seq<char>) -> Result<Order, InvalidOrder> {
    let fields = words(line);
    if fields.len() < 1 {
        Err(InvalidOrder::MalformedRecord)
    } else if number(without_colons(fields[0]), usize::MAX as int) is None {
        Err(InvalidOrder::InvalidNumber)
    } else if fields.len() < 2 {
        Err(InvalidOrder::MalformedRecord)
    } else if side_of(fields[1]) is None {
        Err(InvalidOrder::InvalidSide)
    } else if fields.len() < 3 {
        Err(InvalidOrder::MalformedRecord)
    } else if number(fields[2], u32::MAX as int) is None {
        Err(InvalidOrder::InvalidNumber)
    } else if fields.len() < 6 {
        Err(InvalidOrder::MalformedRecord)
    } else if number(fields[5], u32::MAX as int) is None {
        Err(InvalidOrder::InvalidNumber)
    } else {
        Ok(
            Order {
                id: number(without_colons(fields[0]), usize::MAX as int)->0 as usize,
                order_type: side_of(fields[1])->0,
                price: number(fields[5], u32::MAX as int)->0 as u32,
                quantity: number(fields[2], u32::MAX as int)->0 as u32,
            },
        )
    }
}

/// The line that reports `trade`.
pub open spec fn trade_text(trade: Trade) -> Seq<char> {
    "Trade: "@ + decimal(trade.quantity_traded as nat) + " BTC @ "@ + decimal(trade.price as nat)
        + " USD between "@ + decimal(trade.buy_id as nat) + " and "@ + decimal(
        trade.sell_id as nat,
    )
}

/// Takes the colons out of a word.
fn strip_colons(word: &Vec<char>) -> (stripped: Vec<char>)
    ensures
        stripped@ == without_colons(word@),
{
    let n = word.len();
    let mut stripped: Vec<char> = Vec::new();
    let mut i: usize = 0;
    while i < n
        invariant
            n == word@.len(),
            i <= n,
            stripped@ == without_colons(word@.take(i as int)),
        decreases n - i,
    {
        let c = word[i];
        assert(word@.take(i + 1).drop_last() == word@.take(i as int));
        if c != ':' {
            stripped.push(c);
        }
        i += 1;
    }
    assert(word@.take(n as int) == word@);
    stripped
}

/// Reads the side that a word names.
fn parse_side(word: &Vec<char>) -> (side: Option<OrderType>)
    ensures
        side == side_of(word@),
{
    if word.len() == 3 && word[0] == 'B' && word[1] == 'u' && word[2] == 'y' {
        assert(word@ == seq!['B', 'u', 'y']);
        Some(OrderType::Buy)
    } else if word.len() == 4 && word[0] == 'S' && word[1] == 'e' && word[2] == 'l' && word[3]
        == 'l' {
        assert(word@ == seq!['S', 'e', 'l', 'l']);
        Some(OrderType::Sell)
    } else {
        proof {
            let buy = seq!['B', 'u', 'y'];
            let sell = seq!['S', 'e', 'l', 'l'];
            assert(word@ == buy ==> word@.len() == 3 && word@[0] == buy[0] && word@[1] == buy[1]
                && word@[2] == buy[2]);
            assert(word@ == sell ==> word@.len() == 4 && word@[0] == sell[0] && word@[1]
                == sell[1] && word@[2] == sell[2] && word@[3] == sell[3]);
        }
        None
    }
}

/// Reads an order from a line of text.
pub fn parse_order(line: &str) -> (result: Result<Order, InvalidOrder>)
    ensures
        result == parsed(line@),
{
    let chars = chars_of(line);
    let fields = split_words(&chars);
    let ghost found = words(line@);
    assert forall|i: int| 0 <= i < found.len() implies fields@[i]@ == #[trigger] found[i] by {
        assert(contents(fields@)[i] == fields@[i]@);
    }
    if fields.len() < 1 {
        return Err(InvalidOrder::MalformedRecord);
    }
    let id_digits = strip_colons(&fields[0]);
    let id = match parse_number(&id_digits, usize::MAX as u64) {
        Some(id) => id as usize,
        None => {
            return Err(InvalidOrder::InvalidNumber);
        },
    };
    if fields.len() < 2 {
        return Err(InvalidOrder::MalformedRecord);
    }
    let order_type = match parse_side(&fields[1]) {
        Some(side) => side,
        None => {
            return Err(InvalidOrder::InvalidSide);
        },
    };
    if fields.len() < 3 {
        return Err(InvalidOrder::MalformedRecord);
    }
    let quantity = match parse_number(&fields[2], u32::MAX as u64) {
        Some(quantity) => quantity as u32,
        None => {
            return Err(InvalidOrder::InvalidNumber);
        },
    };
    if fields.len() < 6 {
        return Err(InvalidOrder::MalformedRecord);
    }
    let price = match parse_number(&fields[5], u32::MAX as u64) {
        Some(price) => price as u32,
        None => {
            return Err(InvalidOrder::InvalidNumber);
        },
    };
    Ok(Order { id, order_type, price, quantity })
}

impl std::str::FromStr for Order {
    type Err = InvalidOrder;

    /// As [`parse_order`].
    fn from_str(line: &str) -> (result: Result<Order, InvalidOrder>)
        ensures
            result == parsed(line@),
    {
        parse_order(line)
    }
}

impl Trade {
    /// The line that reports the trade.
    pub fn to_text(&self) -> (text: String)
        ensures
            text@ == trade_text(*self),
    {
        let mut text = String::from_str("Trade: ");
        append_decimal(&mut text, self.quantity_traded as u64);
        text.append(" BTC @ ");
        append_decimal(&mut text, self.price as u64);
        text.append(" USD between ");
        append_decimal(&mut text, self.buy_id as u64);
        text.append(" and ");
        append_decimal(&mut text, self.sell_id as u64);
        text
    }
}

impl InvalidOrder {
    /// What is wrong, in words.
    pub fn message(&self) -> (text: &'static str)
        ensures
            text@ == match *self {
                InvalidOrder::MalformedRecord => "order record not complete"@,
                InvalidOrder::InvalidSide => "OrderType not valid"@,
                InvalidOrder::InvalidNumber => "number not valid"@,
            },
    {
        match self {
            InvalidOrder::MalformedRecord => "order record not complete",
            InvalidOrder::InvalidSide => "OrderType not valid",
            InvalidOrder::InvalidNumber => "number not valid",
        }
    }
}

} // verus!
