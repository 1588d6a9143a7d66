use matching_engine::{parse_order, InvalidOrder, Order, OrderType, Trade};
use std::str::FromStr;

fn order(id: usize, order_type: OrderType, quantity: u32, price: u32) -> Order {
    Order { id, order_type, price, quantity }
}

#[test]
fn reads_a_buy_line() {
    assert_eq!(parse_order("1: Buy 5 BTC @ 100 USD"), Ok(order(1, OrderType::Buy, 5, 100)));
}

#[test]
fn reads_a_sell_line() {
    assert_eq!(parse_order("12: Sell 7 BTC @ 4300 USD\n"), Ok(order(12, OrderType::Sell, 7, 4300)));
}

#[test]
fn from_str_reads_as_parse_order_does() {
    assert_eq!(Order::from_str("3: Sell 2 BTC @ 9 USD"), Ok(order(3, OrderType::Sell, 2, 9)));
    assert_eq!("3: Sell 2 BTC @ 9 USD".parse::<Order>(), Ok(order(3, OrderType::Sell, 2, 9)));
    assert_eq!(Order::from_str("3: Hold 2 BTC @ 9 USD"), Err(InvalidOrder::InvalidSide));
    assert_eq!(Order::from_str(""), Err(InvalidOrder::MalformedRecord));
}

#[test]
fn id_may_carry_colons_anywhere() {
    assert_eq!(parse_order("7 Buy 1 x y 2"), Ok(order(7, OrderType::Buy, 1, 2)));
    assert_eq!(parse_order(":7: Buy 1 x y 2"), Ok(order(7, OrderType::Buy, 1, 2)));
    assert_eq!(parse_order("1:2:: Buy 1 x y 2"), Ok(order(12, OrderType::Buy, 1, 2)));
    assert_eq!(parse_order(": Buy 1 x y 2"), Err(InvalidOrder::InvalidNumber));
}

#[test]
fn colons_are_taken_out_of_the_id_only() {
    assert_eq!(parse_order("1: Buy 5: BTC @ 100 USD"), Err(InvalidOrder::InvalidNumber));
    assert_eq!(parse_order("1: Buy 5 BTC @ 100: USD"), Err(InvalidOrder::InvalidNumber));
    assert_eq!(parse_order("1: Buy: 5 BTC @ 100 USD"), Err(InvalidOrder::InvalidSide));
}

#[test]
fn fourth_and_fifth_field_and_the_tail_are_not_read() {
    assert_eq!(parse_order("1 Sell 2 - - 3"), Ok(order(1, OrderType::Sell, 2, 3)));
    assert_eq!(parse_order("1 Sell 2 99 Buy 3 and so on 17"), Ok(order(1, OrderType::Sell, 2, 3)));
}

#[test]
fn any_white_space_separates_fields() {
    assert_eq!(
        parse_order("  \t1:\u{2003}Buy\r\n5\u{a0}BTC\u{3000}@ \u{85}100\u{b}USD  "),
        Ok(order(1, OrderType::Buy, 5, 100))
    );
}

#[test]
fn zero_price_and_zero_quantity_are_read() {
    assert_eq!(parse_order("0: Sell 0 BTC @ 0 USD"), Ok(order(0, OrderType::Sell, 0, 0)));
}

#[test]
fn numbers_may_have_a_plus_sign_and_leading_zeros() {
    assert_eq!(parse_order("+1: Buy +5 BTC @ 000100 USD"), Ok(order(1, OrderType::Buy, 5, 100)));
    assert_eq!(parse_order("+:4 Buy 5 BTC @ 1 USD"), Ok(order(4, OrderType::Buy, 5, 1)));
}

#[test]
fn largest_numbers_are_read() {
    assert_eq!(
        parse_order("18446744073709551615: Buy 4294967295 BTC @ 4294967295 USD").map(|o| (o.quantity, o.price)),
        Ok((u32::MAX, u32::MAX))
    );
    assert_eq!(
        parse_order(&format!("{}: Buy 1 BTC @ 1 USD", usize::MAX)),
        Ok(order(usize::MAX, OrderType::Buy, 1, 1))
    );
}

#[test]
fn too_large_a_number_is_not_valid() {
    assert_eq!(parse_order("1: Buy 4294967296 BTC @ 1 USD"), Err(InvalidOrder::InvalidNumber));
    assert_eq!(parse_order("1: Buy 1 BTC @ 4294967296 USD"), Err(InvalidOrder::InvalidNumber));
    assert_eq!(parse_order("1: Buy 1 BTC @ 99999999999999999999999 USD"), Err(InvalidOrder::InvalidNumber));
    assert_eq!(
        parse_order("340282366920938463463374607431768211456: Buy 1 BTC @ 1 USD"),
        Err(InvalidOrder::InvalidNumber)
    );
}

#[test]
fn what_is_not_a_number_is_not_valid() {
    for line in [
        "x: Buy 5 BTC @ 100 USD",
        "-1: Buy 5 BTC @ 100 USD",
        "1: Buy -5 BTC @ 100 USD",
        "1: Buy 5 BTC @ -100 USD",
        "1: Buy 5.0 BTC @ 100 USD",
        "1: Buy 5 BTC @ 1e3 USD",
        "1: Buy + BTC @ 100 USD",
        "1: Buy ++5 BTC @ 100 USD",
        "1: Buy 5+ BTC @ 100 USD",
        "1: Buy 0x10 BTC @ 100 USD",
        "1: Buy 1_000 BTC @ 100 USD",
        "1: Buy \u{0665} BTC @ 100 USD",
        "1: Buy five BTC @ 100 USD",
    ] {
        assert_eq!(parse_order(line), Err(InvalidOrder::InvalidNumber), "{line}");
    }
}

#[test]
fn side_must_be_spelled_exactly() {
    for line in [
        "1: buy 5 BTC @ 100 USD",
        "1: BUY 5 BTC @ 100 USD",
        "1: Sel 5 BTC @ 100 USD",
        "1: Sells 5 BTC @ 100 USD",
        "1: Bu 5 BTC @ 100 USD",
        "1: Buyer 5 BTC @ 100 USD",
        "1: 5 Buy BTC @ 100 USD",
    ] {
        assert_eq!(parse_order(line), Err(InvalidOrder::InvalidSide), "{line}");
    }
}

#[test]
fn short_lines_are_malformed() {
    for line in ["", "   ", "\n", "1:", "1: Buy", "1: Buy 5", "1: Buy 5 BTC", "1: Buy 5 BTC @"] {
        assert_eq!(parse_order(line), Err(InvalidOrder::MalformedRecord), "{line}");
    }
}

#[test]
fn first_fault_from_the_left_decides() {
    assert_eq!(parse_order("x"), Err(InvalidOrder::InvalidNumber));
    assert_eq!(parse_order("x: Hold"), Err(InvalidOrder::InvalidNumber));
    assert_eq!(parse_order("1: Hold"), Err(InvalidOrder::InvalidSide));
    assert_eq!(parse_order("1: Hold y"), Err(InvalidOrder::InvalidSide));
    assert_eq!(parse_order("1: Buy y"), Err(InvalidOrder::InvalidNumber));
    assert_eq!(parse_order("1: Buy y BTC @ z"), Err(InvalidOrder::InvalidNumber));
    assert_eq!(parse_order("1: Buy 5 BTC @ z"), Err(InvalidOrder::InvalidNumber));
}

#[test]
fn trade_is_written_as_one_line() {
    let trade = Trade { buy_id: 2, sell_id: 1, price: 100, quantity_traded: 3 };
    assert_eq!(trade.to_text(), "Trade: 3 BTC @ 100 USD between 2 and 1");
}

#[test]
fn trade_text_writes_each_number_in_full() {
    let trade = Trade { buy_id: 0, sell_id: usize::MAX, price: u32::MAX, quantity_traded: 10 };
    assert_eq!(
        trade.to_text(),
        format!("Trade: 10 BTC @ 4294967295 USD between 0 and {}", usize::MAX)
    );
    let trade = Trade { buy_id: 1090, sell_id: 9, price: 0, quantity_traded: 1000000 };
    assert_eq!(trade.to_text(), "Trade: 1000000 BTC @ 0 USD between 1090 and 9");
}

#[test]
fn each_fault_has_its_message() {
    assert_eq!(InvalidOrder::MalformedRecord.message(), "order record not complete");
    assert_eq!(InvalidOrder::InvalidSide.message(), "OrderType not valid");
    assert_eq!(InvalidOrder::InvalidNumber.message(), "number not valid");
}
