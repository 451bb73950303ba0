use fssm::order::Order;
use fssm::order::OrderDetails;
use fssm::order::OrderType;
use fssm::order::OrderVariant;
use fssm::order::Stock;
use fssm::price::Price;

fn price(value: f64) -> Price {
    Price::from_bits(value.to_bits())
}

fn order(order_type: OrderType, variant: OrderVariant, time: i64, stock: Stock) -> Order {
    Order {
        id: None,
        order_type,
        variant,
        details: OrderDetails { time, stock, amount: 1, lifetime_nanos: None },
    }
}

#[test]
fn buy_order_market_vs_limit() {
    let market_order = order(OrderType::Buy, OrderVariant::Market, 1, Stock::AAPL);
    let limit_order =
        order(OrderType::Buy, OrderVariant::Limit { price: price(100.0) }, 2, Stock::AAPL);

    assert!(market_order > limit_order, "Market order should be greater than limit order");
}

#[test]
fn sell_order_limit_price_priority() {
    let lower_price_order =
        order(OrderType::Sell, OrderVariant::Limit { price: price(95.0) }, 2, Stock::GOOGL);
    let higher_price_order =
        order(OrderType::Sell, OrderVariant::Limit { price: price(100.0) }, 1, Stock::GOOGL);

    assert!(
        lower_price_order > higher_price_order,
        "Lower price sell order should have higher priority"
    );
}

#[test]
fn buy_order_limit_price_priority() {
    let lower_price_order =
        order(OrderType::Buy, OrderVariant::Limit { price: price(95.0) }, 2, Stock::GOOGL);
    let higher_price_order =
        order(OrderType::Buy, OrderVariant::Limit { price: price(100.0) }, 1, Stock::GOOGL);

    assert!(
        lower_price_order < higher_price_order,
        "Higher price buy order should have higher priority"
    );
}

#[test]
fn buy_order_limit_orders_equal_prices_compare_times() {
    let earlier_order =
        order(OrderType::Buy, OrderVariant::Limit { price: price(150.0) }, 1, Stock::MSFT);
    let later_order =
        order(OrderType::Buy, OrderVariant::Limit { price: price(150.0) }, 2, Stock::MSFT);

    assert!(
        earlier_order > later_order,
        "Earlier limit buy order should be less than later one with the same price"
    );
}

#[test]
fn sell_order_market_orders_compare_times() {
    let earlier_order = order(OrderType::Sell, OrderVariant::Market, 1, Stock::AAPL);
    let later_order = order(OrderType::Sell, OrderVariant::Market, 2, Stock::AAPL);

    assert!(earlier_order > later_order, "Earlier market sell order should be greater than later one");
}
