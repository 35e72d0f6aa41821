use limit_order_book::channel;
use limit_order_book::channel_handler;
use limit_order_book::price::{PriceLevel, FRACTION_UNITS};

#[test]
fn price_is_scaled_into_ticks() {
    assert_eq!(FRACTION_UNITS, 100);
    assert_eq!(PriceLevel::new(10, 5).ticks, 1_005);
    assert_eq!(PriceLevel::new(0, 99).ticks, 99);
    assert_eq!(PriceLevel::new(7, 0).ticks, 700);
}

#[test]
fn price_parts_round_trip() {
    let p = PriceLevel::new(123, 45);
    assert_eq!(p.integral(), 123);
    assert_eq!(p.fractional(), 45);
    assert_eq!(PriceLevel::from_ticks(p.ticks), p);
}

#[test]
fn equal_prices_give_equal_keys() {
    assert_eq!(PriceLevel::new(10, 50), PriceLevel::from_ticks(1_050));
    assert_ne!(PriceLevel::new(10, 50), PriceLevel::new(10, 51));
}

#[test]
fn tick_order_is_integral_then_fractional() {
    // Higher integral part wins regardless of the fractional parts.
    assert!(PriceLevel::new(11, 0).ticks > PriceLevel::new(10, 99).ticks);
    // Equal integral parts fall back to the fractional part.
    assert!(PriceLevel::new(10, 5).ticks > PriceLevel::new(10, 4).ticks);
    assert!(PriceLevel::new(10, 4).ticks < PriceLevel::new(10, 5).ticks);
}

#[test]
fn channel_constructors_keep_their_fields() {
    let channels = channel::Channels::new(
        String::from("book"),
        String::from("BTC-PERPETUAL"),
        String::from("raw"),
    );
    assert_eq!(channels.channel, "book");
    assert_eq!(channels.instrument_name, "BTC-PERPETUAL");
    assert_eq!(channels.interval, "raw");

    assert_eq!(channels.channel_string(), "book.BTC-PERPETUAL.raw");

    let params = channel::Params::new(vec![String::from("book.BTC-PERPETUAL.raw")]);
    assert_eq!(params.channels, vec![String::from("book.BTC-PERPETUAL.raw")]);

    let sub = channel::Subscription::new(
        String::from("2.0"),
        8,
        String::from("public/subscribe"),
        channel::Params::new(vec![String::from("book.BTC-PERPETUAL.raw")]),
    );
    assert_eq!(sub.jsonrpc, "2.0");
    assert_eq!(sub.id, 8);
    assert_eq!(sub.method, "public/subscribe");
    assert_eq!(sub.params.channels.len(), 1);
}

#[test]
fn book_channel_constructors_keep_their_fields() {
    let channels = channel_handler::Channels::new(
        String::from("BTC-PERPETUAL"),
        String::from("none"),
        10,
        String::from("100ms"),
    );
    assert_eq!(channels.instrument_name, "BTC-PERPETUAL");
    assert_eq!(channels.group, "none");
    assert_eq!(channels.depth, 10);
    assert_eq!(channels.interval, "100ms");

    assert_eq!(channels.channel_string(), "book.BTC-PERPETUAL.none.10.100ms");

    let sub = channel_handler::Subscription::new(
        String::from("2.0"),
        9,
        String::from("public/subscribe"),
        channel_handler::Params::new(vec![String::from("book.BTC-PERPETUAL.none.10.100ms")]),
    );
    assert_eq!(sub.id, 9);
    assert_eq!(sub.params.channels[0], "book.BTC-PERPETUAL.none.10.100ms");
}

#[test]
fn channel_depth_is_written_in_decimal() {
    let zero = channel_handler::Channels::new(
        String::from("i"),
        String::from("g"),
        0,
        String::from("raw"),
    );
    assert_eq!(zero.channel_string(), "book.i.g.0.raw");
    let wide = channel_handler::Channels::new(
        String::from("i"),
        String::from("g"),
        20471,
        String::from("raw"),
    );
    assert_eq!(wide.channel_string(), "book.i.g.20471.raw");
    let negative = channel_handler::Channels::new(
        String::from("i"),
        String::from("g"),
        -5,
        String::from("raw"),
    );
    assert_eq!(negative.channel_string(), "book.i.g.-5.raw");
}
