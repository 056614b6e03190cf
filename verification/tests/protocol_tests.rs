use sniper_bot::okx::protocol::build_order_packet;
use sniper_bot::okx::protocol::create_order_packet;
use sniper_bot::okx::protocol::create_subscribe_packet;
use sniper_bot::okx::protocol::decode;
use sniper_bot::okx::protocol::ChannelType;
use sniper_bot::okx::protocol::Endpoint;
use sniper_bot::okx::protocol::Envelope;
use sniper_bot::okx::protocol::OrderIdGen;

#[test]
fn endpoint_urls() {
    assert_eq!(Endpoint::Public.as_url(), "wss://ws.okx.com:8443/ws/v5/public");
    assert_eq!(Endpoint::Private.as_url(), "wss://ws.okx.com:8443/ws/v5/private");
    assert_eq!(ChannelType::Tickers.as_str(), "tickers");
    assert_eq!(ChannelType::Account.as_str(), "account");
}

#[test]
fn subscribe_packet_for_instrument() {
    let pkt = create_subscribe_packet(ChannelType::Tickers, "BTC-USDT");
    assert_eq!(
        pkt,
        "{\"op\":\"subscribe\",\"args\":[{\"channel\":\"tickers\",\"instId\":\"BTC-USDT\"}]}"
    );
}

#[test]
fn subscribe_packet_for_account_keys_by_currency() {
    let pkt = create_subscribe_packet(ChannelType::Account, "USDT");
    assert_eq!(
        pkt,
        "{\"op\":\"subscribe\",\"args\":[{\"channel\":\"account\",\"ccy\":\"USDT\"}]}"
    );
}

#[test]
fn order_packet_spot_uses_cash_mode() {
    let pkt = build_order_packet("BTC-USDT", "buy", "25", "net", "snip01", "req-1");
    assert_eq!(
        pkt,
        "{\"id\":\"req-1\",\"op\":\"order\",\"args\":[{\"clOrdId\":\"snip01\",\"side\":\"buy\",\"posSide\":\"net\",\"ordType\":\"market\",\"instId\":\"BTC-USDT\",\"sz\":\"25\",\"tdMode\":\"cash\"}]}"
    );
}

#[test]
fn order_packet_swap_uses_cross_margin() {
    let pkt = build_order_packet("BTC-USDT-SWAP", "sell", "1", "net", "snip02", "req-2");
    assert!(pkt.contains("\"tdMode\":\"cross\""));
    assert!(pkt.contains("\"ordType\":\"market\""));
}

#[test]
fn order_packet_escapes_embedded_quotes() {
    let pkt = build_order_packet("A\"B\\C", "buy", "1", "net", "c", "r");
    // The packet must stay valid JSON with the raw name recoverable.
    let v: serde_json::Value = serde_json::from_str(&pkt).unwrap();
    assert_eq!(v["args"][0]["instId"].as_str().unwrap(), "A\"B\\C");
}

#[test]
fn created_orders_carry_fresh_correlation_ids_and_count_up() {
    let mut ids = OrderIdGen::new();
    // 9999 is 270f in hexadecimal.
    let p1 = create_order_packet("X-USDT", "buy", "25", None, 9999, &mut ids);
    let p2 = create_order_packet("X-USDT", "buy", "25", None, 9999, &mut ids);
    let v1: serde_json::Value = serde_json::from_str(&p1).unwrap();
    let v2: serde_json::Value = serde_json::from_str(&p2).unwrap();
    assert_eq!(v1["args"][0]["clOrdId"].as_str().unwrap(), "snip270f1");
    assert_eq!(v2["args"][0]["clOrdId"].as_str().unwrap(), "snip270f2");
    assert_eq!(v1["id"].as_str().unwrap().len(), 36);
    assert_eq!(v2["id"].as_str().unwrap().len(), 36);
    assert_ne!(v1["id"], v2["id"]);
    assert_eq!(v1["args"][0]["posSide"].as_str().unwrap(), "net");
}

#[test]
fn decode_keep_alive_texts() {
    assert!(matches!(decode("pong"), Ok(Envelope::Pong)));
    assert!(matches!(decode("ping"), Ok(Envelope::Ping)));
}

#[test]
fn decode_event_frame() {
    let env = decode("{\"event\":\"subscribe\",\"arg\":{\"channel\":\"tickers\",\"instId\":\"BTC-USDT\"},\"connId\":\"abc\"}").unwrap();
    match env {
        Envelope::SystemEvent { event, code, msg } => {
            assert_eq!(event, "subscribe");
            assert_eq!(code, None);
            assert_eq!(msg, None);
        }
        _ => panic!("expected a system event"),
    }
}

#[test]
fn decode_data_push() {
    let env = decode("{\"arg\":{\"channel\":\"tickers\",\"instId\":\"BTC-USDT\"},\"data\":[{\"instId\":\"BTC-USDT\",\"last\":\"100\",\"askPx\":\"100.1\",\"bidPx\":\"99.9\",\"vol24h\":\"5\",\"ts\":\"1700000000000\",\"open24h\":\"99\"}]}").unwrap();
    match env {
        Envelope::SubscriptionData { arg, data } => {
            assert_eq!(arg.channel, "tickers");
            assert_eq!(arg.instId.as_deref(), Some("BTC-USDT"));
            assert_eq!(data.len(), 1);
        }
        _ => panic!("expected a data push"),
    }
}

#[test]
fn decode_tolerates_whitespace_and_nesting() {
    let env = decode("{ \"arg\" : { \"channel\" : \"account\" } , \"data\" : [ { \"details\" : [ ] , \"uTime\" : \"1\" } ] }").unwrap();
    match env {
        Envelope::SubscriptionData { arg, data } => {
            assert_eq!(arg.channel, "account");
            assert_eq!(arg.instId, None);
            assert_eq!(data.len(), 1);
        }
        _ => panic!("expected a data push"),
    }
}

#[test]
fn decode_unrelated_object() {
    let env = decode("{\"op\":\"order\",\"id\":\"1\",\"code\":\"0\"}").unwrap();
    assert!(matches!(env, Envelope::Unrelated));
}

#[test]
fn decode_keeps_string_escapes_as_they_stand() {
    // String contents come through as they stand on the wire: the escape
    // sequence in the message is scanned over, not reduced.
    let env = decode("{\"event\":\"error\",\"code\":\"1\",\"msg\":\"a\\\"b\"}").unwrap();
    match env {
        Envelope::SystemEvent { event, code, msg } => {
            assert_eq!(event, "error");
            assert_eq!(code.as_deref(), Some("1"));
            assert_eq!(msg.as_deref(), Some("a\\\"b"));
        }
        _ => panic!("expected a system event"),
    }
}

#[test]
fn decode_rejects_malformed_frames_with_raw_text() {
    match decode("{\"event\":\"login\"") {
        Err(e) => assert_eq!(e.raw, "{\"event\":\"login\""),
        Ok(_) => panic!("malformed frame decoded"),
    }
    assert!(decode("").is_err());
    assert!(decode("[1,2,3]").is_err());
    assert!(decode("\"just a string\"").is_err());
    assert!(decode("{\"a\":01x}").is_err());
}
