use comms::client::Client;
use comms::decimal::u32_to_decimal;
use comms::msg::Message;
use comms::msg::MessageType;
use comms::server::Server;

fn post(load: &str) -> Message {
    Message { msg_type: MessageType::Post, load: String::from(load) }
}

fn get() -> Message {
    Message { msg_type: MessageType::Get, load: String::new() }
}

#[test]
fn content_joins_header_and_load() {
    let m = Message { msg_type: MessageType::Post, load: String::from("Hello") };
    assert_eq!(m.content(), String::from("[POST]\nHello"));
    let m = Message { msg_type: MessageType::Handshake, load: String::from("10.0.0.1") };
    assert_eq!(m.content(), String::from("[HANDSHAKE]\n10.0.0.1"));
    let m = Message { msg_type: MessageType::Get, load: String::new() };
    assert_eq!(m.content(), String::from("[GET]\n"));
}

#[test]
fn decimal_rendering_exact() {
    assert_eq!(u32_to_decimal(0), String::from("0"));
    assert_eq!(u32_to_decimal(7), String::from("7"));
    assert_eq!(u32_to_decimal(10), String::from("10"));
    assert_eq!(u32_to_decimal(42), String::from("42"));
    assert_eq!(u32_to_decimal(100), String::from("100"));
    assert_eq!(u32_to_decimal(4294967295), String::from("4294967295"));
}

#[test]
fn get_reports_each_count() {
    let mut client = Client::new(String::from("counter"), 3);
    assert_eq!(client.receive(get()).unwrap().unwrap(), String::from("0"));
    client.receive(post("one")).unwrap();
    assert_eq!(client.receive(get()).unwrap().unwrap(), String::from("1"));
    client.receive(post("two")).unwrap();
    client.receive(post("three")).unwrap();
    assert_eq!(client.receive(get()).unwrap().unwrap(), String::from("3"));
    // the limit is reached: the count stops changing
    client.receive(post("four")).unwrap_err();
    assert_eq!(client.receive(get()).unwrap().unwrap(), String::from("3"));
    assert_eq!(client.post_count, 3);
}

#[test]
fn send_to_unknown_address() {
    let mut server = Server::new(String::from("localhost"));
    let error_msg = server.send("10.1.1.1", get()).unwrap_err().message();
    assert_eq!(
        error_msg,
        String::from("Tried to send a message through an unknown connection ('10.1.1.1').")
    );
    assert!(!server.is_open("10.1.1.1"));
}

#[test]
fn send_after_close_all() {
    let mut server = Server::new(String::from("localhost"));
    server.open("10.1.1.1", Client::new(String::from("peer"), 1)).unwrap();
    server.close_all();
    assert!(!server.is_open("10.1.1.1"));
    let error_msg = server.send("10.1.1.1", get()).unwrap_err().message();
    assert_eq!(
        error_msg,
        String::from("Tried to send a message through a closed connection ('10.1.1.1').")
    );
    // the entry stays present: the address cannot be opened again
    let error_msg = server
        .open("10.1.1.1", Client::new(String::from("peer2"), 1))
        .unwrap_err()
        .message();
    assert_eq!(
        error_msg,
        String::from("Cannot open connection to '10.1.1.1'. Connection already exists.")
    );
}

#[test]
fn close_all_closes_every_state() {
    let mut server = Server::new(String::from("localhost"));
    server.open("a1", Client::new(String::from("one"), 0)).unwrap();
    server.open("a2", Client::new(String::from("two"), 5)).unwrap();
    // halt a1: its client has limit 0, so the first post is rejected
    server.send("a1", post("x")).unwrap_err();
    assert_eq!(server.count_halted(), 1);
    server.close_all();
    assert!(!server.is_open("a1"));
    assert!(!server.is_open("a2"));
    assert_eq!(server.count_halted(), 0);
    // closing again changes nothing
    server.close_all();
    assert!(!server.is_open("a1"));
    assert_eq!(server.count_halted(), 0);
}

#[test]
fn open_surfaces_handshake_conflict_and_inserts_nothing() {
    let mut bound = Client::new(String::from("wanderer"), 1);
    bound
        .receive(Message { msg_type: MessageType::Handshake, load: String::from("elsewhere") })
        .unwrap();
    let mut server = Server::new(String::from("localhost"));
    let error_msg = server.open("10.1.1.1", bound).unwrap_err().message();
    assert_eq!(
        error_msg,
        String::from(
            "Client 'wanderer' received unexpected handshake. Already connected to 'elsewhere'."
        )
    );
    assert!(server.connection("10.1.1.1").is_none());
}

#[test]
fn routing_distinguishes_addresses() {
    let mut server = Server::new(String::from("localhost"));
    server.open("left", Client::new(String::from("l"), 5)).unwrap();
    server.open("right", Client::new(String::from("r"), 5)).unwrap();
    server.send("left", post("only here")).unwrap();
    assert_eq!(server.send("left", get()).unwrap().unwrap(), String::from("1"));
    assert_eq!(server.send("right", get()).unwrap().unwrap(), String::from("0"));
}

#[test]
fn five_peers_two_driven_to_their_limit() {
    let addrs = ["p1", "p2", "p3", "p4", "p5"];
    let mut server = Server::new(String::from("localhost"));
    for addr in addrs {
        server.open(addr, Client::new(addr.to_string(), 1)).unwrap();
    }
    for addr in ["p2", "p4"] {
        assert!(server.send(addr, post("first fits")).is_ok());
        assert!(server.send(addr, post("second halts")).is_err());
    }
    assert_eq!(server.count_halted(), 2);
    assert!(server.is_open("p1"));
    assert!(!server.is_open("p2"));
    assert!(server.is_open("p3"));
    assert!(!server.is_open("p4"));
    assert!(server.is_open("p5"));
}
