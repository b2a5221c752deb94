use comms::client::Client;
use comms::errors::CommsResult;
use comms::msg::Message;
use comms::msg::MessageType;
use comms::server::Connection;
use comms::server::Server;

#[test]
fn test_headers() {
    assert_eq!(MessageType::Handshake.header(), "[HANDSHAKE]");
    assert_eq!(MessageType::Post.header(), "[POST]");
    assert_eq!(MessageType::Get.header(), "[GET]");
}

#[test]
fn test_client_receive() -> CommsResult<()> {
    let mut client = Client::new(String::from("TestClient"), 1);
    assert!(matches!(client.connected_server, None));

    // handshake
    let response = client.receive(Message {
        msg_type: MessageType::Handshake,
        load: String::from("localhost"),
    })?;
    assert!(matches!(response, None));
    assert_eq!(client.post_count, 0);
    assert_eq!(*client.connected_server.as_ref().unwrap(), String::from("localhost"));

    // another handshake should be rejected
    let result = client.receive(Message {
        msg_type: MessageType::Handshake,
        load: String::from("localhost"),
    });
    let error_msg = result.unwrap_err().message();
    assert_eq!(
        error_msg,
        String::from(
            "Client 'TestClient' received unexpected handshake. Already connected to 'localhost'."
        )
    );

    // GET
    let response = client.receive(Message { msg_type: MessageType::Get, load: String::new() })?;
    assert_eq!(response.unwrap(), String::from("0"));
    assert_eq!(client.post_count, 0);

    // POST
    let response = client.receive(Message {
        msg_type: MessageType::Post,
        load: String::from("The tale begins..."),
    })?;
    assert!(matches!(response, None));
    assert_eq!(client.post_count, 1);

    // another POST should cause a client error
    let result = client.receive(Message {
        msg_type: MessageType::Post,
        load: String::from("...and quickly ends."),
    });
    let error_msg = result.unwrap_err().message();
    assert_eq!(error_msg, String::from("Client 'TestClient' cannot ingest more messages."));

    Ok(())
}

#[test]
fn test_server_open() -> CommsResult<()> {
    let mut server = Server::new(String::from("localhost"));

    assert!(server.open("197.0.0.1", Client::new(String::from("TestClient"), 2)).is_ok());
    assert!(server.is_open("197.0.0.1"));

    let conn = server.connection("197.0.0.1").unwrap();
    match conn {
        &Connection::Open(ref client) => {
            assert_eq!(client.connected_server, Some("localhost".to_string()))
        }
        _ => panic!("Connection should be open"),
    }

    // opening an already open connection should give an error
    let result = server.open("197.0.0.1", Client::new(String::from("TestClient2"), 100));
    let error_msg = result.unwrap_err().message();
    assert_eq!(
        error_msg,
        String::from("Cannot open connection to '197.0.0.1'. Connection already exists.")
    );

    Ok(())
}

#[test]
fn test_server_send() -> CommsResult<()> {
    let mut server = Server::new(String::from("localhost"));

    server.open("197.0.0.1", Client::new(String::from("TestClient"), 1))?;

    let response = server.send(
        "197.0.0.1",
        Message { msg_type: MessageType::Get, load: String::new() },
    )?;
    assert_eq!(response.unwrap(), String::from("0"));

    let response = server.send(
        "197.0.0.1",
        Message { msg_type: MessageType::Post, load: String::from("Another tale") },
    )?;
    assert!(matches!(response, None));

    // Client should have reached its limit. Another POST should halt the connection and give an error.
    let result = server.send(
        "197.0.0.1",
        Message { msg_type: MessageType::Post, load: String::from("Another abrupt end") },
    );
    let error_msg = result.unwrap_err().message();
    assert_eq!(error_msg, String::from("Client 'TestClient' cannot ingest more messages."));

    // No more messages can be sent through a halted connection.
    let result = server.send(
        "197.0.0.1",
        Message { msg_type: MessageType::Post, load: String::from("Maybe this time?") },
    );
    let error_msg = result.unwrap_err().message();
    assert_eq!(
        error_msg,
        String::from("Tried to send a message through a halted connection ('197.0.0.1').")
    );

    Ok(())
}

#[test]
fn test_server_count_halted() -> CommsResult<()> {
    let to_open = ["197.0.0.1", "197.0.0.2", "197.0.0.3", "197.0.0.4", "197.0.0.5"];
    let to_halt = ["197.0.0.1", "197.0.0.3"];

    let mut server = Server::new(String::from("localhost"));

    to_open
        .iter()
        .for_each(|&addr| server.open(addr, Client::new(addr.to_string(), 1)).unwrap());

    for addr in to_halt {
        server.send(
            addr,
            Message { msg_type: MessageType::Post, load: String::from("Push the limit") },
        )?;
        server
            .send(addr, Message { msg_type: MessageType::Post, load: String::from("Too much") })
            .expect_err("Client should halt now");
    }

    assert_eq!(server.count_halted(), 2);

    Ok(())
}
