use valkey_ops::error::Error;
use valkey_ops::resp::value::Value;
use valkey_ops::store::network::{
    resolve_ip_socket_addresses, socket_address, IpAddress, IpSocketAddress, Ipv4SocketAddress,
    Ipv6SocketAddress, NetworkError, StreamError,
};
use valkey_ops::store::session::{
    connect_failure, first_attempt, next_attempt, ConnectionState, Event, Inbox, Next, Poll, READ_CHUNK,
};

fn ready(poll: Poll) -> Value {
    match poll {
        Poll::Ready(value) => value,
        other => panic!("not ready: {:?}", other),
    }
}

#[test]
fn network_errors_are_named() {
    let all = [
        (NetworkError::Unknown, "Network Unknown"),
        (NetworkError::AccessDenied, "Network AccessDenied"),
        (NetworkError::NotSupported, "Network NotSupported"),
        (NetworkError::InvalidArgument, "Network InvalidArgument"),
        (NetworkError::OutOfMemory, "Network OutOfMemory"),
        (NetworkError::Timeout, "Network Timeout"),
        (NetworkError::ConcurrencyConflict, "Network ConcurrencyConflict"),
        (NetworkError::NotInProgress, "Network NotInProgress"),
        (NetworkError::WouldBlock, "Network WouldBlock"),
        (NetworkError::InvalidState, "Network InvalidState"),
        (NetworkError::NewSocketLimit, "Network NewSocketLimit"),
        (NetworkError::AddressNotBindable, "Network AddressNotBindable"),
        (NetworkError::AddressInUse, "Network AddressInUse"),
        (NetworkError::RemoteUnreachable, "Network RemoteUnreachable"),
        (NetworkError::ConnectionRefused, "Network ConnectionRefused"),
        (NetworkError::ConnectionReset, "Network ConnectionReset"),
        (NetworkError::ConnectionAborted, "Network ConnectionAborted"),
        (NetworkError::DatagramTooLarge, "Network DatagramTooLarge"),
        (NetworkError::NameUnresolvable, "Network NameUnresolvable"),
        (NetworkError::TemporaryResolverFailure, "Network TemporaryResolverFailure"),
        (NetworkError::PermanentResolverFailure, "Network PermanentResolverFailure"),
    ];
    for (code, message) in all {
        assert_eq!(code.to_error(), Error::Client(message.to_string()));
    }
    assert_eq!(NetworkError::Timeout.code_name(), "Timeout");
}

#[test]
fn stream_errors_are_reported() {
    assert_eq!(StreamError::Closed.to_error(), Error::Client("Stream Closed".to_string()));
    assert_eq!(
        StreamError::LastOperationFailed("broken pipe".to_string()).to_error(),
        Error::Client("Stream LastOperationFailed: broken pipe".to_string())
    );
}

#[test]
fn socket_addresses_keep_the_order_and_the_port() {
    let v4 = IpAddress::Ipv4((127, 0, 0, 1));
    let v6 = IpAddress::Ipv6((0, 0, 0, 0, 0, 0, 0, 1));
    let expected4 = IpSocketAddress::Ipv4(Ipv4SocketAddress { port: 6379, address: (127, 0, 0, 1) });
    let expected6 = IpSocketAddress::Ipv6(Ipv6SocketAddress {
        port: 6379,
        flow_info: 0,
        address: (0, 0, 0, 0, 0, 0, 0, 1),
        scope_id: 0,
    });
    assert_eq!(socket_address(v4, 6379), expected4);
    assert_eq!(socket_address(v6, 6379), expected6);
    assert_eq!(resolve_ip_socket_addresses(&vec![v6, v4, v6], 6379), vec![expected6, expected4, expected6]);
    assert_eq!(resolve_ip_socket_addresses(&vec![], 1), vec![]);
}

#[test]
fn connecting_tries_each_candidate_in_turn() {
    assert_eq!(first_attempt(0), Next::GiveUp);
    assert_eq!(first_attempt(3), Next::Try(0));
    assert_eq!(next_attempt(3, 0, false), Next::Try(1));
    assert_eq!(next_attempt(3, 1, false), Next::Try(2));
    assert_eq!(next_attempt(3, 2, false), Next::GiveUp);
    assert_eq!(next_attempt(3, 1, true), Next::Use(1));
    assert_eq!(next_attempt(1, 0, false), Next::GiveUp);
    assert_eq!(
        connect_failure("example.org", 6379),
        Error::Client("unable to connect to example.org:6379".to_string())
    );
    assert_eq!(connect_failure("::1", 0), Error::Client("unable to connect to ::1:0".to_string()));
    assert_eq!(connect_failure("h", 65535), Error::Client("unable to connect to h:65535".to_string()));
}

#[test]
fn connection_closes_for_good() {
    let open = ConnectionState::Open;
    assert_eq!(open.after(Event::Replied), ConnectionState::Open);
    assert_eq!(open.after(Event::Quit), ConnectionState::Closed);
    assert_eq!(open.after(Event::TransportFailed), ConnectionState::Closed);
    assert_eq!(ConnectionState::Closed.after(Event::Replied), ConnectionState::Closed);
}

#[test]
fn inbox_waits_for_the_whole_reply() {
    assert_eq!(READ_CHUNK, 1024);
    let mut inbox = Inbox::new();
    assert!(matches!(inbox.poll(), Poll::Pending));
    inbox.feed(b"*2\r\n$3\r\nfo");
    assert!(matches!(inbox.poll(), Poll::Pending));
    assert_eq!(inbox.len(), 10);
    inbox.feed(b"o\r\n:4");
    assert!(matches!(inbox.poll(), Poll::Pending));
    inbox.feed(b"2\r");
    assert!(matches!(inbox.poll(), Poll::Pending));
    inbox.feed(b"\n+NEXT\r\n");
    let value = ready(inbox.poll());
    assert_eq!(value, Value::Array(vec![Value::BulkString("foo".to_string()), Value::Integer(42)]));
    assert_eq!(inbox.len(), 7);
    assert_eq!(ready(inbox.poll()), Value::String("NEXT".to_string()));
    assert_eq!(inbox.len(), 0);
    assert!(matches!(inbox.poll(), Poll::Pending));
}

#[test]
fn inbox_reports_what_no_bytes_can_mend() {
    let mut inbox = Inbox::new();
    inbox.feed(b"?what\r\n");
    match inbox.poll() {
        Poll::Broken(error) => assert_eq!(error, Error::Resp("invalid RESP type".to_string())),
        other => panic!("not broken: {:?}", other),
    }
    assert_eq!(inbox.len(), 7);
    let mut bare = Inbox::new();
    bare.feed(b"+OK\n");
    match bare.poll() {
        Poll::Broken(error) => assert_eq!(error, Error::Resp("invalid CRLF".to_string())),
        other => panic!("not broken: {:?}", other),
    }
}

#[test]
fn inbox_takes_a_reply_longer_than_one_read() {
    let text = "x".repeat(5000);
    let bytes = format!("${}\r\n{}\r\n", text.len(), text).into_bytes();
    let mut inbox = Inbox::new();
    let mut polls = 0;
    let mut answer = None;
    for chunk in bytes.chunks(READ_CHUNK as usize) {
        inbox.feed(chunk);
        polls += 1;
        if let Poll::Ready(value) = inbox.poll() {
            answer = Some(value);
        }
    }
    assert_eq!(polls, 5);
    assert_eq!(answer, Some(Value::BulkString(text)));
}
