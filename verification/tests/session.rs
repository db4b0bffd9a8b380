use mikrotik::auth::{login_challenge, login_request, login_response, login_start};
use mikrotik::client::{Client, LoginState, DEFAULT_PORT};
use mikrotik::errors::{MikrotikError, UnhexlifyError};
use mikrotik::sentence::{decode_sentence, encode_sentence};

fn words(list: &[&str]) -> Vec<Vec<u8>> {
    list.iter().map(|w| w.as_bytes().to_vec()).collect()
}

fn wire(sentences: &[&[&str]]) -> Vec<u8> {
    let mut out = Vec::new();
    for s in sentences {
        encode_sentence(&words(s), &mut out);
    }
    out
}

#[test]
fn default_port() {
    assert_eq!(DEFAULT_PORT, 8728);
}

#[test]
fn login_requests() {
    assert_eq!(login_start(), words(&["/login"]));
    assert_eq!(
        login_request(b"admin", b"abcdef"),
        words(&["/login", "=name=admin", "=response=00abcdef"])
    );
}

#[test]
fn login_response_carries_the_digest() {
    let challenge: Vec<u8> = vec![
        0x00, 0x11, 0x22, 0x33, 0x44, 0x55, 0x66, 0x77, 0x88, 0x99, 0xaa, 0xbb, 0xcc, 0xdd, 0xee,
        0xff,
    ];
    assert_eq!(
        login_response("admin", "secret", &challenge),
        words(&["/login", "=name=admin", "=response=00c17511d224a5e93170632807d36388aa"])
    );
    assert_eq!(
        login_response("u", "", &[0xf0, 0xab]),
        words(&["/login", "=name=u", "=response=00e2052e77c7aa24ae04910ce89b15d53c"])
    );
}

#[test]
fn challenge_is_read_from_the_ret_attribute() {
    assert_eq!(login_challenge(&words(&["!done", "=ret=F0AB"])).unwrap(), vec![240u8, 171]);
    match login_challenge(&words(&["!done", "=ret=F0A"])) {
        Err(MikrotikError::UnhexlifyError(e)) => {
            assert_eq!(e, UnhexlifyError::OddCharacterCount(3))
        }
        _ => panic!("odd challenge accepted"),
    }
    match login_challenge(&words(&["!done", "=ret=F0AZ"])) {
        Err(MikrotikError::UnhexlifyError(e)) => {
            assert_eq!(e, UnhexlifyError::InvalidHexDigit('Z'))
        }
        _ => panic!("bad challenge accepted"),
    }
    match login_challenge(&words(&["!done"])) {
        Err(MikrotikError::UnhexlifyError(e)) => {
            assert_eq!(e, UnhexlifyError::OddCharacterCount(0))
        }
        _ => panic!("missing challenge accepted"),
    }
}

#[test]
fn handshake() {
    let mut client = Client::new();
    client.start_login();
    assert_eq!(client.take_outgoing(), b"\x06/login\x00".to_vec());
    assert_eq!(client.take_outgoing(), Vec::<u8>::new());

    assert!(!client.reply_ready());
    client.receive(&wire(&[&["!done", "=ret=00112233445566778899aabbccddeeff"]]));
    assert!(client.reply_ready());
    client.login("admin", "secret").unwrap();
    let sent = client.take_outgoing();
    let (request, next) = decode_sentence(&sent, 0).unwrap();
    assert_eq!(next, sent.len());
    assert_eq!(
        request,
        words(&["/login", "=name=admin", "=response=00c17511d224a5e93170632807d36388aa"])
    );

    assert_eq!(client.login_state(), LoginState::Unauthenticated);
    assert!(!client.reply_ready());
    client.receive(&wire(&[&["!done"]]));
    client.finish_login().unwrap();
    assert_eq!(client.login_state(), LoginState::Authenticated);
    assert!(!client.reply_ready());
}

#[test]
fn handshake_refused_at_the_end() {
    let mut client = Client::new();
    client.receive(&wire(&[&["!done", "=ret=00"]]));
    client.login("admin", "wrong").unwrap();
    client.receive(&wire(&[&["!trap", "=category=5", "=message=cannot log in"], &["!done"]]));
    match client.finish_login() {
        Err(MikrotikError::Trap { category, msg }) => {
            assert_eq!(category, 5);
            assert_eq!(msg, b"cannot log in".to_vec());
        }
        _ => panic!("trap not reported"),
    }
    assert_eq!(client.login_state(), LoginState::Failed);
}

#[test]
fn handshake_without_a_reply_fails() {
    let mut client = Client::new();
    assert!(matches!(client.login("admin", "secret"), Err(MikrotikError::IoError(_))));
    assert_eq!(client.login_state(), LoginState::Failed);
    let mut other = Client::new();
    assert!(matches!(other.finish_login(), Err(MikrotikError::IoError(_))));
    assert_eq!(other.login_state(), LoginState::Failed);
}

#[test]
fn handshake_refused() {
    let mut client = Client::new();
    client.receive(&wire(&[&["!trap", "=message=cannot log in"]]));
    match client.login("admin", "secret") {
        Err(MikrotikError::Trap { category, msg }) => {
            assert_eq!(category, 10);
            assert_eq!(msg, b"cannot log in".to_vec());
        }
        _ => panic!("trap not reported"),
    }
    assert_eq!(client.login_state(), LoginState::Failed);
    assert_eq!(client.take_outgoing(), Vec::<u8>::new());
}

#[test]
fn handshake_with_a_bad_challenge() {
    let mut client = Client::new();
    client.receive(&wire(&[&["!done", "=ret=xyz0"]]));
    match client.login("admin", "secret") {
        Err(MikrotikError::UnhexlifyError(e)) => {
            assert_eq!(e, UnhexlifyError::InvalidHexDigit('x'))
        }
        _ => panic!("bad challenge accepted"),
    }
    assert_eq!(client.login_state(), LoginState::Failed);
    assert_eq!(client.take_outgoing(), Vec::<u8>::new());
}

#[test]
fn reading_past_the_end_is_a_transport_error() {
    let mut client = Client::new();
    assert!(matches!(client.read_sentence(), Err(MikrotikError::IoError(_))));
    client.receive(&[3, b'!', b'r']);
    assert!(matches!(client.read_sentence(), Err(MikrotikError::IoError(_))));
    assert!(matches!(client.read_all_sentences(), Err(MikrotikError::IoError(_))));
    client.receive(&[b'e', 0]);
    assert_eq!(client.read_sentence().unwrap(), words(&["!re"]));
    assert!(matches!(client.read_sentence(), Err(MikrotikError::IoError(_))));
}

#[test]
fn transport_error_has_no_description_of_its_own() {
    let mut client = Client::new();
    let e = client.read_sentence().unwrap_err();
    assert_eq!(e.description(), None);
    match e {
        MikrotikError::IoError(inner) => {
            assert_eq!(inner.kind(), std::io::ErrorKind::ConnectionReset)
        }
        _ => panic!("not a transport error"),
    }
}

#[test]
fn written_sentences_are_read_back() {
    let sentence = words(&["/ip/address/print", "=detail=", "?name=ether1"]);
    let mut client = Client::new();
    client.write_sentence(&sentence);
    client.write_sentence(&Vec::new());
    let bytes = client.take_outgoing();
    let mut peer = Client::new();
    peer.receive(&bytes);
    assert_eq!(peer.read_sentence().unwrap(), sentence);
    assert_eq!(peer.read_sentence().unwrap(), Vec::<Vec<u8>>::new());
}

#[test]
fn a_request_without_words_is_not_sent() {
    let mut client = Client::new();
    assert!(!client.send_request(&Vec::new()));
    assert_eq!(client.take_outgoing(), Vec::<u8>::new());
    assert!(client.send_request(&words(&["/system/reboot"])));
    assert_eq!(client.take_outgoing(), b"\x0e/system/reboot\x00".to_vec());
}

#[test]
fn address_list_over_a_session() {
    let mut client = Client::new();
    client.request_address_list();
    assert_eq!(client.take_outgoing(), b"\x1f/ip/firewall/address-list/print\x00".to_vec());
    client.receive(&wire(&[
        &["!re", "=.id=*1", "=list=blocked", "=address=10.0.0.1"],
        &["!re", "=.id=*2", "=list=allowed", "=address=10.0.0.2"],
        &["!done"],
    ]));
    let list = client.get_address_list().unwrap();
    assert_eq!(list.len(), 2);
    assert_eq!(list[0].id, b"*1".to_vec());
    assert_eq!(list[0].list, b"blocked".to_vec());
    assert_eq!(list[1].address, b"10.0.0.2".to_vec());
    assert!(!client.reply_ready());
}

#[test]
fn queue_list_over_a_session() {
    let mut client = Client::new();
    client.request_queue_list();
    assert_eq!(client.take_outgoing(), b"\x13/queue/simple/print\x00".to_vec());
    client.receive(&wire(&[&["!re", "=name=alice", "=target=10.0.0.5/32"], &["!done"]]));
    let list = client.get_queue_list().unwrap();
    assert_eq!(list.len(), 1);
    assert_eq!(list[0].name, b"alice".to_vec());
    assert_eq!(list[0].target, b"10.0.0.5/32".to_vec());
}

#[test]
fn fatal_reply_over_a_session() {
    let mut client = Client::new();
    client.receive(&wire(&[&["!fatal", "bad command"]]));
    match client.get_queue_list() {
        Err(MikrotikError::Fatal(msg)) => assert_eq!(msg, b"bad command".to_vec()),
        _ => panic!("fatal error not reported"),
    }
}
