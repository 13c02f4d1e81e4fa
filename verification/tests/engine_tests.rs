use dhcp::client::{classify_reply, Client, ClientAction, ClientConfig, ClientId, ClientState};
use dhcp::codec::{
    DhcpOption, Message, OperationCode, MSG_DISCOVER, MSG_OFFER, OPTION_LEASE_TIME,
    OPTION_MESSAGE_TYPE, OPTION_SERVER_ID,
};
use dhcp::server::{
    client_key, Server, ServerConfig, ServerDecision, RequestReply,
};
use dhcp::storage::Storage;

fn ip(a: u32, b: u32, c: u32, d: u32) -> u32 {
    (a << 24) | (b << 16) | (c << 8) | d
}

fn test_server() -> Server {
    Server::new(
        ServerConfig { pool_start: ip(10, 0, 0, 10), pool_end: ip(10, 0, 0, 12), lease_time: 60 },
        Storage::new(),
    )
}

fn test_client() -> Client {
    Client::new(ClientConfig { base_interval_ms: 100, max_interval_ms: 800, max_attempts: 3 })
}

#[test]
fn scenario_discover_then_request_commits_lease() {
    let mut server = test_server();
    let x = vec![1u8, 2, 3, 4, 5, 7];
    let offer = server.handle_discover(&x, 1_000).unwrap().expect("an offer");
    assert_eq!(offer.address, ip(10, 0, 0, 10));
    assert_eq!(offer.lease_time, 60);
    let reply = server.handle_request(&x, offer.address, 1_000).unwrap();
    match reply {
        RequestReply::Acknowledged(ack) => {
            assert_eq!(ack.address, ip(10, 0, 0, 10));
            assert_eq!(ack.lease_time, 60);
        },
        RequestReply::Refused(_) => panic!("valid request was refused"),
    }
    let lease = server.storage().get_lease(&x).unwrap().expect("a committed lease");
    assert_eq!(lease.address, ip(10, 0, 0, 10));
    assert_eq!(lease.client_id, x);
    let holder = server.storage().get_client(ip(10, 0, 0, 10)).unwrap();
    assert_eq!(holder, Some(x));
}

#[test]
fn scenario_request_for_anothers_address_is_refused() {
    let mut server = test_server();
    let x = vec![1u8, 1, 1, 1, 1, 1];
    let y = vec![2u8, 2, 2, 2, 2, 2];
    let offer = server.handle_discover(&x, 0).unwrap().unwrap();
    let reply = server.handle_request(&x, offer.address, 0).unwrap();
    assert!(matches!(reply, RequestReply::Acknowledged(_)));
    // Y asks for the address leased to X.
    let reply = server.handle_request(&y, offer.address, 10).unwrap();
    assert!(matches!(reply, RequestReply::Refused(_)));
}

#[test]
fn scenario_discover_with_live_lease_returns_same_address() {
    let mut server = test_server();
    let x = vec![9u8, 9, 9, 9, 9, 9];
    let offer = server.handle_discover(&x, 0).unwrap().unwrap();
    let reply = server.handle_request(&x, offer.address, 0).unwrap();
    assert!(matches!(reply, RequestReply::Acknowledged(_)));
    // The lease runs 60 s; discover again while it is unexpired.
    let again = server.handle_discover(&x, 30_000).unwrap().unwrap();
    assert_eq!(again.address, offer.address);
}

#[test]
fn scenario_declined_address_is_frozen_and_never_offered() {
    let mut server = test_server();
    let x = vec![1u8, 2, 3, 4, 5, 6];
    let y = vec![6u8, 5, 4, 3, 2, 1];
    let first = ip(10, 0, 0, 10);
    server.handle_decline(first).unwrap();
    assert!(server.storage().check_frozen(first).unwrap());
    let offer = server.handle_discover(&x, 0).unwrap().unwrap();
    assert_eq!(offer.address, ip(10, 0, 0, 11));
    let offer = server.handle_discover(&y, 0).unwrap().unwrap();
    assert_ne!(offer.address, first);
}

#[test]
fn declining_a_committed_address_invalidates_the_lease() {
    let mut server = test_server();
    let x = vec![0xAAu8, 1, 2, 3, 4, 5];
    let offer = server.handle_discover(&x, 0).unwrap().unwrap();
    let reply = server.handle_request(&x, offer.address, 0).unwrap();
    assert!(matches!(reply, RequestReply::Acknowledged(_)));
    // X finds the address in use (conflict probe) and declines its own
    // committed, still-active lease.
    server.handle_decline(offer.address).unwrap();
    assert!(server.storage().check_frozen(offer.address).unwrap());
    assert_eq!(server.storage().get_client(offer.address).unwrap(), None);
    let record = server.storage().get_lease(&x).unwrap().unwrap();
    assert_eq!(record.lease_time, 0, "the declined lease record is invalidated");
    // X's next DISCOVER, moments later, must not be offered the frozen
    // address again; the next pool address wins.
    let again = server.handle_discover(&x, 10).unwrap().unwrap();
    assert_ne!(again.address, offer.address);
    assert_eq!(again.address, ip(10, 0, 0, 11));
    // Nor is it offered to anyone else.
    let y = vec![0xBBu8, 1, 2, 3, 4, 5];
    let other = server.handle_discover(&y, 10).unwrap().unwrap();
    assert_ne!(other.address, offer.address);
}

#[test]
fn scenario_pool_exhaustion_drops_discover() {
    let mut server = test_server();
    for i in 0..3u8 {
        let c = vec![i, i, i, i, i, i];
        let offer = server.handle_discover(&c, 0).unwrap().unwrap();
        let reply = server.handle_request(&c, offer.address, 0).unwrap();
        assert!(matches!(reply, RequestReply::Acknowledged(_)));
    }
    let late = vec![7u8, 7, 7, 7, 7, 7];
    assert!(server.handle_discover(&late, 0).unwrap().is_none());
}

#[test]
fn scenario_release_frees_the_address() {
    let mut server = test_server();
    let x = vec![4u8, 4, 4, 4, 4, 4];
    let offer = server.handle_discover(&x, 0).unwrap().unwrap();
    server.handle_request(&x, offer.address, 0).unwrap();
    server.handle_release(&x).unwrap();
    assert_eq!(server.storage().get_client(offer.address).unwrap(), None);
    assert!(!server.storage().check_frozen(offer.address).unwrap());
    // The address is allocatable again.
    let y = vec![5u8, 5, 5, 5, 5, 5];
    let again = server.handle_discover(&y, 1_000).unwrap().unwrap();
    assert_eq!(again.address, offer.address);
}

#[test]
fn scenario_retransmission_exhaustion_reports_failure() {
    let mut client = test_client();
    let action = client.start(42, 0, 0);
    assert!(matches!(action, ClientAction::BroadcastDiscover { xid: 42 }));
    let mut now = 0u64;
    let mut sends = 1u32;
    let mut failed = false;
    // No server ever replies; the negotiation must end by itself.
    for _ in 0..10 {
        now += 100_000;
        match client.handle_timer(now, 0) {
            ClientAction::BroadcastDiscover { xid } => {
                assert_eq!(xid, 42);
                sends += 1;
            },
            ClientAction::NegotiationFailed => {
                failed = true;
                break;
            },
            _ => panic!("unexpected action while selecting"),
        }
    }
    assert!(failed, "negotiation never reported failure");
    assert_eq!(sends, 3, "all configured attempts are used before giving up");
    assert_eq!(client.state, ClientState::Init);
}

#[test]
fn scenario_t1_renewal_and_nak_escalates_to_rebinding() {
    let mut client = test_client();
    client.start(7, 0, 0);
    let action = client.handle_offer(7, ip(10, 0, 0, 10), ip(10, 0, 0, 1), false, 10, 0);
    assert!(matches!(action, ClientAction::BroadcastRequest { xid: 7, .. }));
    client.handle_ack(7, ip(10, 0, 0, 10), 100, 1_000);
    assert_eq!(client.state, ClientState::Bound);
    // Timer ordering for the accepted lease.
    assert_eq!(client.t1_at_ms, 51_000);
    assert_eq!(client.t2_at_ms, 88_500);
    assert_eq!(client.expiry_at_ms, 101_000);
    assert!(client.t1_at_ms < client.t2_at_ms && client.t2_at_ms < client.expiry_at_ms);
    // T1 fires: a unicast renewal REQUEST goes to the leasing server.
    let action = client.handle_timer(51_000, 0);
    match action {
        ClientAction::UnicastRequest { xid, address, server } => {
            assert_eq!(xid, 7);
            assert_eq!(address, ip(10, 0, 0, 10));
            assert_eq!(server, ip(10, 0, 0, 1));
        },
        _ => panic!("T1 must trigger a unicast renewal"),
    }
    assert_eq!(client.state, ClientState::Renewing);
    // A NAK during Renewing escalates to Rebinding, not to Init.
    client.handle_nak(7, 51_500, 10);
    assert_eq!(client.state, ClientState::Rebinding);
}

#[test]
fn ack_with_wrong_xid_never_reaches_bound() {
    let mut client = test_client();
    client.start(1, 0, 0);
    client.handle_offer(1, ip(10, 0, 0, 10), ip(10, 0, 0, 1), false, 10, 0);
    assert_eq!(client.state, ClientState::Requesting);
    client.handle_ack(2, ip(10, 0, 0, 10), 100, 20);
    assert_eq!(client.state, ClientState::Requesting);
    client.handle_ack(1, ip(10, 0, 0, 10), 100, 30);
    assert_eq!(client.state, ClientState::Bound);
}

#[test]
fn offer_with_wrong_xid_is_ignored_and_conflict_declines() {
    let mut client = test_client();
    client.start(5, 0, 0);
    let action = client.handle_offer(6, ip(10, 0, 0, 10), ip(10, 0, 0, 1), false, 10, 0);
    assert!(matches!(action, ClientAction::Idle));
    assert_eq!(client.state, ClientState::Selecting);
    // The probe reports a conflict: decline and restart.
    let action = client.handle_offer(5, ip(10, 0, 0, 10), ip(10, 0, 0, 1), true, 20, 0);
    assert!(matches!(action, ClientAction::SendDecline { .. }));
    assert_eq!(client.state, ClientState::Init);
}

#[test]
fn release_sends_best_effort_release() {
    let mut client = test_client();
    client.start(9, 0, 0);
    client.handle_offer(9, ip(10, 0, 0, 11), ip(10, 0, 0, 1), false, 10, 0);
    client.handle_ack(9, ip(10, 0, 0, 11), 100, 20);
    let action = client.release();
    match action {
        ClientAction::SendRelease { address, server } => {
            assert_eq!(address, ip(10, 0, 0, 11));
            assert_eq!(server, ip(10, 0, 0, 1));
        },
        _ => panic!("a bound client must send RELEASE"),
    }
    assert_eq!(client.state, ClientState::ReleasedOrExpired);
}

#[test]
fn expired_lease_address_is_preferred_for_its_old_holder() {
    let mut server = test_server();
    let x = vec![8u8, 8, 8, 8, 8, 8];
    let offer = server.handle_discover(&x, 0).unwrap().unwrap();
    let reply = server.handle_request(&x, offer.address, 0).unwrap();
    assert!(matches!(reply, RequestReply::Acknowledged(_)));
    server.handle_release(&x).unwrap();
    // The lease is gone, but the old address is still unallocated and not
    // frozen, so a new DISCOVER from the same client prefers it.
    let again = server.handle_discover(&x, 400_000).unwrap().unwrap();
    assert_eq!(again.address, offer.address);
}

#[test]
fn renewal_request_without_fresh_offer_is_acknowledged() {
    let mut server = test_server();
    let x = vec![3u8, 3, 3, 3, 3, 3];
    let offer = server.handle_discover(&x, 0).unwrap().unwrap();
    server.handle_request(&x, offer.address, 0).unwrap();
    // A renewal names the current lease directly; no new offer stands.
    let reply = server.handle_request(&x, offer.address, 30_000).unwrap();
    match reply {
        RequestReply::Acknowledged(ack) => assert_eq!(ack.address, offer.address),
        RequestReply::Refused(_) => panic!("renewal of an own lease must be acknowledged"),
    }
}

#[test]
fn renewal_ack_refreshes_timers_and_returns_to_bound() {
    let mut client = test_client();
    client.start(11, 0, 0);
    client.handle_offer(11, ip(10, 0, 0, 12), ip(10, 0, 0, 1), false, 10, 0);
    client.handle_ack(11, ip(10, 0, 0, 12), 100, 1_000);
    client.handle_timer(51_000, 0);
    assert_eq!(client.state, ClientState::Renewing);
    client.handle_ack(11, ip(10, 0, 0, 12), 200, 52_000);
    assert_eq!(client.state, ClientState::Bound);
    assert_eq!(client.t1_at_ms, 52_000 + 100_000);
    assert_eq!(client.t2_at_ms, 52_000 + 175_000);
    assert_eq!(client.expiry_at_ms, 52_000 + 200_000);
}

#[test]
fn client_id_bytes_are_the_key() {
    let mac = ClientId::Mac(vec![1, 2, 3, 4, 5, 7]);
    assert_eq!(mac.bytes(), &vec![1, 2, 3, 4, 5, 7]);
    let opaque = ClientId::Opaque(vec![6, 6, 6]);
    assert_eq!(opaque.bytes(), &vec![6, 6, 6]);
}

#[test]
fn server_dispatches_discover_message() {
    let mut server = test_server();
    let mut chaddr = vec![0u8; 16];
    for (i, b) in [1u8, 2, 3, 4, 5, 7].iter().enumerate() {
        chaddr[i] = *b;
    }
    let m = Message {
        operation_code: OperationCode::BootRequest,
        hardware_type: 1,
        hardware_length: 6,
        hops: 0,
        transaction_id: 99,
        seconds: 0,
        broadcast: true,
        client_address: 0,
        your_address: 0,
        server_address: 0,
        gateway_address: 0,
        chaddr,
        sname: vec![0u8; 64],
        file: vec![0u8; 128],
        options: vec![DhcpOption { code: OPTION_MESSAGE_TYPE, data: vec![MSG_DISCOVER] }],
    };
    assert_eq!(client_key(&m), vec![1, 2, 3, 4, 5, 7]);
    let decision = server.handle_message(&m, 0).unwrap();
    match decision {
        Some(ServerDecision::Offering(off)) => assert_eq!(off.address, ip(10, 0, 0, 10)),
        _ => panic!("DISCOVER must yield an offer from a fresh pool"),
    }
}

#[test]
fn sweep_unbinds_only_expired_leases() {
    let mut server = test_server();
    let x = vec![1u8, 0, 0, 0, 0, 1];
    let y = vec![2u8, 0, 0, 0, 0, 2];
    let ox = server.handle_discover(&x, 0).unwrap().unwrap();
    server.handle_request(&x, ox.address, 0).unwrap();
    let oy = server.handle_discover(&y, 50_000).unwrap().unwrap();
    server.handle_request(&y, oy.address, 50_000).unwrap();
    // X's 60 s lease has expired at 70 s; Y's has not.
    server.sweep_expired(70_000).unwrap();
    assert_eq!(server.storage().get_client(ox.address).unwrap(), None);
    assert_eq!(server.storage().get_client(oy.address).unwrap(), Some(y));
    // The freed address is the lowest again for a newcomer.
    let z = vec![3u8, 0, 0, 0, 0, 3];
    let oz = server.handle_discover(&z, 70_000).unwrap().unwrap();
    assert_eq!(oz.address, ox.address);
}

#[test]
fn replies_for_other_clients_are_ignored() {
    let me = vec![1u8, 2, 3, 4, 5, 7];
    let someone_else = vec![9u8, 9, 9, 9, 9, 9];
    let mut chaddr = vec![0u8; 16];
    chaddr[..6].copy_from_slice(&me);
    let reply = Message {
        operation_code: OperationCode::BootReply,
        hardware_type: 1,
        hardware_length: 6,
        hops: 0,
        transaction_id: 77,
        seconds: 0,
        broadcast: false,
        client_address: 0,
        your_address: 0x0A00_000B,
        server_address: 0x0A00_0001,
        gateway_address: 0,
        chaddr,
        sname: vec![0u8; 64],
        file: vec![0u8; 128],
        options: vec![
            DhcpOption { code: OPTION_MESSAGE_TYPE, data: vec![MSG_OFFER] },
            DhcpOption { code: OPTION_LEASE_TIME, data: vec![0, 0, 0, 60] },
            DhcpOption { code: OPTION_SERVER_ID, data: vec![10, 0, 0, 2] },
        ],
    };
    assert_eq!(classify_reply(&reply, &someone_else), None);
    let info = classify_reply(&reply, &me).expect("a reply addressed to this client");
    assert_eq!(info.kind, MSG_OFFER);
    assert_eq!(info.xid, 77);
    assert_eq!(info.address, 0x0A00_000B);
    assert_eq!(info.server, ip(10, 0, 0, 2));
    assert_eq!(info.lease_time, 60);
    // A request opcode is never taken for a reply.
    let mut req = reply;
    req.operation_code = OperationCode::BootRequest;
    assert_eq!(classify_reply(&req, &me), None);
}

#[test]
fn storage_update_refreshes_only_the_named_client() {
    let mut storage = Storage::new();
    let a = vec![1u8];
    let b = vec![2u8];
    storage
        .add_lease(&a, dhcp::lease::Lease { client_id: a.clone(), address: 1, lease_time: 5, start_ms: 0 })
        .unwrap();
    storage
        .add_lease(&b, dhcp::lease::Lease { client_id: b.clone(), address: 2, lease_time: 5, start_ms: 0 })
        .unwrap();
    let updated = storage.update_lease(&a, 50, 777).unwrap().unwrap();
    assert_eq!(updated.lease_time, 50);
    assert_eq!(updated.start_ms, 777);
    assert_eq!(updated.address, 1);
    let other = storage.get_lease(&b).unwrap().unwrap();
    assert_eq!(other.lease_time, 5);
    assert!(storage.update_lease(&vec![3u8], 1, 1).unwrap().is_none());
}
