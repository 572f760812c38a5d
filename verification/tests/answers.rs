use embassy_dns::{
    DnsName, DnsSrvRecord, IpAddress, Name, QueryResult, QueryResultIter, Release, SocketAnswer,
};
use smoltcp::iface::{Config, Interface};
use smoltcp::phy::{Loopback, Medium};
use smoltcp::socket::dns::{MulticastDns, QueryHandle, Socket};
use smoltcp::time::Instant;
use smoltcp::wire::{DnsQueryType, DnsRecord, DnsRecordData, HardwareAddress};

fn interface() -> Interface {
    let mut device = Loopback::new(Medium::Ip);
    Interface::new(Config::new(HardwareAddress::Ip), &mut device, Instant::ZERO)
}

fn socket(slots: usize) -> Socket<'static> {
    let mut queries = Vec::new();
    queries.resize_with(slots, || None);
    Socket::new(&[], queries)
}

fn start(socket: &mut Socket<'static>, iface: &mut Interface) -> QueryHandle {
    socket
        .start_query_raw(
            iface.context(),
            b"\x03org\x00",
            DnsQueryType::A,
            MulticastDns::Disabled,
        )
        .unwrap()
}

fn handle() -> QueryHandle {
    start(&mut socket(1), &mut interface())
}

fn name(text: &str) -> Name {
    Name::try_from(text).unwrap()
}

const V4: IpAddress = IpAddress::Ipv4([192, 168, 69, 1]);
const V6: IpAddress = IpAddress::Ipv6([0xfd, 0, 0, 0, 0, 0, 0, 0, 0, 0, 0, 0, 0, 0, 0, 1]);

#[test]
fn address_answer_is_kept() {
    let answer = QueryResult::from(SocketAnswer::Address(V4));
    assert_eq!(answer, QueryResult::Address(V4));
    assert_eq!(answer.clone(), answer);
}

#[test]
fn ptr_answer_gets_an_owned_name() {
    let packet = b"\x05_http\x04_tcp\x05local\x00\x06server\xc0\x00";
    let pointed = DnsName::parse(packet, &packet[18..]).unwrap();
    let answer = QueryResult::from(SocketAnswer::Ptr(pointed));
    assert_eq!(answer, QueryResult::Ptr(name("server._http._tcp.local")));
    assert_eq!(answer.clone(), answer);
}

#[test]
fn srv_answer_keeps_its_numbers() {
    let raw = b"\x04host\x05local\x00";
    let answer = QueryResult::from(SocketAnswer::Srv(DnsSrvRecord {
        priority: 1,
        weight: 2,
        port: 8080,
        target: DnsName::from_const(raw).unwrap(),
    }));
    let expected = QueryResult::Srv(DnsSrvRecord {
        priority: 1,
        weight: 2,
        port: 8080,
        target: name("host.local"),
    });
    assert_eq!(answer, expected);
    assert_eq!(answer.clone(), answer);
}

#[test]
fn record_of_a_message_becomes_an_answer() {
    // A PTR record for _http._tcp.local, behind the name that it points into.
    let packet = b"\x05_http\x04_tcp\x05local\x00\
        \xc0\x00\x00\x0c\x00\x01\x00\x00\x00\x78\x00\x09\x06server\xc0\x00";
    let (rest, record) = DnsRecord::parse(&packet[18..]).unwrap();
    assert!(rest.is_empty());
    let DnsRecordData::Other(DnsQueryType::Unknown(12), data) = record.data else {
        panic!("not a PTR record");
    };
    let answer = SocketAnswer::Ptr(DnsName::parse(packet, data).unwrap());
    assert_eq!(
        QueryResult::from(answer),
        QueryResult::Ptr(name("server._http._tcp.local"))
    );
}

#[test]
fn answers_come_in_order_and_end() {
    let raw = b"\x04host\x05local\x00";
    let answers = [
        SocketAnswer::Address(V4),
        SocketAnswer::Ptr(DnsName::from_const(raw).unwrap()),
        SocketAnswer::Address(V6),
    ];
    let mut iter = QueryResultIter::new(handle());
    let (first, release) = iter.next(&answers);
    assert_eq!(first, Some(QueryResult::Address(V4)));
    assert!(release.is_none());
    let (second, release) = iter.next(&answers);
    assert_eq!(second, Some(QueryResult::Ptr(name("host.local"))));
    assert!(release.is_none());
    let (third, release) = iter.next(&answers);
    assert_eq!(third, Some(QueryResult::Address(V6)));
    assert!(release.is_none());
    let (end, release) = iter.next(&answers);
    assert_eq!(end, None);
    assert!(release.is_some());
    let (after, release) = iter.next(&answers);
    assert_eq!(after, None);
    assert!(release.is_none());
    assert!(iter.drop().is_none());
}

#[test]
fn answers_that_vanish_end_the_iteration() {
    let answers = [SocketAnswer::Address(V4), SocketAnswer::Address(V6)];
    let mut iter = QueryResultIter::new(handle());
    iter.next(&answers);
    iter.next(&answers);
    let (answer, release) = iter.next(&answers[..1]);
    assert_eq!(answer, None);
    assert!(release.is_some());
}

#[test]
fn iteration_that_is_given_up_releases_its_query() {
    let answers = [SocketAnswer::Address(V4), SocketAnswer::Address(V6)];
    let mut iter = QueryResultIter::new(handle());
    iter.next(&answers);
    assert!(iter.drop().is_some());
    assert!(QueryResultIter::new(handle()).drop().is_some());
}

#[test]
fn released_query_frees_its_slot() {
    let mut iface = interface();
    let slots: &'static mut [Option<smoltcp::socket::dns::DnsQuery>] =
        Vec::leak(vec![None, None]);
    let mut socket = Socket::new(&[], slots);
    let kept = start(&mut socket, &mut iface);
    let query = start(&mut socket, &mut iface);
    assert!(socket
        .start_query_raw(
            iface.context(),
            b"\x00",
            DnsQueryType::A,
            MulticastDns::Disabled
        )
        .is_err());
    let mut iter = QueryResultIter::new(query);
    let (answer, release) = iter.next(&[]);
    assert_eq!(answer, None);
    let Some(Release { query }) = release else {
        panic!("the query was not released");
    };
    socket.cancel_query(query);
    start(&mut socket, &mut iface);
    socket.cancel_query(kept);
}

#[test]
fn first_address_is_found() {
    let raw = b"\x04host\x05local\x00";
    let answers = [
        SocketAnswer::Ptr(DnsName::from_const(raw).unwrap()),
        SocketAnswer::Address(V6),
        SocketAnswer::Address(V4),
    ];
    let (found, release) = QueryResultIter::new(handle()).find_address(&answers);
    assert_eq!(found, Some(V6));
    assert!(release.is_some());

    let mut iter = QueryResultIter::new(handle());
    iter.next(&answers);
    iter.next(&answers);
    assert_eq!(iter.find_address(&answers).0, Some(V4));
}

#[test]
fn no_address_is_found() {
    let raw = b"\x04host\x05local\x00";
    let answers = [SocketAnswer::Ptr(DnsName::from_const(raw).unwrap())];
    let (found, release) = QueryResultIter::new(handle()).find_address(&answers);
    assert_eq!(found, None);
    assert!(release.is_some());

    let mut done = QueryResultIter::new(handle());
    done.next(&[]);
    let (found, release) = done.find_address(&[SocketAnswer::Address(V4)]);
    assert_eq!(found, None);
    assert!(release.is_none());
}
