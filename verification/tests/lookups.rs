use embassy_dns::{
    AddrType, DnsName, DnsQueryType, DnsSocket, Error, IpAddress, Ipv6Cidr, Lookup, Name,
    PendingLookup, QueryResult, QueryResultIter, SocketAnswer, Stack, StartQueryError,
};
use smoltcp::iface::{Config, Interface};
use smoltcp::phy::{Loopback, Medium};
use smoltcp::socket::dns::{GetQueryResultError, MulticastDns, QueryHandle, Socket};
use smoltcp::time::Instant;
use smoltcp::wire::HardwareAddress;

fn handle() -> QueryHandle {
    let mut device = Loopback::new(Medium::Ip);
    let mut iface = Interface::new(Config::new(HardwareAddress::Ip), &mut device, Instant::ZERO);
    Socket::new(&[], vec![])
        .start_query_raw(
            iface.context(),
            b"\x03org\x00",
            smoltcp::wire::DnsQueryType::A,
            MulticastDns::Disabled,
        )
        .unwrap()
}

const V4: IpAddress = IpAddress::Ipv4([1, 2, 3, 4]);
const V6: IpAddress = IpAddress::Ipv6([0, 0, 0, 0, 0, 0, 0, 0, 0, 0, 0, 0, 0, 0, 0, 1]);
const CIDR: Ipv6Cidr = Ipv6Cidr {
    address: [0xfe, 0x80, 0, 0, 0, 0, 0, 0, 0, 0, 0, 0, 0, 0, 0, 1],
    prefix_len: 64,
};

fn v4_only() -> DnsSocket<'static> {
    DnsSocket::new(Stack { config_v6: None })
}

fn with_v6() -> DnsSocket<'static> {
    DnsSocket::new(Stack {
        config_v6: Some(&CIDR),
    })
}

fn done(lookup: Lookup) -> Result<IpAddress, Error> {
    match lookup {
        Lookup::Done(result) => result,
        Lookup::Ask(_) => panic!("a query is to be made"),
    }
}

fn ask(lookup: Lookup) -> PendingLookup {
    match lookup {
        Lookup::Done(_) => panic!("no query is to be made"),
        Lookup::Ask(pending) => pending,
    }
}

#[test]
fn literals_resolve_to_themselves() {
    assert_eq!(done(v4_only().get_host_by_name("1.2.3.4", AddrType::IPv4)), Ok(V4));
    assert_eq!(done(v4_only().get_host_by_name("1.2.3.4", AddrType::Either)), Ok(V4));
    assert_eq!(done(v4_only().get_host_by_name("::1", AddrType::IPv6)), Ok(V6));
    assert_eq!(done(with_v6().get_host_by_name("::1", AddrType::Either)), Ok(V6));
    assert_eq!(
        done(v4_only().get_host_by_name("255.0.10.200", AddrType::IPv4)),
        Ok(IpAddress::Ipv4([255, 0, 10, 200]))
    );
}

#[test]
fn literals_of_the_other_kind_are_names() {
    let pending = ask(with_v6().get_host_by_name("1.2.3.4", AddrType::Either));
    assert_eq!(pending.query.name, Name::try_from("1.2.3.4").unwrap());
    assert_eq!(pending.query.qtype, DnsQueryType::Aaaa);
    ask(v4_only().get_host_by_name("::1", AddrType::IPv4));
}

#[test]
fn leading_zeros_make_no_literal() {
    ask(v4_only().get_host_by_name("01.2.3.4", AddrType::IPv4));
    ask(v4_only().get_host_by_name("1.2.3.256", AddrType::IPv4));
    ask(v4_only().get_host_by_name("1.2.3", AddrType::IPv4));
    ask(v4_only().get_host_by_name("1.2.3.4.", AddrType::IPv4));
}

#[test]
fn queries_follow_the_address_type() {
    let cases = [
        (false, AddrType::IPv4, DnsQueryType::A, None),
        (true, AddrType::IPv4, DnsQueryType::A, None),
        (false, AddrType::IPv6, DnsQueryType::Aaaa, None),
        (true, AddrType::IPv6, DnsQueryType::Aaaa, None),
        (false, AddrType::Either, DnsQueryType::A, Some(DnsQueryType::Aaaa)),
        (true, AddrType::Either, DnsQueryType::Aaaa, Some(DnsQueryType::A)),
    ];
    for (v6, addr_type, qtype, fallback) in cases {
        let socket = if v6 { with_v6() } else { v4_only() };
        let pending = ask(socket.get_host_by_name("rust-lang.org", addr_type));
        assert_eq!(pending.query.name, Name::try_from("rust-lang.org").unwrap());
        assert_eq!(pending.query.qtype, qtype);
        assert_eq!(pending.fallback, fallback);
    }
}

#[test]
fn literal_that_was_read_ends_the_lookup() {
    let socket = v4_only();
    assert_eq!(done(socket.start_lookup("host", AddrType::IPv4, Some(V6))), Ok(V6));
    let pending = ask(socket.start_lookup("1.2.3.4", AddrType::IPv4, None));
    assert_eq!(pending.query.name.as_raw(), b"\x011\x012\x013\x014\x00");
    assert_eq!(
        done(socket.start_lookup("a..b", AddrType::IPv6, None)),
        Err(Error::InvalidName)
    );
    assert_eq!(
        with_v6().query_types(AddrType::Either),
        (DnsQueryType::Aaaa, Some(DnsQueryType::A))
    );
}

#[test]
fn host_that_is_no_name_is_refused() {
    assert_eq!(
        done(v4_only().get_host_by_name("a..b", AddrType::IPv4)),
        Err(Error::InvalidName)
    );
    assert_eq!(
        done(with_v6().get_host_by_name("", AddrType::Either)),
        Err(Error::InvalidName)
    );
}

#[test]
fn first_address_ends_the_lookup() {
    let raw = b"\x03org\x00";
    let answers = [
        SocketAnswer::Ptr(DnsName::from_const(raw).unwrap()),
        SocketAnswer::Address(V4),
        SocketAnswer::Address(V6),
    ];
    let pending = ask(v4_only().get_host_by_name("rust-lang.org", AddrType::Either));
    let (lookup, release) = pending.resume(Ok((QueryResultIter::new(handle()), &answers)));
    assert_eq!(done(lookup), Ok(V4));
    assert!(release.is_some());
}

#[test]
fn other_kind_is_asked_for_once() {
    let pending = ask(v4_only().get_host_by_name("rust-lang.org.", AddrType::Either));
    let (lookup, release) = pending.resume(Ok((QueryResultIter::new(handle()), &[])));
    assert!(release.is_some());
    let pending = ask(lookup);
    assert_eq!(pending.query.name, Name::try_from("rust-lang.org").unwrap());
    assert_eq!(pending.query.qtype, DnsQueryType::Aaaa);
    assert_eq!(pending.fallback, None);
    let answers = [SocketAnswer::Address(V6)];
    let (lookup, _) = pending.resume(Ok((QueryResultIter::new(handle()), &answers)));
    assert_eq!(done(lookup), Ok(V6));
}

#[test]
fn lookup_without_an_address_fails() {
    let pending = ask(v4_only().get_host_by_name("rust-lang.org", AddrType::IPv4));
    let (lookup, release) = pending.resume(Ok((QueryResultIter::new(handle()), &[])));
    assert_eq!(done(lookup), Err(Error::Failed));
    assert!(release.is_some());

    let pending = ask(v4_only().get_host_by_name("rust-lang.org", AddrType::Either));
    let (lookup, _) = pending.resume(Ok((QueryResultIter::new(handle()), &[])));
    let (lookup, _) = ask(lookup).resume(Ok((QueryResultIter::new(handle()), &[])));
    assert_eq!(done(lookup), Err(Error::Failed));
}

#[test]
fn error_of_a_query_ends_the_lookup() {
    let pending = ask(v4_only().get_host_by_name("rust-lang.org", AddrType::Either));
    let (lookup, release) = pending.resume(Err(Error::NameTooLong));
    assert_eq!(done(lookup), Err(Error::NameTooLong));
    assert!(release.is_none());
}

#[test]
fn queries_take_text_and_names() {
    let socket = v4_only();
    let service = socket.query("_http._tcp.local", DnsQueryType::Ptr).unwrap();
    assert_eq!(service.name.as_raw(), b"\x05_http\x04_tcp\x05local\x00");
    assert_eq!(service.qtype, DnsQueryType::Ptr);
    let again = socket.query(&service.name, DnsQueryType::Srv).unwrap();
    assert_eq!(again.name, service.name);
    assert_eq!(again.qtype, DnsQueryType::Srv);
    let owned = socket.query(service.name.clone(), DnsQueryType::Unknown(16)).unwrap();
    assert_eq!(owned.name, service.name);
    assert_eq!(socket.query("a..b", DnsQueryType::A), Err(Error::InvalidName));
}

#[test]
fn services_are_browsed() {
    let socket = v4_only();
    let browse = socket.query("_http._tcp.local", DnsQueryType::Ptr).unwrap();
    let packet = b"\x05_http\x04_tcp\x05local\x00\x03one\xc0\x00\x03two\xc0\x00";
    let answers = [
        SocketAnswer::Ptr(DnsName::parse(packet, &packet[18..]).unwrap()),
        SocketAnswer::Ptr(DnsName::parse(packet, &packet[24..]).unwrap()),
    ];
    assert_eq!(browse.name.as_raw(), &packet[..18]);
    let mut iter = QueryResultIter::new(handle());
    let mut names = Vec::new();
    while let (Some(answer), _) = iter.next(&answers) {
        if let QueryResult::Ptr(name) = answer {
            names.push(name);
        }
    }
    let texts: Vec<String> = names.iter().map(|name| name.to_text()).collect();
    assert_eq!(texts, ["one._http._tcp.local", "two._http._tcp.local"]);
    for name in &names {
        assert_eq!(&socket.query(name, DnsQueryType::Srv).unwrap().name, name);
    }
}

#[test]
fn errors_are_converted() {
    assert_eq!(Error::from(StartQueryError::NoFreeSlot), Error::Failed);
    assert_eq!(Error::from(StartQueryError::InvalidName), Error::InvalidName);
    assert_eq!(Error::from(StartQueryError::NameTooLong), Error::NameTooLong);
    assert_eq!(Error::from(GetQueryResultError::Failed), Error::Failed);
    assert_eq!(Error::from(GetQueryResultError::Pending), Error::Failed);
}

#[test]
fn errors_have_names() {
    assert_eq!(Error::InvalidName.as_str(), "InvalidName");
    assert_eq!(Error::NameTooLong.as_str(), "NameTooLong");
    assert_eq!(Error::Failed.as_str(), "Failed");
}
