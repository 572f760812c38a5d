//! The DNS client.
use vstd::prelude::*;

use crate::address::{parse_ipv4, parse_ipv6, IpAddress};
use crate::answer::{AnswerView, DnsQueryType, SocketAnswer};
use crate::error::Error;
use crate::iter::{first_address, views, IterView, QueryResultIter, Release};
use crate::name::Name;

verus! {

/// `From` of a type for itself: the value as it is.
pub assume_specification<T>[ <T as From<T>>::from ](value: T) -> (same: T)
    ensures
        same == value,
;

/// An IPv6 address with the length of its network prefix.
#[derive(Debug, PartialEq, Eq, Clone, Copy)]
pub struct Ipv6Cidr {
    /// The octets of the address.
    pub address: [u8; 16],
    /// The number of bits in the network prefix.
    pub prefix_len: u8,
}

/// What name resolution depends on in a network stack.
#[derive(Debug, Clone, Copy)]
pub struct Stack<'a> {
    /// The IPv6 address that the stack is configured with, if it is.
    pub config_v6: Option<&'a Ipv6Cidr>,
}

/// The kinds of addresses that a lookup asks for.
#[derive(Debug, PartialEq, Eq, Structural, Clone, Copy)]
pub enum AddrType {
    /// IPv4 addresses.
    IPv4,
    /// IPv6 addresses.
    IPv6,
    /// Addresses of either kind.
    Either,
}

/// A question to the DNS.
#[derive(Debug, PartialEq, Eq)]
pub struct Query {
    /// The name asked about.
    pub name: Name,
    /// The type of the records asked for.
    pub qtype: DnsQueryType,
}

/// DNS client that resolves host names.
pub struct DnsSocket<'a> {
    stack: Stack<'a>,
}

/// The type of the records to ask for first.
pub open spec fn first_qtype(addr_type: AddrType, config_v6: bool) -> DnsQueryType {
    match addr_type {
        AddrType::IPv4 => DnsQueryType::A,
        AddrType::IPv6 => DnsQueryType::Aaaa,
        AddrType::Either => if config_v6 {
            DnsQueryType::Aaaa
        } else {
            DnsQueryType::A
        },
    }
}

/// The type of the records to ask for when the first query brought no address.
pub open spec fn second_qtype(addr_type: AddrType, config_v6: bool) -> Option<DnsQueryType> {
    match addr_type {
        AddrType::IPv4 => None,
        AddrType::IPv6 => None,
        AddrType::Either => if config_v6 {
            Some(DnsQueryType::A)
        } else {
            Some(DnsQueryType::Aaaa)
        },
    }
}

impl<'a> DnsSocket<'a> {
    /// The stack that names are resolved on.
    pub closed spec fn stack(&self) -> Stack<'a> {
        self.stack
    }

    /// Create a new DNS socket using the provided stack.
    ///
    /// NOTE: If using DHCP, make sure it has reconfigured the stack to ensure the DNS servers are updated.
    pub fn new(stack: Stack<'a>) -> (socket: DnsSocket<'a>)
        ensures
            socket.stack() == stack,
    {
        DnsSocket { stack }
    }

    /// Make a query for a given name: the question to put to the DNS, unless there is no
    /// such name.
    pub fn query<N>(&self, name: N, qtype: DnsQueryType) -> (query: Result<Query, Error>) where
        N: TryInto<Name>,
        Error: From<N::Error>,

        ensures
            match query {
                Ok(query) => query.qtype == qtype && call_ensures(
                    <N as TryInto<Name>>::try_into,
                    (name,),
                    Ok(query.name),
                ),
                Err(e) => exists|cause: N::Error|
                    call_ensures(<N as TryInto<Name>>::try_into, (name,), Err(cause))
                        && call_ensures(<Error as From<N::Error>>::from, (cause,), e),
            },
    {
        match name.try_into() {
            Ok(name) => Ok(Query { name, qtype }),
            Err(cause) => Err(Error::from(cause)),
        }
    }

    /// The types of the records to ask for to find an address: first, and then where the
    /// first query brought none.
    pub fn query_types(&self, addr_type: AddrType) -> (qtypes: (
        DnsQueryType,
        Option<DnsQueryType>,
    ))
        ensures
            qtypes.0 == first_qtype(addr_type, self.stack().config_v6 is Some),
            qtypes.1 == second_qtype(addr_type, self.stack().config_v6 is Some),
            addr_type == AddrType::IPv4 ==> qtypes == (DnsQueryType::A, None::<DnsQueryType>),
            addr_type == AddrType::IPv6 ==> qtypes == (DnsQueryType::Aaaa, None::<DnsQueryType>),
            addr_type == AddrType::Either && self.stack().config_v6 is Some ==> qtypes == (
                DnsQueryType::Aaaa,
                Some(DnsQueryType::A),
            ),
            addr_type == AddrType::Either && self.stack().config_v6 is None ==> qtypes == (
                DnsQueryType::A,
                Some(DnsQueryType::Aaaa),
            ),
    {
        match addr_type {
            AddrType::IPv4 => (DnsQueryType::A, None),
            AddrType::IPv6 => (DnsQueryType::Aaaa, None),
            AddrType::Either => {
                let v6_first: bool = self.stack.config_v6.is_some();
                if v6_first {
                    (DnsQueryType::Aaaa, Some(DnsQueryType::A))
                } else {
                    (DnsQueryType::A, Some(DnsQueryType::Aaaa))
                }
            },
        }
    }

    /// Begins to resolve a host name that was read as `literal` where it is an address
    /// literal. A literal is its own answer; any other host is a name to ask the DNS about.
    pub fn start_lookup(
        &self,
        host: &str,
        addr_type: AddrType,
        literal: Option<IpAddress>,
    ) -> (lookup: Lookup)
        ensures
            lookup_starts(host@, addr_type, self.stack().config_v6 is Some, literal, lookup@),
            match literal {
                Some(address) => lookup == Lookup::Done(Ok(address)),
                None => match lookup {
                    Lookup::Ask(pending) => {
                        &&& crate::text::denotes(
                            vstd::utf8::encode_utf8(host@),
                            pending.query.name@,
                        )
                        &&& match addr_type {
                            AddrType::IPv4 => pending.query.qtype == DnsQueryType::A
                                && pending.fallback is None,
                            AddrType::IPv6 => pending.query.qtype == DnsQueryType::Aaaa
                                && pending.fallback is None,
                            AddrType::Either => if self.stack().config_v6 is Some {
                                pending.query.qtype == DnsQueryType::Aaaa && pending.fallback
                                    == Some(DnsQueryType::A)
                            } else {
                                pending.query.qtype == DnsQueryType::A && pending.fallback == Some(
                                    DnsQueryType::Aaaa,
                                )
                            },
                        }
                    },
                    Lookup::Done(result) => {
                        &&& result == Err::<IpAddress, Error>(Error::InvalidName)
                        &&& forall|labels: Seq<Seq<u8>>|
                            !crate::text::denotes(vstd::utf8::encode_utf8(host@), labels)
                    },
                },
            },
    {
        let (qtype, secondary_qtype) = self.query_types(addr_type);
        match literal {
            Some(address) => Lookup::Done(Ok(address)),
            None => match self.query(host, qtype) {
                Ok(query) => Lookup::Ask(PendingLookup { query, fallback: secondary_qtype }),
                Err(e) => Lookup::Done(Err(e)),
            },
        }
    }

    /// Begins to resolve a host name into an address.
    ///
    /// An address literal is recognised where it is of the kind that is asked for first.
    pub fn get_host_by_name(&self, host: &str, addr_type: AddrType) -> (lookup: Lookup)
        ensures
            lookup_starts(
                host@,
                addr_type,
                self.stack().config_v6 is Some,
                literal(host@, first_qtype(addr_type, self.stack().config_v6 is Some)),
                lookup@,
            ),
            first_qtype(addr_type, self.stack().config_v6 is Some) == DnsQueryType::Aaaa
                && !host@.contains(':') ==> literal(host@, DnsQueryType::Aaaa) is None,
            addr_type == AddrType::IPv4 || addr_type == AddrType::Either
                && self.stack().config_v6 is None ==> match crate::address::ipv4_literal(host@) {
                Some(octets) => lookup == Lookup::Done(Ok(IpAddress::Ipv4(octets))),
                None => !(lookup matches Lookup::Done(Ok(_))),
            },
            addr_type == AddrType::IPv6 || addr_type == AddrType::Either
                && self.stack().config_v6 is Some ==> match crate::address::ipv6_literal(host@) {
                Some(octets) => lookup == Lookup::Done(Ok(IpAddress::Ipv6(octets))),
                None => !(lookup matches Lookup::Done(Ok(_))),
            },
            match lookup {
                Lookup::Ask(pending) => {
                    &&& crate::text::denotes(vstd::utf8::encode_utf8(host@), pending.query.name@)
                    &&& match addr_type {
                        AddrType::IPv4 => pending.query.qtype == DnsQueryType::A
                            && pending.fallback is None,
                        AddrType::IPv6 => pending.query.qtype == DnsQueryType::Aaaa
                            && pending.fallback is None,
                        AddrType::Either => if self.stack().config_v6 is Some {
                            pending.query.qtype == DnsQueryType::Aaaa && pending.fallback == Some(
                                DnsQueryType::A,
                            )
                        } else {
                            pending.query.qtype == DnsQueryType::A && pending.fallback == Some(
                                DnsQueryType::Aaaa,
                            )
                        },
                    }
                },
                Lookup::Done(Err(e)) => {
                    &&& e == Error::InvalidName
                    &&& forall|labels: Seq<Seq<u8>>|
                        !crate::text::denotes(vstd::utf8::encode_utf8(host@), labels)
                },
                Lookup::Done(Ok(_)) => true,
            },
    {
        let (qtype, _) = self.query_types(addr_type);
        let literal: Option<IpAddress> = parse_literal(host, qtype);
        self.start_lookup(host, addr_type, literal)
    }
}

/// A socket on a stack that lives longer serves as one on a stack that lives shorter.
fn _assert_covariant<'a, 'b: 'a>(x: DnsSocket<'b>) -> (y: DnsSocket<'a>)
    ensures
        y == x,
{
    x
}

/// The address that a text spells out, if it is a literal of the kind that the
/// query type asks for.
pub open spec fn literal(text: Seq<char>, qtype: DnsQueryType) -> Option<IpAddress> {
    match qtype {
        DnsQueryType::A => match crate::address::ipv4_literal(text) {
            Some(octets) => Some(IpAddress::Ipv4(octets)),
            None => None,
        },
        DnsQueryType::Aaaa => match crate::address::ipv6_literal(text) {
            Some(octets) => Some(IpAddress::Ipv6(octets)),
            None => None,
        },
        _ => None,
    }
}

/// Reads an address literal of the kind that the query type asks for.
fn parse_literal(text: &str, qtype: DnsQueryType) -> (address: Option<IpAddress>)
    ensures
        address == literal(text@, qtype),
        qtype == DnsQueryType::Aaaa && !text@.contains(':') ==> address is None,
        qtype == DnsQueryType::A ==> match crate::address::ipv4_literal(text@) {
            Some(octets) => address == Some(IpAddress::Ipv4(octets)),
            None => address is None,
        },
        qtype == DnsQueryType::Aaaa ==> match crate::address::ipv6_literal(text@) {
            Some(octets) => address == Some(IpAddress::Ipv6(octets)),
            None => address is None,
        },
        qtype != DnsQueryType::A && qtype != DnsQueryType::Aaaa ==> address is None,
{
    match qtype {
        DnsQueryType::A => match parse_ipv4(text) {
            Some(octets) => Some(IpAddress::Ipv4(octets)),
            None => None,
        },
        DnsQueryType::Aaaa => match parse_ipv6(text) {
            Some(octets) => Some(IpAddress::Ipv6(octets)),
            None => None,
        },
        _ => None,
    }
}

/// A host name lookup, as far as it has come.
pub enum Lookup {
    /// The lookup has ended.
    Done(Result<IpAddress, Error>),
    /// A query is to be made before the lookup can go on.
    Ask(PendingLookup),
}

/// A host name lookup that waits for the outcome of a query.
pub struct PendingLookup {
    /// The query to make.
    pub query: Query,
    /// The type of the records to ask for if the query brings no address.
    pub fallback: Option<DnsQueryType>,
}

/// How far a lookup has come, with names as their labels.
pub enum LookupView {
    /// The lookup has ended.
    Done(Result<IpAddress, Error>),
    /// A query of this name and type is to be made.
    Ask { name: Seq<Seq<u8>>, qtype: DnsQueryType, fallback: Option<DnsQueryType> },
}

impl View for Lookup {
    type V = LookupView;

    open spec fn view(&self) -> LookupView {
        match *self {
            Lookup::Done(result) => LookupView::Done(result),
            Lookup::Ask(pending) => pending@,
        }
    }
}

impl View for PendingLookup {
    type V = LookupView;

    open spec fn view(&self) -> LookupView {
        LookupView::Ask {
            name: self.query.name@,
            qtype: self.query.qtype,
            fallback: self.fallback,
        }
    }
}

/// How a lookup of `host` starts: it is over where `host` is an address literal or not
/// a name, and asks about the name otherwise.
pub open spec fn lookup_starts(
    host: Seq<char>,
    addr_type: AddrType,
    config_v6: bool,
    literal: Option<IpAddress>,
    lookup: LookupView,
) -> bool {
    let first = first_qtype(addr_type, config_v6);
    let text = vstd::utf8::encode_utf8(host);
    match literal {
        Some(address) => lookup == LookupView::Done(Ok(address)),
        None => match lookup {
            LookupView::Ask { name, qtype, fallback } => {
                &&& crate::text::denotes(text, name)
                &&& qtype == first
                &&& fallback == second_qtype(addr_type, config_v6)
            },
            LookupView::Done(result) => {
                &&& result == Err::<IpAddress, Error>(Error::InvalidName)
                &&& forall|labels: Seq<Seq<u8>>| !crate::text::denotes(text, labels)
            },
        },
    }
}

/// The address that the outcome of a query brings: the first one among the answers that
/// the iteration has yet to hand out.
pub open spec fn outcome_address(
    outcome: Result<(IterView, Seq<AnswerView>), Error>,
) -> Result<Option<IpAddress>, Error> {
    match outcome {
        Ok((IterView::Query { next_index, .. }, answers)) => Ok(
            first_address(answers, next_index),
        ),
        Ok((IterView::Done, _)) => Ok(None),
        Err(e) => Err(e),
    }
}

impl LookupView {
    /// How a lookup goes on after a query that brought this: an address ends it, and so
    /// does an error; without an address the fallback is asked for, once.
    pub open spec fn resume(self, found: Result<Option<IpAddress>, Error>) -> LookupView {
        match self {
            LookupView::Done(_) => self,
            LookupView::Ask { name, fallback, .. } => match found {
                Err(e) => LookupView::Done(Err(e)),
                Ok(Some(address)) => LookupView::Done(Ok(address)),
                Ok(None) => match fallback {
                    Some(qtype) => LookupView::Ask { name, qtype, fallback: None },
                    None => LookupView::Done(Err(Error::Failed)),
                },
            },
        }
    }
}

impl PendingLookup {
    /// Goes on with the outcome of the query: an iterator over its answers together with
    /// the answers that the socket keeps, or an error. An iterator that was handed in is
    /// used up, and its query is to be released.
    pub fn resume(
        self,
        outcome: Result<(QueryResultIter, &[SocketAnswer<'_>]), Error>,
    ) -> (next: (Lookup, Option<Release>))
        ensures
            match outcome {
                Ok((iter, answers)) => {
                    &&& next.0@ == self@.resume(outcome_address(Ok((iter@, views(answers@)))))
                    &&& next.1 == iter@.drop()
                },
                Err(e) => next.0@ == self@.resume(Err(e)) && next.1 is None,
            },
            match outcome {
                Err(e) => next.0 == Lookup::Done(Err(e)) && next.1 is None,
                Ok((iter, answers)) => {
                    &&& match iter@ {
                        IterView::Done => next.1 is None,
                        IterView::Query { query, .. } => next.1 == Some(Release { query }),
                    }
                    &&& forall|i: int|
                        iter@ is Query && iter@->next_index <= i < answers@.len() && (
                        #[trigger] answers@[i] is Address) && (forall|j: int|
                            iter@->next_index <= j < i ==> !(#[trigger] answers@[j] is Address))
                            ==> next.0 == Lookup::Done(Ok(answers@[i]->Address_0))
                    &&& (iter@ is Query ==> forall|j: int|
                        iter@->next_index <= j < answers@.len() ==> !(
                        #[trigger] answers@[j] is Address)) ==> match self.fallback {
                        None => next.0 == Lookup::Done(Err(Error::Failed)),
                        Some(qtype) => {
                            &&& next.0 matches Lookup::Ask(pending)
                            &&& pending.query.name@ == self.query.name@
                            &&& pending.query.qtype == qtype
                            &&& pending.fallback is None
                        },
                    }
                },
            },
    {
        match outcome {
            Err(e) => (Lookup::Done(Err(e)), None),
            Ok((iter, answers)) => {
                let (found, release) = iter.find_address(answers);
                let lookup = match found {
                    Some(address) => Lookup::Done(Ok(address)),
                    None => match self.fallback {
                        Some(qtype) => Lookup::Ask(
                            PendingLookup {
                                query: Query { name: self.query.name, qtype },
                                fallback: None,
                            },
                        ),
                        None => Lookup::Done(Err(Error::Failed)),
                    },
                };
                (lookup, release)
            },
        }
    }
}

/// A lookup is over after two queries at most, and both ask about the same name.
pub proof fn law_lookup_makes_two_queries_at_most(
    host: Seq<char>,
    addr_type: AddrType,
    config_v6: bool,
    literal: Option<IpAddress>,
    start: LookupView,
    first: Result<Option<IpAddress>, Error>,
    second: Result<Option<IpAddress>, Error>,
)
    requires
        lookup_starts(host, addr_type, config_v6, literal, start),
    ensures
        start.resume(first).resume(second) is Done,
        start matches LookupView::Ask { name, .. } ==> (start.resume(first) matches LookupView::Ask {
            name: again,
            ..
        } ==> again == name),
{
}

/// A second query is made exactly where either kind of address will do and the first
/// query brought none. It asks for the other kind.
pub proof fn law_second_query(
    host: Seq<char>,
    addr_type: AddrType,
    config_v6: bool,
    literal: Option<IpAddress>,
    start: LookupView,
    first: Result<Option<IpAddress>, Error>,
)
    requires
        lookup_starts(host, addr_type, config_v6, literal, start),
        start is Ask,
    ensures
        start.resume(first) is Ask <==> addr_type == AddrType::Either && first == Ok::<
            Option<IpAddress>,
            Error,
        >(None),
        start.resume(first) matches LookupView::Ask { qtype, .. } ==> {
            ||| start->qtype == DnsQueryType::A && qtype == DnsQueryType::Aaaa
            ||| start->qtype == DnsQueryType::Aaaa && qtype == DnsQueryType::A
        },
{
}

/// What a lookup comes to: the first address that a query brings; failing that, the error
/// of the last query that was made, or that the lookup failed.
pub proof fn law_lookup_result(
    start: LookupView,
    first: Result<Option<IpAddress>, Error>,
    second: Result<Option<IpAddress>, Error>,
)
    requires
        start is Ask,
    ensures
        start->fallback is None ==> start.resume(first) == LookupView::Done(
            match first {
                Ok(Some(address)) => Ok(address),
                Ok(None) => Err(Error::Failed),
                Err(e) => Err(e),
            },
        ),
        start->fallback is Some ==> start.resume(first).resume(second) == LookupView::Done(
            match first {
                Ok(Some(address)) => Ok(address),
                Ok(None) => match second {
                    Ok(Some(address)) => Ok(address),
                    Ok(None) => Err(Error::Failed),
                    Err(e) => Err(e),
                },
                Err(e) => Err(e),
            },
        ),
{
}

/// An IPv4 address in dot-decimal notation resolves to itself, without a query, wherever
/// IPv4 addresses are asked for first.
pub proof fn law_ipv4_literal_resolves_to_itself(
    octets: [u8; 4],
    addr_type: AddrType,
    config_v6: bool,
    start: LookupView,
)
    requires
        first_qtype(addr_type, config_v6) == DnsQueryType::A,
        lookup_starts(
            crate::address::dot_decimal(octets),
            addr_type,
            config_v6,
            literal(crate::address::dot_decimal(octets), DnsQueryType::A),
            start,
        ),
    ensures
        start == LookupView::Done(Ok(IpAddress::Ipv4(octets))),
{
    crate::address::law_ipv4_literal_is_read_back(octets);
}

/// A text that is read as an IPv6 address resolves to that address, with all its octets and
/// without a query, wherever IPv6 addresses are asked for first.
pub proof fn law_ipv6_literal_resolves_to_itself(
    host: Seq<char>,
    octets: [u8; 16],
    addr_type: AddrType,
    config_v6: bool,
    start: Lookup,
)
    requires
        crate::address::ipv6_literal(host) == Some(octets),
        addr_type == AddrType::IPv6 || addr_type == AddrType::Either && config_v6,
        lookup_starts(
            host,
            addr_type,
            config_v6,
            literal(host, first_qtype(addr_type, config_v6)),
            start@,
        ),
    ensures
        start == Lookup::Done(Ok(IpAddress::Ipv6(octets))),
{
}

/// A text that is read as an IPv4 address resolves to that address, with all its octets and
/// without a query, wherever IPv4 addresses are asked for first.
pub proof fn law_read_ipv4_literal_is_the_result(
    host: Seq<char>,
    octets: [u8; 4],
    addr_type: AddrType,
    config_v6: bool,
    start: Lookup,
)
    requires
        crate::address::ipv4_literal(host) == Some(octets),
        addr_type == AddrType::IPv4 || addr_type == AddrType::Either && !config_v6,
        lookup_starts(
            host,
            addr_type,
            config_v6,
            literal(host, first_qtype(addr_type, config_v6)),
            start@,
        ),
    ensures
        start == Lookup::Done(Ok(IpAddress::Ipv4(octets))),
{
}

/// An address literal is read as an address of the kind that the query type asks for, with
/// the octets that were read, and nothing else is a literal.
pub proof fn law_literals_keep_their_octets(text: Seq<char>, qtype: DnsQueryType)
    ensures
        literal(text, DnsQueryType::A) matches Some(address) ==> {
            &&& address matches IpAddress::Ipv4(octets)
            &&& crate::address::ipv4_literal(text) == Some(octets)
        },
        literal(text, DnsQueryType::Aaaa) matches Some(address) ==> {
            &&& address matches IpAddress::Ipv6(octets)
            &&& crate::address::ipv6_literal(text) == Some(octets)
        },
        literal(text, DnsQueryType::A) is None ==> crate::address::ipv4_literal(text) is None,
        literal(text, DnsQueryType::Aaaa) is None ==> crate::address::ipv6_literal(text) is None,
        qtype != DnsQueryType::A && qtype != DnsQueryType::Aaaa ==> literal(text, qtype) is None,
{
}

/// A host that is not read as an address of the kind asked for first is asked about where it
/// denotes a name: under that name, first for that kind, and then for the other kind where
/// either will do. Where it denotes no name the lookup is over.
pub proof fn law_host_is_asked_about(
    host: Seq<char>,
    labels: Seq<Seq<u8>>,
    addr_type: AddrType,
    config_v6: bool,
    start: Lookup,
)
    requires
        crate::address::ipv4_literal(host) is None,
        crate::address::ipv6_literal(host) is None,
        lookup_starts(
            host,
            addr_type,
            config_v6,
            literal(host, first_qtype(addr_type, config_v6)),
            start@,
        ),
    ensures
        crate::text::denotes(vstd::utf8::encode_utf8(host), labels) ==> {
            &&& start matches Lookup::Ask(pending)
            &&& pending.query.name@ == labels
            &&& addr_type == AddrType::IPv4 ==> pending.query.qtype == DnsQueryType::A
                && pending.fallback is None
            &&& addr_type == AddrType::IPv6 ==> pending.query.qtype == DnsQueryType::Aaaa
                && pending.fallback is None
            &&& addr_type == AddrType::Either && config_v6 ==> pending.query.qtype
                == DnsQueryType::Aaaa && pending.fallback == Some(DnsQueryType::A)
            &&& addr_type == AddrType::Either && !config_v6 ==> pending.query.qtype
                == DnsQueryType::A && pending.fallback == Some(DnsQueryType::Aaaa)
        },
        (forall|other: Seq<Seq<u8>>| !crate::text::denotes(vstd::utf8::encode_utf8(host), other))
            ==> start == Lookup::Done(Err(Error::InvalidName)),
{
    if let LookupView::Ask { name, .. } = start@ {
        if crate::text::denotes(vstd::utf8::encode_utf8(host), labels) {
            crate::text::law_text_denotes_one_name(vstd::utf8::encode_utf8(host), name, labels);
        }
    }
}

/// A lookup that resumes with the answers to its query, none of which has been handed out,
/// ends with the address of the answer with the least index that is an address, whatever the
/// number of answers is.
pub proof fn law_resumed_lookup_takes_the_first_address(
    pending: PendingLookup,
    query: smoltcp::socket::dns::QueryHandle,
    answers: Seq<SocketAnswer<'_>>,
    i: int,
    address: IpAddress,
    next: Lookup,
)
    requires
        0 <= i < answers.len(),
        answers[i] == SocketAnswer::Address(address),
        forall|j: int| 0 <= j < i ==> !(#[trigger] answers[j] is Address),
        next@ == pending@.resume(
            outcome_address(Ok((IterView::Query { query, next_index: 0 }, views(answers)))),
        ),
    ensures
        next == Lookup::Done(Ok(address)),
{
    crate::iter::law_first_address_of_slice(answers, 0);
}

/// A lookup that resumes with answers among which there is no address asks for its fallback
/// under the same name, and has none behind that. Without a fallback it has failed.
pub proof fn law_resumed_lookup_without_address(
    pending: PendingLookup,
    query: smoltcp::socket::dns::QueryHandle,
    answers: Seq<SocketAnswer<'_>>,
    next: Lookup,
)
    requires
        forall|j: int| 0 <= j < answers.len() ==> !(#[trigger] answers[j] is Address),
        next@ == pending@.resume(
            outcome_address(Ok((IterView::Query { query, next_index: 0 }, views(answers)))),
        ),
    ensures
        pending.fallback is None ==> next == Lookup::Done(Err(Error::Failed)),
        pending.fallback matches Some(qtype) ==> {
            &&& next matches Lookup::Ask(again)
            &&& again.query.name@ == pending.query.name@
            &&& again.query.qtype == qtype
            &&& again.fallback is None
        },
{
    crate::iter::law_first_address_of_slice(answers, 0);
}

/// A lookup whose query brought an error ends with that error.
pub proof fn law_resumed_lookup_with_error(pending: PendingLookup, e: Error, next: Lookup)
    requires
        next@ == pending@.resume(outcome_address(Err(e))) || next@ == pending@.resume(Err(e)),
    ensures
        next == Lookup::Done(Err(e)),
{
}

} // verus!
