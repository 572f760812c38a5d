//! Answers to DNS queries.
use vstd::prelude::*;

use crate::address::IpAddress;
use crate::name::Name;
use crate::wire::DnsName;

verus! {

/// The type of the records that a query asks for.
#[derive(Debug, PartialEq, Eq, Structural, Clone, Copy)]
pub enum DnsQueryType {
    /// IPv4 addresses.
    A,
    /// Name servers.
    Ns,
    /// The canonical name of an alias.
    Cname,
    /// The start of a zone.
    Soa,
    /// A pointer to another name.
    Ptr,
    /// IPv6 addresses.
    Aaaa,
    /// The location of a service.
    Srv,
    /// Any other type, by its number.
    Unknown(u16),
}

/// The contents of an SRV record.
#[derive(Debug, PartialEq, Eq, Clone, Copy)]
pub struct DnsSrvRecord<N> {
    /// Targets of a lower priority are tried first.
    pub priority: u16,
    /// The share of requests among targets of equal priority.
    pub weight: u16,
    /// The port of the service.
    pub port: u16,
    /// The host that offers the service.
    pub target: N,
}

/// An owned DNS SRV answer.
pub type SrvQueryResult = DnsSrvRecord<Name>;

/// What an answer says, with names as their labels.
pub enum AnswerView {
    /// An address.
    Address(IpAddress),
    /// The labels of the name pointed to.
    Ptr(Seq<Seq<u8>>),
    /// A service, with the labels of its target.
    Srv(DnsSrvRecord<Seq<Seq<u8>>>),
}

/// A DNS answer as the socket keeps it, with names inside the message they came in.
#[derive(Debug, Clone, Copy)]
pub enum SocketAnswer<'a> {
    /// An address answer from an A or AAAA query.
    Address(IpAddress),
    /// A PTR answer.
    Ptr(DnsName<'a>),
    /// An SRV answer.
    Srv(DnsSrvRecord<DnsName<'a>>),
}

impl<'a> View for SocketAnswer<'a> {
    type V = AnswerView;

    open spec fn view(&self) -> AnswerView {
        match *self {
            SocketAnswer::Address(address) => AnswerView::Address(address),
            SocketAnswer::Ptr(name) => AnswerView::Ptr(name@),
            SocketAnswer::Srv(srv) => AnswerView::Srv(
                DnsSrvRecord {
                    priority: srv.priority,
                    weight: srv.weight,
                    port: srv.port,
                    target: srv.target@,
                },
            ),
        }
    }
}

/// A DNS answer.
#[derive(Debug, PartialEq, Eq)]
pub enum QueryResult {
    /// An address answer from an A or AAAA query.
    Address(IpAddress),
    /// A PTR answer.
    Ptr(Name),
    /// An SRV answer.
    Srv(SrvQueryResult),
}

impl View for QueryResult {
    type V = AnswerView;

    open spec fn view(&self) -> AnswerView {
        match *self {
            QueryResult::Address(address) => AnswerView::Address(address),
            QueryResult::Ptr(name) => AnswerView::Ptr(name@),
            QueryResult::Srv(srv) => AnswerView::Srv(
                DnsSrvRecord {
                    priority: srv.priority,
                    weight: srv.weight,
                    port: srv.port,
                    target: srv.target@,
                },
            ),
        }
    }
}

impl Clone for QueryResult {
    fn clone(&self) -> (copy: QueryResult)
        ensures
            copy@ == self@,
            match *self {
                QueryResult::Address(address) => copy == QueryResult::Address(address),
                QueryResult::Ptr(name) => copy matches QueryResult::Ptr(same) && same@ == name@,
                QueryResult::Srv(srv) => {
                    &&& copy matches QueryResult::Srv(same)
                    &&& same.priority == srv.priority
                    &&& same.weight == srv.weight
                    &&& same.port == srv.port
                    &&& same.target@ == srv.target@
                },
            },
    {
        match self {
            QueryResult::Address(address) => QueryResult::Address(*address),
            QueryResult::Ptr(name) => QueryResult::Ptr(name.clone()),
            QueryResult::Srv(srv) => QueryResult::Srv(
                DnsSrvRecord {
                    priority: srv.priority,
                    weight: srv.weight,
                    port: srv.port,
                    target: srv.target.clone(),
                },
            ),
        }
    }
}

impl vstd::std_specs::convert::FromSpecImpl<SocketAnswer<'_>> for QueryResult {
    open spec fn obeys_from_spec() -> bool {
        false
    }

    open spec fn from_spec(_answer: SocketAnswer<'_>) -> QueryResult {
        arbitrary()
    }
}

impl From<SocketAnswer<'_>> for QueryResult {
    /// Takes an answer out of the message that it came in.
    fn from(answer: SocketAnswer<'_>) -> (result: QueryResult)
        ensures
            result@ == answer@,
            match answer {
                SocketAnswer::Address(address) => result == QueryResult::Address(address),
                SocketAnswer::Ptr(name) => result matches QueryResult::Ptr(owned) && owned@
                    == name@,
                SocketAnswer::Srv(srv) => {
                    &&& result matches QueryResult::Srv(owned)
                    &&& owned.priority == srv.priority
                    &&& owned.weight == srv.weight
                    &&& owned.port == srv.port
                    &&& owned.target@ == srv.target@
                },
            },
    {
        match answer {
            SocketAnswer::Address(address) => QueryResult::Address(address),
            SocketAnswer::Ptr(name) => QueryResult::Ptr(Name::from(name)),
            SocketAnswer::Srv(srv) => QueryResult::Srv(
                DnsSrvRecord {
                    priority: srv.priority,
                    weight: srv.weight,
                    port: srv.port,
                    target: Name::from(srv.target),
                },
            ),
        }
    }
}

/// An owned answer says what an answer of the socket says exactly where both are of one
/// kind and agree in each field: the address; the name; or the priority, the weight, the
/// port and the target of a service.
pub proof fn law_owned_answer_keeps_every_field(answer: SocketAnswer<'_>, result: QueryResult)
    ensures
        result@ == answer@ <==> match answer {
            SocketAnswer::Address(address) => result == QueryResult::Address(address),
            SocketAnswer::Ptr(name) => result matches QueryResult::Ptr(owned) && owned@ == name@,
            SocketAnswer::Srv(srv) => {
                &&& result matches QueryResult::Srv(owned)
                &&& owned.priority == srv.priority
                &&& owned.weight == srv.weight
                &&& owned.port == srv.port
                &&& owned.target@ == srv.target@
            },
        },
{
}

/// Two owned answers say the same exactly where both are of one kind and agree in each
/// field.
pub proof fn law_equal_answers_agree_in_every_field(a: QueryResult, b: QueryResult)
    ensures
        a@ == b@ <==> match a {
            QueryResult::Address(address) => b == QueryResult::Address(address),
            QueryResult::Ptr(name) => b matches QueryResult::Ptr(same) && same@ == name@,
            QueryResult::Srv(srv) => {
                &&& b matches QueryResult::Srv(same)
                &&& same.priority == srv.priority
                &&& same.weight == srv.weight
                &&& same.port == srv.port
                &&& same.target@ == srv.target@
            },
        },
{
}

/// What a socket's answer says is of its own kind, with the values of its own fields.
pub proof fn law_answer_says_its_fields(answer: SocketAnswer<'_>)
    ensures
        match answer {
            SocketAnswer::Address(address) => answer@ == AnswerView::Address(address),
            SocketAnswer::Ptr(name) => answer@ == AnswerView::Ptr(name@),
            SocketAnswer::Srv(srv) => {
                &&& answer@ matches AnswerView::Srv(said)
                &&& said.priority == srv.priority
                &&& said.weight == srv.weight
                &&& said.port == srv.port
                &&& said.target == srv.target@
            },
        },
{
}

} // verus!
