//! Names inside DNS messages, where they may be compressed.
use vstd::prelude::*;

use crate::labels::write_labels;
use crate::text::write_text;

verus! {

/// The position in a message that a pointer points to.
pub open spec fn position(pointer: Seq<u8>) -> int {
    (pointer[0] - 0xc0) * 256 + pointer[1]
}

/// The labels of the name that begins at `name` in the message `packet`; nothing if it is
/// malformed.
///
/// A zero byte ends the name, and a length byte has its label behind it. A pointer has
/// reading go on at the place that it points to, with only what stands before that place
/// as the message: so no byte of the message is read twice.
pub open spec fn message_labels(packet: Seq<u8>, name: Seq<u8>) -> Option<Seq<Seq<u8>>>
    decreases packet.len(), name.len(),
{
    if name.len() == 0 {
        None
    } else if name[0] == 0 {
        Some(seq![])
    } else if name[0] <= crate::labels::MAX_LABEL_SIZE {
        let end = 1 + name[0] as int;
        if name.len() < end {
            None
        } else {
            match message_labels(packet, name.skip(end)) {
                Some(tail) => Some(seq![name.subrange(1, end)] + tail),
                None => None,
            }
        }
    } else if name[0] < 0xc0 || name.len() < 2 || position(name) >= packet.len() {
        None
    } else {
        message_labels(packet.take(position(name)), packet.skip(position(name)))
    }
}

/// The labels, as sequences.
pub open spec fn labels_view(labels: Option<Vec<Vec<u8>>>) -> Option<Seq<Seq<u8>>> {
    match labels {
        Some(labels) => Some(labels.deep_view()),
        None => None,
    }
}

/// `name` begins with these labels, each behind its length byte.
pub open spec fn begins_with(name: Seq<u8>, head: Seq<Seq<u8>>) -> bool {
    crate::labels::valid_labels(head) && crate::labels::frames(head).is_prefix_of(name)
}

/// What follows in `name` behind these labels.
pub open spec fn behind(name: Seq<u8>, head: Seq<Seq<u8>>) -> Seq<u8> {
    name.skip(crate::labels::frames(head).len() as int)
}

/// Labels that are read from a message have 1 to 63 bytes each.
pub proof fn law_read_labels_are_valid(packet: Seq<u8>, name: Seq<u8>)
    ensures
        message_labels(packet, name) matches Some(labels) ==> crate::labels::valid_labels(labels),
    decreases packet.len(), name.len(),
{
    if name.len() == 0 || name[0] == 0 {
    } else if name[0] <= crate::labels::MAX_LABEL_SIZE {
        let end = 1 + name[0] as int;
        if name.len() >= end {
            law_read_labels_are_valid(packet, name.skip(end));
            if let Some(tail) = message_labels(packet, name.skip(end)) {
                let labels = seq![name.subrange(1, end)] + tail;
                assert forall|i: int| 0 <= i < labels.len() implies crate::labels::valid_label(
                    #[trigger] labels[i],
                ) by {
                    if i > 0 {
                        assert(labels[i] == tail[i - 1]);
                    }
                }
            }
        }
    } else if name[0] >= 0xc0 && name.len() >= 2 && position(name) < packet.len() {
        law_read_labels_are_valid(packet.take(position(name)), packet.skip(position(name)));
    }
}

/// The labels that a name begins with are read first, and then what stands behind them.
pub proof fn law_leading_labels_are_read(packet: Seq<u8>, name: Seq<u8>, head: Seq<Seq<u8>>)
    requires
        begins_with(name, head),
    ensures
        message_labels(packet, name) == (match message_labels(packet, behind(name, head)) {
            Some(tail) => Some(head + tail),
            None => None,
        }),
    decreases head.len(),
{
    let framed = crate::labels::frames(head);
    assert(framed =~= name.take(framed.len() as int));
    if head.len() == 0 {
        assert(behind(name, head) =~= name);
        if let Some(tail) = message_labels(packet, name) {
            assert(head + tail =~= tail);
        }
    } else {
        let first = head[0];
        let others = head.drop_first();
        assert(crate::labels::valid_label(first));
        crate::labels::lemma_frames_first(head);
        let end = 1 + first.len() as int;
        assert(name[0] == framed[0] == first.len());
        assert(name.subrange(1, end) =~= first) by {
            assert forall|i: int| 0 <= i < first.len() implies name[1 + i] == first[i] by {
                assert(framed[1 + i] == first[i]);
            }
        }
        let rest = name.skip(end);
        let rest_framed = crate::labels::frames(others);
        assert(rest_framed =~= rest.take(rest_framed.len() as int)) by {
            assert forall|i: int| 0 <= i < rest_framed.len() implies rest_framed[i] == rest[i] by {
                assert(framed[end + i] == rest_framed[i]);
            }
        }
        assert forall|i: int| 0 <= i < others.len() implies crate::labels::valid_label(
            #[trigger] others[i],
        ) by {
            assert(others[i] == head[i + 1]);
        }
        law_leading_labels_are_read(packet, rest, others);
        assert(behind(rest, others) =~= behind(name, head));
        if let Some(tail) = message_labels(packet, behind(name, head)) {
            assert(seq![first] + (others + tail) =~= head + tail);
        }
    }
}

/// A name without pointers is read as the labels that it was written from, whatever the
/// message is and whatever stands behind the name.
pub proof fn law_plain_name_is_read_back(
    packet: Seq<u8>,
    name: Seq<u8>,
    labels: Seq<Seq<u8>>,
)
    requires
        crate::labels::valid_labels(labels),
        crate::labels::encode(labels).is_prefix_of(name),
    ensures
        message_labels(packet, name) == Some(labels),
{
    let framed = crate::labels::frames(labels);
    let size = framed.len() as int;
    let encoded = crate::labels::encode(labels);
    assert(encoded =~= name.take(encoded.len() as int));
    assert(framed =~= name.take(size)) by {
        assert forall|i: int| 0 <= i < size implies framed[i] == name[i] by {
            assert(encoded[i] == name[i]);
        }
    }
    assert(name[size] == encoded[size]);
    law_leading_labels_are_read(packet, name, labels);
    assert(behind(name, labels)[0] == 0);
    assert(labels + Seq::<Seq<u8>>::empty() =~= labels);
}

/// A pointer behind some labels stands for the name at the place that it points to, be that
/// plain or compressed in turn.
pub proof fn law_pointer_is_followed(packet: Seq<u8>, name: Seq<u8>, head: Seq<Seq<u8>>)
    requires
        begins_with(name, head),
        behind(name, head).len() >= 2,
        behind(name, head)[0] >= 0xc0,
        position(behind(name, head)) < packet.len(),
    ensures
        message_labels(packet, name) == (match message_labels(
            packet.take(position(behind(name, head))),
            packet.skip(position(behind(name, head))),
        ) {
            Some(tail) => Some(head + tail),
            None => None,
        }),
{
    law_leading_labels_are_read(packet, name, head);
}

/// How the first byte of a name decides. Zero ends the name. From 1 to 63 it is the length of
/// a label, which comes before the labels of what follows it. From 192 on it begins a
/// pointer, the two bytes of which without their upper two bits are a position in the
/// message; the labels are those of the name there, in the message up to there. What is cut
/// short, a pointer out of the message and any other first byte are malformed.
pub proof fn law_first_byte_decides(packet: Seq<u8>, name: Seq<u8>)
    ensures
        name.len() == 0 ==> message_labels(packet, name) is None,
        name.len() > 0 && name[0] == 0 ==> message_labels(packet, name) == Some(
            Seq::<Seq<u8>>::empty(),
        ),
        name.len() > 0 && 1 <= name[0] <= 63 && name.len() <= name[0] ==> message_labels(
            packet,
            name,
        ) is None,
        name.len() > 0 && 1 <= name[0] <= 63 && name.len() > name[0] ==> match message_labels(
            packet,
            name.skip(1 + name[0]),
        ) {
            None => message_labels(packet, name) is None,
            Some(tail) => {
                &&& message_labels(packet, name) matches Some(labels)
                &&& labels.len() == 1 + tail.len()
                &&& labels[0] == name.subrange(1, 1 + name[0])
                &&& forall|i: int| 0 <= i < tail.len() ==> labels[i + 1] == #[trigger] tail[i]
            },
        },
        name.len() > 0 && 64 <= name[0] <= 191 ==> message_labels(packet, name) is None,
        name.len() == 1 && name[0] >= 192 ==> message_labels(packet, name) is None,
        name.len() >= 2 && name[0] >= 192 && name[0] * 256 + name[1] - 0xc000 >= packet.len()
            ==> message_labels(packet, name) is None,
        name.len() >= 2 && name[0] >= 192 && name[0] * 256 + name[1] - 0xc000 < packet.len()
            ==> message_labels(packet, name) == message_labels(
            packet.take(name[0] * 256 + name[1] - 0xc000),
            packet.skip(name[0] * 256 + name[1] - 0xc000),
        ),
{
}

/// Labels in vectors are viewed one by one, in their order.
pub proof fn law_labels_are_viewed_in_order(labels: Vec<Vec<u8>>)
    ensures
        labels_view(None) is None,
        labels_view(Some(labels)) matches Some(said) && said.len() == labels@.len() && forall|i: int|
            0 <= i < labels@.len() ==> #[trigger] said[i] == labels@[i]@,
{
    assert forall|i: int| 0 <= i < labels@.len() implies #[trigger] labels.deep_view()[i]
        == labels@[i]@ by {
        assert(labels@[i].deep_view() =~= labels@[i]@);
    }
}

/// Collects the labels that `smoltcp::wire::DnsPacket::parse_name` hands out.
///
/// Taken on trust: it reads names as `message_labels` says.
#[verifier::external_body]
fn parse_name(packet: &[u8], name: &[u8]) -> (labels: Option<Vec<Vec<u8>>>)
    ensures
        labels_view(labels) == message_labels(packet@, name@),
{
    let packet = smoltcp::wire::DnsPacket::new_unchecked(packet);
    let labels = packet.parse_name(name).map(|label| label.map(|label| label.to_vec()));
    labels.collect::<Result<Vec<Vec<u8>>, smoltcp::wire::Error>>().ok()
}

/// Whether two byte strings are equal.
fn same_bytes(a: &[u8], b: &[u8]) -> (same: bool)
    ensures
        same == (a@ == b@),
{
    if a.len() != b.len() {
        return false;
    }
    let mut i: usize = 0;
    while i < a.len()
        invariant
            i <= a.len() == b.len(),
            forall|j: int| 0 <= j < i ==> a[j] == b[j],
        decreases a.len() - i,
    {
        if a[i] != b[i] {
            return false;
        }
        i = i + 1;
    }
    assert(a@ =~= b@);
    true
}

/// The bytes of `local`.
pub open spec fn local_label() -> Seq<u8> {
    seq![0x6c, 0x6f, 0x63, 0x61, 0x6c]
}

/// A borrowed DNS name, possibly compressed, inside the message that holds it.
///
/// It is well formed, and short enough for the uncompressed wire format.
#[derive(Clone, Copy, Debug)]
pub struct DnsName<'a> {
    packet: &'a [u8],
    name: &'a [u8],
}

impl<'a> View for DnsName<'a> {
    type V = Seq<Seq<u8>>;

    /// The labels of the name.
    closed spec fn view(&self) -> Seq<Seq<u8>> {
        message_labels(self.packet@, self.name@)->0
    }
}

impl<'a> DnsName<'a> {
    #[verifier::type_invariant]
    spec fn well_formed(self) -> bool {
        message_labels(self.packet@, self.name@) is Some && crate::labels::valid_name(self@)
    }

    /// Takes the name that begins at `name`, with pointers into `packet`.
    pub fn parse(packet: &'a [u8], name: &'a [u8]) -> (parsed: Option<DnsName<'a>>)
        ensures
            parsed is Some <==> (message_labels(packet@, name@) matches Some(labels)
                && crate::labels::valid_name(labels)),
            parsed matches Some(parsed) ==> message_labels(packet@, name@) == Some(parsed@),
    {
        match parse_name(packet, name) {
            Some(labels) => {
                if write_labels(&labels).is_some() {
                    Some(DnsName { packet, name })
                } else {
                    None
                }
            },
            None => None,
        }
    }

    /// Takes a name in canonical, uncompressed wire format.
    pub fn from_const(raw: &'a [u8]) -> (name: Option<DnsName<'a>>)
        ensures
            name is Some <==> crate::labels::canonical(raw@),
            name matches Some(name) ==> crate::labels::valid_name(name@)
                && crate::labels::encode(name@) == raw@,
    {
        proof {
            if crate::labels::canonical(raw@) {
                assert(raw@ =~= raw@.take(raw@.len() as int));
                law_plain_name_is_read_back(raw@, raw@, crate::labels::labels_of(raw@));
            }
        }
        match parse_name(raw, raw) {
            Some(labels) => {
                match write_labels(&labels) {
                    Some(written) => {
                        if same_bytes(written.as_slice(), raw) {
                            Some(DnsName { packet: raw, name: raw })
                        } else {
                            None
                        }
                    },
                    None => None,
                }
            },
            None => None,
        }
    }

    /// The name in canonical, uncompressed wire format.
    pub fn write_uncompressed(&self) -> (raw: Vec<u8>)
        ensures
            crate::labels::valid_name(self@),
            raw@ == crate::labels::encode(self@),
    {
        proof {
            use_type_invariant(self);
        }
        let labels: Vec<Vec<u8>> = parse_name(self.packet, self.name).unwrap();
        write_labels(&labels).unwrap()
    }

    /// Whether the last label is `local`: such a name is resolved by multicast.
    pub fn is_local(&self) -> (local: bool)
        ensures
            local == (self@.len() > 0 && self@.last() == local_label()),
            local == (self@.len() > 0 && self@.last() == seq![
                0x6cu8,
                0x6fu8,
                0x63u8,
                0x61u8,
                0x6cu8,
            ]),
    {
        proof {
            use_type_invariant(self);
        }
        let labels: Vec<Vec<u8>> = parse_name(self.packet, self.name).unwrap();
        if labels.len() == 0 {
            return false;
        }
        let last: &Vec<u8> = &labels[labels.len() - 1];
        let local: [u8; 5] = [0x6c, 0x6f, 0x63, 0x61, 0x6c];
        assert(local@ =~= local_label());
        assert(last@ =~= self@.last());
        same_bytes(last.as_slice(), local.as_slice())
    }

    /// The name as text, without a dot at the end.
    pub fn to_text(&self) -> (text: String)
        ensures
            text@ == crate::text::text_of(self@),
            self@.len() > 0 && vstd::utf8::valid_utf8(crate::text::join(self@)) ==> text@
                == vstd::utf8::decode_utf8(crate::text::join(self@)),
            forall|source: Seq<char>|
                crate::text::denotes(#[trigger] vstd::utf8::encode_utf8(source), self@) ==> text@
                    == crate::text::chars_without_final_dot(source),
    {
        proof {
            use_type_invariant(self);
        }
        let labels: Vec<Vec<u8>> = parse_name(self.packet, self.name).unwrap();
        write_text(&labels)
    }
}

} // verus!
