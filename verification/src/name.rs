//! Owned DNS names.
use vstd::prelude::*;
use vstd::std_specs::cmp::PartialEqSpec;

use crate::error::Error;
use crate::labels::{write_labels, MAX_NAME_SIZE};
use crate::text::split_text;
use crate::wire::DnsName;

verus! {

/// A `heapless::Vec` of bytes, with room for the longest name.
#[verifier::external_body]
#[derive(Debug)]
pub struct NameBytes(heapless::Vec<u8, MAX_NAME_SIZE>);

/// The bytes that the vector holds.
pub uninterp spec fn stored(bytes: NameBytes) -> Seq<u8>;

/// `heapless::Vec::from_slice`: a copy of the bytes, if they are no more than fit.
#[verifier::external_body]
fn store(bytes: &[u8]) -> (copy: Option<NameBytes>)
    ensures
        copy is Some <==> bytes@.len() <= MAX_NAME_SIZE,
        copy matches Some(copy) ==> stored(copy) == bytes@,
{
    heapless::Vec::from_slice(bytes).map(NameBytes).ok()
}

/// `heapless::Vec::as_slice`: the bytes held.
#[verifier::external_body]
fn stored_bytes(bytes: &NameBytes) -> (slice: &[u8])
    ensures
        slice@ == stored(*bytes),
{
    bytes.0.as_slice()
}

/// `heapless::Vec::clone`: a vector that holds the same bytes.
#[verifier::external_body]
fn stored_clone(bytes: &NameBytes) -> (copy: NameBytes)
    ensures
        stored(copy) == stored(*bytes),
{
    NameBytes(bytes.0.clone())
}

/// `heapless::Vec::eq`: whether both hold the same bytes.
#[verifier::external_body]
fn stored_eq(a: &NameBytes, b: &NameBytes) -> (same: bool)
    ensures
        same == (stored(*a) == stored(*b)),
{
    a.0 == b.0
}

/// An owned DNS name in canonical, uncompressed wire format.
#[derive(Debug)]
pub struct Name(NameBytes);

impl View for Name {
    type V = Seq<Seq<u8>>;

    /// The labels of the name.
    closed spec fn view(&self) -> Seq<Seq<u8>> {
        crate::labels::labels_of(stored(self.0))
    }
}

impl Name {
    #[verifier::type_invariant]
    spec fn well_formed(self) -> bool {
        crate::labels::canonical(stored(self.0))
    }

    /// Keeps the wire format that `write_labels` made.
    fn from_written(raw: &Vec<u8>, Ghost(labels): Ghost<Seq<Seq<u8>>>) -> (name: Name)
        requires
            crate::labels::valid_name(labels),
            raw@ == crate::labels::encode(labels),
        ensures
            name@ == labels,
    {
        proof {
            crate::labels::law_labels_of_encode(labels);
        }
        let bytes = store(raw.as_slice()).unwrap();
        Name(bytes)
    }

    /// Returns the canonical, uncompressed wire-format bytes for this name.
    pub fn as_raw(&self) -> (raw: &[u8])
        ensures
            crate::labels::valid_name(self@),
            raw@ == crate::labels::encode(self@),
    {
        proof {
            use_type_invariant(self);
            crate::labels::law_encode_labels_of(stored(self.0));
        }
        stored_bytes(&self.0)
    }

    /// Returns this name as a borrowed DNS name.
    pub fn as_smoltcp(&self) -> (name: DnsName<'_>)
        ensures
            name@ == self@,
    {
        let raw: &[u8] = self.as_raw();
        proof {
            crate::labels::law_labels_of_encode(self@);
        }
        let name = DnsName::from_const(raw).unwrap();
        proof {
            crate::labels::law_labels_of_encode(name@);
        }
        name
    }

    /// Whether the last label is `local`: such a name is resolved by multicast.
    pub fn is_local(&self) -> (local: bool)
        ensures
            local == (self@.len() > 0 && self@.last() == crate::wire::local_label()),
            local == (self@.len() > 0 && self@.last() == seq![
                0x6cu8,
                0x6fu8,
                0x63u8,
                0x61u8,
                0x6cu8,
            ]),
    {
        self.as_smoltcp().is_local()
    }

    /// The name as text, without a dot at the end.
    ///
    /// A text that the name was read from comes back, but for a dot at its end.
    pub fn to_text(&self) -> (text: String)
        ensures
            text@ == crate::text::text_of(self@),
            self@.len() > 0 && vstd::utf8::valid_utf8(crate::text::join(self@)) ==> text@
                == vstd::utf8::decode_utf8(crate::text::join(self@)),
            forall|source: Seq<char>|
                crate::text::denotes(#[trigger] vstd::utf8::encode_utf8(source), self@) ==> text@
                    == crate::text::chars_without_final_dot(source),
    {
        self.as_smoltcp().to_text()
    }
}

impl vstd::std_specs::convert::TryFromSpecImpl<&str> for Name {
    open spec fn obeys_try_from_spec() -> bool {
        false
    }

    open spec fn try_from_spec(_name: &str) -> Result<Name, Error> {
        arbitrary()
    }
}

impl TryFrom<&str> for Name {
    type Error = Error;

    /// Reads a name in text, such as `rust-lang.org`. A dot at the end is ignored.
    fn try_from(name: &str) -> (result: Result<Name, Error>)
        ensures
            match result {
                Ok(result) => crate::text::denotes(vstd::utf8::encode_utf8(name@), result@),
                Err(e) => e == Error::InvalidName && forall|labels: Seq<Seq<u8>>|
                    !crate::text::denotes(vstd::utf8::encode_utf8(name@), labels),
            },
    {
        let labels: Vec<Vec<u8>> = split_text(name.as_bytes());
        proof {
            let bytes = vstd::utf8::encode_utf8(name@);
            crate::text::lemma_denotes_split(bytes, labels.deep_view());
            assert forall|other: Seq<Seq<u8>>| crate::text::denotes(bytes, other) implies other
                == labels.deep_view() by {
                crate::text::lemma_denotes_split(bytes, other);
            }
        }
        match write_labels(&labels) {
            Some(raw) => Ok(Name::from_written(&raw, Ghost(labels.deep_view()))),
            None => Err(Error::InvalidName),
        }
    }
}

impl Clone for Name {
    fn clone(&self) -> (copy: Name)
        ensures
            copy@ == self@,
    {
        proof {
            use_type_invariant(self);
        }
        Name(stored_clone(&self.0))
    }
}

impl vstd::std_specs::convert::FromSpecImpl<&Name> for Name {
    open spec fn obeys_from_spec() -> bool {
        false
    }

    open spec fn from_spec(_name: &Name) -> Name {
        arbitrary()
    }
}

impl From<&Name> for Name {
    fn from(name: &Name) -> (copy: Name)
        ensures
            copy@ == name@,
    {
        name.clone()
    }
}

impl vstd::std_specs::convert::FromSpecImpl<DnsName<'_>> for Name {
    open spec fn obeys_from_spec() -> bool {
        false
    }

    open spec fn from_spec(_name: DnsName<'_>) -> Name {
        arbitrary()
    }
}

impl From<DnsName<'_>> for Name {
    /// Copies a borrowed name; compression is undone.
    fn from(name: DnsName<'_>) -> (copy: Name)
        ensures
            copy@ == name@,
    {
        let raw: Vec<u8> = name.write_uncompressed();
        Name::from_written(&raw, Ghost(name@))
    }
}

impl AsRef<[u8]> for Name {
    fn as_ref(&self) -> (raw: &[u8])
        ensures
            crate::labels::valid_name(self@),
            raw@ == crate::labels::encode(self@),
    {
        self.as_raw()
    }
}

impl vstd::std_specs::cmp::PartialEqSpecImpl for Name {
    open spec fn obeys_eq_spec() -> bool {
        true
    }

    open spec fn eq_spec(&self, other: &Name) -> bool {
        self@ == other@
    }
}

impl PartialEq for Name {
    fn eq(&self, other: &Name) -> (same: bool) {
        proof {
            use_type_invariant(self);
            use_type_invariant(other);
            crate::labels::law_encode_labels_of(stored(self.0));
            crate::labels::law_encode_labels_of(stored(other.0));
        }
        stored_eq(&self.0, &other.0)
    }
}

impl Eq for Name {

}

/// Names are equal exactly where they have the same labels in the same order.
pub proof fn law_equal_names_have_equal_labels(a: Name, b: Name)
    ensures
        a.eq_spec(&b) <==> a@.len() == b@.len() && forall|i: int|
            0 <= i < a@.len() ==> #[trigger] a@[i] == b@[i],
{
    if a@.len() == b@.len() && forall|i: int| 0 <= i < a@.len() ==> #[trigger] a@[i] == b@[i] {
        assert(a@ =~= b@);
    }
}

} // verus!
