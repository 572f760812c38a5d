//! Domain names as sequences of labels, and their uncompressed wire format.
//!
//! A label is a string of 1 to 63 bytes. On the wire a name is its labels, each
//! behind a byte that holds its length, and a zero byte at the end; the whole
//! takes at most 255 bytes.
use vstd::prelude::*;

verus! {

/// The most bytes that a name takes on the wire, the terminator included.
pub const MAX_NAME_SIZE: usize = 255;

/// The most bytes that a label holds.
pub const MAX_LABEL_SIZE: usize = 63;

/// `label` has a length that its length byte can carry, and is not empty.
pub open spec fn valid_label(label: Seq<u8>) -> bool {
    1 <= label.len() <= MAX_LABEL_SIZE
}

/// Every label has an admissible length.
pub open spec fn valid_labels(labels: Seq<Seq<u8>>) -> bool {
    forall|i: int| 0 <= i < labels.len() ==> valid_label(#[trigger] labels[i])
}

/// A label behind its length byte.
pub open spec fn frame(label: Seq<u8>) -> Seq<u8> {
    seq![label.len() as u8] + label
}

/// The framed labels one after the other.
pub open spec fn frames(labels: Seq<Seq<u8>>) -> Seq<u8>
    decreases labels.len(),
{
    if labels.len() == 0 {
        seq![]
    } else {
        frames(labels.drop_last()) + frame(labels.last())
    }
}

/// The uncompressed wire format of a name.
pub open spec fn encode(labels: Seq<Seq<u8>>) -> Seq<u8> {
    frames(labels).push(0)
}

/// The labels make a name: each has an admissible length, and so has the whole.
pub open spec fn valid_name(labels: Seq<Seq<u8>>) -> bool {
    &&& valid_labels(labels)
    &&& encode(labels).len() <= MAX_NAME_SIZE
}

/// `raw` is the uncompressed wire format of some name.
pub open spec fn canonical(raw: Seq<u8>) -> bool {
    exists|labels: Seq<Seq<u8>>| valid_name(labels) && #[trigger] encode(labels) == raw
}

/// The labels of the name whose wire format is `raw`.
pub open spec fn labels_of(raw: Seq<u8>) -> Seq<Seq<u8>>
    recommends
        canonical(raw),
{
    choose|labels: Seq<Seq<u8>>| valid_name(labels) && #[trigger] encode(labels) == raw
}

/// The framed labels of a concatenation.
pub proof fn lemma_frames_concat(a: Seq<Seq<u8>>, b: Seq<Seq<u8>>)
    ensures
        frames(a + b) == frames(a) + frames(b),
    decreases b.len(),
{
    if b.len() == 0 {
        assert(a + b =~= a);
    } else {
        assert((a + b).drop_last() =~= a + b.drop_last());
        lemma_frames_concat(a, b.drop_last());
        assert(frames(a + b) =~= frames(a) + frames(b));
    }
}

/// The framed labels begin with the frame of the first one.
pub proof fn lemma_frames_first(labels: Seq<Seq<u8>>)
    requires
        labels.len() > 0,
    ensures
        frames(labels) == frame(labels[0]) + frames(labels.drop_first()),
{
    let head = seq![labels[0]];
    assert(head + labels.drop_first() =~= labels);
    lemma_frames_concat(head, labels.drop_first());
    assert(head.drop_last() =~= seq![]);
    assert(frames(head) =~= frame(labels[0])) by {
        assert(frames(head.drop_last()) =~= seq![]);
    }
}

/// The first labels take no more bytes than all of them.
pub proof fn lemma_frames_take(labels: Seq<Seq<u8>>, n: int)
    requires
        0 <= n <= labels.len(),
    ensures
        frames(labels.take(n)).len() <= frames(labels).len(),
{
    lemma_frames_concat(labels.take(n), labels.skip(n));
    assert(labels.take(n) + labels.skip(n) =~= labels);
}

/// No wire format is the beginning of another: bytes that begin with the wire
/// formats of two names begin with the same name twice.
pub proof fn law_wire_format_is_prefix_free(a: Seq<Seq<u8>>, b: Seq<Seq<u8>>, bytes: Seq<u8>)
    requires
        valid_labels(a),
        valid_labels(b),
        encode(a).is_prefix_of(bytes),
        encode(b).is_prefix_of(bytes),
    ensures
        a == b,
    decreases a.len(),
{
    if a.len() > 0 {
        lemma_frames_first(a);
        assert(bytes[0] == encode(a)[0] == a[0].len());
    } else {
        assert(bytes[0] == encode(a)[0] == 0);
    }
    if b.len() > 0 {
        lemma_frames_first(b);
        assert(bytes[0] == encode(b)[0] == b[0].len());
    } else {
        assert(bytes[0] == encode(b)[0] == 0);
    }
    if a.len() == 0 || b.len() == 0 {
        if a.len() > 0 {
            assert(valid_label(a[0]));
        }
        if b.len() > 0 {
            assert(valid_label(b[0]));
        }
        assert(a =~= b);
    } else {
        assert(valid_label(a[0]) && valid_label(b[0]));
        let n = 1 + a[0].len() as int;
        assert(a[0] =~= b[0]) by {
            assert forall|i: int| 0 <= i < a[0].len() implies a[0][i] == b[0][i] by {
                assert(encode(a)[1 + i] == a[0][i]);
                assert(encode(b)[1 + i] == b[0][i]);
            }
        }
        let ra = a.drop_first();
        let rb = b.drop_first();
        assert(encode(a).skip(n) =~= encode(ra));
        assert(encode(b).skip(n) =~= encode(rb));
        assert(encode(ra).is_prefix_of(bytes.skip(n))) by {
            assert(encode(ra) =~= bytes.skip(n).take(encode(ra).len() as int));
        }
        assert(encode(rb).is_prefix_of(bytes.skip(n))) by {
            assert(encode(rb) =~= bytes.skip(n).take(encode(rb).len() as int));
        }
        assert forall|i: int| 0 <= i < ra.len() implies valid_label(#[trigger] ra[i]) by {
            assert(ra[i] == a[i + 1]);
        }
        assert forall|i: int| 0 <= i < rb.len() implies valid_label(#[trigger] rb[i]) by {
            assert(rb[i] == b[i + 1]);
        }
        law_wire_format_is_prefix_free(ra, rb, bytes.skip(n));
        assert(a =~= seq![a[0]] + ra);
        assert(b =~= seq![b[0]] + rb);
    }
}

/// A name is determined by its wire format: reading back what was written gives
/// the labels that were written.
pub proof fn law_labels_of_encode(labels: Seq<Seq<u8>>)
    requires
        valid_name(labels),
    ensures
        canonical(encode(labels)),
        labels_of(encode(labels)) == labels,
{
    let raw = encode(labels);
    let read = labels_of(raw);
    assert(valid_name(read) && encode(read) == raw);
    assert(raw.is_prefix_of(raw)) by {
        assert(raw =~= raw.take(raw.len() as int));
    }
    law_wire_format_is_prefix_free(labels, read, raw);
}

/// Two names are equal exactly where their wire formats are.
pub proof fn law_names_are_equal_where_bytes_are(a: Seq<Seq<u8>>, b: Seq<Seq<u8>>)
    requires
        valid_name(a),
        valid_name(b),
    ensures
        a == b <==> encode(a) == encode(b),
{
    if encode(a) == encode(b) {
        law_labels_of_encode(a);
        law_labels_of_encode(b);
    }
}

/// Writing back what was read from a canonical wire format gives the same bytes.
pub proof fn law_encode_labels_of(raw: Seq<u8>)
    requires
        canonical(raw),
    ensures
        valid_name(labels_of(raw)),
        encode(labels_of(raw)) == raw,
{
}

/// The root is a single zero byte on the wire.
pub proof fn law_root_is_a_zero_byte()
    ensures
        encode(Seq::<Seq<u8>>::empty()) == seq![0u8],
{
    assert(encode(Seq::<Seq<u8>>::empty()) =~= seq![0u8]);
}

/// The wire format of a name is the length of its first label, that label, and the wire
/// format of the name that is left without it.
pub proof fn law_first_label_comes_first(labels: Seq<Seq<u8>>)
    requires
        labels.len() > 0,
        labels[0].len() <= 63,
    ensures
        encode(labels)[0] == labels[0].len(),
        encode(labels).subrange(1, 1 + labels[0].len() as int) == labels[0],
        encode(labels).skip(1 + labels[0].len() as int) == encode(labels.drop_first()),
        encode(labels).len() == 1 + labels[0].len() + encode(labels.drop_first()).len(),
{
    lemma_frames_first(labels);
    assert(encode(labels).subrange(1, 1 + labels[0].len() as int) =~= labels[0]);
    assert(encode(labels).skip(1 + labels[0].len() as int) =~= encode(labels.drop_first()));
}

/// One name below another: the wire format of the labels of both is that of the first
/// without its terminator, and that of the second.
pub proof fn law_wire_formats_are_appended(a: Seq<Seq<u8>>, b: Seq<Seq<u8>>)
    ensures
        encode(a + b) == encode(a).drop_last() + encode(b),
        encode(a).last() == 0,
{
    lemma_frames_concat(a, b);
    assert(encode(a + b) =~= encode(a).drop_last() + encode(b));
}

/// Labels make a name exactly where each has 1 to 63 bytes and the wire format has at most
/// 255.
pub proof fn law_name_limits(labels: Seq<Seq<u8>>)
    ensures
        valid_name(labels) <==> {
            &&& forall|i: int| 0 <= i < labels.len() ==> 1 <= (#[trigger] labels[i]).len() <= 63
            &&& encode(labels).len() <= 255
        },
{
    if valid_name(labels) {
        assert forall|i: int| 0 <= i < labels.len() implies 1 <= (
        #[trigger] labels[i]).len() <= 63 by {
            assert(valid_label(labels[i]));
        }
    }
}

/// Bytes are the wire format of a name exactly where there are labels within the limits
/// that are written as these bytes.
pub proof fn law_canonical_bytes(raw: Seq<u8>)
    ensures
        canonical(raw) <==> raw.len() <= 255 && exists|labels: Seq<Seq<u8>>|
            {
                &&& #[trigger] encode(labels) == raw
                &&& forall|i: int|
                    0 <= i < labels.len() ==> 1 <= (#[trigger] labels[i]).len() <= 63
            },
{
    if canonical(raw) {
        law_name_limits(labels_of(raw));
    }
    if raw.len() <= 255 && exists|labels: Seq<Seq<u8>>|
        {
            &&& #[trigger] encode(labels) == raw
            &&& forall|i: int| 0 <= i < labels.len() ==> 1 <= (#[trigger] labels[i]).len() <= 63
        } {
        let labels = choose|labels: Seq<Seq<u8>>|
            {
                &&& #[trigger] encode(labels) == raw
                &&& forall|i: int|
                    0 <= i < labels.len() ==> 1 <= (#[trigger] labels[i]).len() <= 63
            };
        law_name_limits(labels);
    }
}

/// Writes the wire format of a name, if the labels make one.
pub fn write_labels(labels: &Vec<Vec<u8>>) -> (raw: Option<Vec<u8>>)
    ensures
        raw is Some <==> valid_name(labels.deep_view()),
        raw matches Some(raw) ==> raw@ == encode(labels.deep_view()),
{
    let ghost all = labels.deep_view();
    let mut raw: Vec<u8> = Vec::new();
    let mut i: usize = 0;
    while i < labels.len()
        invariant
            i <= labels.len(),
            all == labels.deep_view(),
            raw@ == frames(all.take(i as int)),
            raw.len() < MAX_NAME_SIZE,
            forall|j: int| 0 <= j < i ==> valid_label(#[trigger] all[j]),
        decreases labels.len() - i,
    {
        let label: &Vec<u8> = &labels[i];
        let size: usize = label.len();
        assert(all[i as int] == label@);
        if size == 0 || size > MAX_LABEL_SIZE {
            return None;
        }
        proof {
            let next = all.take(i + 1);
            assert(next.drop_last() =~= all.take(i as int));
            assert(next.last() == label@);
            lemma_frames_take(all, i + 1);
        }
        if size + 1 >= MAX_NAME_SIZE - raw.len() {
            return None;
        }
        raw.push(size as u8);
        raw.extend_from_slice(label.as_slice());
        assert(raw@ =~= frames(all.take(i as int)) + frame(label@));
        i = i + 1;
    }
    assert(all.take(i as int) =~= all);
    raw.push(0);
    Some(raw)
}

} // verus!
