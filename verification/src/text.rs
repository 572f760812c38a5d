//! Domain names as text: labels with dots between them.
use vstd::prelude::*;

use crate::labels::{valid_label, valid_labels, valid_name};

verus! {

/// The byte that separates labels in text.
pub const DOT: u8 = 0x2e;

/// `label` holds no separator.
pub open spec fn dot_free_label(label: Seq<u8>) -> bool {
    !label.contains(DOT)
}

/// No label holds a separator.
pub open spec fn dot_free(labels: Seq<Seq<u8>>) -> bool {
    forall|i: int| 0 <= i < labels.len() ==> dot_free_label(#[trigger] labels[i])
}

/// The labels with a dot between each two.
pub open spec fn join(labels: Seq<Seq<u8>>) -> Seq<u8>
    decreases labels.len(),
{
    if labels.len() == 0 {
        seq![]
    } else if labels.len() == 1 {
        labels[0]
    } else {
        join(labels.drop_last()).push(DOT) + labels.last()
    }
}

/// `text` is a way to write the name with these labels: the labels with dots
/// between them, and possibly one more dot at the end.
pub open spec fn denotes(text: Seq<u8>, labels: Seq<Seq<u8>>) -> bool {
    &&& labels.len() > 0
    &&& valid_name(labels)
    &&& dot_free(labels)
    &&& text == join(labels) || text == join(labels).push(DOT)
}

/// The pieces of `text` between its dots.
pub open spec fn split(text: Seq<u8>) -> Seq<Seq<u8>>
    decreases text.len(),
{
    if text.len() == 0 {
        seq![seq![]]
    } else {
        let before = split(text.drop_last());
        if text.last() == DOT {
            before.push(seq![])
        } else {
            before.drop_last().push(before.last().push(text.last()))
        }
    }
}

/// `text` without the dot at its end, if it has one there.
pub open spec fn without_final_dot(text: Seq<u8>) -> Seq<u8> {
    if text.len() > 0 && text.last() == DOT {
        text.drop_last()
    } else {
        text
    }
}

/// Another byte at the end of the last label is another byte at the end of the text.
proof fn lemma_join_extend_last(labels: Seq<Seq<u8>>, byte: u8)
    requires
        labels.len() > 0,
    ensures
        join(labels.drop_last().push(labels.last().push(byte))) == join(labels).push(byte),
{
    let extended = labels.drop_last().push(labels.last().push(byte));
    assert(extended.drop_last() =~= labels.drop_last());
    assert(join(extended) =~= join(labels).push(byte));
}

/// The pieces of a text hold no dots, and joined they give the text again.
pub proof fn law_join_split(text: Seq<u8>)
    ensures
        split(text).len() > 0,
        dot_free(split(text)),
        join(split(text)) == text,
    decreases text.len(),
{
    if text.len() > 0 {
        let before = split(text.drop_last());
        law_join_split(text.drop_last());
        if text.last() == DOT {
            let after = before.push(seq![]);
            assert(after.drop_last() =~= before);
            assert(join(after) =~= text);
        } else {
            let after = before.drop_last().push(before.last().push(text.last()));
            lemma_join_extend_last(before, text.last());
            assert(join(after) =~= text);
            assert(dot_free_label(before.last()));
            assert(dot_free_label(before.last().push(text.last())));
            assert forall|i: int| 0 <= i < after.len() implies dot_free_label(
                #[trigger] after[i],
            ) by {
                if i < before.len() - 1 {
                    assert(after[i] == before[i]);
                }
            }
        }
    }
}

/// Splitting a text at its dots gives back the labels that were joined.
pub proof fn law_split_join(labels: Seq<Seq<u8>>)
    requires
        labels.len() > 0,
        dot_free(labels),
    ensures
        split(join(labels)) == labels,
    decreases join(labels).len(),
{
    let text = join(labels);
    let last = labels.last();
    assert(dot_free_label(last));
    if last.len() == 0 {
        if labels.len() == 1 {
            assert(text =~= seq![]);
            assert(labels =~= seq![seq![]]);
        } else {
            let front = labels.drop_last();
            assert(text =~= join(front).push(DOT));
            assert(text.drop_last() =~= join(front));
            assert(dot_free(front));
            law_split_join(front);
            assert(last =~= seq![]);
            assert(front.push(seq![]) =~= labels);
        }
    } else {
        let front = labels.drop_last().push(last.drop_last());
        assert(front.drop_last() =~= labels.drop_last());
        assert(last.drop_last().push(last.last()) =~= last);
        assert(front.drop_last().push(front.last().push(last.last())) =~= labels);
        lemma_join_extend_last(front, last.last());
        assert(text.drop_last() =~= join(front));
        assert(text.last() == last.last());
        assert(last.contains(last.last()));
        assert forall|i: int| 0 <= i < front.len() implies dot_free_label(#[trigger] front[i]) by {
            if i < labels.len() - 1 {
                assert(front[i] == labels[i]);
            } else {
                assert(front[i] == last.drop_last());
                if front[i].contains(DOT) {
                    let k = choose|k: int| 0 <= k < front[i].len() && front[i][k] == DOT;
                    assert(last[k] == DOT);
                }
            }
        }
        law_split_join(front);
    }
}

/// A name in text ends in a byte other than a dot.
proof fn lemma_join_last(labels: Seq<Seq<u8>>)
    requires
        labels.len() > 0,
        valid_labels(labels),
        dot_free(labels),
    ensures
        join(labels).len() > 0,
        join(labels).last() != DOT,
{
    let last = labels.last();
    assert(valid_label(last) && dot_free_label(last));
    assert(last.contains(last.last()));
    assert(join(labels).last() == last.last());
}

/// The name that a text denotes is made of the pieces between its dots, a dot at
/// its end set aside.
pub proof fn lemma_denotes_split(text: Seq<u8>, labels: Seq<Seq<u8>>)
    ensures
        denotes(text, labels) <==> valid_name(labels) && labels == split(without_final_dot(text)),
{
    if denotes(text, labels) {
        lemma_join_last(labels);
        law_split_join(labels);
        assert(without_final_dot(text) =~= join(labels));
    }
    if valid_name(labels) && labels == split(without_final_dot(text)) {
        law_join_split(without_final_dot(text));
        assert(text =~= join(labels) || text =~= join(labels).push(DOT));
    }
}

/// A text denotes at most one name.
pub proof fn law_text_denotes_one_name(text: Seq<u8>, a: Seq<Seq<u8>>, b: Seq<Seq<u8>>)
    requires
        denotes(text, a),
        denotes(text, b),
    ensures
        a == b,
{
    lemma_denotes_split(text, a);
    lemma_denotes_split(text, b);
}

/// A text that does not end in a dot denotes the same name with a dot put behind it.
pub proof fn law_final_dot_is_ignored(text: Seq<u8>, labels: Seq<Seq<u8>>)
    requires
        !(text.len() > 0 && text.last() == DOT),
    ensures
        denotes(text, labels) <==> denotes(text.push(DOT), labels),
{
    lemma_denotes_split(text, labels);
    lemma_denotes_split(text.push(DOT), labels);
    assert(text.push(DOT).drop_last() =~= text);
}

/// A label alone is its own text, and no labels have no text.
pub proof fn law_join_one(label: Seq<u8>)
    ensures
        join(seq![label]) == label,
        join(Seq::<Seq<u8>>::empty()) == Seq::<u8>::empty(),
{
}

/// The text of some labels and then others is the text of the ones, a dot, and the text of
/// the others.
pub proof fn law_join_concat(a: Seq<Seq<u8>>, b: Seq<Seq<u8>>)
    requires
        a.len() > 0,
        b.len() > 0,
    ensures
        join(a + b) == join(a).push(0x2e) + join(b),
    decreases b.len(),
{
    if b.len() == 1 {
        assert((a + b).drop_last() =~= a);
    } else {
        assert((a + b).drop_last() =~= a + b.drop_last());
        law_join_concat(a, b.drop_last());
        assert(join(a + b) =~= join(a).push(0x2e) + join(b));
    }
}

/// A text without dots is its only piece.
pub proof fn law_split_one(text: Seq<u8>)
    requires
        !text.contains(0x2e),
    ensures
        split(text) == seq![text],
{
    law_split_join(seq![text]);
}

/// The pieces of two texts with a dot between them are the pieces of the first and then
/// those of the second.
pub proof fn law_split_concat(a: Seq<u8>, b: Seq<u8>)
    ensures
        split(a.push(0x2e) + b) == split(a) + split(b),
    decreases b.len(),
{
    let text = a.push(0x2e) + b;
    if b.len() == 0 {
        assert(text.drop_last() =~= a);
        assert(split(text) =~= split(a) + split(b));
    } else {
        let shorter = b.drop_last();
        assert(text.drop_last() =~= a.push(0x2e) + shorter);
        law_split_concat(a, shorter);
        law_join_split(shorter);
        assert((split(a) + split(shorter)).drop_last() =~= split(a) + split(shorter).drop_last());
        assert(split(text) =~= split(a) + split(b));
    }
}

/// A byte occurs in two texts together as often as in each of them.
proof fn lemma_count_concat(a: Seq<u8>, b: Seq<u8>, byte: u8)
    ensures
        (a + b).to_multiset().count(byte) == a.to_multiset().count(byte) + b.to_multiset().count(
            byte,
        ),
{
    vstd::seq_lib::lemma_multiset_commutative(a, b);
}

/// A byte that a text does not hold occurs in it zero times.
proof fn lemma_count_none(text: Seq<u8>, byte: u8)
    requires
        !text.contains(byte),
    ensures
        text.to_multiset().count(byte) == 0,
{
    text.to_multiset_ensures();
}

/// A dot behind a text is one dot more.
proof fn lemma_count_push_dot(text: Seq<u8>)
    ensures
        text.push(0x2e).to_multiset().count(0x2e) == text.to_multiset().count(0x2e) + 1,
{
    text.to_multiset_ensures();
}

/// There is one dot less than there are labels.
proof fn lemma_count_dots(labels: Seq<Seq<u8>>)
    requires
        labels.len() > 0,
        dot_free(labels),
    ensures
        join(labels).to_multiset().count(0x2e) == labels.len() - 1,
    decreases labels.len(),
{
    assert(dot_free_label(labels.last()));
    lemma_count_none(labels.last(), 0x2e);
    if labels.len() > 1 {
        let front = labels.drop_last();
        assert(dot_free(front));
        lemma_count_dots(front);
        lemma_count_push_dot(join(front));
        lemma_count_concat(join(front).push(0x2e), labels.last(), 0x2e);
    }
}

/// What stands in a text made of three parts.
proof fn lemma_parts(before: Seq<u8>, label: Seq<u8>, after: Seq<u8>)
    ensures
        ({
            let text = before + label + after;
            let start = before.len() as int;
            let end = start + label.len() as int;
            &&& text.len() == end + after.len()
            &&& text.take(start) == before
            &&& text.subrange(start, end) == label
            &&& before.len() > 0 ==> text[start - 1] == before.last()
            &&& after.len() > 0 ==> text[end] == after[0]
        }),
{
    let text = before + label + after;
    let start = before.len() as int;
    let end = start + label.len() as int;
    assert(text.take(start) =~= before);
    assert(text.subrange(start, end) =~= label);
}

/// Where a label stands in the text of a name.
proof fn lemma_label_in_text(labels: Seq<Seq<u8>>, i: int) -> (start: int)
    requires
        0 <= i < labels.len(),
        dot_free(labels),
    ensures
        start == (if i == 0 {
            0
        } else {
            join(labels.take(i)).len() as int + 1
        }),
        0 <= start,
        start + labels[i].len() <= join(labels).len(),
        join(labels).subrange(start, start + labels[i].len()) == labels[i],
        join(labels).take(start).to_multiset().count(0x2e) == i,
        start > 0 ==> join(labels)[start - 1] == 0x2e,
        start + labels[i].len() == join(labels).len() <==> i == labels.len() - 1,
        i < labels.len() - 1 ==> join(labels)[(start + labels[i].len()) as int] == 0x2e,
{
    let label = labels[i];
    let front = labels.take(i);
    let upto = labels.take(i + 1);
    let rest = labels.skip(i + 1);
    assert(upto.drop_last() =~= front);
    assert(upto.last() == label);
    assert(upto + rest =~= labels);
    let before = if i == 0 {
        Seq::<u8>::empty()
    } else {
        join(front).push(0x2e)
    };
    let after = if i == labels.len() - 1 {
        Seq::<u8>::empty()
    } else {
        seq![0x2eu8] + join(rest)
    };
    assert(join(upto) =~= before + label);
    assert(join(labels) =~= before + label + after) by {
        if i < labels.len() - 1 {
            law_join_concat(upto, rest);
        } else {
            assert(upto =~= labels);
        }
    }
    lemma_parts(before, label, after);
    if i == 0 {
        lemma_count_none(before, 0x2e);
    } else {
        assert(dot_free(front));
        lemma_count_dots(front);
        lemma_count_push_dot(join(front));
    }
    before.len() as int
}

/// The pieces of a text are one more than its dots, and the piece at `i` is what stands
/// between the dots before it, of which there are `i`, and the next dot or the end.
pub proof fn law_pieces_stand_between_dots(text: Seq<u8>, i: int) -> (start: int)
    requires
        0 <= i <= text.to_multiset().count(0x2e),
    ensures
        split(text).len() == text.to_multiset().count(0x2e) + 1,
        0 <= start,
        start + split(text)[i].len() <= text.len(),
        text.take(start).to_multiset().count(0x2e) == i,
        start > 0 ==> text[start - 1] == 0x2e,
        text.subrange(start, start + split(text)[i].len()) == split(text)[i],
        !split(text)[i].contains(0x2e),
        start + split(text)[i].len() < text.len() ==> text[(start + split(text)[i].len()) as int]
            == 0x2e,
{
    law_join_split(text);
    lemma_count_dots(split(text));
    assert(dot_free_label(split(text)[i]));
    lemma_label_in_text(split(text), i)
}

/// In a text that denotes a name, the label at `i` is what stands between the dots before
/// it, of which there are `i`, and the next dot or the end. There are as many labels as
/// dots, and one more where the text does not end in a dot.
pub proof fn law_labels_stand_between_dots(
    text: Seq<u8>,
    labels: Seq<Seq<u8>>,
    i: int,
) -> (start: int)
    requires
        denotes(text, labels),
        0 <= i < labels.len(),
    ensures
        labels.len() == text.to_multiset().count(0x2e) + (if text.last() == 0x2e {
            0int
        } else {
            1int
        }),
        0 <= start,
        start + labels[i].len() <= text.len(),
        text.take(start).to_multiset().count(0x2e) == i,
        start > 0 ==> text[start - 1] == 0x2e,
        text.subrange(start, start + labels[i].len()) == labels[i],
        !labels[i].contains(0x2e),
        1 <= labels[i].len() <= 63,
        start + labels[i].len() < text.len() ==> text[(start + labels[i].len()) as int] == 0x2e,
{
    let joined = join(labels);
    lemma_join_last(labels);
    lemma_count_dots(labels);
    lemma_count_push_dot(joined);
    assert(valid_label(labels[i]) && dot_free_label(labels[i]));
    let start = lemma_label_in_text(labels, i);
    let end = start + labels[i].len();
    assert(text.take(start) =~= joined.take(start));
    assert(text.subrange(start, end) =~= joined.subrange(start, end));
    start
}

/// The labels take one byte more than their text, each behind its length byte.
proof fn lemma_frames_size(labels: Seq<Seq<u8>>)
    requires
        labels.len() > 0,
    ensures
        crate::labels::frames(labels).len() == join(labels).len() + 1,
    decreases labels.len(),
{
    if labels.len() == 1 {
        assert(crate::labels::frames(labels.drop_last()) =~= Seq::<u8>::empty());
    } else {
        lemma_frames_size(labels.drop_last());
    }
}

/// The wire format of the name that a text denotes has the bytes of each label one place
/// further on than the text has them. Before them stands the length of the label, in the
/// place where the text has a dot. A zero byte ends it.
pub proof fn law_wire_format_of_text(text: Seq<u8>, labels: Seq<Seq<u8>>, i: int) -> (start: int)
    requires
        denotes(text, labels),
        0 <= i < labels.len(),
    ensures
        0 <= start,
        start + labels[i].len() <= text.len(),
        text.take(start).to_multiset().count(0x2e) == i,
        text.subrange(start, start + labels[i].len()) == labels[i],
        crate::labels::encode(labels)[start] == labels[i].len(),
        crate::labels::encode(labels).subrange(start + 1, start + 1 + labels[i].len())
            == labels[i],
        crate::labels::encode(labels).len() == text.len() + (if text.last() == 0x2e {
            1int
        } else {
            2int
        }),
        crate::labels::encode(labels).last() == 0,
{
    let joined = join(labels);
    lemma_join_last(labels);
    lemma_frames_size(labels);
    let label = labels[i];
    assert(valid_label(label));
    let start = lemma_label_in_text(labels, i);
    let end = start + label.len();
    assert(text.take(start) =~= joined.take(start));
    assert(text.subrange(start, end) =~= joined.subrange(start, end));
    let front = labels.take(i);
    let upto = labels.take(i + 1);
    let rest = labels.skip(i + 1);
    assert(upto.drop_last() =~= front);
    assert(upto + rest =~= labels);
    crate::labels::lemma_frames_concat(upto, rest);
    if i > 0 {
        lemma_frames_size(front);
    }
    let encoded = crate::labels::encode(labels);
    assert(encoded =~= crate::labels::frames(front) + crate::labels::frame(label) + (
    crate::labels::frames(rest).push(0)));
    assert(encoded.subrange(start + 1, start + 1 + label.len()) =~= label);
    start
}

/// Labels of 1 to 63 bytes without dots, whose text has at most 253 bytes, are denoted by
/// that text, and by that text with a dot behind it.
pub proof fn law_labels_are_denoted_by_their_text(labels: Seq<Seq<u8>>)
    requires
        labels.len() > 0,
        forall|i: int| 0 <= i < labels.len() ==> 1 <= (#[trigger] labels[i]).len() <= 63,
        forall|i: int| 0 <= i < labels.len() ==> !(#[trigger] labels[i]).contains(0x2e),
        join(labels).len() <= 253,
    ensures
        denotes(join(labels), labels),
        denotes(join(labels).push(0x2e), labels),
{
    lemma_frames_size(labels);
}

/// A text denotes a name exactly where, one dot at its end set aside, it has at most 253
/// bytes and each of its pieces has 1 to 63.
pub proof fn law_texts_that_denote_a_name(text: Seq<u8>, front: Seq<u8>)
    requires
        text == front.push(0x2e) || text == front && !(text.len() > 0 && text.last() == 0x2e),
    ensures
        (exists|labels: Seq<Seq<u8>>| denotes(text, labels)) <==> {
            &&& front.len() <= 253
            &&& forall|i: int|
                0 <= i < split(front).len() ==> 1 <= (#[trigger] split(front)[i]).len() <= 63
        },
{
    assert(front =~= without_final_dot(text));
    law_join_split(front);
    lemma_frames_size(split(front));
    lemma_denotes_split(text, split(front));
    if exists|labels: Seq<Seq<u8>>| denotes(text, labels) {
        let labels = choose|labels: Seq<Seq<u8>>| denotes(text, labels);
        lemma_denotes_split(text, labels);
        assert forall|i: int| 0 <= i < split(front).len() implies 1 <= (#[trigger] split(
            front,
        )[i]).len() <= 63 by {
            assert(valid_label(split(front)[i]));
        }
    }
    if front.len() <= 253 && forall|i: int|
        0 <= i < split(front).len() ==> 1 <= (#[trigger] split(front)[i]).len() <= 63 {
        assert(valid_name(split(front)));
        assert(denotes(text, split(front)));
    }
}

/// The labels of a text that may end in a dot, before their lengths are looked at.
pub fn split_text(text: &[u8]) -> (labels: Vec<Vec<u8>>)
    ensures
        labels.deep_view() == split(without_final_dot(text@)),
{
    let mut end: usize = text.len();
    if end > 0 && text[end - 1] == DOT {
        end = end - 1;
    }
    assert(text@.take(end as int) =~= without_final_dot(text@));
    let mut labels: Vec<Vec<u8>> = Vec::new();
    let mut label: Vec<u8> = Vec::new();
    let mut i: usize = 0;
    assert(labels.deep_view().push(label@) =~= split(text@.take(0)));
    while i < end
        invariant
            i <= end <= text.len(),
            labels.deep_view().push(label@) == split(text@.take(i as int)),
        decreases end - i,
    {
        let byte: u8 = text[i];
        let ghost before = labels.deep_view().push(label@);
        let ghost next = text@.take(i + 1);
        assert(next.drop_last() =~= text@.take(i as int));
        assert(before.drop_last() =~= labels.deep_view());
        if byte == DOT {
            assert(label.deep_view() =~= label@);
            labels.push(label);
            label = Vec::new();
            assert(labels.deep_view() =~= before);
            assert(labels.deep_view().push(label@) =~= split(next));
        } else {
            label.push(byte);
            assert(labels.deep_view().push(label@) =~= split(next));
        }
        i = i + 1;
    }
    let ghost done = labels.deep_view().push(label@);
    assert(label.deep_view() =~= label@);
    labels.push(label);
    assert(labels.deep_view() =~= done);
    labels
}

/// `text` without the dot at its end, if it has one there.
pub open spec fn chars_without_final_dot(text: Seq<char>) -> Seq<char> {
    if text.len() > 0 && text.last() == '.' {
        text.drop_last()
    } else {
        text
    }
}

/// What `String::from_utf8_lossy` makes of bytes.
pub uninterp spec fn utf8_lossy(bytes: Seq<u8>) -> Seq<char>;

/// `String::from_utf8_lossy`: the text whose UTF-8 encoding the bytes are.
///
/// What stands in it for bytes that are not valid UTF-8 is only named.
#[verifier::external_body]
fn from_utf8_lossy(bytes: &[u8]) -> (text: String)
    ensures
        text@ == utf8_lossy(bytes@),
        vstd::utf8::valid_utf8(bytes@) ==> text@ == vstd::utf8::decode_utf8(bytes@),
{
    String::from_utf8_lossy(bytes).into_owned()
}

/// The text of a name: its labels with dots between them, read as UTF-8. The name
/// without labels, the root, is a single dot.
pub open spec fn text_of(labels: Seq<Seq<u8>>) -> Seq<char> {
    if labels.len() == 0 {
        seq!['.']
    } else {
        utf8_lossy(join(labels))
    }
}

/// One dot at the end of a text is set aside, and nothing else, in bytes as in characters.
pub proof fn law_one_final_dot_is_set_aside(bytes: Seq<u8>, text: Seq<char>)
    ensures
        without_final_dot(bytes.push(0x2e)) == bytes,
        !(bytes.len() > 0 && bytes.last() == 0x2e) ==> without_final_dot(bytes) == bytes,
        chars_without_final_dot(text.push('.')) == text,
        !(text.len() > 0 && text.last() == '.') ==> chars_without_final_dot(text) == text,
{
    assert(bytes.push(0x2e).drop_last() =~= bytes);
    assert(text.push('.').drop_last() =~= text);
}

/// The root is written as a dot. Any other name is written as what its labels with dots
/// between them spell: the text of some labels and then others spells the ones, a dot, and
/// the others.
pub proof fn law_text_of_names(a: Seq<Seq<u8>>, b: Seq<Seq<u8>>, label: Seq<u8>)
    requires
        a.len() > 0,
        b.len() > 0,
    ensures
        text_of(Seq::<Seq<u8>>::empty()) == seq!['.'],
        text_of(seq![label]) == utf8_lossy(label),
        text_of(a + b) == utf8_lossy(join(a).push(0x2e) + join(b)),
{
    law_join_concat(a, b);
}

/// The encoding of a text with another character at its end.
proof fn lemma_encode_utf8_push(text: Seq<char>, c: char)
    ensures
        vstd::utf8::encode_utf8(text.push(c)) == vstd::utf8::encode_utf8(text)
            + vstd::utf8::encode_scalar(c as u32),
    decreases text.len(),
{
    let longer = text.push(c);
    if text.len() == 0 {
        assert(longer[0] == c);
        assert(longer.drop_first() =~= text);
        assert(vstd::utf8::encode_utf8(longer.drop_first()) =~= Seq::<u8>::empty());
        assert(vstd::utf8::encode_utf8(longer) =~= vstd::utf8::encode_scalar(c as u32));
    } else {
        assert(longer[0] == text[0]);
        assert(longer.drop_first() =~= text.drop_first().push(c));
        lemma_encode_utf8_push(text.drop_first(), c);
        assert(vstd::utf8::encode_utf8(longer) =~= vstd::utf8::encode_utf8(text)
            + vstd::utf8::encode_scalar(c as u32));
    }
}

/// Only the character `.` is encoded by bytes that end in a dot.
proof fn lemma_encode_scalar_dot(c: char)
    ensures
        vstd::utf8::encode_scalar(c as u32).len() > 0,
        vstd::utf8::encode_scalar(c as u32).last() == DOT <==> c == '.',
        c == '.' ==> vstd::utf8::encode_scalar(c as u32) == seq![DOT],
{
    vstd::utf8::char_is_scalar(c);
    let v = c as u32;
    assert(v <= 0x7f ==> (v & 0x7f) as u8 == v) by (bit_vector);
    let low = (v & 0x3f) as u8;
    assert(0x80 | low >= 0x80) by (bit_vector);
}

/// The encoding of a text ends in a dot where the text does.
proof fn lemma_final_dot(text: Seq<char>)
    ensures
        without_final_dot(vstd::utf8::encode_utf8(text)) == vstd::utf8::encode_utf8(
            chars_without_final_dot(text),
        ),
{
    if text.len() > 0 {
        let front = text.drop_last();
        let c = text.last();
        assert(front.push(c) =~= text);
        lemma_encode_utf8_push(front, c);
        lemma_encode_scalar_dot(c);
        let bytes = vstd::utf8::encode_utf8(text);
        assert(bytes.last() == vstd::utf8::encode_scalar(c as u32).last());
        if c == '.' {
            assert(bytes.drop_last() =~= vstd::utf8::encode_utf8(front));
        }
    }
}

/// The labels that were read from a text, with dots between them, are the UTF-8
/// encoding of that text again, but for a dot at its end.
pub proof fn law_text_is_read_back(source: Seq<char>, labels: Seq<Seq<u8>>)
    requires
        denotes(vstd::utf8::encode_utf8(source), labels),
    ensures
        join(labels) == vstd::utf8::encode_utf8(chars_without_final_dot(source)),
        vstd::utf8::valid_utf8(join(labels)),
        vstd::utf8::decode_utf8(join(labels)) == chars_without_final_dot(source),
{
    let bytes = vstd::utf8::encode_utf8(source);
    lemma_denotes_split(bytes, labels);
    law_join_split(without_final_dot(bytes));
    lemma_final_dot(source);
    vstd::utf8::encode_utf8_valid_utf8(chars_without_final_dot(source));
    vstd::utf8::encode_utf8_decode_utf8(chars_without_final_dot(source));
}

/// Writes the labels with dots between them.
fn join_labels(labels: &Vec<Vec<u8>>) -> (text: Vec<u8>)
    ensures
        text@ == join(labels.deep_view()),
{
    let ghost all = labels.deep_view();
    let mut text: Vec<u8> = Vec::new();
    let mut i: usize = 0;
    while i < labels.len()
        invariant
            i <= labels.len(),
            all == labels.deep_view(),
            text@ == join(all.take(i as int)),
        decreases labels.len() - i,
    {
        if i > 0 {
            text.push(DOT);
        }
        text.extend_from_slice(labels[i].as_slice());
        proof {
            let next = all.take(i + 1);
            assert(next.drop_last() =~= all.take(i as int));
            assert(next.last() =~= labels[i as int]@);
            assert(text@ =~= join(next));
        }
        i = i + 1;
    }
    assert(all.take(i as int) =~= all);
    text
}

/// The name with these labels as text.
pub fn write_text(labels: &Vec<Vec<u8>>) -> (text: String)
    ensures
        text@ == text_of(labels.deep_view()),
        labels.deep_view().len() > 0 && vstd::utf8::valid_utf8(join(labels.deep_view())) ==> text@
            == vstd::utf8::decode_utf8(join(labels.deep_view())),
        forall|source: Seq<char>|
            denotes(#[trigger] vstd::utf8::encode_utf8(source), labels.deep_view()) ==> text@
                == chars_without_final_dot(source),
{
    proof {
        reveal_strlit(".");
        assert forall|source: Seq<char>|
            denotes(
                #[trigger] vstd::utf8::encode_utf8(source),
                labels.deep_view(),
            ) implies vstd::utf8::valid_utf8(join(labels.deep_view()))
            && vstd::utf8::decode_utf8(join(labels.deep_view())) == chars_without_final_dot(
            source,
        ) by {
            law_text_is_read_back(source, labels.deep_view());
        }
    }
    if labels.len() == 0 {
        let root: String = ".".to_owned();
        assert(root@ =~= seq!['.']);
        root
    } else {
        from_utf8_lossy(join_labels(labels).as_slice())
    }
}

} // verus!
