//! The labels of the training set: a text of lines, each a score, a space
//! and the name of a file. The score `0` marks the file as spam, `1` as ham.

use vstd::prelude::*;
use vstd::slice::{slice_subrange, slice_to_vec};

verus! {

/// The place of the first `byte` in `s`, or the length of `s` where there is
/// none.
pub open spec fn first_at(s: Seq<u8>, byte: u8) -> int
    decreases s.len(),
{
    if s.len() == 0 {
        0
    } else if s[0] == byte {
        0
    } else {
        1 + first_at(s.drop_first(), byte)
    }
}

/// The label that a line holds: the score before its first space, and as
/// the name what stands between that space and the next one. A line without
/// a space, or with a score that is neither `0` nor `1`, holds none.
pub open spec fn label_of(line: Seq<u8>) -> Option<(Seq<u8>, bool)> {
    let space = first_at(line, 32u8);
    if space >= line.len() {
        None
    } else {
        let rest = line.skip(space + 1);
        let name = rest.take(first_at(rest, 32u8));
        if line.take(space) == seq![48u8] {
            Some((name, true))
        } else if line.take(space) == seq![49u8] {
            Some((name, false))
        } else {
            None
        }
    }
}

/// What follows the first line of `data`.
pub open spec fn after_line(data: Seq<u8>) -> Seq<u8> {
    let end = first_at(data, 10u8);
    if end < data.len() {
        data.skip(end + 1)
    } else {
        Seq::empty()
    }
}

/// The labels that a text holds, in the order of its lines. Empty lines are
/// passed over. A text with a line that holds no label holds none.
pub open spec fn labels_of(data: Seq<u8>) -> Option<Seq<(Seq<u8>, bool)>>
    decreases data.len(),
{
    if data.len() == 0 {
        Some(Seq::empty())
    } else {
        proof {
            lemma_first_at_bounds(data, 10u8);
        }
        let line = data.take(first_at(data, 10u8));
        if line.len() == 0 {
            labels_of(after_line(data))
        } else {
            match (label_of(line), labels_of(after_line(data))) {
                (Some(label), Some(labels)) => Some(seq![label] + labels),
                _ => None,
            }
        }
    }
}

/// The labels `found`, followed by those that `rest` holds.
pub open spec fn followed_by(found: Seq<(Seq<u8>, bool)>, rest: Option<Seq<(Seq<u8>, bool)>>) -> Option<
    Seq<(Seq<u8>, bool)>,
> {
    match rest {
        Some(labels) => Some(found + labels),
        None => None,
    }
}

/// The view of a list of labels.
pub open spec fn labels_view(labels: Seq<(Vec<u8>, bool)>) -> Seq<(Seq<u8>, bool)> {
    labels.map_values(|label: (Vec<u8>, bool)| (label.0@, label.1))
}

/// The first `byte` of `s` is where no byte before it is one.
pub proof fn lemma_first_at(s: Seq<u8>, byte: u8, at: int)
    requires
        0 <= at <= s.len(),
        forall|k: int| 0 <= k < at ==> s[k] != byte,
        at < s.len() ==> s[at] == byte,
    ensures
        first_at(s, byte) == at,
    decreases s.len(),
{
    if s.len() > 0 && at > 0 {
        assert(s[0] != byte);
        let rest = s.drop_first();
        assert forall|k: int| 0 <= k < at - 1 implies rest[k] != byte by {
            assert(rest[k] == s[k + 1]);
        }
        lemma_first_at(rest, byte, at - 1);
    }
}

/// The first `byte` is within the sequence or at its end.
pub proof fn lemma_first_at_bounds(s: Seq<u8>, byte: u8)
    ensures
        0 <= first_at(s, byte) <= s.len(),
    decreases s.len(),
{
    if s.len() > 0 && s[0] != byte {
        lemma_first_at_bounds(s.drop_first(), byte);
    }
}

/// The place of the first `byte` in `data` at or after `from`, or the end of
/// `data`.
pub fn find_byte(data: &[u8], from: usize, byte: u8) -> (at: usize)
    requires
        from <= data@.len(),
    ensures
        from <= at <= data@.len(),
        at - from == first_at(data@.skip(from as int), byte),
{
    let mut at = from;
    while at < data.len() && data[at] != byte
        invariant
            from <= at <= data@.len(),
            forall|k: int| from <= k < at ==> data@[k] != byte,
        decreases data@.len() - at,
    {
        at = at + 1;
    }
    proof {
        let tail = data@.skip(from as int);
        assert forall|k: int| 0 <= k < at - from implies tail[k] != byte by {
            assert(tail[k] == data@[k + from]);
        }
        lemma_first_at(tail, byte, at - from);
    }
    at
}

/// Reads the label of one line.
pub fn parse_label(line: &[u8]) -> (label: Option<(Vec<u8>, bool)>)
    ensures
        match label {
            Some(l) => label_of(line@) == Some((l.0@, l.1)),
            None => label_of(line@) is None,
        },
{
    let space = find_byte(line, 0, 32u8);
    assert(line@.skip(0) == line@);
    if space >= line.len() {
        return None;
    }
    let name_end = find_byte(line, space + 1, 32u8);
    let name = slice_to_vec(slice_subrange(line, space + 1, name_end));
    proof {
        let rest = line@.skip(space + 1);
        assert(name@ =~= rest.take(first_at(rest, 32u8)));
        if space == 1 {
            assert(line@.take(1)[0] == line@[0]);
            assert(line@.take(1) =~= seq![line@[0]]);
            assert(seq![48u8][0] == 48u8 && seq![49u8][0] == 49u8);
        } else {
            assert(line@.take(space as int).len() != 1);
            assert(seq![48u8].len() == 1 && seq![49u8].len() == 1);
        }
    }
    if space == 1 && line[0] == 48u8 {
        Some((name, true))
    } else if space == 1 && line[0] == 49u8 {
        Some((name, false))
    } else {
        None
    }
}

/// Reads the labels of the training set from the bytes of its label file:
/// each name with whether the file is spam, in the order of the lines. A
/// text with a line that holds no label yields nothing.
pub fn truth_values(data: &[u8]) -> (labels: Option<Vec<(Vec<u8>, bool)>>)
    ensures
        match labels {
            Some(found) => labels_of(data@) == Some(labels_view(found@)),
            None => labels_of(data@) is None,
        },
{
    let mut found: Vec<(Vec<u8>, bool)> = Vec::new();
    let mut pos: usize = 0;
    assert(data@.skip(0) == data@);
    assert(labels_view(found@) + labels_of(data@)->0 =~= labels_of(data@)->0);
    while pos < data.len()
        invariant
            pos <= data@.len(),
            labels_of(data@) == followed_by(
                labels_view(found@),
                labels_of(data@.skip(pos as int)),
            ),
        decreases data@.len() - pos,
    {
        let ghost tail = data@.skip(pos as int);
        let end = find_byte(data, pos, 10u8);
        let line = slice_subrange(data, pos, end);
        let next = if end < data.len() {
            end + 1
        } else {
            end
        };
        proof {
            assert(line@ =~= tail.take(first_at(tail, 10u8)));
            assert(data@.skip(next as int) =~= after_line(tail));
        }
        if end > pos {
            match parse_label(line) {
                Some(label) => {
                    let ghost before = labels_view(found@);
                    let ghost one = (label.0@, label.1);
                    found.push(label);
                    proof {
                        assert(labels_view(found@) =~= before.push(one));
                        match labels_of(after_line(tail)) {
                            Some(rest) => {
                                assert(before + (seq![one] + rest) =~= before.push(one) + rest);
                            },
                            None => {},
                        }
                    }
                },
                None => {
                    return None;
                },
            }
        }
        pos = next;
    }
    proof {
        assert(data@.skip(pos as int).len() == 0);
        assert(labels_view(found@) + Seq::<(Seq<u8>, bool)>::empty() =~= labels_view(found@));
    }
    Some(found)
}

} // verus!
