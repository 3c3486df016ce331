//! Annex B byte streams: NAL units separated by start codes.

use vstd::prelude::*;
use vstd::slice::slice_subrange;

use crate::bytes::{
    be_bytes, be_value, lemma_be32_round_trip, lemma_be_bytes_len, lemma_concat_assoc,
    lemma_u32_at, low_u32, put_bytes, put_u32, u32_at,
};

verus! {

/// Length of the start code at `at`: four bytes for `00 00 00 01`, three for
/// `00 00 01`, and zero where there is none.
pub open spec fn start_code_len(data: Seq<u8>, at: int) -> int {
    if 0 <= at && at + 4 <= data.len() && data[at] == 0 && data[at + 1] == 0 && data[at + 2] == 0
        && data[at + 3] == 1 {
        4
    } else if 0 <= at && at + 3 <= data.len() && data[at] == 0 && data[at + 1] == 0 && data[at + 2]
        == 1 {
        3
    } else {
        0
    }
}

/// Position of the first start code at or after `from`, or the length of
/// `data` where none follows.
pub open spec fn next_start_code(data: Seq<u8>, from: int) -> int
    decreases data.len() - from,
{
    if from >= data.len() {
        data.len() as int
    } else if start_code_len(data, from) > 0 {
        from
    } else {
        next_start_code(data, from + 1)
    }
}

/// The NAL units of `data` whose start codes stand at or after `from`, in
/// order: each reaches from the end of its start code to the next start code
/// or to the end of `data`.
pub open spec fn nal_units_from(data: Seq<u8>, from: int) -> Seq<Seq<u8>>
    decreases data.len() - from,
    via nal_units_from_decreases
{
    let code = next_start_code(data, from);
    if from < 0 || code >= data.len() {
        Seq::empty()
    } else {
        let start = code + start_code_len(data, code);
        let end = next_start_code(data, start);
        seq![data.subrange(start, end)] + nal_units_from(data, end)
    }
}

/// The NAL units of an Annex B byte stream, in order.
pub open spec fn nal_units(data: Seq<u8>) -> Seq<Seq<u8>> {
    nal_units_from(data, 0)
}

/// The NAL units that a sample carries: those of `data` that are not empty.
/// Where there is none, all of `data` counts as a single NAL unit.
pub open spec fn sample_nals(data: Seq<u8>) -> Seq<Seq<u8>> {
    let found = nal_units(data).filter(|nal: Seq<u8>| nal.len() > 0);
    if found.len() > 0 {
        found
    } else if data.len() > 0 {
        seq![data]
    } else {
        Seq::empty()
    }
}

/// A NAL unit behind its length in four bytes.
pub open spec fn prefixed(nal: Seq<u8>) -> Seq<u8> {
    be_bytes(nal.len(), 4) + nal
}

/// NAL units one after the other, each behind its length in four bytes.
pub open spec fn length_prefixed(nals: Seq<Seq<u8>>) -> Seq<u8>
    decreases nals.len(),
{
    if nals.len() == 0 {
        Seq::empty()
    } else {
        length_prefixed(nals.drop_last()) + prefixed(nals.last())
    }
}

/// Whether `data` holds a start code anywhere.
pub open spec fn has_start_code(data: Seq<u8>) -> bool {
    exists|at: int| #[trigger] start_code_len(data, at) > 0
}

#[via_fn]
proof fn nal_units_from_decreases(data: Seq<u8>, from: int) {
    let code = next_start_code(data, from);
    if !(from < 0 || code >= data.len()) {
        lemma_next_start_code(data, from);
        lemma_next_start_code(data, code + start_code_len(data, code));
    }
}

/// What [`next_start_code`] finds is the first start code from `from` on.
pub proof fn lemma_next_start_code(data: Seq<u8>, from: int)
    requires
        0 <= from,
    ensures
        from <= data.len() ==> from <= next_start_code(data, from) <= data.len(),
        from > data.len() ==> next_start_code(data, from) == data.len(),
        next_start_code(data, from) < data.len() ==> start_code_len(
            data,
            next_start_code(data, from),
        ) > 0 && next_start_code(data, from) + start_code_len(data, next_start_code(data, from))
            <= data.len(),
        forall|at: int|
            from <= at < next_start_code(data, from) ==> #[trigger] start_code_len(data, at) == 0,
    decreases data.len() - from,
{
    if from < data.len() && start_code_len(data, from) == 0 {
        lemma_next_start_code(data, from + 1);
    }
}

/// A stream with a start code has a NAL unit.
pub proof fn lemma_nal_units_nonempty(data: Seq<u8>)
    requires
        has_start_code(data),
    ensures
        nal_units(data).len() > 0,
{
    let at = choose|at: int| #[trigger] start_code_len(data, at) > 0;
    lemma_next_start_code(data, 0);
}

/// Find the first start code of `data` at or after `from`: its position and
/// its length.
pub fn find_start_code(data: &[u8], from: usize) -> (found: Option<(usize, usize)>)
    requires
        from <= data@.len(),
    ensures
        match found {
            Some((at, len)) => {
                &&& at == next_start_code(data@, from as int)
                &&& at < data@.len()
                &&& len == start_code_len(data@, at as int)
            },
            None => next_start_code(data@, from as int) == data@.len(),
        },
{
    let mut at: usize = from;
    while at < data.len()
        invariant
            from <= at <= data@.len(),
            next_start_code(data@, at as int) == next_start_code(data@, from as int),
        decreases data@.len() - at,
    {
        let left: usize = data.len() - at;
        if left >= 4 && data[at] == 0 && data[at + 1] == 0 && data[at + 2] == 0 && data[at + 3]
            == 1 {
            return Some((at, 4));
        }
        if left >= 3 && data[at] == 0 && data[at + 1] == 0 && data[at + 2] == 1 {
            return Some((at, 3));
        }
        at += 1;
    }
    None
}

/// Walks the NAL units of an Annex B byte stream.
pub struct AnnexBNalIter<'a> {
    data: &'a [u8],
    cursor: usize,
}

impl<'a> AnnexBNalIter<'a> {
    /// The cursor stays inside the stream.
    pub closed spec fn well_formed(self) -> bool {
        self.cursor <= self.data@.len()
    }

    /// The NAL units that are still to come.
    pub closed spec fn remaining(self) -> Seq<Seq<u8>> {
        nal_units_from(self.data@, self.cursor as int)
    }

    /// Start at the first NAL unit of `data`.
    pub fn new(data: &'a [u8]) -> (iter: Self)
        ensures
            iter.well_formed(),
            iter.remaining() == nal_units(data@),
    {
        AnnexBNalIter { data, cursor: 0 }
    }

    /// The next NAL unit, without its start code; `None` once all are read.
    pub fn next_nal(&mut self) -> (nal: Option<&'a [u8]>)
        requires
            old(self).well_formed(),
        ensures
            final(self).well_formed(),
            match nal {
                Some(unit) => old(self).remaining() == seq![unit@] + final(self).remaining(),
                None => old(self).remaining().len() == 0 && final(self).remaining().len() == 0,
            },
    {
        let total: usize = self.data.len();
        proof {
            lemma_next_start_code(self.data@, self.cursor as int);
        }
        match find_start_code(self.data, self.cursor) {
            Some((code, code_len)) => {
                let start: usize = code + code_len;
                proof {
                    lemma_next_start_code(self.data@, start as int);
                }
                let end: usize = match find_start_code(self.data, start) {
                    Some((next, _)) => next,
                    None => total,
                };
                self.cursor = end;
                Some(slice_subrange(self.data, start, end))
            },
            None => None,
        }
    }
}

/// Append `nal` to `out` behind its length in four bytes.
pub fn put_prefixed(out: &mut Vec<u8>, nal: &[u8])
    ensures
        final(out)@ == old(out)@ + prefixed(nal@),
{
    put_u32(out, low_u32(nal.len()));
    put_bytes(out, nal);
    proof {
        lemma_concat_assoc(old(out)@, be_bytes(nal@.len(), 4), nal@);
    }
}

/// One more NAL unit at the end of a list that is filtered.
pub proof fn lemma_filter_push(nals: Seq<Seq<u8>>, nal: Seq<u8>, keep: spec_fn(Seq<u8>) -> bool)
    ensures
        nals.push(nal).filter(keep) == if keep(nal) {
            nals.filter(keep).push(nal)
        } else {
            nals.filter(keep)
        },
{
    reveal(Seq::filter);
    assert(nals.push(nal).drop_last() =~= nals);
}

/// What is left of a filtered list was in the list and was to be kept.
pub proof fn lemma_filtered_from(nals: Seq<Seq<u8>>, keep: spec_fn(Seq<u8>) -> bool, i: int)
    requires
        0 <= i < nals.filter(keep).len(),
    ensures
        keep(nals.filter(keep)[i]),
        exists|k: int| 0 <= k < nals.len() && #[trigger] nals[k] == nals.filter(keep)[i],
    decreases nals.len(),
{
    reveal(Seq::filter);
    let shorter = nals.drop_last();
    if i < shorter.filter(keep).len() {
        lemma_filtered_from(shorter, keep, i);
        let k = choose|k: int|
            0 <= k < shorter.len() && #[trigger] shorter[k] == shorter.filter(keep)[i];
        assert(nals[k] == nals.filter(keep)[i]);
    } else {
        assert(nals[nals.len() - 1] == nals.filter(keep)[i]);
    }
}

/// One more NAL unit at the end of a length-prefixed list.
pub proof fn lemma_length_prefixed_push(nals: Seq<Seq<u8>>, nal: Seq<u8>)
    ensures
        length_prefixed(nals.push(nal)) == length_prefixed(nals) + prefixed(nal),
{
    assert(nals.push(nal).drop_last() =~= nals);
}

/// NAL units as an Annex B byte stream, each behind a start code of four
/// bytes.
pub open spec fn annexb(units: Seq<Seq<u8>>) -> Seq<u8>
    decreases units.len(),
{
    if units.len() == 0 {
        Seq::empty()
    } else {
        seq![0u8, 0, 0, 1] + units.first() + annexb(units.drop_first())
    }
}

/// Bytes in front of a stream move its start codes and change nothing else.
proof fn lemma_start_code_shift(front: Seq<u8>, data: Seq<u8>, from: int)
    requires
        0 <= from,
    ensures
        next_start_code(front + data, front.len() + from) == front.len() + next_start_code(
            data,
            from,
        ),
    decreases data.len() - from,
{
    if from < data.len() {
        assert(start_code_len(front + data, front.len() + from) == start_code_len(data, from));
        if start_code_len(data, from) == 0 {
            lemma_start_code_shift(front, data, from + 1);
        }
    }
}

/// Bytes in front of a stream do not change the NAL units behind them.
proof fn lemma_nal_units_shift(front: Seq<u8>, data: Seq<u8>, from: int)
    requires
        0 <= from <= data.len(),
    ensures
        nal_units_from(front + data, front.len() + from) == nal_units_from(data, from),
    decreases data.len() - from,
{
    let whole = front + data;
    let code = next_start_code(data, from);
    lemma_next_start_code(data, from);
    lemma_start_code_shift(front, data, from);
    if code < data.len() {
        let start = code + start_code_len(data, code);
        let end = next_start_code(data, start);
        lemma_next_start_code(data, start);
        lemma_start_code_shift(front, data, start);
        assert(start_code_len(whole, front.len() + code) == start_code_len(data, code));
        lemma_nal_units_shift(front, data, end);
        assert(whole.subrange(front.len() + start, front.len() + end) =~= data.subrange(
            start,
            end,
        ));
    }
}

/// Where no start code stands between `from` and `to` the search goes on
/// at `to`.
proof fn lemma_skip_to(data: Seq<u8>, from: int, to: int)
    requires
        0 <= from <= to <= data.len(),
        forall|at: int| from <= at < to ==> #[trigger] start_code_len(data, at) == 0,
    ensures
        next_start_code(data, from) == next_start_code(data, to),
    decreases to - from,
{
    if from < to {
        assert(start_code_len(data, from) == 0);
        lemma_skip_to(data, from + 1, to);
    }
}

/// NAL units that hold no start code come back unchanged from the byte stream
/// they are written into.
pub proof fn law_annexb_round_trip(units: Seq<Seq<u8>>)
    requires
        forall|i: int| 0 <= i < units.len() ==> !has_start_code(#[trigger] units[i]),
    ensures
        nal_units(annexb(units)) == units,
    decreases units.len(),
{
    let data = annexb(units);
    if units.len() == 0 {
        assert(nal_units(data) =~= units);
    } else {
        let unit = units.first();
        let rest = units.drop_first();
        let tail = annexb(rest);
        let front = seq![0u8, 0, 0, 1] + unit;
        let end = front.len() as int;
        assert(!has_start_code(units[0]));
        assert forall|i: int| 0 <= i < rest.len() implies !has_start_code(#[trigger] rest[i]) by {
            assert(rest[i] == units[i + 1]);
        }
        law_annexb_round_trip(rest);
        assert(data == front + tail);
        assert(start_code_len(data, 0) == 4);
        assert forall|at: int| 4 <= at < end implies #[trigger] start_code_len(data, at) == 0 by {
            assert(start_code_len(unit, at - 4) == 0);
            assert forall|k: int| end <= k < end + 3 && k < data.len() implies data[k] == 0 by {
                assert(data[k] == tail[k - end]);
            }
            assert(forall|k: int| 4 <= k < end ==> data[k] == unit[k - 4]);
        }
        lemma_skip_to(data, 4, end);
        lemma_start_code_shift(front, tail, 0);
        if rest.len() > 0 {
            assert(start_code_len(tail, 0) == 4);
        }
        assert(next_start_code(data, 4) == end);
        lemma_nal_units_shift(front, tail, 0);
        assert(data.subrange(4, end) =~= unit);
        assert(seq![unit] + rest =~= units);
    }
}

/// No NAL unit that is found holds a start code, and none is longer than the
/// stream.
pub proof fn law_units_hold_no_start_code(data: Seq<u8>, from: int)
    requires
        0 <= from <= data.len(),
    ensures
        forall|i: int|
            0 <= i < nal_units_from(data, from).len() ==> {
                &&& !has_start_code(#[trigger] nal_units_from(data, from)[i])
                &&& nal_units_from(data, from)[i].len() <= data.len()
            },
    decreases data.len() - from,
{
    let code = next_start_code(data, from);
    lemma_next_start_code(data, from);
    if code < data.len() {
        let start = code + start_code_len(data, code);
        let end = next_start_code(data, start);
        let unit = data.subrange(start, end);
        lemma_next_start_code(data, start);
        law_units_hold_no_start_code(data, end);
        assert forall|at: int| #[trigger] start_code_len(unit, at) == 0 by {
            if start_code_len(unit, at) > 0 {
                assert(start_code_len(data, start + at) > 0);
            }
        }
        assert(nal_units_from(data, from) =~= seq![unit] + nal_units_from(data, end));
    }
}

/// The NAL units of a sample, each of which stands behind its length in four
/// bytes. `None` where the last one is cut short.
pub open spec fn split_prefixed(sample: Seq<u8>) -> Option<Seq<Seq<u8>>>
    decreases sample.len(),
{
    if sample.len() == 0 {
        Some(Seq::empty())
    } else {
        let end = 4 + be_value(sample.take(4));
        if sample.len() < 4 || sample.len() < end {
            None
        } else {
            match split_prefixed(sample.skip(end as int)) {
                Some(rest) => Some(seq![sample.subrange(4, end as int)] + rest),
                None => None,
            }
        }
    }
}

/// The first NAL unit stands first in a length-prefixed list.
proof fn lemma_length_prefixed_first(nals: Seq<Seq<u8>>)
    requires
        nals.len() > 0,
    ensures
        length_prefixed(nals) == prefixed(nals.first()) + length_prefixed(nals.drop_first()),
    decreases nals.len(),
{
    if nals.len() == 1 {
        assert(length_prefixed(nals.drop_last()) =~= Seq::<u8>::empty());
        assert(length_prefixed(nals.drop_first()) =~= Seq::<u8>::empty());
        assert(length_prefixed(nals) =~= prefixed(nals.first()) + length_prefixed(
            nals.drop_first(),
        ));
    } else {
        lemma_length_prefixed_first(nals.drop_last());
        assert(nals.drop_last().drop_first() =~= nals.drop_first().drop_last());
        lemma_concat_assoc(
            prefixed(nals.first()),
            length_prefixed(nals.drop_first().drop_last()),
            prefixed(nals.last()),
        );
    }
}

/// NAL units can be read back from the sample they are written into, as long
/// as their lengths fit into four bytes.
pub proof fn law_length_prefix_round_trip(nals: Seq<Seq<u8>>)
    requires
        forall|i: int| 0 <= i < nals.len() ==> (#[trigger] nals[i]).len() < 0x1_0000_0000,
    ensures
        split_prefixed(length_prefixed(nals)) == Some(nals),
    decreases nals.len(),
{
    if nals.len() == 0 {
        assert(nals =~= Seq::<Seq<u8>>::empty());
    } else {
        let nal = nals.first();
        let rest = nals.drop_first();
        let sample = length_prefixed(nals);
        let end = 4 + nal.len() as int;
        assert(nals[0].len() < 0x1_0000_0000);
        assert forall|i: int| 0 <= i < rest.len() implies (#[trigger] rest[i]).len()
            < 0x1_0000_0000 by {
            assert(rest[i] == nals[i + 1]);
        }
        law_length_prefix_round_trip(rest);
        lemma_length_prefixed_first(nals);
        lemma_be_bytes_len(nal.len(), 4);
        lemma_be32_round_trip(nal.len());
        assert(sample.take(4) =~= be_bytes(nal.len(), 4));
        assert(sample.subrange(4, end) =~= nal);
        assert(sample.skip(end) =~= length_prefixed(rest));
        assert(seq![nal] + rest =~= nals);
    }
}

/// The NAL units of a sample are no longer than the frame they come from.
pub proof fn lemma_sample_nals_len(data: Seq<u8>)
    ensures
        forall|i: int|
            0 <= i < sample_nals(data).len() ==> (#[trigger] sample_nals(data)[i]).len()
                <= data.len(),
{
    let present = |nal: Seq<u8>| nal.len() > 0;
    let units = nal_units(data);
    law_units_hold_no_start_code(data, 0);
    assert forall|i: int| 0 <= i < units.filter(present).len() implies (#[trigger] units.filter(
        present,
    )[i]).len() <= data.len() by {
        lemma_filtered_from(units, present, i);
    }
}

/// A list of NAL units none of which is empty loses none of them.
proof fn lemma_all_present(units: Seq<Seq<u8>>)
    requires
        forall|i: int| 0 <= i < units.len() ==> (#[trigger] units[i]).len() > 0,
    ensures
        units.filter(|nal: Seq<u8>| nal.len() > 0) == units,
    decreases units.len(),
{
    reveal(Seq::filter);
    if units.len() > 0 {
        lemma_all_present(units.drop_last());
        assert(units[units.len() - 1].len() > 0);
        assert(units.drop_last().push(units.last()) =~= units);
    }
}

/// A frame that is written from NAL units has those NAL units as its sample.
pub proof fn law_sample_nals_of_annexb(units: Seq<Seq<u8>>)
    requires
        units.len() > 0,
        forall|i: int|
            0 <= i < units.len() ==> (#[trigger] units[i]).len() > 0 && !has_start_code(units[i]),
    ensures
        sample_nals(annexb(units)) == units,
{
    law_annexb_round_trip(units);
    lemma_all_present(units);
}

/// Whether the bytes 00 00 01 stand anywhere in `data`.
pub open spec fn holds_001(data: Seq<u8>) -> bool {
    exists|at: int|
        0 <= at && at + 3 <= data.len() && #[trigger] data[at] == 0 && data[at + 1] == 0 && data[at
            + 2] == 1
}

/// Data holds a start code where the bytes 00 00 01 stand in it.
pub proof fn law_start_code_is_001(data: Seq<u8>)
    ensures
        has_start_code(data) <==> holds_001(data),
{
    if has_start_code(data) {
        let at = choose|at: int| #[trigger] start_code_len(data, at) > 0;
        if start_code_len(data, at) == 4 {
            assert(data[at + 1] == 0);
        } else {
            assert(data[at] == 0);
        }
    }
    if holds_001(data) {
        let at = choose|at: int|
            0 <= at && at + 3 <= data.len() && #[trigger] data[at] == 0 && data[at + 1] == 0
                && data[at + 2] == 1;
        assert(start_code_len(data, at) > 0);
    }
}

/// A byte stream of NAL units, each behind a start code: 00 00 00 01 where
/// its flag is set, else 00 00 01.
pub open spec fn stream(pieces: Seq<(bool, Seq<u8>)>) -> Seq<u8>
    decreases pieces.len(),
{
    if pieces.len() == 0 {
        Seq::empty()
    } else {
        let (long, unit) = pieces.first();
        (if long {
            seq![0u8, 0, 0, 1]
        } else {
            seq![0u8, 0, 1]
        }) + unit + stream(pieces.drop_first())
    }
}

/// The NAL units of the pieces of a stream.
pub open spec fn units_of(pieces: Seq<(bool, Seq<u8>)>) -> Seq<Seq<u8>> {
    Seq::new(pieces.len(), |i: int| pieces[i].1)
}

/// Whether a short start code may follow `before`: behind a zero it would be
/// read as a long one.
pub open spec fn ends_clear(before: Seq<u8>) -> bool {
    before.len() == 0 || before.last() != 0
}

/// Whether no unit holds 00 00 01 and no short start code follows a zero.
pub open spec fn separable(front: Seq<u8>, pieces: Seq<(bool, Seq<u8>)>) -> bool {
    &&& !holds_001(front)
    &&& forall|i: int| 0 <= i < pieces.len() ==> !holds_001((#[trigger] pieces[i]).1)
    &&& pieces.len() > 0 && !pieces[0].0 ==> ends_clear(front)
    &&& forall|i: int|
        0 < i < pieces.len() && !(#[trigger] pieces[i]).0 ==> ends_clear(pieces[i - 1].1)
}

/// The first start code of a stream is the one that its first piece starts
/// with.
proof fn lemma_front_has_no_code(front: Seq<u8>, pieces: Seq<(bool, Seq<u8>)>)
    requires
        separable(front, pieces),
    ensures
        next_start_code(front + stream(pieces), 0) == front.len(),
{
    let rest = stream(pieces);
    let data = front + rest;
    let end = front.len() as int;
    assert forall|at: int| 0 <= at < end implies #[trigger] start_code_len(data, at) == 0 by {
        if start_code_len(data, at) == 4 {
            if at + 3 < end {
                assert(front[at + 1] == 0 && front[at + 2] == 0 && front[at + 3] == 1);
            } else {
                assert(data[at + 3] == rest[at + 3 - end]);
                assert(front[at] == data[at]);
            }
        } else if start_code_len(data, at) == 3 {
            if at + 2 < end {
                assert(front[at] == 0 && front[at + 1] == 0 && front[at + 2] == 1);
            } else {
                assert(data[at + 2] == rest[at + 2 - end]);
            }
        }
    }
    lemma_skip_to(data, 0, end);
    if pieces.len() > 0 {
        assert(start_code_len(data, end) > 0) by {
            assert(data[end] == rest[0] && data[end + 1] == rest[1] && data[end + 2] == rest[2]);
            if pieces[0].0 {
                assert(data[end + 3] == rest[3]);
            }
        }
    }
}

/// The NAL units of a stream are those it was put together from: start codes
/// of both lengths separate them, zeros before a long one stay, and what
/// precedes the first start code belongs to none.
pub proof fn law_stream_splits(front: Seq<u8>, pieces: Seq<(bool, Seq<u8>)>)
    requires
        separable(front, pieces),
    ensures
        nal_units(front + stream(pieces)) == units_of(pieces),
    decreases pieces.len(),
{
    let data = front + stream(pieces);
    lemma_front_has_no_code(front, pieces);
    if pieces.len() == 0 {
        assert(nal_units(data) =~= units_of(pieces));
    } else {
        let (long, unit) = pieces.first();
        let rest = pieces.drop_first();
        let code = if long {
            seq![0u8, 0, 0, 1]
        } else {
            seq![0u8, 0, 1]
        };
        let before = front + code;
        let start = before.len() as int;
        let end = start + unit.len();
        let tail = unit + stream(rest);
        assert(data =~= before + tail);
        assert(start_code_len(data, front.len() as int) == code.len()) by {
            let at = front.len() as int;
            assert(data[at] == code[0] && data[at + 1] == code[1] && data[at + 2] == code[2]);
            if long {
                assert(data[at + 3] == code[3]);
            }
        }
        assert(!holds_001(pieces[0].1));
        assert forall|i: int| 0 <= i < rest.len() implies !holds_001((#[trigger] rest[i]).1) by {
            assert(rest[i] == pieces[i + 1]);
        }
        assert forall|i: int| 0 < i < rest.len() && !(#[trigger] rest[i]).0 implies ends_clear(
            rest[i - 1].1,
        ) by {
            assert(rest[i] == pieces[i + 1]);
        }
        if rest.len() > 0 {
            assert(rest[0] == pieces[1]);
        }
        assert(separable(unit, rest));
        assert(!holds_001(Seq::<u8>::empty()));
        lemma_front_has_no_code(unit, rest);
        lemma_start_code_shift(before, tail, 0);
        assert(next_start_code(data, start) == end);
        assert(data =~= (before + unit) + stream(rest));
        lemma_nal_units_shift(before + unit, stream(rest), 0);
        law_stream_splits(Seq::empty(), rest);
        assert(Seq::<u8>::empty() + stream(rest) =~= stream(rest));
        assert(data.subrange(start, end) =~= unit);
        assert(seq![unit] + units_of(rest) =~= units_of(pieces));
    }
}

/// A sample takes the NAL units of its stream that are not empty, in order.
pub proof fn law_sample_takes_units_with_bytes(front: Seq<u8>, pieces: Seq<(bool, Seq<u8>)>)
    requires
        separable(front, pieces),
        exists|i: int| 0 <= i < pieces.len() && (#[trigger] pieces[i]).1.len() > 0,
    ensures
        sample_nals(front + stream(pieces)) == units_of(pieces).filter(
            |nal: Seq<u8>| nal.len() > 0,
        ),
{
    law_stream_splits(front, pieces);
    let units = units_of(pieces);
    let present = |nal: Seq<u8>| nal.len() > 0;
    let i = choose|i: int| 0 <= i < pieces.len() && (#[trigger] pieces[i]).1.len() > 0;
    assert(units[i] == pieces[i].1);
    lemma_kept_remains(units, present, i);
}

/// Data without a NAL unit that has bytes is a NAL unit itself, unless it is
/// empty.
pub proof fn law_sample_of_bare_data(front: Seq<u8>, pieces: Seq<(bool, Seq<u8>)>)
    requires
        separable(front, pieces),
        forall|i: int| 0 <= i < pieces.len() ==> (#[trigger] pieces[i]).1.len() == 0,
    ensures
        ({
            let data = front + stream(pieces);
            sample_nals(data) == if data.len() > 0 {
                seq![data]
            } else {
                Seq::empty()
            }
        }),
{
    law_stream_splits(front, pieces);
    let units = units_of(pieces);
    let present = |nal: Seq<u8>| nal.len() > 0;
    if units.filter(present).len() > 0 {
        lemma_filtered_from(units, present, 0);
        let k = choose|k: int|
            0 <= k < units.len() && #[trigger] units[k] == units.filter(present)[0];
        assert(pieces[k].1.len() == 0);
    }
}

/// What is to be kept is still there in the filtered list.
proof fn lemma_kept_remains(nals: Seq<Seq<u8>>, keep: spec_fn(Seq<u8>) -> bool, i: int)
    requires
        0 <= i < nals.len(),
        keep(nals[i]),
    ensures
        nals.filter(keep).len() > 0,
    decreases nals.len(),
{
    reveal(Seq::filter);
    if i < nals.len() - 1 {
        lemma_kept_remains(nals.drop_last(), keep, i);
    }
}

/// Two filters that agree on a list keep the same of it.
pub proof fn lemma_filters_agree(
    nals: Seq<Seq<u8>>,
    keep: spec_fn(Seq<u8>) -> bool,
    other: spec_fn(Seq<u8>) -> bool,
)
    requires
        forall|i: int| 0 <= i < nals.len() ==> keep(#[trigger] nals[i]) == other(nals[i]),
    ensures
        nals.filter(keep) == nals.filter(other),
    decreases nals.len(),
{
    reveal(Seq::filter);
    if nals.len() > 0 {
        let shorter = nals.drop_last();
        assert forall|i: int| 0 <= i < shorter.len() implies keep(#[trigger] shorter[i]) == other(
            shorter[i],
        ) by {
            assert(shorter[i] == nals[i]);
        }
        lemma_filters_agree(shorter, keep, other);
        assert(keep(nals[nals.len() - 1]) == other(nals[nals.len() - 1]));
    }
}

/// No NAL unit of a sample is empty.
pub proof fn lemma_sample_nals_have_bytes(data: Seq<u8>)
    ensures
        forall|i: int|
            0 <= i < sample_nals(data).len() ==> (#[trigger] sample_nals(data)[i]).len() > 0,
{
    let present = |nal: Seq<u8>| nal.len() > 0;
    let units = nal_units(data);
    assert forall|i: int| 0 <= i < units.filter(present).len() implies (#[trigger] units.filter(
        present,
    )[i]).len() > 0 by {
        lemma_filtered_from(units, present, i);
    }
}

/// A length-prefixed list starts with the length of its first NAL unit in
/// four bytes, most significant first, then comes that unit, then the list of
/// the others. The list of none is empty.
pub proof fn law_lengths_precede_units(nals: Seq<Seq<u8>>)
    ensures
        nals.len() == 0 ==> length_prefixed(nals).len() == 0,
        nals.len() > 0 ==> {
            let list = length_prefixed(nals);
            let end = 4 + nals[0].len() as int;
            &&& end <= list.len()
            &&& u32_at(list, 0) == nals[0].len() % 0x1_0000_0000
            &&& list.subrange(4, end) == nals[0]
            &&& list.skip(end) == length_prefixed(nals.drop_first())
        },
{
    if nals.len() > 0 {
        let list = length_prefixed(nals);
        let end = 4 + nals[0].len() as int;
        lemma_length_prefixed_first(nals);
        lemma_be_bytes_len(nals[0].len(), 4);
        assert(list.subrange(0, 4) =~= be_bytes(nals[0].len(), 4));
        lemma_u32_at(list, 0, nals[0].len());
        assert(list.subrange(4, end) =~= nals[0]);
        assert(list.skip(end) =~= length_prefixed(nals.drop_first()));
    }
}

} // verus!
