//! H.264/AVC samples.
//!
//! Encoders deliver H.264 in Annex B format. Inside MP4 each NAL unit stands
//! behind its length in four bytes instead of a start code (AVCC format).

use vstd::prelude::*;

use crate::bytes::lemma_concat_assoc;
use crate::codec::common::{
    annexb, has_start_code, law_length_prefix_round_trip, law_sample_nals_of_annexb,
    lemma_filter_push, lemma_length_prefixed_push, lemma_sample_nals_len, length_prefixed,
    nal_units, prefixed, put_prefixed, sample_nals, split_prefixed, AnnexBNalIter,
};

verus! {

/// The AVCC sample that holds the Annex B frame `data`.
pub open spec fn avcc_sample(data: Seq<u8>) -> Seq<u8> {
    length_prefixed(sample_nals(data))
}

/// Append the AVCC-converted bytes of the Annex B frame `data` onto `out`.
pub fn annexb_to_avcc_into(data: &[u8], out: &mut Vec<u8>)
    ensures
        final(out)@ == old(out)@ + avcc_sample(data@),
{
    let ghost before = out@;
    let ghost keep = |nal: Seq<u8>| nal.len() > 0;
    let ghost mut seen: Seq<Seq<u8>> = Seq::empty();
    let mut iter = AnnexBNalIter::new(data);
    let mut found = false;
    proof {
        reveal(Seq::filter);
        assert(seen + iter.remaining() =~= nal_units(data@));
        assert(out@ =~= before + length_prefixed(seen.filter(keep)));
    }
    loop
        invariant
            iter.well_formed(),
            keep == (|nal: Seq<u8>| nal.len() > 0),
            nal_units(data@) == seen + iter.remaining(),
            out@ == before + length_prefixed(seen.filter(keep)),
            found == (seen.filter(keep).len() > 0),
        ensures
            iter.remaining().len() == 0,
        decreases iter.remaining().len(),
    {
        let ghost rest = iter.remaining();
        match iter.next_nal() {
            Some(nal) => {
                proof {
                    lemma_filter_push(seen, nal@, keep);
                    assert(seen + rest =~= seen.push(nal@) + iter.remaining());
                }
                if nal.len() > 0 {
                    found = true;
                    put_prefixed(out, nal);
                    proof {
                        lemma_length_prefixed_push(seen.filter(keep), nal@);
                        lemma_concat_assoc(
                            before,
                            length_prefixed(seen.filter(keep)),
                            prefixed(nal@),
                        );
                    }
                }
                proof {
                    seen = seen.push(nal@);
                }
            },
            None => {
                assert(seen + rest =~= seen + iter.remaining());
                break;
            },
        }
    }
    assert(seen =~= nal_units(data@));
    if !found {
        assert(out@ =~= before);
        if data.len() > 0 {
            put_prefixed(out, data);
            proof {
                lemma_length_prefixed_push(Seq::empty(), data@);
                assert(Seq::<Seq<u8>>::empty().push(data@) =~= seq![data@]);
                assert(length_prefixed(seq![data@]) =~= prefixed(data@));
            }
        }
    }
}

/// Conversion replaces start codes by lengths: the sample of a frame that is
/// written from NAL units holds those NAL units behind their lengths.
pub proof fn law_start_codes_become_lengths(units: Seq<Seq<u8>>)
    requires
        units.len() > 0,
        forall|i: int|
            0 <= i < units.len() ==> (#[trigger] units[i]).len() > 0 && !has_start_code(units[i]),
    ensures
        avcc_sample(annexb(units)) == length_prefixed(units),
{
    law_sample_nals_of_annexb(units);
}

/// The NAL units of a frame can be read back from its sample, as long as the
/// length of the frame fits into four bytes.
pub proof fn law_avcc_sample_reads_back(data: Seq<u8>)
    requires
        data.len() < 0x1_0000_0000,
    ensures
        split_prefixed(avcc_sample(data)) == Some(sample_nals(data)),
{
    lemma_sample_nals_len(data);
    law_length_prefix_round_trip(sample_nals(data));
}

} // verus!
