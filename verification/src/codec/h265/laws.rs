//! What the H.265 readers and the sample conversion give, in the numbers of
//! the byte stream.

use vstd::arithmetic::power2::pow2;
use vstd::prelude::*;

use crate::bytes::{be_value, law_reversed_bits, reversed_bits};
use crate::codec::common::{
    lemma_filters_agree, lemma_sample_nals_have_bytes, length_prefixed, nal_units, sample_nals,
    split_prefixed,
};
use crate::codec::h265::{
    declared_ptl, dotted_hex, first_of_kind, hvcc_sample, is_config_of, is_emulation_byte, is_irap,
    is_keyframe, is_parameter_set, law_constraints_end_at_last_set, law_first_of_kind,
    law_samples_hold_no_parameter_sets, nal_kind, nal_type, rbsp, unescaped,
    without_trailing_zeros, HevcConfig, ProfileTierLevel,
};
use crate::text::{decimal, upper_hex};

verus! {

/// The type in the header of a NAL unit that is not empty: bits 1-6 of its
/// first byte.
pub open spec fn type_bits(nal: Seq<u8>) -> int {
    nal[0] as int / 2 % 64
}

/// Whether `nal` is a NAL unit of type `number`.
pub open spec fn of_type(nal: Seq<u8>, number: int) -> bool {
    nal.len() > 0 && type_bits(nal) == number
}

/// The numbers of the NAL unit types.
pub proof fn law_nal_type_numbers()
    ensures
        nal_type::BLA_W_LP == 16,
        nal_type::BLA_W_RADL == 17,
        nal_type::BLA_N_LP == 18,
        nal_type::IDR_W_RADL == 19,
        nal_type::IDR_N_LP == 20,
        nal_type::CRA_NUT == 21,
        nal_type::VPS == 32,
        nal_type::SPS == 33,
        nal_type::PPS == 34,
        nal_type::AUD == 35,
        nal_type::EOS == 36,
        nal_type::EOB == 37,
        nal_type::FD == 38,
        nal_type::PREFIX_SEI == 39,
        nal_type::SUFFIX_SEI == 40,
{
}

/// The type of a NAL unit stands in bits 1-6 of its first byte, whatever the
/// other two bits are; an empty one has type 0.
pub proof fn law_type_is_bits_1_to_6(nal: Seq<u8>)
    ensures
        nal.len() == 0 ==> nal_kind(nal) == 0,
        nal.len() > 0 ==> nal_kind(nal) == type_bits(nal),
{
}

/// The random access types are those from 16 to 21.
pub proof fn law_random_access_types(kind: u8)
    ensures
        is_irap(kind) <==> 16 <= kind <= 21,
{
}

/// A frame is a keyframe where one of its NAL units, whichever, has a type
/// from 16 to 21.
pub proof fn law_keyframe_has_random_access_unit(data: Seq<u8>)
    ensures
        is_keyframe(data) <==> exists|i: int|
            0 <= i < nal_units(data).len() && nal_units(data)[i].len() > 0 && 16 <= type_bits(
                #[trigger] nal_units(data)[i],
            ) <= 21,
{
    let units = nal_units(data);
    if is_keyframe(data) {
        let i = choose|i: int|
            0 <= i < units.len() && units[i].len() > 0 && is_irap(nal_kind(#[trigger] units[i]));
        assert(16 <= type_bits(units[i]) <= 21);
    }
    if exists|i: int|
        0 <= i < units.len() && units[i].len() > 0 && 16 <= type_bits(#[trigger] units[i]) <= 21 {
        let i = choose|i: int|
            0 <= i < units.len() && units[i].len() > 0 && 16 <= type_bits(#[trigger] units[i])
                <= 21;
        assert(is_irap(nal_kind(units[i])));
    }
}

/// Whether `set` is the first NAL unit of type `number` in `nals`.
pub open spec fn is_first(nals: Seq<Seq<u8>>, set: Seq<u8>, number: int) -> bool {
    exists|i: int|
        {
            &&& 0 <= i < nals.len()
            &&& #[trigger] nals[i] == set
            &&& of_type(set, number)
            &&& forall|k: int| 0 <= k < i ==> !of_type(#[trigger] nals[k], number)
        }
}

/// Whether no NAL unit of `nals` has type `number`.
pub open spec fn none_of_type(nals: Seq<Seq<u8>>, number: int) -> bool {
    forall|k: int| 0 <= k < nals.len() ==> !of_type(#[trigger] nals[k], number)
}

/// The search for a type finds the first NAL unit that has it.
proof fn lemma_first_of_kind_is_first(nals: Seq<Seq<u8>>, kind: u8)
    ensures
        match first_of_kind(nals, kind) {
            Some(nal) => is_first(nals, nal, kind as int),
            None => none_of_type(nals, kind as int),
        },
{
    law_first_of_kind(nals, kind);
    match first_of_kind(nals, kind) {
        Some(nal) => {
            let i = choose|i: int|
                {
                    &&& 0 <= i < nals.len()
                    &&& #[trigger] nals[i] == nal
                    &&& forall|k: int|
                        0 <= k < i ==> !((#[trigger] nals[k]).len() > 0 && nal_kind(nals[k])
                            == kind)
                };
            assert forall|k: int| 0 <= k < i implies !of_type(#[trigger] nals[k], kind as int) by {
                assert(!(nals[k].len() > 0 && nal_kind(nals[k]) == kind));
            }
            assert(nals[i] == nal);
        },
        None => {
            assert forall|k: int| 0 <= k < nals.len() implies !of_type(
                #[trigger] nals[k],
                kind as int,
            ) by {
                assert(!(nals[k].len() > 0 && nal_kind(nals[k]) == kind));
            }
        },
    }
}

/// A configuration holds the first NAL units of types 32, 33 and 34; there is
/// none where one of these types is missing, and only there.
pub proof fn law_config_holds_first_sets(data: Seq<u8>, config: Option<HevcConfig>)
    requires
        is_config_of(data, config),
    ensures
        ({
            let units = nal_units(data);
            &&& config is None <==> none_of_type(units, 32) || none_of_type(units, 33)
                || none_of_type(units, 34)
            &&& config matches Some(found) ==> {
                &&& is_first(units, found.vps@, 32)
                &&& is_first(units, found.sps@, 33)
                &&& is_first(units, found.pps@, 34)
            }
        }),
{
    let units = nal_units(data);
    lemma_first_of_kind_is_first(units, nal_type::VPS);
    lemma_first_of_kind_is_first(units, nal_type::SPS);
    lemma_first_of_kind_is_first(units, nal_type::PPS);
}

/// What a filter keeps of what another has kept.
proof fn lemma_filter_of_filter(
    nals: Seq<Seq<u8>>,
    keep: spec_fn(Seq<u8>) -> bool,
    narrow: spec_fn(Seq<u8>) -> bool,
)
    requires
        forall|i: int| 0 <= i < nals.len() && narrow(#[trigger] nals[i]) ==> keep(nals[i]),
    ensures
        nals.filter(keep).filter(narrow) == nals.filter(narrow),
    decreases nals.len(),
{
    reveal(Seq::filter);
    if nals.len() > 0 {
        let shorter = nals.drop_last();
        let last = nals.last();
        assert forall|i: int| 0 <= i < shorter.len() && narrow(#[trigger] shorter[i]) implies keep(
            shorter[i],
        ) by {
            assert(shorter[i] == nals[i]);
        }
        lemma_filter_of_filter(shorter, keep, narrow);
        assert(narrow(nals[nals.len() - 1]) ==> keep(nals[nals.len() - 1]));
        if keep(last) {
            assert(nals.filter(keep).drop_last() =~= shorter.filter(keep));
        }
    }
}

/// Of the NAL units of a frame its sample leaves out those of types 32, 33
/// and 34 and no other; all the others follow in their order, each behind its
/// length.
pub proof fn law_sample_leaves_out_types_32_to_34(data: Seq<u8>)
    ensures
        hvcc_sample(data) == length_prefixed(
            sample_nals(data).filter(|nal: Seq<u8>| !(32 <= type_bits(nal) <= 34)),
        ),
{
    let nals = sample_nals(data);
    lemma_sample_nals_have_bytes(data);
    lemma_filters_agree(
        nals,
        |nal: Seq<u8>| !is_parameter_set(nal),
        |nal: Seq<u8>| !(32 <= type_bits(nal) <= 34),
    );
}

/// Every coded slice of a frame, that is every NAL unit with a type below 32,
/// comes back from the sample, in order.
pub proof fn law_slices_come_back(data: Seq<u8>)
    requires
        data.len() < 0x1_0000_0000,
    ensures
        split_prefixed(hvcc_sample(data)) matches Some(found) && found.filter(
            |nal: Seq<u8>| type_bits(nal) < 32,
        ) == sample_nals(data).filter(|nal: Seq<u8>| type_bits(nal) < 32),
{
    let nals = sample_nals(data);
    law_samples_hold_no_parameter_sets(data);
    lemma_sample_nals_have_bytes(data);
    lemma_filter_of_filter(
        nals,
        |nal: Seq<u8>| !is_parameter_set(nal),
        |nal: Seq<u8>| type_bits(nal) < 32,
    );
}

/// An RBSP as a NAL unit carries it: a 0x03 is put in wherever a byte of at
/// most 3 would follow two zero bytes.
pub open spec fn escaped(payload: Seq<u8>) -> Seq<u8>
    decreases payload.len(),
{
    if payload.len() == 0 {
        Seq::empty()
    } else {
        let before = escaped(payload.drop_last());
        let n = before.len();
        if n >= 2 && before[n - 1] == 0 && before[n - 2] == 0 && payload.last() <= 3 {
            before.push(3).push(payload.last())
        } else {
            before.push(payload.last())
        }
    }
}

/// Reading inverts escaping.
pub proof fn law_unescaping_inverts_escaping(payload: Seq<u8>)
    ensures
        unescaped(escaped(payload)) == payload,
    decreases payload.len(),
{
    if payload.len() == 0 {
        assert(unescaped(escaped(payload)) =~= payload);
    } else {
        let shorter = payload.drop_last();
        let last = payload.last();
        let before = escaped(shorter);
        let n = before.len();
        law_unescaping_inverts_escaping(shorter);
        assert(shorter.push(last) =~= payload);
        if n >= 2 && before[n - 1] == 0 && before[n - 2] == 0 && last <= 3 {
            let marked = before.push(3);
            assert(marked.drop_last() =~= before);
            assert(is_emulation_byte(marked, n as int));
            assert(unescaped(marked) == shorter);
            assert(marked.push(last).drop_last() =~= marked);
            assert(!is_emulation_byte(marked.push(last), n as int + 1));
        } else {
            assert(before.push(last).drop_last() =~= before);
            assert(!is_emulation_byte(before.push(last), n as int));
        }
    }
}

/// A 0x03 behind two zero bytes is dropped wherever it stands and whatever
/// follows, and what follows is read as if it stood at the start.
pub proof fn law_03_behind_zeros_is_dropped(front: Seq<u8>, back: Seq<u8>)
    ensures
        unescaped(front + seq![0u8, 0, 3] + back) == unescaped(front + seq![0u8, 0]) + unescaped(
            back,
        ),
    decreases back.len(),
{
    let marked = front + seq![0u8, 0, 3];
    let whole = marked + back;
    if back.len() == 0 {
        assert(whole =~= marked);
        assert(marked.drop_last() =~= front + seq![0u8, 0]);
        assert(is_emulation_byte(marked, marked.len() - 1));
        assert(unescaped(front + seq![0u8, 0]) + unescaped(back) =~= unescaped(
            front + seq![0u8, 0],
        ));
    } else {
        law_03_behind_zeros_is_dropped(front, back.drop_last());
        assert(whole.drop_last() =~= marked + back.drop_last());
        let n = back.len() as int;
        let m = marked.len() as int;
        assert(whole.last() == back.last());
        assert(whole[m - 1] == 3);
        assert(n >= 2 ==> whole[m + n - 2] == back[n - 2]);
        assert(n >= 3 ==> whole[m + n - 3] == back[n - 3]);
        assert(is_emulation_byte(whole, m + n - 1) == is_emulation_byte(back, n - 1));
        let kept = unescaped(front + seq![0u8, 0]);
        assert(kept + unescaped(back.drop_last()).push(back.last()) =~= (kept + unescaped(
            back.drop_last(),
        )).push(back.last()));
    }
}

/// Byte `i` of `bytes`, and `missing` past the end.
pub open spec fn or_else(bytes: Seq<u8>, i: int, missing: u8) -> u8 {
    if 0 <= i < bytes.len() {
        bytes[i]
    } else {
        missing
    }
}

/// Where an SPS of two header bytes and the RBSP `r` has its fields: space,
/// tier and profile in byte 1 of the RBSP, compatibility flags in bytes 2-5,
/// constraint flags in bytes 6-11, the level in byte 12. A missing byte 1
/// counts as profile 1, a missing level as 93, other missing bytes as zero.
pub open spec fn has_fields(ptl: ProfileTierLevel, r: Seq<u8>) -> bool {
    let first = or_else(r, 1, 1) as int;
    &&& first == ptl.profile_space * 64 + (if ptl.tier_flag {
        32int
    } else {
        0
    }) + ptl.profile_idc
    &&& ptl.profile_space < 4
    &&& ptl.profile_idc < 32
    &&& forall|i: int| 0 <= i < 4 ==> #[trigger] ptl.compatibility_flags@[i] == or_else(r, 2 + i, 0)
    &&& forall|i: int| 0 <= i < 6 ==> #[trigger] ptl.constraint_flags@[i] == or_else(r, 6 + i, 0)
    &&& ptl.level_idc == or_else(r, 12, 93)
}

/// The fields of an SPS are those of its payload without emulation
/// prevention.
proof fn lemma_fields_of_rbsp(header: Seq<u8>, payload: Seq<u8>)
    requires
        header.len() == 2,
    ensures
        has_fields(declared_ptl(header + payload), unescaped(payload)),
{
    let sps = header + payload;
    let r = unescaped(payload);
    assert(sps.take(2) =~= header);
    assert(sps.skip(2) =~= payload);
    assert(rbsp(sps) =~= header + r);
    let ptl = declared_ptl(sps);
    assert forall|i: int| 0 <= i < 4 implies #[trigger] ptl.compatibility_flags@[i] == or_else(
        r,
        2 + i,
        0,
    ) by {
        if 2 + i < r.len() {
            assert(rbsp(sps)[4 + i] == r[2 + i]);
        }
    }
    assert forall|i: int| 0 <= i < 6 implies #[trigger] ptl.constraint_flags@[i] == or_else(
        r,
        6 + i,
        0,
    ) by {
        if 6 + i < r.len() {
            assert(rbsp(sps)[8 + i] == r[6 + i]);
        }
    }
}

/// The fields of an SPS read back as they stood in the RBSP, whatever had to
/// be escaped to carry it and wherever it stood.
pub proof fn law_sps_fields_read_back(header: Seq<u8>, r: Seq<u8>)
    requires
        header.len() == 2,
    ensures
        has_fields(declared_ptl(header + escaped(r)), r),
{
    law_unescaping_inverts_escaping(r);
    lemma_fields_of_rbsp(header, escaped(r));
}

/// A 0x03 behind two zero bytes of an SPS payload does not count, whatever
/// follows it: the fields are read from what remains.
pub proof fn law_sps_fields_skip_emulation_bytes(header: Seq<u8>, front: Seq<u8>, back: Seq<u8>)
    requires
        header.len() == 2,
    ensures
        has_fields(
            declared_ptl(header + (front + seq![0u8, 0, 3] + back)),
            unescaped(front + seq![0u8, 0]) + unescaped(back),
        ),
{
    law_03_behind_zeros_is_dropped(front, back);
    lemma_fields_of_rbsp(header, front + seq![0u8, 0, 3] + back);
}

/// Fields with dots between them.
pub open spec fn dotted(fields: Seq<Seq<char>>) -> Seq<char>
    decreases fields.len(),
{
    if fields.len() == 0 {
        Seq::empty()
    } else if fields.len() == 1 {
        fields[0]
    } else {
        dotted(fields.drop_last()).push('.') + fields.last()
    }
}

/// Whether bit `i` of `number`, counted from the lowest, is flag `i` of the
/// four bytes `flags`, counted from the top bit of the first one.
pub open spec fn flag_is_bit(flags: Seq<u8>, number: u32, i: int) -> bool {
    number as int / pow2(i as nat) as int % 2 == ((flags[i / 8] >> ((7 - i % 8) as u8)) & 1) as int
}

/// The fields of the codec string of `ptl`, where `compatibility` is the
/// number of its compatibility flags and its first `count` constraint bytes
/// are written.
pub open spec fn codec_fields(
    ptl: ProfileTierLevel,
    compatibility: u32,
    count: nat,
) -> Seq<Seq<char>> {
    let space: Seq<char> = match ptl.profile_space % 4 {
        0 => seq![],
        1 => seq!['A'],
        2 => seq!['B'],
        _ => seq!['C'],
    };
    let tier = if ptl.tier_flag {
        'H'
    } else {
        'L'
    };
    seq![
        seq!['h', 'v', 'c', '1'],
        space + decimal(ptl.profile_idc as nat),
        upper_hex(compatibility as nat),
        seq![tier] + decimal(ptl.level_idc as nat),
    ] + Seq::new(count, |i: int| upper_hex(ptl.constraint_flags@[i] as nat))
}

/// A dot and one more field at the end.
proof fn lemma_dotted_push(fields: Seq<Seq<char>>, field: Seq<char>)
    requires
        fields.len() > 0,
    ensures
        dotted(fields.push(field)) == dotted(fields).push('.') + field,
{
    assert(fields.push(field).drop_last() =~= fields);
}

/// Constraint bytes at the end of a codec string.
proof fn lemma_dotted_constraints(ptl: ProfileTierLevel, compatibility: u32, count: nat)
    requires
        count <= 6,
    ensures
        dotted(codec_fields(ptl, compatibility, count)) == dotted(
            codec_fields(ptl, compatibility, 0),
        ) + dotted_hex(ptl.constraint_flags@.take(count as int)),
    decreases count,
{
    let base = dotted(codec_fields(ptl, compatibility, 0));
    let flags = ptl.constraint_flags@;
    if count == 0 {
        assert(base + dotted_hex(flags.take(0)) =~= base);
    } else {
        let less = (count - 1) as nat;
        let field = upper_hex(flags[less as int] as nat);
        lemma_dotted_constraints(ptl, compatibility, less);
        assert(codec_fields(ptl, compatibility, count) =~= codec_fields(
            ptl,
            compatibility,
            less,
        ).push(field));
        lemma_dotted_push(codec_fields(ptl, compatibility, less), field);
        assert(flags.take(count as int).drop_last() =~= flags.take(less as int));
        reveal_strlit(".");
        assert(dotted(codec_fields(ptl, compatibility, count)) =~= base + dotted_hex(
            flags.take(count as int),
        ));
    }
}

/// The bits of four compatibility bytes, reversed as one number.
proof fn lemma_flags_reversed(flags: Seq<u8>, i: int)
    requires
        flags.len() == 4,
        0 <= i < 32,
    ensures
        be_value(flags) <= u32::MAX,
        reversed_bits(be_value(flags) as u32, 32) <= u32::MAX,
        flag_is_bit(flags, reversed_bits(be_value(flags) as u32, 32) as u32, i),
{
    let (a, b, c, d) = (flags[0], flags[1], flags[2], flags[3]);
    reveal_with_fuel(be_value, 5);
    assert(be_value(flags) == a * 0x100_0000 + b * 0x1_0000 + c * 0x100 + d);
    let v = be_value(flags) as u32;
    crate::bytes::lemma_reversed_bound(v, 32);
    vstd::arithmetic::power2::lemma2_to64();
    law_reversed_bits(v, 32, i as nat);
    let place = (31 - i) as u32;
    let low = (7 - i % 8) as u8;
    assert((v >> place) & 1 == if place >= 24 {
        ((a >> low) & 1) as u32
    } else if place >= 16 {
        ((b >> low) & 1) as u32
    } else if place >= 8 {
        ((c >> low) & 1) as u32
    } else {
        ((d >> low) & 1) as u32
    }) by (bit_vector)
        requires
            v == a * 0x100_0000 + b * 0x1_0000 + c * 0x100 + d,
            place < 32,
            low as u32 == place % 8,
    ;
}

/// A codec string up to its constraint bytes.
#[verifier::rlimit(30)]
proof fn lemma_codec_text_head(ptl: ProfileTierLevel)
    ensures
        ({
            let compatibility = reversed_bits(be_value(ptl.compatibility_flags@) as u32, 32) as u32;
            ptl.codec_text() == dotted(codec_fields(ptl, compatibility, 0)) + dotted_hex(
                without_trailing_zeros(ptl.constraint_flags@),
            )
        }),
{
    let flags = ptl.constraint_flags@;
    let compatibility = reversed_bits(be_value(ptl.compatibility_flags@) as u32, 32) as u32;
    lemma_flags_reversed(ptl.compatibility_flags@, 0);
    let fields = codec_fields(ptl, compatibility, 0);
    reveal_strlit("hvc1.");
    reveal_strlit(".");
    reveal_strlit("");
    reveal_strlit("A");
    reveal_strlit("B");
    reveal_strlit("C");
    reveal_strlit("H");
    reveal_strlit("L");
    let one = seq![fields[0]];
    let two = one.push(fields[1]);
    let three = two.push(fields[2]);
    lemma_dotted_push(one, fields[1]);
    lemma_dotted_push(two, fields[2]);
    lemma_dotted_push(three, fields[3]);
    assert(fields =~= three.push(fields[3]));
    assert(ptl.codec_text() =~= dotted(fields) + dotted_hex(without_trailing_zeros(flags)));
}

/// A codec string is `hvc1`, the profile behind the letter of its space, the
/// compatibility flags as a hexadecimal number whose bit `i` is flag `i`, the
/// level behind the letter of its tier, and then in hexadecimal the
/// constraint bytes up to the last that is not zero, with dots between all.
pub proof fn law_codec_string_spells_fields(ptl: ProfileTierLevel)
    ensures
        exists|compatibility: u32, count: nat|
            {
                &&& count <= 6
                &&& count > 0 ==> ptl.constraint_flags@[count - 1] != 0
                &&& forall|i: int| count <= i < 6 ==> #[trigger] ptl.constraint_flags@[i] == 0
                &&& forall|i: int|
                    0 <= i < 32 ==> #[trigger] flag_is_bit(
                        ptl.compatibility_flags@,
                        compatibility,
                        i,
                    )
                &&& ptl.codec_text() == dotted(#[trigger] codec_fields(ptl, compatibility, count))
            },
{
    let flags = ptl.constraint_flags@;
    let compatibility = reversed_bits(be_value(ptl.compatibility_flags@) as u32, 32) as u32;
    let count = without_trailing_zeros(flags).len();
    law_constraints_end_at_last_set(flags);
    assert forall|i: int| 0 <= i < 32 implies #[trigger] flag_is_bit(
        ptl.compatibility_flags@,
        compatibility,
        i,
    ) by {
        lemma_flags_reversed(ptl.compatibility_flags@, i);
    }
    lemma_dotted_constraints(ptl, compatibility, count);
    lemma_codec_text_head(ptl);
    assert(ptl.codec_text() == dotted(codec_fields(ptl, compatibility, count)));
}

} // verus!
