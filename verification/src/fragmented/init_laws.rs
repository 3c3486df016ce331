//! What an init segment holds, byte by byte.

use vstd::prelude::*;

use crate::boxes::{boxed, law_box_starts_with_its_length};
use crate::bytes::{
    be_bytes, lemma_be_bytes_len, lemma_u32_at, lemma_written_out, u32_at, zeros,
};
use crate::fourcc::{
    DINF, DREF, FTYP, HDLR, ISO5, ISO6, MDHD, MDIA, MINF, MOOV, MP41, MVEX, MVHD, STBL, STCO, STSC,
    STSD, STSZ, STTS, TKHD, TRAK, TREX, URL, VMHD,
};
use crate::fragmented::init::{
    dinf_box, ftyp_box, hdlr_box, init_bytes, mdhd_box, mdia_box, minf_box, moov_box, mvex_box,
    mvhd_box, packed_language, sample_entry, stbl_box, stsd_box, tkhd_box, trak_box, trex_box,
    unity_matrix, url_box, vmhd_box, HANDLER_NAME,
};
use crate::fragmented::laws::tag;
use crate::fragmented::FragmentConfig;

verus! {

/// Whether the numbers `words`, of four bytes each, follow each other in
/// `bytes` from `at` on.
pub open spec fn has_words(bytes: Seq<u8>, at: int, words: Seq<nat>) -> bool {
    &&& 0 <= at
    &&& at + 4 * words.len() <= bytes.len()
    &&& forall|k: int| 0 <= k < words.len() ==> u32_at(bytes, at + 4 * k) == #[trigger] words[k]
}

/// Whether a box of type `kind` and of `len` bytes starts at `at`.
pub open spec fn box_at(bytes: Seq<u8>, at: int, len: int, kind: Seq<u8>) -> bool {
    &&& 0 <= at
    &&& at + 8 <= at + len <= bytes.len()
    &&& u32_at(bytes, at) == len % 0x1_0000_0000
    &&& bytes.subrange(at + 4, at + 8) == kind
}

/// A number in a part of a sequence is the number in the sequence.
pub proof fn lemma_word_of_part(bytes: Seq<u8>, at: int, end: int, k: int)
    requires
        0 <= at <= end <= bytes.len(),
        0 <= k,
        k + 4 <= end - at,
    ensures
        u32_at(bytes, at + k) == u32_at(bytes.subrange(at, end), k),
{
    reveal(u32_at);
}

/// Numbers in a part of a sequence are numbers in the sequence.
pub proof fn lemma_words_of_part(bytes: Seq<u8>, at: int, end: int, k: int, words: Seq<nat>)
    requires
        0 <= at <= end <= bytes.len(),
        has_words(bytes.subrange(at, end), k, words),
    ensures
        has_words(bytes, at + k, words),
{
    assert forall|j: int| 0 <= j < words.len() implies u32_at(bytes, at + k + 4 * j)
        == #[trigger] words[j] by {
        lemma_word_of_part(bytes, at, end, k + 4 * j);
    }
}

/// A part of a part is a part of the whole.
pub proof fn lemma_part_of_part(bytes: Seq<u8>, at: int, end: int, from: int, to: int)
    requires
        0 <= at <= end <= bytes.len(),
        0 <= from <= to <= end - at,
    ensures
        bytes.subrange(at, end).subrange(from, to) == bytes.subrange(at + from, at + to),
{
    assert(bytes.subrange(at, end).subrange(from, to) =~= bytes.subrange(at + from, at + to));
}

/// A box that is a part of a sequence.
pub proof fn lemma_box_at(bytes: Seq<u8>, at: int, kind: Seq<u8>, body: Seq<u8>)
    requires
        kind.len() == 4,
        0 <= at,
        at + 8 + body.len() <= bytes.len(),
        bytes.subrange(at, at + 8 + body.len()) == boxed(kind, body),
    ensures
        box_at(bytes, at, 8 + body.len() as int, kind),
{
    let end = at + 8 + body.len();
    law_box_starts_with_its_length(kind, body);
    lemma_word_of_part(bytes, at, end, 0);
    lemma_part_of_part(bytes, at, end, 4, 8);
}

/// The unity matrix.
proof fn lemma_matrix_words()
    ensures
        unity_matrix().len() == 36,
        has_words(unity_matrix(), 0, seq![0x1_0000nat, 0, 0, 0, 0x1_0000, 0, 0, 0, 0x4000_0000]),
{
    broadcast use lemma_be_bytes_len;

    let whole = unity_matrix();
    lemma_written_out(0);
    assert(whole.len() == 36);
    assert(whole.subrange(0, 4) =~= be_bytes(0x1_0000, 4));
    lemma_u32_at(whole, 0, 0x1_0000);
    assert(whole.subrange(4, 8) =~= be_bytes(0, 4));
    lemma_u32_at(whole, 4, 0);
    assert(whole.subrange(8, 12) =~= be_bytes(0, 4));
    lemma_u32_at(whole, 8, 0);
    assert(whole.subrange(12, 16) =~= be_bytes(0, 4));
    lemma_u32_at(whole, 12, 0);
    assert(whole.subrange(16, 20) =~= be_bytes(0x1_0000, 4));
    lemma_u32_at(whole, 16, 0x1_0000);
    assert(whole.subrange(20, 24) =~= be_bytes(0, 4));
    lemma_u32_at(whole, 20, 0);
    assert(whole.subrange(24, 28) =~= be_bytes(0, 4));
    lemma_u32_at(whole, 24, 0);
    assert(whole.subrange(28, 32) =~= be_bytes(0, 4));
    lemma_u32_at(whole, 28, 0);
    assert(whole.subrange(32, 36) =~= be_bytes(0x4000_0000, 4));
    lemma_u32_at(whole, 32, 0x4000_0000);
    assert(has_words(whole, 0, seq![0x1_0000nat, 0, 0, 0, 0x1_0000, 0, 0, 0, 0x4000_0000])) by {
        let words = seq![0x1_0000nat, 0, 0, 0, 0x1_0000, 0, 0, 0, 0x4000_0000];
        assert forall|k: int| 0 <= k < 9 implies u32_at(whole, 0 + 4 * k) == #[trigger] words[k] by {
            assert(k == 0 || k == 1 || k == 2 || k == 3 || k == 4 || k == 5 || k == 6 || k == 7 || k == 8);
        }
    }
}

/// The fields of the `mvhd`.
proof fn lemma_mvhd_words(timescale: u32)
    ensures
        mvhd_box(timescale).len() == 108,
        has_words(mvhd_box(timescale), 8, seq![0nat, 0, 0, timescale as nat, 0, 0x1_0000, 0x0100_0000, 0, 0]),
        has_words(mvhd_box(timescale), 80, seq![0nat, 0, 0, 0, 0, 0, 2]),
        has_words(mvhd_box(timescale), 44, seq![0x1_0000nat, 0, 0, 0, 0x1_0000, 0, 0, 0, 0x4000_0000]),
{
    broadcast use lemma_be_bytes_len;

    let whole = mvhd_box(timescale);
    lemma_written_out(0);
    assert(whole.len() == 108);
    assert(whole.subrange(44, 80) =~= unity_matrix());
    lemma_matrix_words();
    lemma_words_of_part(whole, 44, 80, 0, seq![0x1_0000nat, 0, 0, 0, 0x1_0000, 0, 0, 0, 0x4000_0000]);
    assert(whole.subrange(8, 12) =~= be_bytes(0, 4));
    lemma_u32_at(whole, 8, 0);
    assert(whole.subrange(12, 16) =~= be_bytes(0, 4));
    lemma_u32_at(whole, 12, 0);
    assert(whole.subrange(16, 20) =~= be_bytes(0, 4));
    lemma_u32_at(whole, 16, 0);
    assert(whole.subrange(20, 24) =~= be_bytes(timescale as nat, 4));
    lemma_u32_at(whole, 20, timescale as nat);
    assert(whole.subrange(24, 28) =~= be_bytes(0, 4));
    lemma_u32_at(whole, 24, 0);
    assert(whole.subrange(28, 32) =~= be_bytes(0x1_0000, 4));
    lemma_u32_at(whole, 28, 0x1_0000);
    assert(whole.subrange(32, 36) =~= be_bytes(0x0100_0000, 4)) by {
        lemma_written_out(0x0100);
        lemma_written_out(0x0100_0000);
    }
    lemma_u32_at(whole, 32, 0x0100_0000);
    assert(whole.subrange(36, 40) =~= be_bytes(0, 4));
    lemma_u32_at(whole, 36, 0);
    assert(whole.subrange(40, 44) =~= be_bytes(0, 4));
    lemma_u32_at(whole, 40, 0);
    assert(has_words(whole, 8, seq![0nat, 0, 0, timescale as nat, 0, 0x1_0000, 0x0100_0000, 0, 0])) by {
        let words = seq![0nat, 0, 0, timescale as nat, 0, 0x1_0000, 0x0100_0000, 0, 0];
        assert forall|k: int| 0 <= k < 9 implies u32_at(whole, 8 + 4 * k) == #[trigger] words[k] by {
            assert(k == 0 || k == 1 || k == 2 || k == 3 || k == 4 || k == 5 || k == 6 || k == 7 || k == 8);
        }
    }
    assert(whole.subrange(80, 84) =~= be_bytes(0, 4));
    lemma_u32_at(whole, 80, 0);
    assert(whole.subrange(84, 88) =~= be_bytes(0, 4));
    lemma_u32_at(whole, 84, 0);
    assert(whole.subrange(88, 92) =~= be_bytes(0, 4));
    lemma_u32_at(whole, 88, 0);
    assert(whole.subrange(92, 96) =~= be_bytes(0, 4));
    lemma_u32_at(whole, 92, 0);
    assert(whole.subrange(96, 100) =~= be_bytes(0, 4));
    lemma_u32_at(whole, 96, 0);
    assert(whole.subrange(100, 104) =~= be_bytes(0, 4));
    lemma_u32_at(whole, 100, 0);
    assert(whole.subrange(104, 108) =~= be_bytes(2, 4));
    lemma_u32_at(whole, 104, 2);
    assert(has_words(whole, 80, seq![0nat, 0, 0, 0, 0, 0, 2])) by {
        let words = seq![0nat, 0, 0, 0, 0, 0, 2];
        assert forall|k: int| 0 <= k < 7 implies u32_at(whole, 80 + 4 * k) == #[trigger] words[k] by {
            assert(k == 0 || k == 1 || k == 2 || k == 3 || k == 4 || k == 5 || k == 6);
        }
    }
}

/// The fields of the `tkhd`.
proof fn lemma_tkhd_words(width: u32, height: u32)
    ensures
        tkhd_box(width, height).len() == 92,
        has_words(tkhd_box(width, height), 8, seq![3nat, 0, 0, 1, 0, 0, 0, 0, 0, 0]),
        has_words(tkhd_box(width, height), 84, seq![width as nat % 0x1_0000 * 0x1_0000, height as nat % 0x1_0000 * 0x1_0000]),
        has_words(tkhd_box(width, height), 48, seq![0x1_0000nat, 0, 0, 0, 0x1_0000, 0, 0, 0, 0x4000_0000]),
{
    broadcast use lemma_be_bytes_len;

    let whole = tkhd_box(width, height);
    lemma_written_out(0);
    assert(whole.len() == 92);
    assert(whole.subrange(48, 84) =~= unity_matrix());
    lemma_matrix_words();
    lemma_words_of_part(whole, 48, 84, 0, seq![0x1_0000nat, 0, 0, 0, 0x1_0000, 0, 0, 0, 0x4000_0000]);
    assert(whole.subrange(8, 12) =~= be_bytes(3, 4));
    lemma_u32_at(whole, 8, 3);
    assert(whole.subrange(12, 16) =~= be_bytes(0, 4));
    lemma_u32_at(whole, 12, 0);
    assert(whole.subrange(16, 20) =~= be_bytes(0, 4));
    lemma_u32_at(whole, 16, 0);
    assert(whole.subrange(20, 24) =~= be_bytes(1, 4));
    lemma_u32_at(whole, 20, 1);
    assert(whole.subrange(24, 28) =~= be_bytes(0, 4));
    lemma_u32_at(whole, 24, 0);
    assert(whole.subrange(28, 32) =~= be_bytes(0, 4));
    lemma_u32_at(whole, 28, 0);
    assert(whole.subrange(32, 36) =~= be_bytes(0, 4));
    lemma_u32_at(whole, 32, 0);
    assert(whole.subrange(36, 40) =~= be_bytes(0, 4));
    lemma_u32_at(whole, 36, 0);
    assert(whole.subrange(40, 44) =~= be_bytes(0, 4));
    lemma_u32_at(whole, 40, 0);
    assert(whole.subrange(44, 48) =~= be_bytes(0, 4));
    lemma_u32_at(whole, 44, 0);
    assert(has_words(whole, 8, seq![3nat, 0, 0, 1, 0, 0, 0, 0, 0, 0])) by {
        let words = seq![3nat, 0, 0, 1, 0, 0, 0, 0, 0, 0];
        assert forall|k: int| 0 <= k < 10 implies u32_at(whole, 8 + 4 * k) == #[trigger] words[k] by {
            assert(k == 0 || k == 1 || k == 2 || k == 3 || k == 4 || k == 5 || k == 6 || k == 7 || k == 8 || k == 9);
        }
    }
    assert(whole.subrange(84, 88) =~= be_bytes(width as nat % 0x1_0000 * 0x1_0000, 4));
    lemma_u32_at(whole, 84, width as nat % 0x1_0000 * 0x1_0000);
    assert(whole.subrange(88, 92) =~= be_bytes(height as nat % 0x1_0000 * 0x1_0000, 4));
    lemma_u32_at(whole, 88, height as nat % 0x1_0000 * 0x1_0000);
    assert(has_words(whole, 84, seq![width as nat % 0x1_0000 * 0x1_0000, height as nat % 0x1_0000 * 0x1_0000])) by {
        let words = seq![width as nat % 0x1_0000 * 0x1_0000, height as nat % 0x1_0000 * 0x1_0000];
        assert forall|k: int| 0 <= k < 2 implies u32_at(whole, 84 + 4 * k) == #[trigger] words[k] by {
            assert(k == 0 || k == 1);
        }
    }
}

/// The fields of the `trex`.
proof fn lemma_trex_words()
    ensures
        trex_box().len() == 32,
        has_words(trex_box(), 8, seq![0nat, 1, 1, 0, 0, 0]),
{
    broadcast use lemma_be_bytes_len;

    let whole = trex_box();
    lemma_written_out(0);
    assert(whole.len() == 32);
    assert(whole.subrange(8, 12) =~= be_bytes(0, 4));
    lemma_u32_at(whole, 8, 0);
    assert(whole.subrange(12, 16) =~= be_bytes(1, 4));
    lemma_u32_at(whole, 12, 1);
    assert(whole.subrange(16, 20) =~= be_bytes(1, 4));
    lemma_u32_at(whole, 16, 1);
    assert(whole.subrange(20, 24) =~= be_bytes(0, 4));
    lemma_u32_at(whole, 20, 0);
    assert(whole.subrange(24, 28) =~= be_bytes(0, 4));
    lemma_u32_at(whole, 24, 0);
    assert(whole.subrange(28, 32) =~= be_bytes(0, 4));
    lemma_u32_at(whole, 28, 0);
    assert(has_words(whole, 8, seq![0nat, 1, 1, 0, 0, 0])) by {
        let words = seq![0nat, 1, 1, 0, 0, 0];
        assert forall|k: int| 0 <= k < 6 implies u32_at(whole, 8 + 4 * k) == #[trigger] words[k] by {
            assert(k == 0 || k == 1 || k == 2 || k == 3 || k == 4 || k == 5);
        }
    }
}

/// The language code `und` in two bytes.
proof fn lemma_und()
    ensures
        packed_language("und"@) == 0x55c4,
{
    reveal_strlit("und");
}

/// The fields of the `mdhd`.
proof fn lemma_mdhd_words(timescale: u32)
    ensures
        mdhd_box(timescale).len() == 32,
        has_words(mdhd_box(timescale), 8, seq![0nat, 0, 0, timescale as nat, 0, 0x55c4_0000]),
{
    broadcast use lemma_be_bytes_len;

    let whole = mdhd_box(timescale);
    lemma_written_out(0);
    assert(whole.len() == 32);
    assert(whole.subrange(8, 12) =~= be_bytes(0, 4));
    lemma_u32_at(whole, 8, 0);
    assert(whole.subrange(12, 16) =~= be_bytes(0, 4));
    lemma_u32_at(whole, 12, 0);
    assert(whole.subrange(16, 20) =~= be_bytes(0, 4));
    lemma_u32_at(whole, 16, 0);
    assert(whole.subrange(20, 24) =~= be_bytes(timescale as nat, 4));
    lemma_u32_at(whole, 20, timescale as nat);
    assert(whole.subrange(24, 28) =~= be_bytes(0, 4));
    lemma_u32_at(whole, 24, 0);
    assert(whole.subrange(28, 32) =~= be_bytes(0x55c4_0000, 4)) by {
        lemma_und();
        lemma_written_out(0x55c4);
        lemma_written_out(0x55c4_0000);
    }
    lemma_u32_at(whole, 28, 0x55c4_0000);
    assert(has_words(whole, 8, seq![0nat, 0, 0, timescale as nat, 0, 0x55c4_0000])) by {
        let words = seq![0nat, 0, 0, timescale as nat, 0, 0x55c4_0000];
        assert forall|k: int| 0 <= k < 6 implies u32_at(whole, 8 + 4 * k) == #[trigger] words[k] by {
            assert(k == 0 || k == 1 || k == 2 || k == 3 || k == 4 || k == 5);
        }
    }
}

/// The fields of the `vmhd`.
proof fn lemma_vmhd_words()
    ensures
        vmhd_box().len() == 20,
        has_words(vmhd_box(), 8, seq![1nat, 0, 0]),
{
    broadcast use lemma_be_bytes_len;

    let whole = vmhd_box();
    lemma_written_out(0);
    assert(whole.len() == 20);
    assert(whole.subrange(8, 12) =~= be_bytes(1, 4));
    lemma_u32_at(whole, 8, 1);
    assert(whole.subrange(12, 16) =~= be_bytes(0, 4));
    lemma_u32_at(whole, 12, 0);
    assert(whole.subrange(16, 20) =~= be_bytes(0, 4));
    lemma_u32_at(whole, 16, 0);
    assert(has_words(whole, 8, seq![1nat, 0, 0])) by {
        let words = seq![1nat, 0, 0];
        assert forall|k: int| 0 <= k < 3 implies u32_at(whole, 8 + 4 * k) == #[trigger] words[k] by {
            assert(k == 0 || k == 1 || k == 2);
        }
    }
}
/// Two numbers behind each other.
pub proof fn lemma_two_words(bytes: Seq<u8>, at: int, a: nat, b: nat)
    requires
        0 <= at,
        at + 8 <= bytes.len(),
        u32_at(bytes, at) == a,
        u32_at(bytes, at + 4) == b,
    ensures
        has_words(bytes, at, seq![a, b]),
{
    let words = seq![a, b];
    assert forall|k: int| 0 <= k < 2 implies u32_at(bytes, at + 4 * k) == #[trigger] words[k] by {
        assert(k == 0 || k == 1);
    }
}

/// Three numbers behind each other.
pub proof fn lemma_three_words(bytes: Seq<u8>, at: int, a: nat, b: nat, c: nat)
    requires
        0 <= at,
        at + 12 <= bytes.len(),
        u32_at(bytes, at) == a,
        u32_at(bytes, at + 4) == b,
        u32_at(bytes, at + 8) == c,
    ensures
        has_words(bytes, at, seq![a, b, c]),
{
    let words = seq![a, b, c];
    assert forall|k: int| 0 <= k < 3 implies u32_at(bytes, at + 4 * k) == #[trigger] words[k] by {
        assert(k == 0 || k == 1 || k == 2);
    }
}

/// The handler box: no version, type `vide`, the name with its terminator.
proof fn lemma_hdlr_parts()
    ensures
        hdlr_box().len() == 45,
        has_words(hdlr_box(), 8, seq![0nat, 0]),
        hdlr_box().subrange(16, 20) == tag('v', 'i', 'd', 'e'),
        has_words(hdlr_box(), 20, seq![0nat, 0, 0]),
        hdlr_box().subrange(32, 45) == tag('V', 'i', 'd', 'e') + tag('o', 'H', 'a', 'n') + tag(
            'd',
            'l',
            'e',
            'r',
        ) + seq![0u8],
{
    broadcast use lemma_be_bytes_len;

    let whole = hdlr_box();
    lemma_written_out(0);
    assert(whole.len() == 45);
    assert(whole.subrange(8, 12) =~= be_bytes(0, 4));
    assert(whole.subrange(12, 16) =~= be_bytes(0, 4));
    assert(whole.subrange(16, 20) =~= tag('v', 'i', 'd', 'e'));
    assert(whole.subrange(20, 24) =~= be_bytes(0, 4));
    assert(whole.subrange(24, 28) =~= be_bytes(0, 4));
    assert(whole.subrange(28, 32) =~= be_bytes(0, 4));
    lemma_u32_at(whole, 8, 0);
    lemma_u32_at(whole, 12, 0);
    lemma_u32_at(whole, 20, 0);
    lemma_u32_at(whole, 24, 0);
    lemma_u32_at(whole, 28, 0);
    assert(whole.subrange(32, 45) =~= HANDLER_NAME@);
    assert(HANDLER_NAME@ =~= tag('V', 'i', 'd', 'e') + tag('o', 'H', 'a', 'n') + tag(
        'd',
        'l',
        'e',
        'r',
    ) + seq![0u8]);
    lemma_two_words(whole, 8, 0, 0);
    lemma_three_words(whole, 20, 0, 0, 0);
}

/// The data reference: one entry, which says that the data is in the file.
proof fn lemma_dinf_parts()
    ensures
        dinf_box().len() == 36,
        box_at(dinf_box(), 8, 28, tag('d', 'r', 'e', 'f')),
        has_words(dinf_box(), 16, seq![0nat, 1]),
        box_at(dinf_box(), 24, 12, tag('u', 'r', 'l', ' ')),
        u32_at(dinf_box(), 32) == 1,
{
    broadcast use lemma_be_bytes_len;

    let whole = dinf_box();
    let dref_body = be_bytes(0, 4) + be_bytes(1, 4) + url_box();
    assert(url_box().len() == 12);
    assert(whole.len() == 36);
    assert(whole.subrange(8, 36) =~= boxed(DREF@, dref_body));
    lemma_box_at(whole, 8, DREF@, dref_body);
    assert(DREF@ =~= tag('d', 'r', 'e', 'f'));
    assert(whole.subrange(16, 20) =~= be_bytes(0, 4));
    assert(whole.subrange(20, 24) =~= be_bytes(1, 4));
    lemma_u32_at(whole, 16, 0);
    lemma_u32_at(whole, 20, 1);
    lemma_two_words(whole, 16, 0, 1);
    assert(whole.subrange(24, 36) =~= boxed(URL@, be_bytes(1, 4)));
    lemma_box_at(whole, 24, URL@, be_bytes(1, 4));
    assert(URL@ =~= tag('u', 'r', 'l', ' '));
    assert(whole.subrange(32, 36) =~= be_bytes(1, 4));
    lemma_u32_at(whole, 32, 1);
}

/// The three boxes inside a box.
pub proof fn lemma_three_inside(kind: Seq<u8>, a: Seq<u8>, b: Seq<u8>, c: Seq<u8>)
    requires
        kind.len() == 4,
    ensures
        ({
            let whole = boxed(kind, a + b + c);
            let first = 8 + a.len() as int;
            let second = first + b.len();
            &&& whole.len() == second + c.len()
            &&& whole.subrange(8, first) == a
            &&& whole.subrange(first, second) == b
            &&& whole.subrange(second, second + c.len()) == c
        }),
{
    let whole = boxed(kind, a + b + c);
    let first = 8 + a.len() as int;
    let second = first + b.len();
    lemma_be_bytes_len(8 + (a + b + c).len(), 4);
    assert(whole.subrange(8, first) =~= a);
    assert(whole.subrange(first, second) =~= b);
    assert(whole.subrange(second, second + c.len()) =~= c);
}

/// The lengths of the boxes around the sample entry.
proof fn lemma_lens(config: FragmentConfig)
    ensures
        ({
            let len = sample_entry(config).len();
            &&& ftyp_box().len() == 28
            &&& mvex_box().len() == 40
            &&& stbl_box(config).len() == 92 + len
            &&& minf_box(config).len() == 156 + len
            &&& mdia_box(config).len() == 241 + len
            &&& trak_box(config).len() == 341 + len
            &&& moov_box(config).len() == 497 + len
        }),
{
    broadcast use lemma_be_bytes_len;

    lemma_stbl_parts(config);
    lemma_vmhd_words();
    lemma_dinf_parts();
    lemma_hdlr_parts();
    lemma_mdhd_words(config.timescale);
    lemma_tkhd_words(config.width, config.height);
    lemma_trex_words();
    lemma_mvhd_words(config.timescale);
}

/// The sample tables.
proof fn lemma_stbl_parts(config: FragmentConfig)
    ensures
        ({
            let stbl = stbl_box(config);
            let at = 24 + sample_entry(config).len() as int;
            &&& stbl.len() == at + 68
            &&& stbl.subrange(8, at) == stsd_box(config)
            &&& stbl.subrange(24, at) == sample_entry(config)
            &&& stbl.subrange(at, at + 16) == boxed(STTS@, zeros(8))
            &&& stbl.subrange(at + 16, at + 32) == boxed(STSC@, zeros(8))
            &&& stbl.subrange(at + 32, at + 52) == boxed(STSZ@, zeros(12))
            &&& stbl.subrange(at + 52, at + 68) == boxed(STCO@, zeros(8))
        }),
{
    broadcast use lemma_be_bytes_len;

    let stbl = stbl_box(config);
    let stsd = stsd_box(config);
    let entry = sample_entry(config);
    let at = 24 + entry.len() as int;
    let (stts, stsc) = (boxed(STTS@, zeros(8)), boxed(STSC@, zeros(8)));
    let (stsz, stco) = (boxed(STSZ@, zeros(12)), boxed(STCO@, zeros(8)));
    assert(stts.len() == 16 && stsc.len() == 16 && stsz.len() == 20 && stco.len() == 16);
    assert(stsd.len() == 16 + entry.len());
    assert(stbl == boxed(STBL@, stsd + stts + stsc + stsz + stco));
    assert(stbl.subrange(8, at) =~= stsd);
    assert(stbl.subrange(24, at) =~= entry) by {
        assert(stsd.subrange(16, 16 + entry.len() as int) =~= entry);
        assert(stbl.subrange(24, at) =~= stsd.subrange(16, 16 + entry.len() as int));
    }
    assert(stbl.subrange(at, at + 16) =~= stts);
    assert(stbl.subrange(at + 16, at + 32) =~= stsc);
    assert(stbl.subrange(at + 32, at + 52) =~= stsz);
    assert(stbl.subrange(at + 52, at + 68) =~= stco);
}

/// A part of a sequence that is a box.
proof fn lemma_box_is(bytes: Seq<u8>, at: int, end: int, kind: Seq<u8>, name: Seq<u8>)
    requires
        kind.len() == 4,
        0 <= at,
        at + 8 <= end <= bytes.len(),
        kind =~= name,
        exists|body: Seq<u8>| bytes.subrange(at, end) == #[trigger] boxed(kind, body),
    ensures
        box_at(bytes, at, end - at, name),
{
    let body = choose|body: Seq<u8>| bytes.subrange(at, end) == #[trigger] boxed(kind, body);
    law_box_starts_with_its_length(kind, body);
    lemma_box_at(bytes, at, kind, body);
}

/// A box in a part of a sequence is a box in the sequence.
proof fn lemma_box_of_part(bytes: Seq<u8>, at: int, end: int, k: int, len: int, kind: Seq<u8>)
    requires
        0 <= at <= end <= bytes.len(),
        box_at(bytes.subrange(at, end), k, len, kind),
    ensures
        box_at(bytes, at + k, len, kind),
{
    lemma_word_of_part(bytes, at, end, k);
    lemma_part_of_part(bytes, at, end, k + 4, k + 8);
}

/// The brands of the `ftyp`.
proof fn lemma_ftyp_body()
    ensures
        ftyp_box().len() == 28,
        ftyp_box().subrange(8, 28) == tag('i', 's', 'o', '5') + seq![0u8, 0, 0, 0] + tag(
            'i',
            's',
            'o',
            '5',
        ) + tag('i', 's', 'o', '6') + tag('m', 'p', '4', '1'),
{
    broadcast use lemma_be_bytes_len;

    lemma_written_out(0);
    let body = ISO5@ + be_bytes(0, 4) + ISO5@ + ISO6@ + MP41@;
    law_box_starts_with_its_length(FTYP@, body);
    assert(ftyp_box().subrange(8, 28) =~= body);
    assert(body =~= tag('i', 's', 'o', '5') + seq![0u8, 0, 0, 0] + tag('i', 's', 'o', '5') + tag(
        'i',
        's',
        'o',
        '6',
    ) + tag('m', 'p', '4', '1'));
}

/// The entry count of the `stsd`.
proof fn lemma_stsd_words(config: FragmentConfig)
    ensures
        has_words(stsd_box(config), 8, seq![0nat, 1]),
{
    broadcast use lemma_be_bytes_len;

    let whole = stsd_box(config);
    let entry = sample_entry(config);
    let body = be_bytes(0, 4) + be_bytes(1, 4) + entry;
    assert(whole == boxed(STSD@, body));
    assert(whole.len() == 16 + entry.len());
    assert(whole.subrange(8, 12) =~= be_bytes(0, 4));
    assert(whole.subrange(12, 16) =~= be_bytes(1, 4));
    lemma_u32_at(whole, 8, 0);
    lemma_u32_at(whole, 12, 1);
    lemma_two_words(whole, 8, 0, 1);
}

/// A table of zeros.
proof fn lemma_zero_table(kind: Seq<u8>, count: nat)
    requires
        kind.len() == 4,
        count == 2 || count == 3,
    ensures
        count == 2 ==> has_words(boxed(kind, zeros(8)), 8, seq![0nat, 0]),
        count == 3 ==> has_words(boxed(kind, zeros(12)), 8, seq![0nat, 0, 0]),
{
    broadcast use lemma_be_bytes_len;

    let whole = boxed(kind, zeros(4 * count));
    lemma_written_out(0);
    assert(whole.len() == 8 + 4 * count);
    assert(whole.subrange(8, 12) =~= be_bytes(0, 4));
    assert(whole.subrange(12, 16) =~= be_bytes(0, 4));
    lemma_u32_at(whole, 8, 0);
    lemma_u32_at(whole, 12, 0);
    if count == 2 {
        lemma_two_words(whole, 8, 0, 0);
    } else {
        assert(whole.subrange(16, 20) =~= be_bytes(0, 4));
        lemma_u32_at(whole, 16, 0);
        lemma_three_words(whole, 8, 0, 0, 0);
    }
}

/// The empty sample tables.
proof fn lemma_zero_tables()
    ensures
        has_words(boxed(STTS@, zeros(8)), 8, seq![0nat, 0]),
        has_words(boxed(STSC@, zeros(8)), 8, seq![0nat, 0]),
        has_words(boxed(STSZ@, zeros(12)), 8, seq![0nat, 0, 0]),
        has_words(boxed(STCO@, zeros(8)), 8, seq![0nat, 0]),
{
    lemma_zero_table(STTS@, 2);
    lemma_zero_table(STSC@, 2);
    lemma_zero_table(STSZ@, 3);
    lemma_zero_table(STCO@, 2);
}

/// A movie header at byte 36.
proof fn lemma_mvhd_in(init: Seq<u8>, timescale: u32)
    requires
        init.len() >= 144,
        init.subrange(36, 144) == mvhd_box(timescale),
    ensures
        box_at(init, 36, 108, tag('m', 'v', 'h', 'd')),
        has_words(
            init,
            44,
            seq![0nat, 0, 0, timescale as nat, 0, 0x1_0000, 0x0100_0000, 0, 0],
        ),
        has_words(init, 80, seq![0x1_0000nat, 0, 0, 0, 0x1_0000, 0, 0, 0, 0x4000_0000]),
        has_words(init, 116, seq![0nat, 0, 0, 0, 0, 0, 2]),
{
    lemma_mvhd_words(timescale);
    lemma_box_is(init, 36, 144, MVHD@, tag('m', 'v', 'h', 'd'));
    lemma_words_of_part(
        init,
        36,
        144,
        8,
        seq![0nat, 0, 0, timescale as nat, 0, 0x1_0000, 0x0100_0000, 0, 0],
    );
    lemma_words_of_part(init, 36, 144, 44, seq![0x1_0000nat, 0, 0, 0, 0x1_0000, 0, 0, 0, 0x4000_0000]);
    lemma_words_of_part(init, 36, 144, 80, seq![0nat, 0, 0, 0, 0, 0, 2]);
}

/// The defaults for fragments at byte 144.
proof fn lemma_mvex_in(init: Seq<u8>)
    requires
        init.len() >= 184,
        init.subrange(144, 184) == mvex_box(),
    ensures
        box_at(init, 144, 40, tag('m', 'v', 'e', 'x')),
        box_at(init, 152, 32, tag('t', 'r', 'e', 'x')),
        has_words(init, 160, seq![0nat, 1, 1, 0, 0, 0]),
{
    lemma_trex_words();
    lemma_box_is(init, 144, 184, MVEX@, tag('m', 'v', 'e', 'x'));
    assert(mvex_box().subrange(8, 40) =~= trex_box()) by {
        lemma_be_bytes_len(40, 4);
    }
    lemma_part_of_part(init, 144, 184, 8, 40);
    lemma_box_is(init, 152, 184, TREX@, tag('t', 'r', 'e', 'x'));
    lemma_words_of_part(init, 152, 184, 8, seq![0nat, 1, 1, 0, 0, 0]);
}

/// A track header at byte 192.
proof fn lemma_tkhd_in(init: Seq<u8>, width: u32, height: u32)
    requires
        init.len() >= 284,
        init.subrange(192, 284) == tkhd_box(width, height),
    ensures
        box_at(init, 192, 92, tag('t', 'k', 'h', 'd')),
        has_words(init, 200, seq![3nat, 0, 0, 1, 0, 0, 0, 0, 0, 0]),
        has_words(init, 240, seq![0x1_0000nat, 0, 0, 0, 0x1_0000, 0, 0, 0, 0x4000_0000]),
        has_words(
            init,
            276,
            seq![
                width as nat % 0x1_0000 * 0x1_0000,
                height as nat % 0x1_0000 * 0x1_0000,
            ],
        ),
{
    lemma_tkhd_words(width, height);
    lemma_box_is(init, 192, 284, TKHD@, tag('t', 'k', 'h', 'd'));
    lemma_words_of_part(init, 192, 284, 8, seq![3nat, 0, 0, 1, 0, 0, 0, 0, 0, 0]);
    lemma_words_of_part(init, 192, 284, 48, seq![0x1_0000nat, 0, 0, 0, 0x1_0000, 0, 0, 0, 0x4000_0000]);
    lemma_words_of_part(
        init,
        192,
        284,
        84,
        seq![width as nat % 0x1_0000 * 0x1_0000, height as nat % 0x1_0000 * 0x1_0000],
    );
}

/// A media header at byte 292.
proof fn lemma_mdhd_in(init: Seq<u8>, timescale: u32)
    requires
        init.len() >= 324,
        init.subrange(292, 324) == mdhd_box(timescale),
    ensures
        box_at(init, 292, 32, tag('m', 'd', 'h', 'd')),
        has_words(init, 300, seq![0nat, 0, 0, timescale as nat, 0, 0x55c4_0000]),
{
    lemma_mdhd_words(timescale);
    lemma_box_is(init, 292, 324, MDHD@, tag('m', 'd', 'h', 'd'));
    lemma_words_of_part(
        init,
        292,
        324,
        8,
        seq![0nat, 0, 0, timescale as nat, 0, 0x55c4_0000],
    );
}

/// A handler box at byte 324.
proof fn lemma_hdlr_in(init: Seq<u8>)
    requires
        init.len() >= 369,
        init.subrange(324, 369) == hdlr_box(),
    ensures
        box_at(init, 324, 45, tag('h', 'd', 'l', 'r')),
        has_words(init, 332, seq![0nat, 0]),
        init.subrange(340, 344) == tag('v', 'i', 'd', 'e'),
        has_words(init, 344, seq![0nat, 0, 0]),
        init.subrange(356, 369) == tag('V', 'i', 'd', 'e') + tag('o', 'H', 'a', 'n') + tag(
            'd',
            'l',
            'e',
            'r',
        ) + seq![0u8],
{
    lemma_hdlr_parts();
    lemma_box_is(init, 324, 369, HDLR@, tag('h', 'd', 'l', 'r'));
    lemma_words_of_part(init, 324, 369, 8, seq![0nat, 0]);
    lemma_part_of_part(init, 324, 369, 16, 20);
    lemma_words_of_part(init, 324, 369, 20, seq![0nat, 0, 0]);
    lemma_part_of_part(init, 324, 369, 32, 45);
}

/// A video media header at byte 377.
proof fn lemma_vmhd_in(init: Seq<u8>)
    requires
        init.len() >= 397,
        init.subrange(377, 397) == vmhd_box(),
    ensures
        box_at(init, 377, 20, tag('v', 'm', 'h', 'd')),
        has_words(init, 385, seq![1nat, 0, 0]),
{
    lemma_vmhd_words();
    lemma_box_is(init, 377, 397, VMHD@, tag('v', 'm', 'h', 'd'));
    lemma_words_of_part(init, 377, 397, 8, seq![1nat, 0, 0]);
}

/// A data reference at byte 397.
proof fn lemma_dinf_in(init: Seq<u8>)
    requires
        init.len() >= 433,
        init.subrange(397, 433) == dinf_box(),
    ensures
        box_at(init, 397, 36, tag('d', 'i', 'n', 'f')),
        box_at(init, 405, 28, tag('d', 'r', 'e', 'f')),
        has_words(init, 413, seq![0nat, 1]),
        box_at(init, 421, 12, tag('u', 'r', 'l', ' ')),
        u32_at(init, 429) == 1,
{
    lemma_dinf_parts();
    lemma_box_is(init, 397, 433, DINF@, tag('d', 'i', 'n', 'f'));
    lemma_box_of_part(init, 397, 433, 8, 28, tag('d', 'r', 'e', 'f'));
    lemma_words_of_part(init, 397, 433, 16, seq![0nat, 1]);
    lemma_box_of_part(init, 397, 433, 24, 12, tag('u', 'r', 'l', ' '));
    lemma_word_of_part(init, 397, 433, 32);
}

/// The parts of a `moov` at byte 28.
proof fn lemma_moov_in(init: Seq<u8>, config: FragmentConfig)
    requires
        init.len() == 525 + sample_entry(config).len(),
        init.subrange(28, init.len() as int) == moov_box(config),
    ensures
        box_at(init, 28, init.len() - 28, tag('m', 'o', 'o', 'v')),
        init.subrange(36, 144) == mvhd_box(config.timescale),
        init.subrange(144, 184) == mvex_box(),
        init.subrange(184, init.len() as int) == trak_box(config),
{
    let all = init.len() as int;
    lemma_lens(config);
    lemma_mvhd_words(config.timescale);
    lemma_box_is(init, 28, all, MOOV@, tag('m', 'o', 'o', 'v'));
    lemma_three_inside(MOOV@, mvhd_box(config.timescale), mvex_box(), trak_box(config));
    lemma_part_of_part(init, 28, all, 8, 116);
    lemma_part_of_part(init, 28, all, 116, 156);
    lemma_part_of_part(init, 28, all, 156, all - 28);
}

/// The parts of a `trak` at byte 184.
proof fn lemma_trak_in(init: Seq<u8>, config: FragmentConfig)
    requires
        init.len() == 525 + sample_entry(config).len(),
        init.subrange(184, init.len() as int) == trak_box(config),
    ensures
        box_at(init, 184, init.len() - 184, tag('t', 'r', 'a', 'k')),
        init.subrange(192, 284) == tkhd_box(config.width, config.height),
        init.subrange(284, init.len() as int) == mdia_box(config),
{
    let all = init.len() as int;
    let none = Seq::<u8>::empty();
    let tkhd = tkhd_box(config.width, config.height);
    let mdia = mdia_box(config);
    lemma_lens(config);
    lemma_tkhd_words(config.width, config.height);
    lemma_box_is(init, 184, all, TRAK@, tag('t', 'r', 'a', 'k'));
    lemma_three_inside(TRAK@, tkhd, mdia, none);
    assert(tkhd + mdia + none =~= tkhd + mdia);
    lemma_part_of_part(init, 184, all, 8, 100);
    lemma_part_of_part(init, 184, all, 100, all - 184);
}

/// The parts of an `mdia` at byte 284.
proof fn lemma_mdia_in(init: Seq<u8>, config: FragmentConfig)
    requires
        init.len() == 525 + sample_entry(config).len(),
        init.subrange(284, init.len() as int) == mdia_box(config),
    ensures
        box_at(init, 284, init.len() - 284, tag('m', 'd', 'i', 'a')),
        init.subrange(292, 324) == mdhd_box(config.timescale),
        init.subrange(324, 369) == hdlr_box(),
        init.subrange(369, init.len() as int) == minf_box(config),
{
    let all = init.len() as int;
    lemma_lens(config);
    lemma_mdhd_words(config.timescale);
    lemma_hdlr_parts();
    lemma_box_is(init, 284, all, MDIA@, tag('m', 'd', 'i', 'a'));
    lemma_three_inside(MDIA@, mdhd_box(config.timescale), hdlr_box(), minf_box(config));
    lemma_part_of_part(init, 284, all, 8, 40);
    lemma_part_of_part(init, 284, all, 40, 85);
    lemma_part_of_part(init, 284, all, 85, all - 284);
}

/// The parts of a `minf` at byte 369.
proof fn lemma_minf_in(init: Seq<u8>, config: FragmentConfig)
    requires
        init.len() == 525 + sample_entry(config).len(),
        init.subrange(369, init.len() as int) == minf_box(config),
    ensures
        box_at(init, 369, init.len() - 369, tag('m', 'i', 'n', 'f')),
        init.subrange(377, 397) == vmhd_box(),
        init.subrange(397, 433) == dinf_box(),
        init.subrange(433, init.len() as int) == stbl_box(config),
{
    let all = init.len() as int;
    lemma_lens(config);
    lemma_vmhd_words();
    lemma_dinf_parts();
    lemma_box_is(init, 369, all, MINF@, tag('m', 'i', 'n', 'f'));
    lemma_three_inside(MINF@, vmhd_box(), dinf_box(), stbl_box(config));
    lemma_part_of_part(init, 369, all, 8, 28);
    lemma_part_of_part(init, 369, all, 28, 64);
    lemma_part_of_part(init, 369, all, 64, all - 369);
}

/// The parts of an `stbl` at byte 433.
proof fn lemma_stbl_in(init: Seq<u8>, config: FragmentConfig)
    requires
        init.len() == 525 + sample_entry(config).len(),
        init.subrange(433, init.len() as int) == stbl_box(config),
    ensures
        ({
            let end = 457 + sample_entry(config).len() as int;
            &&& box_at(init, 433, init.len() - 433, tag('s', 't', 'b', 'l'))
            &&& init.subrange(441, end) == stsd_box(config)
            &&& init.subrange(457, end) == sample_entry(config)
            &&& init.subrange(end, end + 16) == boxed(STTS@, zeros(8))
            &&& init.subrange(end + 16, end + 32) == boxed(STSC@, zeros(8))
            &&& init.subrange(end + 32, end + 52) == boxed(STSZ@, zeros(12))
            &&& init.subrange(end + 52, end + 68) == boxed(STCO@, zeros(8))
        }),
{
    let all = init.len() as int;
    let at = all - 501;
    lemma_stbl_parts(config);
    lemma_box_is(init, 433, all, STBL@, tag('s', 't', 'b', 'l'));
    lemma_part_of_part(init, 433, all, 8, at);
    lemma_part_of_part(init, 433, all, 24, at);
    lemma_part_of_part(init, 433, all, at, at + 16);
    lemma_part_of_part(init, 433, all, at + 16, at + 32);
    lemma_part_of_part(init, 433, all, at + 32, at + 52);
    lemma_part_of_part(init, 433, all, at + 52, at + 68);
}

/// Where the `moov` of an init segment stands.
proof fn lemma_moov_placed(config: FragmentConfig)
    ensures
        init_bytes(config).len() == 525 + sample_entry(config).len(),
        init_bytes(config).subrange(0, 28) == ftyp_box(),
        init_bytes(config).subrange(28, init_bytes(config).len() as int) == moov_box(config),
{
    let init = init_bytes(config);
    lemma_lens(config);
    assert(init.subrange(0, 28) =~= ftyp_box());
    assert(init.subrange(28, init.len() as int) =~= moov_box(config));
}

/// Where the `trak` of an init segment stands.
proof fn lemma_trak_placed(config: FragmentConfig)
    ensures
        init_bytes(config).len() == 525 + sample_entry(config).len(),
        init_bytes(config).subrange(184, init_bytes(config).len() as int) == trak_box(config),
{
    lemma_moov_placed(config);
    lemma_moov_in(init_bytes(config), config);
}

/// Where the `mdia` of an init segment stands.
proof fn lemma_mdia_placed(config: FragmentConfig)
    ensures
        init_bytes(config).len() == 525 + sample_entry(config).len(),
        init_bytes(config).subrange(284, init_bytes(config).len() as int) == mdia_box(config),
{
    lemma_trak_placed(config);
    lemma_trak_in(init_bytes(config), config);
}

/// Where the `minf` of an init segment stands.
proof fn lemma_minf_placed(config: FragmentConfig)
    ensures
        init_bytes(config).len() == 525 + sample_entry(config).len(),
        init_bytes(config).subrange(369, init_bytes(config).len() as int) == minf_box(config),
{
    lemma_mdia_placed(config);
    lemma_mdia_in(init_bytes(config), config);
}

/// Where the `stbl` of an init segment stands.
proof fn lemma_stbl_placed(config: FragmentConfig)
    ensures
        init_bytes(config).len() == 525 + sample_entry(config).len(),
        init_bytes(config).subrange(433, init_bytes(config).len() as int) == stbl_box(config),
{
    lemma_minf_placed(config);
    lemma_minf_in(init_bytes(config), config);
}

/// The movie part of an init segment, field by field: brands `iso5`, `iso6` and
/// `mp41`; the timescale, no times, rate 1.0, full volume, unity matrix and next
/// track 2 in the `mvhd`; track 1, sample description 1 and no other default in
/// the `trex`. Then the `trak` reaches to the end.
pub proof fn law_init_movie(config: FragmentConfig)
    ensures
        ({
            let init = init_bytes(config);
            let all = 525 + sample_entry(config).len() as int;
            &&& init.len() == all
            &&& box_at(init, 0, 28, tag('f', 't', 'y', 'p'))
            &&& init.subrange(8, 28) == tag('i', 's', 'o', '5') + seq![0u8, 0, 0, 0] + tag(
                'i',
                's',
                'o',
                '5',
            ) + tag('i', 's', 'o', '6') + tag('m', 'p', '4', '1')
            &&& box_at(init, 28, all - 28, tag('m', 'o', 'o', 'v'))
            &&& box_at(init, 36, 108, tag('m', 'v', 'h', 'd'))
            &&& has_words(
                init,
                44,
                seq![0nat, 0, 0, config.timescale as nat, 0, 0x1_0000, 0x0100_0000, 0, 0],
            )
            &&& has_words(init, 80, seq![0x1_0000nat, 0, 0, 0, 0x1_0000, 0, 0, 0, 0x4000_0000])
            &&& has_words(init, 116, seq![0nat, 0, 0, 0, 0, 0, 2])
            &&& box_at(init, 144, 40, tag('m', 'v', 'e', 'x'))
            &&& box_at(init, 152, 32, tag('t', 'r', 'e', 'x'))
            &&& has_words(init, 160, seq![0nat, 1, 1, 0, 0, 0])
            &&& box_at(init, 184, all - 184, tag('t', 'r', 'a', 'k'))
        }),
{
    lemma_moov_placed(config);
    lemma_movie(init_bytes(config), config);
}

/// The movie part, of any bytes that hold it.
proof fn lemma_movie(init: Seq<u8>, config: FragmentConfig)
    requires
        init.len() == 525 + sample_entry(config).len(),
        init.subrange(0, 28) == ftyp_box(),
        init.subrange(28, init.len() as int) == moov_box(config),
    ensures
        box_at(init, 0, 28, tag('f', 't', 'y', 'p')),
        init.subrange(8, 28) == tag('i', 's', 'o', '5') + seq![0u8, 0, 0, 0] + tag(
            'i',
            's',
            'o',
            '5',
        ) + tag('i', 's', 'o', '6') + tag('m', 'p', '4', '1'),
        box_at(init, 28, init.len() - 28, tag('m', 'o', 'o', 'v')),
        box_at(init, 36, 108, tag('m', 'v', 'h', 'd')),
        has_words(
            init,
            44,
            seq![0nat, 0, 0, config.timescale as nat, 0, 0x1_0000, 0x0100_0000, 0, 0],
        ),
        has_words(init, 80, seq![0x1_0000nat, 0, 0, 0, 0x1_0000, 0, 0, 0, 0x4000_0000]),
        has_words(init, 116, seq![0nat, 0, 0, 0, 0, 0, 2]),
        box_at(init, 144, 40, tag('m', 'v', 'e', 'x')),
        box_at(init, 152, 32, tag('t', 'r', 'e', 'x')),
        has_words(init, 160, seq![0nat, 1, 1, 0, 0, 0]),
        box_at(init, 184, init.len() - 184, tag('t', 'r', 'a', 'k')),
{
    lemma_ftyp_in(init);
    lemma_moov_in(init, config);
    lemma_mvhd_in(init, config.timescale);
    lemma_mvex_in(init);
    lemma_trak_in(init, config);
}

/// A file type box at byte 0.
proof fn lemma_ftyp_in(init: Seq<u8>)
    requires
        init.len() >= 28,
        init.subrange(0, 28) == ftyp_box(),
    ensures
        box_at(init, 0, 28, tag('f', 't', 'y', 'p')),
        init.subrange(8, 28) == tag('i', 's', 'o', '5') + seq![0u8, 0, 0, 0] + tag(
            'i',
            's',
            'o',
            '5',
        ) + tag('i', 's', 'o', '6') + tag('m', 'p', '4', '1'),
{
    lemma_ftyp_body();
    lemma_box_is(init, 0, 28, FTYP@, tag('f', 't', 'y', 'p'));
    lemma_part_of_part(init, 0, 28, 8, 28);
}

/// The track part of an init segment, field by field: an enabled track 1 in the
/// movie, unity matrix, and the low 16 bits of width and height as the upper
/// halves of 32. Then the `mdia` reaches to the end.
pub proof fn law_init_track(config: FragmentConfig)
    ensures
        ({
            let init = init_bytes(config);
            let all = 525 + sample_entry(config).len() as int;
            &&& box_at(init, 192, 92, tag('t', 'k', 'h', 'd'))
            &&& has_words(init, 200, seq![3nat, 0, 0, 1, 0, 0, 0, 0, 0, 0])
            &&& has_words(init, 240, seq![0x1_0000nat, 0, 0, 0, 0x1_0000, 0, 0, 0, 0x4000_0000])
            &&& has_words(
                init,
                276,
                seq![
                    config.width as nat % 0x1_0000 * 0x1_0000,
                    config.height as nat % 0x1_0000 * 0x1_0000,
                ],
            )
            &&& box_at(init, 284, all - 284, tag('m', 'd', 'i', 'a'))
        }),
{
    lemma_trak_placed(config);
    lemma_track(init_bytes(config), config);
}

/// The track part, of any bytes that hold it.
proof fn lemma_track(init: Seq<u8>, config: FragmentConfig)
    requires
        init.len() == 525 + sample_entry(config).len(),
        init.subrange(184, init.len() as int) == trak_box(config),
    ensures
        box_at(init, 192, 92, tag('t', 'k', 'h', 'd')),
        has_words(init, 200, seq![3nat, 0, 0, 1, 0, 0, 0, 0, 0, 0]),
        has_words(init, 240, seq![0x1_0000nat, 0, 0, 0, 0x1_0000, 0, 0, 0, 0x4000_0000]),
        has_words(
            init,
            276,
            seq![
                config.width as nat % 0x1_0000 * 0x1_0000,
                config.height as nat % 0x1_0000 * 0x1_0000,
            ],
        ),
        box_at(init, 284, init.len() - 284, tag('m', 'd', 'i', 'a')),
{
    lemma_trak_in(init, config);
    lemma_tkhd_in(init, config.width, config.height);
    lemma_mdia_in(init, config);
}

/// The media part of an init segment, field by field: the timescale and the
/// language `und` (0x55c4), and the handler of a video track. Then the `minf`
/// reaches to the end.
pub proof fn law_init_media(config: FragmentConfig)
    ensures
        ({
            let init = init_bytes(config);
            let all = 525 + sample_entry(config).len() as int;
            &&& box_at(init, 292, 32, tag('m', 'd', 'h', 'd'))
            &&& has_words(init, 300, seq![0nat, 0, 0, config.timescale as nat, 0, 0x55c4_0000])
            &&& box_at(init, 324, 45, tag('h', 'd', 'l', 'r'))
            &&& has_words(init, 332, seq![0nat, 0])
            &&& init.subrange(340, 344) == tag('v', 'i', 'd', 'e')
            &&& has_words(init, 344, seq![0nat, 0, 0])
            &&& init.subrange(356, 369) == tag('V', 'i', 'd', 'e') + tag('o', 'H', 'a', 'n') + tag(
                'd',
                'l',
                'e',
                'r',
            ) + seq![0u8]
            &&& box_at(init, 369, all - 369, tag('m', 'i', 'n', 'f'))
        }),
{
    lemma_mdia_placed(config);
    lemma_media(init_bytes(config), config);
}

/// The media part, of any bytes that hold it.
proof fn lemma_media(init: Seq<u8>, config: FragmentConfig)
    requires
        init.len() == 525 + sample_entry(config).len(),
        init.subrange(284, init.len() as int) == mdia_box(config),
    ensures
        box_at(init, 292, 32, tag('m', 'd', 'h', 'd')),
        has_words(init, 300, seq![0nat, 0, 0, config.timescale as nat, 0, 0x55c4_0000]),
        box_at(init, 324, 45, tag('h', 'd', 'l', 'r')),
        has_words(init, 332, seq![0nat, 0]),
        init.subrange(340, 344) == tag('v', 'i', 'd', 'e'),
        has_words(init, 344, seq![0nat, 0, 0]),
        init.subrange(356, 369) == tag('V', 'i', 'd', 'e') + tag('o', 'H', 'a', 'n') + tag(
            'd',
            'l',
            'e',
            'r',
        ) + seq![0u8],
        box_at(init, 369, init.len() - 369, tag('m', 'i', 'n', 'f')),
{
    lemma_mdia_in(init, config);
    lemma_mdhd_in(init, config.timescale);
    lemma_hdlr_in(init);
    lemma_minf_in(init, config);
}

/// The media information of an init segment, field by field: a video media
/// header and one data reference, to the file itself. Then the `stbl` reaches
/// to the end.
pub proof fn law_init_media_information(config: FragmentConfig)
    ensures
        ({
            let init = init_bytes(config);
            let all = 525 + sample_entry(config).len() as int;
            &&& box_at(init, 377, 20, tag('v', 'm', 'h', 'd'))
            &&& has_words(init, 385, seq![1nat, 0, 0])
            &&& box_at(init, 397, 36, tag('d', 'i', 'n', 'f'))
            &&& box_at(init, 405, 28, tag('d', 'r', 'e', 'f'))
            &&& has_words(init, 413, seq![0nat, 1])
            &&& box_at(init, 421, 12, tag('u', 'r', 'l', ' '))
            &&& u32_at(init, 429) == 1
            &&& box_at(init, 433, all - 433, tag('s', 't', 'b', 'l'))
        }),
{
    lemma_minf_placed(config);
    lemma_information(init_bytes(config), config);
}

/// The media information, of any bytes that hold it.
proof fn lemma_information(init: Seq<u8>, config: FragmentConfig)
    requires
        init.len() == 525 + sample_entry(config).len(),
        init.subrange(369, init.len() as int) == minf_box(config),
    ensures
        box_at(init, 377, 20, tag('v', 'm', 'h', 'd')),
        has_words(init, 385, seq![1nat, 0, 0]),
        box_at(init, 397, 36, tag('d', 'i', 'n', 'f')),
        box_at(init, 405, 28, tag('d', 'r', 'e', 'f')),
        has_words(init, 413, seq![0nat, 1]),
        box_at(init, 421, 12, tag('u', 'r', 'l', ' ')),
        u32_at(init, 429) == 1,
        box_at(init, 433, init.len() - 433, tag('s', 't', 'b', 'l')),
{
    lemma_minf_in(init, config);
    lemma_vmhd_in(init);
    lemma_dinf_in(init);
    lemma_stbl_in(init, config);
}

/// The sample tables of an init segment, field by field: an `stsd` with one
/// entry, which stands at byte 457, and nothing in the other tables, which end
/// the segment.
pub proof fn law_init_tables(config: FragmentConfig)
    ensures
        ({
            let init = init_bytes(config);
            let end = 457 + sample_entry(config).len() as int;
            &&& box_at(init, 441, end - 441, tag('s', 't', 's', 'd'))
            &&& has_words(init, 449, seq![0nat, 1])
            &&& init.subrange(457, end) == sample_entry(config)
            &&& box_at(init, end, 16, tag('s', 't', 't', 's'))
            &&& has_words(init, end + 8, seq![0nat, 0])
            &&& box_at(init, end + 16, 16, tag('s', 't', 's', 'c'))
            &&& has_words(init, end + 24, seq![0nat, 0])
            &&& box_at(init, end + 32, 20, tag('s', 't', 's', 'z'))
            &&& has_words(init, end + 40, seq![0nat, 0, 0])
            &&& box_at(init, end + 52, 16, tag('s', 't', 'c', 'o'))
            &&& has_words(init, end + 60, seq![0nat, 0])
        }),
{
    lemma_stbl_placed(config);
    lemma_tables(init_bytes(config), config);
}

/// The sample tables, of any bytes that hold them.
proof fn lemma_tables(init: Seq<u8>, config: FragmentConfig)
    requires
        init.len() == 525 + sample_entry(config).len(),
        init.subrange(433, init.len() as int) == stbl_box(config),
    ensures
        ({
            let end = 457 + sample_entry(config).len() as int;
            &&& box_at(init, 441, end - 441, tag('s', 't', 's', 'd'))
            &&& has_words(init, 449, seq![0nat, 1])
            &&& init.subrange(457, end) == sample_entry(config)
            &&& box_at(init, end, 16, tag('s', 't', 't', 's'))
            &&& has_words(init, end + 8, seq![0nat, 0])
            &&& box_at(init, end + 16, 16, tag('s', 't', 's', 'c'))
            &&& has_words(init, end + 24, seq![0nat, 0])
            &&& box_at(init, end + 32, 20, tag('s', 't', 's', 'z'))
            &&& has_words(init, end + 40, seq![0nat, 0, 0])
            &&& box_at(init, end + 52, 16, tag('s', 't', 'c', 'o'))
            &&& has_words(init, end + 60, seq![0nat, 0])
        }),
{
    let end = 457 + sample_entry(config).len() as int;
    lemma_stbl_in(init, config);
    lemma_stsd_words(config);
    lemma_box_is(init, 441, end, STSD@, tag('s', 't', 's', 'd'));
    lemma_words_of_part(init, 441, end, 8, seq![0nat, 1]);
    lemma_zero_tables();
    lemma_box_is(init, end, end + 16, STTS@, tag('s', 't', 't', 's'));
    lemma_words_of_part(init, end, end + 16, 8, seq![0nat, 0]);
    lemma_box_is(init, end + 16, end + 32, STSC@, tag('s', 't', 's', 'c'));
    lemma_words_of_part(init, end + 16, end + 32, 8, seq![0nat, 0]);
    lemma_box_is(init, end + 32, end + 52, STSZ@, tag('s', 't', 's', 'z'));
    lemma_words_of_part(init, end + 32, end + 52, 8, seq![0nat, 0, 0]);
    lemma_box_is(init, end + 52, end + 68, STCO@, tag('s', 't', 'c', 'o'));
    lemma_words_of_part(init, end + 52, end + 68, 8, seq![0nat, 0]);
}

} // verus!
