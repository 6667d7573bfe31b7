//! Laws of the merge engine: properties that hold of every input, stated
//! over the same spec functions that the merge contract uses.
use vstd::prelude::*;

use crate::merge::{
    merge_ok, merged_output, merged_prefix, newline_bytes, part_pos_of, source_output,
    source_output_bytes, Newline, RsMerger,
};
use crate::pad::{pad_after_bytes, pad_before_bytes, Pad};
use crate::resolve::{ends_with_newline, tail_lines_offset, tail_offset, PartPos, Skip};
use crate::scan::{byte_count, is_nth_byte, lemma_nth_byte_exists, lemma_nth_byte_pos_of, NL};

verus! {

/// The concatenation of a list of byte sequences, in order.
pub open spec fn concat_all(srcs: Seq<Seq<u8>>) -> Seq<u8>
    decreases srcs.len(),
{
    if srcs.len() == 0 {
        Seq::empty()
    } else {
        concat_all(srcs.drop_last()) + srcs.last()
    }
}

/// With no option configured, a source in any role contributes exactly its
/// own contents to the merged output.
pub proof fn lemma_plain_source_output(m: RsMerger, s: Seq<u8>, pos: PartPos, last: bool)
    requires
        m.skip_head is None,
        m.skip_tail is None,
        m.padding is None,
        m.newline is None,
    ensures
        source_output(m, s, pos, last) == Some(s),
{
    assert(pad_before_bytes(m.padding, pos) + s.subrange(0, s.len() as int) + Seq::<u8>::empty()
        + pad_after_bytes(m.padding, pos, last) =~= s);
}

/// The first `k` contributions of a merge with no option configured are the
/// concatenation of the first `k` sources.
proof fn lemma_plain_merge_prefix(m: RsMerger, srcs: Seq<Seq<u8>>, k: int)
    requires
        m.skip_head is None,
        m.skip_tail is None,
        m.padding is None,
        m.newline is None,
        0 <= k <= srcs.len(),
    ensures
        merged_prefix(m, srcs, k) == concat_all(srcs.take(k)),
    decreases k,
{
    if k == 0 {
        assert(srcs.take(0) =~= Seq::<Seq<u8>>::empty());
        assert(concat_all(srcs.take(0)) == Seq::<u8>::empty());
    } else {
        lemma_plain_merge_prefix(m, srcs, k - 1);
        lemma_plain_source_output(
            m,
            srcs[k - 1],
            part_pos_of(k - 1, srcs.len() as int),
            k - 1 == srcs.len() - 1,
        );
        assert(srcs.take(k).drop_last() =~= srcs.take(k - 1));
        assert(srcs.take(k).last() == srcs[k - 1]);
    }
}

/// Merging with no option configured yields the exact concatenation of the
/// sources, with no separators inserted.
pub proof fn lemma_plain_merge_concats(m: RsMerger, srcs: Seq<Seq<u8>>)
    requires
        m.skip_head is None,
        m.skip_tail is None,
        m.padding is None,
        m.newline is None,
    ensures
        merge_ok(m, srcs),
        merged_output(m, srcs) == concat_all(srcs),
{
    assert forall|i: int| 0 <= i < srcs.len() implies source_output(
        m,
        srcs[i],
        part_pos_of(i, srcs.len() as int),
        i == srcs.len() - 1,
    ) is Some by {
        lemma_plain_source_output(
            m,
            srcs[i],
            part_pos_of(i, srcs.len() as int),
            i == srcs.len() - 1,
        );
    }
    lemma_plain_merge_prefix(m, srcs, srcs.len() as int);
    assert(srcs.take(srcs.len() as int) =~= srcs);
}

/// Merging one source with no option configured reproduces that source's
/// contents byte-for-byte.
pub proof fn lemma_plain_merge_single(m: RsMerger, s: Seq<u8>)
    requires
        m.skip_head is None,
        m.skip_tail is None,
        m.padding is None,
        m.newline is None,
    ensures
        merge_ok(m, seq![s]),
        merged_output(m, seq![s]) == s,
{
    lemma_plain_merge_concats(m, seq![s]);
    assert(seq![s].drop_last() =~= Seq::<Seq<u8>>::empty());
    assert(concat_all(seq![s].drop_last()) == Seq::<u8>::empty());
    assert(Seq::<u8>::empty() + s =~= s);
}

/// With a forced newline configured and nothing else, a source contributes
/// its contents followed by exactly one newline of the configured style, the
/// newline added only when the original contents do not already end with one.
pub proof fn lemma_forced_newline_applied(
    m: RsMerger,
    s: Seq<u8>,
    pos: PartPos,
    last: bool,
    style: Newline,
)
    requires
        m.skip_head is None,
        m.skip_tail is None,
        m.padding is None,
        m.newline == Some(style),
    ensures
        source_output(m, s, pos, last) == Some(
            if ends_with_newline(s) {
                s
            } else {
                s + newline_bytes(style)
            },
        ),
{
    if ends_with_newline(s) {
        assert(pad_before_bytes(m.padding, pos) + s.subrange(0, s.len() as int)
            + Seq::<u8>::empty() + pad_after_bytes(m.padding, pos, last) =~= s);
    } else {
        assert(pad_before_bytes(m.padding, pos) + s.subrange(0, s.len() as int) + newline_bytes(
            style,
        ) + pad_after_bytes(m.padding, pos, last) =~= s + newline_bytes(style));
    }
}

/// A head `BytesOnce(n)` skip leaves the `Start` source untouched and acts
/// on every other source exactly as a head `Bytes(n)` skip does. `m_once`,
/// `m_bytes` and `m_plain_head` differ only in their head skip.
pub proof fn lemma_head_bytes_once(
    m_once: RsMerger,
    m_bytes: RsMerger,
    m_plain_head: RsMerger,
    s: Seq<u8>,
    pos: PartPos,
    last: bool,
    n: usize,
)
    requires
        m_once.skip_head == Some(Skip::BytesOnce(n)),
        m_bytes.skip_head == Some(Skip::Bytes(n)),
        m_plain_head.skip_head is None,
        m_once.skip_tail == m_bytes.skip_tail,
        m_once.skip_tail == m_plain_head.skip_tail,
        m_once.padding == m_bytes.padding,
        m_once.padding == m_plain_head.padding,
        m_once.newline == m_bytes.newline,
        m_once.newline == m_plain_head.newline,
    ensures
        pos is Start ==> source_output(m_once, s, pos, last) == source_output(
            m_plain_head,
            s,
            pos,
            last,
        ),
        !(pos is Start) ==> source_output(m_once, s, pos, last) == source_output(
            m_bytes,
            s,
            pos,
            last,
        ),
{
}

/// A tail `Lines(n)` skip with `n >= 1` resolves to the same end offset, and
/// keeps the same bytes, whether or not the source ends with a trailing
/// newline: appending a trailing newline to a source that lacks one changes
/// nothing about the kept range.
pub proof fn lemma_tail_lines_newline_agnostic(s: Seq<u8>, n: usize)
    requires
        n >= 1,
        !ends_with_newline(s),
    ensures
        tail_lines_offset(s.push(NL), n as nat) == tail_lines_offset(s, n as nat),
        tail_lines_offset(s, n as nat) matches Some(e) ==> 0 <= e <= s.len() && s.push(
            NL,
        ).subrange(0, e) == s.subrange(0, e),
{
    let t = s.push(NL);
    assert(t.drop_last() =~= s);
    assert(byte_count(t, NL) == byte_count(s, NL) + 1);
    let c = byte_count(s, NL);
    if c + 1 > n {
        let k = (c + 1 - n) as nat;
        lemma_nth_byte_exists(s, NL, k);
        let i = choose|i: int| is_nth_byte(s, NL, k, i);
        lemma_nth_byte_pos_of(s, NL, k, i);
        assert(t.take(i) =~= s.take(i));
        assert(is_nth_byte(t, NL, k, i));
        lemma_nth_byte_pos_of(t, NL, k, i);
        assert(t.subrange(0, i + 1) =~= s.subrange(0, i + 1));
    }
    match tail_lines_offset(s, n as nat) {
        Some(e) => {
            if e == 0 {
                assert(t.subrange(0, 0) =~= s.subrange(0, 0));
            }
        },
        None => {},
    }
}

/// With `Custom` padding, the before-bytes are emitted only before the
/// `Start` source, the between-bytes after every source but the last, and
/// the after-bytes only after the `End` source. A lone source, whose role is
/// `Start` and which is also the last, is followed by no padding at all.
pub proof fn lemma_custom_padding_placement(
    pad: Option<Pad>,
    b1: Vec<u8>,
    b2: Vec<u8>,
    b3: Vec<u8>,
    pos: PartPos,
    last: bool,
)
    requires
        pad == Some(Pad::Custom(Some(b1), Some(b2), Some(b3))),
    ensures
        pad_before_bytes(pad, pos) == (if pos is Start {
            b1@
        } else {
            Seq::<u8>::empty()
        }),
        !last ==> pad_after_bytes(pad, pos, last) == (match pos {
            PartPos::Start => b2@,
            PartPos::Inside => b2@,
            PartPos::End => Seq::<u8>::empty(),
        }),
        last ==> pad_after_bytes(pad, pos, last) == (if pos is End {
            b3@
        } else {
            Seq::<u8>::empty()
        }),
{
}

/// With exactly one source, the merge visits only the `Start` role, as the
/// last source: the merged output is that source's contribution alone, so
/// neither between-padding nor after-padding is emitted.
pub proof fn lemma_single_source_start_role(m: RsMerger, srcs: Seq<Seq<u8>>)
    requires
        srcs.len() == 1,
    ensures
        merged_output(m, srcs) == source_output_bytes(m, srcs[0], PartPos::Start, true),
{
    assert(part_pos_of(0, 1) == PartPos::Start);
    assert(merged_prefix(m, srcs, 0) == Seq::<u8>::empty());
    assert(merged_output(m, srcs) =~= source_output_bytes(m, srcs[0], PartPos::Start, true));
}

/// Merging exactly one source with `Custom(b1, b2, b3)` padding and no other
/// option emits only the before-bytes: the output is `b1` followed by the
/// source's contents, and neither `b2` nor `b3` appears.
pub proof fn lemma_single_source_custom_padding(
    m: RsMerger,
    s: Seq<u8>,
    b1: Vec<u8>,
    b2: Vec<u8>,
    b3: Vec<u8>,
)
    requires
        m.skip_head is None,
        m.skip_tail is None,
        m.newline is None,
        m.padding == Some(Pad::Custom(Some(b1), Some(b2), Some(b3))),
    ensures
        merge_ok(m, seq![s]),
        merged_output(m, seq![s]) == b1@ + s,
{
    lemma_single_source_start_role(m, seq![s]);
    assert(source_output(m, s, PartPos::Start, true) == Some(
        b1@ + s.subrange(0, s.len() as int) + Seq::<u8>::empty() + Seq::<u8>::empty(),
    ));
    assert(b1@ + s.subrange(0, s.len() as int) + Seq::<u8>::empty() + Seq::<u8>::empty() =~= b1@
        + s);
}

/// A tail `Bytes(n)` skip where `n` exceeds some source's length makes the
/// whole merge invalid: that source resolves to no kept range, whatever its
/// role.
pub proof fn lemma_tail_bytes_exceeding_length(
    m: RsMerger,
    srcs: Seq<Seq<u8>>,
    i: int,
    n: usize,
)
    requires
        m.skip_tail == Some(Skip::Bytes(n)),
        0 <= i < srcs.len(),
        srcs[i].len() < n,
    ensures
        tail_offset(m.skip_tail, srcs[i], part_pos_of(i, srcs.len() as int)) is None,
        source_output(m, srcs[i], part_pos_of(i, srcs.len() as int), i == srcs.len() - 1) is None,
        !merge_ok(m, srcs),
{
}

} // verus!
