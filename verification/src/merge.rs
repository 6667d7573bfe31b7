//! The merge engine: sequences skip resolution, padding emission and newline
//! normalization across an ordered list of sources.
use vstd::prelude::*;

use crate::error::ErrorKind;
use crate::pad::{pad_after_bytes, pad_before_bytes, Pad};
use crate::resolve::{
    ends_with_newline, head_offset, resolve_head, resolve_tail, tail_offset, PartPos, Skip,
};
use crate::scan::{has_trailing_newline, NL};

verus! {

/// The carriage-return byte.
pub const CR: u8 = 13;

/// The style of a newline, either unix-style `LF` or dos-style `CRLF`.
#[derive(Debug, Clone, Copy)]
pub enum Newline {
    Lf,
    Crlf,
}

impl Default for Newline {
    /// The default newline style is `Lf`.
    fn default() -> (r: Self)
        ensures
            r is Lf,
    {
        Newline::Lf
    }
}

/// The bytes of one newline of the given style.
pub open spec fn newline_bytes(nl: Newline) -> Seq<u8> {
    match nl {
        Newline::Lf => seq![NL],
        Newline::Crlf => seq![CR, NL],
    }
}

/// The newline bytes appended after one source's kept contents: one newline
/// of the configured style, but only when the source's original contents do
/// not already end with a newline.
pub open spec fn forced_newline_bytes(nl: Option<Newline>, s: Seq<u8>) -> Seq<u8> {
    match nl {
        None => Seq::empty(),
        Some(style) => if ends_with_newline(s) {
            Seq::empty()
        } else {
            newline_bytes(style)
        },
    }
}

/// A merger that merges multiple in-memory byte sources into one output.
///
/// `RsMerger` is a builder: create one with [`RsMerger::new`], set options
/// with the configuration methods, and call [`RsMerger::merge_sources_into`]
/// to merge a list of sources into an output buffer. A merger is reusable
/// across merge calls with the same configuration.
#[derive(Debug, Clone)]
pub struct RsMerger {
    /// The skip applied at the head of every source, if any.
    pub skip_head: Option<Skip>,
    /// The skip applied at the tail of every source, if any.
    pub skip_tail: Option<Skip>,
    /// The padding injected around sources, if any.
    pub padding: Option<Pad>,
    /// The forced trailing-newline style, if any.
    pub newline: Option<Newline>,
}

/// The bytes that one source contributes to the merged
/// output: its before-padding, then the kept range `[start, end)` of its
/// contents, then a forced newline where configured and originally absent,
/// then its after-padding. `None` stands for an invalid skip, either a
/// failed offset resolution or a resolved range with `end < start`.
pub open spec fn source_output(m: RsMerger, s: Seq<u8>, pos: PartPos, last: bool) -> Option<
    Seq<u8>,
> {
    match (head_offset(m.skip_head, s, pos), tail_offset(m.skip_tail, s, pos)) {
        (Some(st), Some(en)) => if en < st {
            None
        } else {
            Some(
                pad_before_bytes(m.padding, pos) + s.subrange(st, en) + forced_newline_bytes(
                    m.newline,
                    s,
                ) + pad_after_bytes(m.padding, pos, last),
            )
        },
        _ => None,
    }
}

/// The bytes of `source_output`, or the empty sequence where it is `None`.
pub open spec fn source_output_bytes(m: RsMerger, s: Seq<u8>, pos: PartPos, last: bool) -> Seq<
    u8,
> {
    match source_output(m, s, pos, last) {
        Some(o) => o,
        None => Seq::empty(),
    }
}

/// The role of the source at index `i` in a merge of `n` sources: the first
/// is `Start`, the last is `End`, the rest are `Inside`. With a single
/// source, that source is `Start` only.
pub open spec fn part_pos_of(i: int, n: int) -> PartPos {
    if i == 0 {
        PartPos::Start
    } else if i == n - 1 {
        PartPos::End
    } else {
        PartPos::Inside
    }
}

/// The views of a list of byte sources.
pub open spec fn seq_views(ss: Seq<Vec<u8>>) -> Seq<Seq<u8>> {
    ss.map_values(|v: Vec<u8>| v@)
}

/// Every source of the list resolves to a valid kept range under `m`.
pub open spec fn merge_ok(m: RsMerger, srcs: Seq<Seq<u8>>) -> bool {
    forall|i: int|
        0 <= i < srcs.len() ==> source_output(
            m,
            srcs[i],
            part_pos_of(i, srcs.len() as int),
            i == srcs.len() - 1,
        ) is Some
}

/// The concatenated contributions of the first `k` sources of the list.
pub open spec fn merged_prefix(m: RsMerger, srcs: Seq<Seq<u8>>, k: int) -> Seq<u8>
    decreases k,
{
    if k <= 0 {
        Seq::empty()
    } else {
        merged_prefix(m, srcs, k - 1) + source_output_bytes(
            m,
            srcs[k - 1],
            part_pos_of(k - 1, srcs.len() as int),
            k - 1 == srcs.len() - 1,
        )
    }
}

/// The merged output for the whole list of sources; meaningful when
/// `merge_ok(m, srcs)` holds.
pub open spec fn merged_output(m: RsMerger, srcs: Seq<Seq<u8>>) -> Seq<u8> {
    merged_prefix(m, srcs, srcs.len() as int)
}

/// A prefix of a prefix is a prefix.
proof fn lemma_prefix_trans(a: Seq<u8>, b: Seq<u8>, c: Seq<u8>)
    requires
        a.is_prefix_of(b),
        b.is_prefix_of(c),
    ensures
        a.is_prefix_of(c),
{
    assert(a =~= c.subrange(0, a.len() as int));
}

/// Appends all of `bytes` to `writer`.
fn append_bytes(writer: &mut Vec<u8>, bytes: &Vec<u8>)
    ensures
        final(writer)@ == old(writer)@ + bytes@,
{
    proof {
        assert(writer@ =~= writer@ + bytes@.take(0));
    }
    let mut i: usize = 0;
    while i < bytes.len()
        invariant
            i <= bytes@.len(),
            writer@ == old(writer)@ + bytes@.take(i as int),
        decreases bytes@.len() - i,
    {
        writer.push(bytes[i]);
        proof {
            assert(old(writer)@ + bytes@.take(i + 1) =~= (old(writer)@ + bytes@.take(
                i as int,
            )).push(bytes@[i as int]));
        }
        i = i + 1;
    }
    proof {
        assert(bytes@.take(bytes@.len() as int) =~= bytes@);
    }
}

/// Appends the byte range `[start, end)` of `s` to `writer`.
fn append_range(writer: &mut Vec<u8>, s: &Vec<u8>, start: usize, end: usize)
    requires
        start <= end <= s@.len(),
    ensures
        final(writer)@ == old(writer)@ + s@.subrange(start as int, end as int),
{
    proof {
        assert(writer@ =~= writer@ + s@.subrange(start as int, start as int));
    }
    let mut i: usize = start;
    while i < end
        invariant
            start <= i <= end <= s@.len(),
            writer@ == old(writer)@ + s@.subrange(start as int, i as int),
        decreases end - i,
    {
        writer.push(s[i]);
        proof {
            assert(old(writer)@ + s@.subrange(start as int, i + 1) =~= (old(writer)@
                + s@.subrange(start as int, i as int)).push(s@[i as int]));
        }
        i = i + 1;
    }
}

impl Default for RsMerger {
    /// A merger with no option configured.
    fn default() -> (r: Self)
        ensures
            r.skip_head is None,
            r.skip_tail is None,
            r.padding is None,
            r.newline is None,
    {
        RsMerger { skip_head: None, skip_tail: None, padding: None, newline: None }
    }
}

impl RsMerger {
    /// Creates a new `RsMerger` builder with no option configured.
    pub fn new() -> (r: Self)
        ensures
            r.skip_head is None,
            r.skip_tail is None,
            r.padding is None,
            r.newline is None,
    {
        RsMerger { skip_head: None, skip_tail: None, padding: None, newline: None }
    }

    /// Configures this merger to skip part of the contents from the head of
    /// each source.
    pub fn skip_head(&mut self, skip: Skip)
        ensures
            final(self).skip_head == Some(skip),
            final(self).skip_tail == old(self).skip_tail,
            final(self).padding == old(self).padding,
            final(self).newline == old(self).newline,
    {
        self.skip_head = Some(skip);
    }

    /// Configures this merger to skip part of the contents from the tail of
    /// each source.
    pub fn skip_tail(&mut self, skip: Skip)
        ensures
            final(self).skip_tail == Some(skip),
            final(self).skip_head == old(self).skip_head,
            final(self).padding == old(self).padding,
            final(self).newline == old(self).newline,
    {
        self.skip_tail = Some(skip);
    }

    /// Configures this merger to fill some padding before, between or after
    /// the given sources.
    pub fn pad_with(&mut self, padding: Pad)
        ensures
            final(self).padding == Some(padding),
            final(self).skip_head == old(self).skip_head,
            final(self).skip_tail == old(self).skip_tail,
            final(self).newline == old(self).newline,
    {
        self.padding = Some(padding);
    }

    /// Configures this merger to force the presence of an ending newline
    /// after each source whose contents do not already end with one.
    pub fn force_ending_newline(&mut self, newline: Newline)
        ensures
            final(self).newline == Some(newline),
            final(self).skip_head == old(self).skip_head,
            final(self).skip_tail == old(self).skip_tail,
            final(self).padding == old(self).padding,
    {
        self.newline = Some(newline);
    }

    /// Whether merging must look into the contents of each source, rather
    /// than copy it verbatim.
    fn should_view_contents(&self) -> (r: bool)
        ensures
            r == (self.newline is Some || self.skip_head is Some || self.skip_tail is Some),
    {
        self.newline.is_some() || self.skip_head.is_some() || self.skip_tail.is_some()
    }

    /// Writes the padding owed before a source in the given role.
    fn write_padding_before(&self, writer: &mut Vec<u8>, pos: PartPos)
        ensures
            final(writer)@ == old(writer)@ + pad_before_bytes(self.padding, pos),
    {
        match (&self.padding, pos) {
            (Some(Pad::Before(p)), PartPos::Start) => append_bytes(writer, p),
            (Some(Pad::Custom(Some(p), _, _)), PartPos::Start) => append_bytes(writer, p),
            _ => {
                proof {
                    assert(writer@ =~= writer@ + pad_before_bytes(self.padding, pos));
                }
            },
        }
    }

    /// Writes the padding owed after a source in the given role, where
    /// `last` says whether the source is the final one of the merge.
    fn write_padding_after(&self, writer: &mut Vec<u8>, pos: PartPos, last: bool)
        ensures
            final(writer)@ == old(writer)@ + pad_after_bytes(self.padding, pos, last),
    {
        if last {
            match (&self.padding, pos) {
                (Some(Pad::After(p)), PartPos::End) => append_bytes(writer, p),
                (Some(Pad::Custom(_, _, Some(p))), PartPos::End) => append_bytes(writer, p),
                _ => {
                    proof {
                        assert(writer@ =~= writer@ + pad_after_bytes(self.padding, pos, last));
                    }
                },
            }
        } else {
            match (&self.padding, pos) {
                (Some(Pad::Between(p)), PartPos::Start) => append_bytes(writer, p),
                (Some(Pad::Between(p)), PartPos::Inside) => append_bytes(writer, p),
                (Some(Pad::Custom(_, Some(p), _)), PartPos::Start) => append_bytes(writer, p),
                (Some(Pad::Custom(_, Some(p), _)), PartPos::Inside) => append_bytes(writer, p),
                _ => {
                    proof {
                        assert(writer@ =~= writer@ + pad_after_bytes(self.padding, pos, last));
                    }
                },
            }
        }
    }

    /// Writes the contribution of one source in the given role: padding,
    /// the kept byte range, and the forced newline where owed.
    fn write_contents(
        &self,
        source: &Vec<u8>,
        writer: &mut Vec<u8>,
        pos: PartPos,
        last: bool,
    ) -> (r: Result<(), ErrorKind>)
        ensures
            match r {
                Ok(_) => source_output(*self, source@, pos, last) is Some && final(writer)@ == old(
                    writer,
                )@ + source_output_bytes(*self, source@, pos, last),
                Err(e) => e == ErrorKind::InvalidSkip && source_output(
                    *self,
                    source@,
                    pos,
                    last,
                ) is None && old(writer)@.is_prefix_of(final(writer)@),
            },
    {
        self.write_padding_before(writer, pos);
        let ghost pb = pad_before_bytes(self.padding, pos);
        proof {
            assert(old(writer)@.is_prefix_of(writer@)) by {
                assert(old(writer)@ =~= writer@.subrange(0, old(writer)@.len() as int));
            }
        }
        let endn = has_trailing_newline(source);
        let ghost mut kept: Seq<u8> = Seq::empty();
        if !self.should_view_contents() {
            append_bytes(writer, source);
            proof {
                kept = source@;
                assert(source@.subrange(0, source@.len() as int) =~= source@);
            }
        } else if self.skip_head.is_some() || self.skip_tail.is_some() {
            let start = match resolve_head(&self.skip_head, source, pos) {
                Ok(v) => v,
                Err(e) => {
                    return Err(e);
                },
            };
            let end = match resolve_tail(&self.skip_tail, source, pos) {
                Ok(v) => v,
                Err(e) => {
                    return Err(e);
                },
            };
            if end < start {
                return Err(ErrorKind::InvalidSkip);
            }
            append_range(writer, source, start, end);
            proof {
                kept = source@.subrange(start as int, end as int);
            }
        } else {
            append_bytes(writer, source);
            proof {
                kept = source@;
                assert(source@.subrange(0, source@.len() as int) =~= source@);
            }
        }
        proof {
            assert(source_output(*self, source@, pos, last) == Some(
                pb + kept + forced_newline_bytes(self.newline, source@) + pad_after_bytes(
                    self.padding,
                    pos,
                    last,
                ),
            ));
        }
        if !endn {
            match &self.newline {
                Some(Newline::Lf) => {
                    writer.push(NL);
                },
                Some(Newline::Crlf) => {
                    writer.push(CR);
                    writer.push(NL);
                },
                None => {},
            }
        }
        self.write_padding_after(writer, pos, last);
        proof {
            assert(writer@ =~= old(writer)@ + source_output_bytes(*self, source@, pos, last));
        }
        Ok(())
    }

    /// Merges the given sources into the given output buffer according to
    /// the configured options.
    ///
    /// Fails with `ErrorKind::NothingPassed` exactly when the source list is
    /// empty, and with `ErrorKind::InvalidSkip` exactly when some source does
    /// not admit the configured skips. On success the merged output is
    /// appended to the buffer; on failure the bytes already written stay.
    pub fn merge_sources_into(&self, sources: Vec<Vec<u8>>, writer: &mut Vec<u8>) -> (r: Result<
        (),
        ErrorKind,
    >)
        ensures
            (r matches Err(e) && e == ErrorKind::NothingPassed) <==> sources@.len() == 0,
            (r matches Err(e) && e == ErrorKind::InvalidSkip) <==> (sources@.len() > 0 && !merge_ok(
                *self,
                seq_views(sources@),
            )),
            r is Ok <==> (sources@.len() > 0 && merge_ok(*self, seq_views(sources@))),
            r is Ok ==> final(writer)@ == old(writer)@ + merged_output(*self, seq_views(sources@)),
            sources@.len() == 0 ==> final(writer)@ == old(writer)@,
            old(writer)@.is_prefix_of(final(writer)@),
    {
        let len = sources.len();
        let ghost vs = seq_views(sources@);
        proof {
            assert(vs.len() == sources@.len());
            assert(writer@.is_prefix_of(writer@)) by {
                assert(writer@ =~= writer@.subrange(0, writer@.len() as int));
            }
        }
        if len == 0 {
            return Err(ErrorKind::NothingPassed);
        }
        match self.write_contents(&sources[0], writer, PartPos::Start, len == 1) {
            Ok(_) => {
                proof {
                    assert(vs[0] == sources@[0]@);
                    assert(merged_prefix(*self, vs, 0) == Seq::<u8>::empty());
                    assert(merged_prefix(*self, vs, 1) =~= source_output_bytes(
                        *self,
                        vs[0],
                        part_pos_of(0, vs.len() as int),
                        0 == vs.len() - 1,
                    ));
                }
            },
            Err(e) => {
                proof {
                    assert(vs[0] == sources@[0]@);
                    assert(source_output(
                        *self,
                        vs[0],
                        part_pos_of(0, vs.len() as int),
                        0 == vs.len() - 1,
                    ) is None);
                    assert(!merge_ok(*self, vs));
                }
                return Err(e);
            },
        }
        if len > 1 {
            let mut i: usize = 1;
            while i < len - 1
                invariant
                    2 <= len,
                    len == sources@.len(),
                    vs == seq_views(sources@),
                    vs.len() == sources@.len(),
                    1 <= i <= len - 1,
                    writer@ == old(writer)@ + merged_prefix(*self, vs, i as int),
                    forall|j: int|
                        0 <= j < i ==> source_output(
                            *self,
                            vs[j],
                            part_pos_of(j, vs.len() as int),
                            j == vs.len() - 1,
                        ) is Some,
                decreases len - 1 - i,
            {
                match self.write_contents(&sources[i], writer, PartPos::Inside, false) {
                    Ok(_) => {
                        proof {
                            assert(vs[i as int] == sources@[i as int]@);
                            assert(part_pos_of(i as int, vs.len() as int) == PartPos::Inside);
                            assert(old(writer)@ + merged_prefix(*self, vs, i + 1) =~= (old(writer)@
                                + merged_prefix(*self, vs, i as int)) + source_output_bytes(
                                *self,
                                vs[i as int],
                                part_pos_of(i as int, vs.len() as int),
                                i == vs.len() - 1,
                            ));
                        }
                    },
                    Err(e) => {
                        proof {
                            assert(vs[i as int] == sources@[i as int]@);
                            assert(part_pos_of(i as int, vs.len() as int) == PartPos::Inside);
                            assert(!merge_ok(*self, vs));
                            assert(old(writer)@.is_prefix_of(
                                old(writer)@ + merged_prefix(*self, vs, i as int),
                            )) by {
                                assert(old(writer)@ =~= (old(writer)@ + merged_prefix(
                                    *self,
                                    vs,
                                    i as int,
                                )).subrange(0, old(writer)@.len() as int));
                            }
                            lemma_prefix_trans(
                                old(writer)@,
                                old(writer)@ + merged_prefix(*self, vs, i as int),
                                writer@,
                            );
                        }
                        return Err(e);
                    },
                }
                i = i + 1;
            }
            match self.write_contents(&sources[len - 1], writer, PartPos::End, true) {
                Ok(_) => {
                    proof {
                        assert(vs[len - 1] == sources@[len - 1]@);
                        assert(part_pos_of(len - 1, vs.len() as int) == PartPos::End);
                        assert(old(writer)@ + merged_prefix(*self, vs, len as int) =~= (old(
                            writer,
                        )@ + merged_prefix(*self, vs, len - 1)) + source_output_bytes(
                            *self,
                            vs[len - 1],
                            part_pos_of(len - 1, vs.len() as int),
                            len - 1 == vs.len() - 1,
                        ));
                    }
                },
                Err(e) => {
                    proof {
                        assert(vs[len - 1] == sources@[len - 1]@);
                        assert(!merge_ok(*self, vs));
                        assert(old(writer)@.is_prefix_of(
                            old(writer)@ + merged_prefix(*self, vs, len - 1),
                        )) by {
                            assert(old(writer)@ =~= (old(writer)@ + merged_prefix(
                                *self,
                                vs,
                                len - 1,
                            )).subrange(0, old(writer)@.len() as int));
                        }
                        lemma_prefix_trans(
                            old(writer)@,
                            old(writer)@ + merged_prefix(*self, vs, len - 1),
                            writer@,
                        );
                    }
                    return Err(e);
                },
            }
        }
        proof {
            assert(merge_ok(*self, vs));
            assert(writer@ == old(writer)@ + merged_output(*self, vs));
            assert(old(writer)@.is_prefix_of(writer@)) by {
                assert(old(writer)@ =~= writer@.subrange(0, old(writer)@.len() as int));
            }
        }
        Ok(())
    }
}

/// Similar to [`RsMerger`], but meant as the configuration builder for
/// merging the contents of files: an I/O front end opens the files, reads
/// their contents, and merges them through the inner merger, which is the
/// public first field.
#[derive(Debug, Clone)]
pub struct FileMerger(pub RsMerger);

impl Default for FileMerger {
    /// A file merger with no option configured.
    fn default() -> (r: Self)
        ensures
            r.0.skip_head is None,
            r.0.skip_tail is None,
            r.0.padding is None,
            r.0.newline is None,
    {
        FileMerger(RsMerger::new())
    }
}

impl FileMerger {
    /// Creates a new `FileMerger` builder with no option configured.
    pub fn new() -> (r: Self)
        ensures
            r.0.skip_head is None,
            r.0.skip_tail is None,
            r.0.padding is None,
            r.0.newline is None,
    {
        FileMerger(RsMerger::new())
    }

    /// Configures this merger to skip part of the contents from the head of
    /// each file.
    pub fn skip_head(&mut self, skip: Skip)
        ensures
            final(self).0.skip_head == Some(skip),
            final(self).0.skip_tail == old(self).0.skip_tail,
            final(self).0.padding == old(self).0.padding,
            final(self).0.newline == old(self).0.newline,
    {
        self.0.skip_head(skip);
    }

    /// Configures this merger to skip part of the contents from the tail of
    /// each file.
    pub fn skip_tail(&mut self, skip: Skip)
        ensures
            final(self).0.skip_tail == Some(skip),
            final(self).0.skip_head == old(self).0.skip_head,
            final(self).0.padding == old(self).0.padding,
            final(self).0.newline == old(self).0.newline,
    {
        self.0.skip_tail(skip);
    }

    /// Configures this merger to fill some padding before, between or after
    /// the file contents.
    pub fn pad_with(&mut self, padding: Pad)
        ensures
            final(self).0.padding == Some(padding),
            final(self).0.skip_head == old(self).0.skip_head,
            final(self).0.skip_tail == old(self).0.skip_tail,
            final(self).0.newline == old(self).0.newline,
    {
        self.0.pad_with(padding);
    }

    /// Configures this merger to force the presence of an ending newline
    /// after each file whose contents do not already end with one.
    pub fn force_ending_newline(&mut self, newline: Newline)
        ensures
            final(self).0.newline == Some(newline),
            final(self).0.skip_head == old(self).0.skip_head,
            final(self).0.skip_tail == old(self).0.skip_tail,
            final(self).0.padding == old(self).0.padding,
    {
        self.0.force_ending_newline(newline);
    }
}

} // verus!
