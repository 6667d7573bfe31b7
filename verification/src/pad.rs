//! Padding: literal bytes injected before, between or after sources,
//! independent of source contents.
use vstd::prelude::*;

use crate::resolve::PartPos;

verus! {

/// Configures where padding is filled when merging sources.
#[non_exhaustive]
#[derive(Debug, Clone)]
pub enum Pad {
    /// Fills the given padding before the first source.
    Before(Vec<u8>),
    /// Fills the given padding between two sources.
    Between(Vec<u8>),
    /// Fills the given padding after the last source.
    After(Vec<u8>),
    /// Fills the given paddings before the first source, between sources and
    /// after the last source. The argument order is (Before, Between, After).
    Custom(Option<Vec<u8>>, Option<Vec<u8>>, Option<Vec<u8>>),
}

/// The padding bytes emitted immediately before a source in the given role.
/// Leading padding is emitted only before the `Start` source.
pub open spec fn pad_before_bytes(pad: Option<Pad>, pos: PartPos) -> Seq<u8> {
    match (pad, pos) {
        (Some(Pad::Before(p)), PartPos::Start) => p@,
        (Some(Pad::Custom(Some(p), _, _)), PartPos::Start) => p@,
        _ => Seq::empty(),
    }
}

/// The padding bytes emitted immediately after a source in the given role,
/// where `last` says whether the source is the final one of the merge.
/// Between-padding separates adjacent sources, so it follows every source
/// but the last — in particular, a lone source is followed by no
/// between-padding even though its role is `Start`. After-padding follows
/// only the `End` source, so a lone source, whose role is `Start`, gets
/// none of it either.
pub open spec fn pad_after_bytes(pad: Option<Pad>, pos: PartPos, last: bool) -> Seq<u8> {
    if last {
        match (pad, pos) {
            (Some(Pad::After(p)), PartPos::End) => p@,
            (Some(Pad::Custom(_, _, Some(p))), PartPos::End) => p@,
            _ => Seq::empty(),
        }
    } else {
        match (pad, pos) {
            (Some(Pad::Between(p)), PartPos::Start) => p@,
            (Some(Pad::Between(p)), PartPos::Inside) => p@,
            (Some(Pad::Custom(_, Some(p), _)), PartPos::Start) => p@,
            (Some(Pad::Custom(_, Some(p), _)), PartPos::Inside) => p@,
            _ => Seq::empty(),
        }
    }
}

} // verus!
