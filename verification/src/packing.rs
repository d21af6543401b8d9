//! Trusted boundary around the `rect_packer` crate.
//!
//! The packer itself is opaque: the library only relies on the frame it was
//! created with and on each returned position lying inside that frame, and
//! re-checks everything else (in particular rectangle disjointness) in
//! verified code.

use vstd::prelude::*;

verus! {

#[verifier::external_type_specification]
#[verifier::external_body]
pub struct ExPacker(rect_packer::Packer);

/// The width and height of the frame a packer was created with.
pub uninterp spec fn packer_frame(p: rect_packer::Packer) -> (int, int);

/// The packer was created with zero border and rectangle padding, the one
/// configuration this library makes; the frame and placement clauses below
/// are read off the source for that configuration.
pub uninterp spec fn packer_zero_padding(p: rect_packer::Packer) -> bool;

/// Relies on `rect_packer::Packer::new`: with zero border and rectangle
/// padding it keeps the configured width and height as the frame inside
/// which every placement is made.
#[verifier::external_body]
pub(crate) fn packer_new(width: i32, height: i32) -> (p: rect_packer::Packer)
    requires
        0 <= width <= 0x10_0000,
        0 <= height <= 0x10_0000,
    ensures
        packer_frame(p) == (width as int, height as int),
        packer_zero_padding(p),
{
    rect_packer::Packer::new(
        rect_packer::Config { width, height, border_padding: 0, rectangle_padding: 0 },
    )
}

/// Relies on `rect_packer::Packer::pack` with rotation disabled: a returned
/// rectangle keeps the requested width and height, and its placement is
/// accepted only when the whole rectangle is contained in the packer's
/// frame (its `can_put` checks containment in the frame rectangle). The
/// bounds on the requested size and on the frame keep every coordinate sum
/// inside the crate far below `i32` overflow.
#[verifier::external_body]
pub(crate) fn packer_pack(p: &mut rect_packer::Packer, width: i32, height: i32) -> (r: Option<
    (i32, i32),
>)
    requires
        packer_zero_padding(*old(p)),
        1 <= width <= 0x10_0000,
        1 <= height <= 0x10_0000,
    ensures
        packer_zero_padding(*final(p)),
        packer_frame(*final(p)) == packer_frame(*old(p)),
        match r {
            Some(pos) => {
                &&& 0 <= pos.0 && pos.0 + width <= packer_frame(*old(p)).0
                &&& 0 <= pos.1 && pos.1 + height <= packer_frame(*old(p)).1
            },
            None => true,
        },
{
    match p.pack(width, height, false) {
        Some(rect) => Some((rect.x, rect.y)),
        None => None,
    }
}

} // verus!
