//! The handle set a selection is resized by. Where a handle sits on a
//! box, and what a drag of it does, is arithmetic on the box and the
//! host's; here are the handles themselves, in the order a canvas draws
//! them.

use vstd::prelude::*;

verus! {

/// One of the eight resize handles on a selection's bounds.
#[derive(Clone, Copy, Debug, PartialEq, Eq, Hash, Structural)]
pub enum Handle {
    TopLeft,
    Top,
    TopRight,
    Right,
    BottomRight,
    Bottom,
    BottomLeft,
    Left,
}

/// Every handle, clockwise from the top-left.
pub open spec fn handle_order() -> Seq<Handle> {
    seq![
        Handle::TopLeft,
        Handle::Top,
        Handle::TopRight,
        Handle::Right,
        Handle::BottomRight,
        Handle::Bottom,
        Handle::BottomLeft,
        Handle::Left,
    ]
}

impl Handle {
    /// Every handle, clockwise from the top-left.
    pub fn all() -> (r: [Handle; 8])
        ensures
            r@ == handle_order(),
    {
        let r = [
            Handle::TopLeft,
            Handle::Top,
            Handle::TopRight,
            Handle::Right,
            Handle::BottomRight,
            Handle::Bottom,
            Handle::BottomLeft,
            Handle::Left,
        ];
        assert(r@ =~= handle_order());
        r
    }
}

/// Every handle is among them, once.
pub proof fn lemma_every_handle_once(h: Handle)
    ensures
        handle_order().contains(h),
        handle_order().no_duplicates(),
{
    let o = handle_order();
    assert(o[0] == Handle::TopLeft && o[1] == Handle::Top && o[2] == Handle::TopRight && o[3]
        == Handle::Right && o[4] == Handle::BottomRight && o[5] == Handle::Bottom && o[6]
        == Handle::BottomLeft && o[7] == Handle::Left);
    match h {
        Handle::TopLeft => assert(o[0] == h),
        Handle::Top => assert(o[1] == h),
        Handle::TopRight => assert(o[2] == h),
        Handle::Right => assert(o[3] == h),
        Handle::BottomRight => assert(o[4] == h),
        Handle::Bottom => assert(o[5] == h),
        Handle::BottomLeft => assert(o[6] == h),
        Handle::Left => assert(o[7] == h),
    }
}

} // verus!
