//! The camera: a viewport that follows a target and stays inside the world.

use vstd::prelude::*;
use crate::rect::{saturate, saturating, Rect};

verus! {

/// Where a viewport of size `view` is placed along one axis to follow a
/// target at `pos` of size `size` inside bounds that start at `bound_pos` and
/// are `bound_size` long: centred on the target's centre, then moved back
/// inside the bounds; at the start of the bounds when they are shorter than
/// the viewport.
pub open spec fn follow(pos: int, size: int, view: int, bound_pos: int, bound_size: int) -> int {
    let centred = pos + size / 2 - view / 2;
    if bound_size < view {
        bound_pos
    } else if centred < bound_pos {
        bound_pos
    } else if centred + view > bound_pos + bound_size {
        bound_pos + bound_size - view
    } else {
        centred
    }
}

/// A viewport into the world.
pub struct Camera {
    x: i32,
    y: i32,
    width: u32,
    height: u32,
    bounding: Rect,
}

impl Camera {
    /// The part of the world that the camera shows.
    pub closed spec fn frame(&self) -> Rect {
        Rect { x: self.x, y: self.y, width: self.width, height: self.height }
    }

    /// The part of the world that the camera may show.
    pub closed spec fn bounds(&self) -> Rect {
        self.bounding
    }

    /// The frame after the camera has been centred on `target`.
    pub open spec fn centred_on(&self, target: Rect) -> Rect {
        Rect {
            x: saturate(
                follow(
                    target.x as int,
                    target.width as int,
                    self.frame().width as int,
                    self.bounds().x as int,
                    self.bounds().width as int,
                ),
            ) as i32,
            y: saturate(
                follow(
                    target.y as int,
                    target.height as int,
                    self.frame().height as int,
                    self.bounds().y as int,
                    self.bounds().height as int,
                ),
            ) as i32,
            width: self.frame().width,
            height: self.frame().height,
        }
    }

    /// `rect` as seen from the camera: moved by the camera's position, its
    /// size kept.
    pub open spec fn relative(&self, rect: Rect) -> Rect {
        Rect {
            x: saturate(rect.x - self.frame().x) as i32,
            y: saturate(rect.y - self.frame().y) as i32,
            width: rect.width,
            height: rect.height,
        }
    }

    /// A camera that shows `width` by `height` world units from `(x, y)` and
    /// is kept within `bounding` whenever it is centred.
    pub fn new(x: i32, y: i32, width: u32, height: u32, bounding: Rect) -> (camera: Camera)
        ensures
            camera.frame() == (Rect { x, y, width, height }),
            camera.bounds() == bounding,
    {
        Camera { x, y, width, height, bounding }
    }

    /// Centres the camera on `object`, then moves it back inside its bounds,
    /// each axis by itself. Along an axis on which the bounds are shorter
    /// than the camera, the camera is put at the start of the bounds.
    pub fn center(&mut self, object: &Rect)
        ensures
            final(self).frame() == old(self).centred_on(*object),
            final(self).bounds() == old(self).bounds(),
            old(self).bounds().width >= old(self).frame().width && old(self).bounds().height >= old(
                self,
            ).frame().height ==> final(self).bounds().encloses(final(self).frame()),
    {
        self.x = Self::place(object.x, object.width, self.width, self.bounding.x, self.bounding.width);
        self.y = Self::place(
            object.y,
            object.height,
            self.height,
            self.bounding.y,
            self.bounding.height,
        );
    }

    /// The camera's position along one axis when it follows a target.
    fn place(pos: i32, size: u32, view: u32, bound_pos: i32, bound_size: u32) -> (at: i32)
        ensures
            at == saturate(
                follow(pos as int, size as int, view as int, bound_pos as int, bound_size as int),
            ),
            bound_size >= view ==> bound_pos <= at && at + view <= bound_pos + bound_size,
    {
        let centred: i64 = pos as i64 + (size / 2) as i64 - (view / 2) as i64;
        let start: i64 = bound_pos as i64;
        let end: i64 = bound_pos as i64 + bound_size as i64;
        if bound_size < view {
            bound_pos
        } else if centred < start {
            bound_pos
        } else if centred + view as i64 > end {
            saturating(end - view as i64)
        } else {
            saturating(centred)
        }
    }

    /// `rect` in viewport coordinates: its position with the camera's
    /// subtracted, its size unchanged.
    pub fn to_relative_rect(&self, rect: &Rect) -> (seen: Rect)
        ensures
            seen == self.relative(*rect),
    {
        Rect::new(
            saturating(rect.x as i64 - self.x as i64),
            saturating(rect.y as i64 - self.y as i64),
            rect.width,
            rect.height,
        )
    }

    /// The part of the world that the camera shows.
    pub fn to_rect(&self) -> (shown: Rect)
        ensures
            shown == self.frame(),
    {
        Rect::new(self.x, self.y, self.width, self.height)
    }
}

/// A camera whose bounds are at least as large as its frame lies wholly
/// within its bounds once it has been centred, wherever the target is.
pub proof fn lemma_centred_stays_in_bounds(camera: Camera, target: Rect)
    requires
        camera.bounds().width >= camera.frame().width,
        camera.bounds().height >= camera.frame().height,
    ensures
        camera.bounds().encloses(camera.centred_on(target)),
{
}

/// Along an axis on which the bounds are shorter than the camera, centring
/// puts the camera at the start of the bounds.
pub proof fn lemma_centred_in_narrow_bounds(camera: Camera, target: Rect)
    ensures
        camera.bounds().width < camera.frame().width ==> camera.centred_on(target).x
            == camera.bounds().x,
        camera.bounds().height < camera.frame().height ==> camera.centred_on(target).y
            == camera.bounds().y,
{
}

} // verus!
