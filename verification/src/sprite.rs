//! Sprites: which part of a sprite sheet is drawn, and how an animation
//! steps through its frames.

use vstd::prelude::*;
use crate::rect::{saturate, saturating, Rect};

verus! {

/// Side length of one sprite on a sheet, in sheet pixels.
pub const SPRITE_SIZE: u32 = 16;

/// Milliseconds by which every drawing moves an animation on, besides the
/// time that has passed.
pub const DRAW_MS: u32 = 10;

/// A sprite that always shows the same cell of its sheet.
#[derive(Clone, Copy, Debug, PartialEq, Eq, Structural)]
pub struct StaticSprite {
    /// Left edge of the cell on the sheet.
    pub x: i32,
    /// Top edge of the cell on the sheet.
    pub y: i32,
    /// Whether the sprite is drawn mirrored left to right.
    pub flip_horizontal: bool,
    /// Whether the sprite is drawn mirrored top to bottom.
    pub flip_vertical: bool,
}

impl StaticSprite {
    /// The rectangle of the sheet that the sprite shows.
    pub open spec fn source(self) -> Rect {
        Rect { x: self.x, y: self.y, width: SPRITE_SIZE, height: SPRITE_SIZE }
    }

    /// An unflipped sprite whose sheet cell has its corner at `(x, y)`.
    pub fn new(x: i32, y: i32) -> (sprite: StaticSprite)
        ensures
            sprite == (StaticSprite { x, y, flip_horizontal: false, flip_vertical: false }),
    {
        StaticSprite { x, y, flip_horizontal: false, flip_vertical: false }
    }

    /// The rectangle of the sheet to draw from.
    pub fn source_rect(&self) -> (r: Rect)
        ensures
            r == self.source(),
    {
        Rect::new(self.x, self.y, SPRITE_SIZE, SPRITE_SIZE)
    }
}

/// What an animated sprite holds: a strip of `frames` cells on the sheet
/// that starts at `(x, y)`, the cell shown now, and the clock that decides
/// when the next one is due.
pub struct Reel {
    /// Left edge of the first cell on the sheet.
    pub x: i32,
    /// Top edge of the cells on the sheet.
    pub y: i32,
    /// Whether the sprite is drawn mirrored left to right.
    pub flip_horizontal: bool,
    /// Whether the sprite is drawn mirrored top to bottom.
    pub flip_vertical: bool,
    /// Number of cells in the strip.
    pub frames: u32,
    /// Milliseconds for which one cell is shown.
    pub frame_time: u32,
    /// The cell shown now, counted from 0.
    pub frame: u32,
    /// Milliseconds for which the cell has been shown.
    pub time: u32,
}

impl Reel {
    /// The strip has a cell, a cell is shown for some time, and the cell and
    /// the clock are within their range.
    pub open spec fn wf(self) -> bool {
        &&& 0 < self.frames
        &&& 0 < self.frame_time
        &&& self.frame < self.frames
        &&& self.time < self.frame_time
    }

    /// The reel after a drawing that comes `elapsed` milliseconds after the
    /// last: the clock moves on by that and by `DRAW_MS`, every whole
    /// `frame_time` on it moves the strip on by one cell, and the strip
    /// starts over after its last cell.
    pub open spec fn advanced(self, elapsed: u32) -> Reel {
        let clock = self.time + DRAW_MS + elapsed;
        Reel {
            frame: ((self.frame + clock / (self.frame_time as int)) % (self.frames as int)) as u32,
            time: (clock % (self.frame_time as int)) as u32,
            ..self
        }
    }

    /// The rectangle of the sheet that the reel shows.
    pub open spec fn source(self) -> Rect {
        Rect {
            x: saturate(self.x + self.frame * SPRITE_SIZE) as i32,
            y: self.y,
            width: SPRITE_SIZE,
            height: SPRITE_SIZE,
        }
    }
}

/// The milliseconds for which an animation of `fps` cells a second shows
/// one cell: the whole milliseconds in a second's share, and one
/// millisecond where the share is less.
pub open spec fn frame_time_at(fps: u32) -> u32 {
    if fps > 1_000 {
        1
    } else {
        (1_000int / fps as int) as u32
    }
}

/// A sprite that steps through a strip of cells of its sheet.
pub struct AnimatedSprite {
    x: i32,
    y: i32,
    flip_horizontal: bool,
    flip_vertical: bool,
    frames: u32,
    frame_time: u32,
    frame: u32,
    time: u32,
}

impl View for AnimatedSprite {
    type V = Reel;

    closed spec fn view(&self) -> Reel {
        Reel {
            x: self.x,
            y: self.y,
            flip_horizontal: self.flip_horizontal,
            flip_vertical: self.flip_vertical,
            frames: self.frames,
            frame_time: self.frame_time,
            frame: self.frame,
            time: self.time,
        }
    }
}

impl AnimatedSprite {
    /// Every animated sprite that exists is well formed.
    #[verifier::type_invariant]
    pub open spec fn well_formed(&self) -> bool {
        self@.wf()
    }

    /// An unflipped animation of `frames` cells that starts at `(x, y)` of
    /// the sheet and shows `fps` cells a second, at its first cell. A cell
    /// is shown for a whole number of milliseconds, and for one at least.
    pub fn new(x: i32, y: i32, frames: u32, fps: u32) -> (sprite: AnimatedSprite)
        requires
            0 < frames,
            0 < fps,
        ensures
            sprite@ == (Reel {
                x,
                y,
                flip_horizontal: false,
                flip_vertical: false,
                frames,
                frame_time: frame_time_at(fps),
                frame: 0,
                time: 0,
            }),
    {
        let frame_time: u32 = if fps > 1_000 {
            1
        } else {
            1_000 / fps
        };
        assert(frame_time >= 1) by (nonlinear_arith)
            requires
                0 < fps,
                frame_time == (if fps > 1_000 {
                    1
                } else {
                    1_000int / fps as int
                }),
        ;
        AnimatedSprite {
            x,
            y,
            flip_horizontal: false,
            flip_vertical: false,
            frames,
            frame_time,
            frame: 0,
            time: 0,
        }
    }

    /// Draws the sprite mirrored left to right, or not.
    pub fn set_flip_horizontal(&mut self, flip: bool)
        ensures
            final(self)@ == (Reel { flip_horizontal: flip, ..old(self)@ }),
    {
        proof {
            use_type_invariant(&*self);
        }
        self.flip_horizontal = flip;
    }

    /// Draws the sprite mirrored top to bottom, or not.
    pub fn set_flip_vertical(&mut self, flip: bool)
        ensures
            final(self)@ == (Reel { flip_vertical: flip, ..old(self)@ }),
    {
        proof {
            use_type_invariant(&*self);
        }
        self.flip_vertical = flip;
    }

    /// Whether the sprite is drawn mirrored left to right.
    pub fn flip_horizontal(&self) -> (flip: bool)
        ensures
            flip == self@.flip_horizontal,
    {
        self.flip_horizontal
    }

    /// Whether the sprite is drawn mirrored top to bottom.
    pub fn flip_vertical(&self) -> (flip: bool)
        ensures
            flip == self@.flip_vertical,
    {
        self.flip_vertical
    }

    /// Moves the animation on for a drawing that comes `elapsed`
    /// milliseconds after the last.
    pub fn advance(&mut self, elapsed: u32)
        ensures
            final(self)@ == old(self)@.advanced(elapsed),
    {
        proof {
            use_type_invariant(&*self);
        }
        let clock: u64 = self.time as u64 + DRAW_MS as u64 + elapsed as u64;
        let steps: u64 = clock / self.frame_time as u64;
        let frame: u64 = (self.frame as u64 + steps) % self.frames as u64;
        let time: u64 = clock % self.frame_time as u64;
        self.frame = frame as u32;
        self.time = time as u32;
    }

    /// The rectangle of the sheet to draw from.
    pub fn source_rect(&self) -> (r: Rect)
        ensures
            r == self@.source(),
    {
        let offset: i64 = self.frame as i64 * 16;
        assert(offset == self.frame * SPRITE_SIZE);
        Rect::new(
            saturating(self.x as i64 + offset),
            self.y,
            SPRITE_SIZE,
            SPRITE_SIZE,
        )
    }
}

} // verus!
