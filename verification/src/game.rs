//! The fixed-timestep loop: the world is advanced in ticks of constant
//! length, however long a frame took.

use vstd::prelude::*;
use crate::camera::Camera;
use crate::player::Player;
use crate::rect::Rect;
use crate::tile::{Grid, Layer, Tile};

verus! {

/// Length of one tick in milliseconds.
pub const MS_PER_UPDATE: u64 = 10;

/// The sum of the time not yet played out and of the time a frame took, held
/// within `u64`.
pub open spec fn pending(lag: int, elapsed: int) -> int {
    if lag + elapsed > u64::MAX {
        u64::MAX as int
    } else {
        lag + elapsed
    }
}

impl Player {
    /// The player after `ticks` whole ticks.
    pub open spec fn stepped_times(self, g: Grid<Tile>, ticks: nat) -> Player
        decreases ticks,
    {
        if ticks == 0 {
            self
        } else {
            self.stepped_times(g, (ticks - 1) as nat).stepped(g)
        }
    }
}

/// The world: the tiles, the player in it, the camera on it, and the time
/// that has passed but has not been played out yet.
pub struct Game {
    /// The tiles.
    pub layer: Layer<Tile>,
    /// The actor.
    pub player: Player,
    /// The viewport.
    pub camera: Camera,
    /// Milliseconds that have passed and are not played out yet.
    pub lag: u64,
}

impl Game {
    /// A world in which no time has passed.
    pub fn new(layer: Layer<Tile>, player: Player, camera: Camera) -> (game: Game)
        ensures
            game.layer == layer,
            game.player == player,
            game.camera == camera,
            game.lag == 0,
    {
        Game { layer, player, camera, lag: 0 }
    }

    /// Plays one tick: gravity acts on the player, the player is moved
    /// against the tiles, and the camera is centred on the player.
    pub fn tick(&mut self)
        ensures
            final(self).layer == old(self).layer,
            final(self).lag == old(self).lag,
            final(self).player == old(self).player.stepped(old(self).layer@),
            final(self).camera.bounds() == old(self).camera.bounds(),
            final(self).camera.frame() == old(self).camera.centred_on(final(self).player.rect()),
    {
        self.player.step(&self.layer);
        let target: Rect = self.player.to_rect();
        self.camera.center(&target);
    }

    /// Adds the `elapsed` milliseconds of a frame to the time not yet played
    /// out and plays one tick for every whole `MS_PER_UPDATE` of it; what is
    /// left stays for the next frame. Returns the number of ticks played.
    pub fn advance(&mut self, elapsed: u64) -> (ticks: u64)
        ensures
            ticks == pending(old(self).lag as int, elapsed as int) / MS_PER_UPDATE as int,
            final(self).lag == pending(old(self).lag as int, elapsed as int) % MS_PER_UPDATE as int,
            final(self).layer == old(self).layer,
            final(self).player == old(self).player.stepped_times(old(self).layer@, ticks as nat),
            final(self).camera.bounds() == old(self).camera.bounds(),
            ticks == 0 ==> final(self).camera == old(self).camera,
            ticks > 0 ==> final(self).camera.frame() == old(self).camera.centred_on(
                final(self).player.rect(),
            ),
    {
        let total: u64 = if elapsed > u64::MAX - self.lag {
            u64::MAX
        } else {
            self.lag + elapsed
        };
        self.lag = total;
        let mut ticks: u64 = 0;
        while self.lag >= MS_PER_UPDATE
            invariant
                total == pending(old(self).lag as int, elapsed as int),
                total == ticks * MS_PER_UPDATE + self.lag,
                self.layer == old(self).layer,
                self.player == old(self).player.stepped_times(old(self).layer@, ticks as nat),
                self.camera.bounds() == old(self).camera.bounds(),
                self.camera.frame().width == old(self).camera.frame().width,
                self.camera.frame().height == old(self).camera.frame().height,
                ticks == 0 ==> self.camera == old(self).camera,
                ticks > 0 ==> self.camera.frame() == old(self).camera.centred_on(self.player.rect()),
            decreases self.lag,
        {
            self.tick();
            self.lag = self.lag - MS_PER_UPDATE;
            ticks = ticks + 1;
        }
        ticks
    }
}

} // verus!
