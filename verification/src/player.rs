//! The actor: a box with a velocity that gravity pulls down.

use vstd::prelude::*;
use crate::rect::Rect;

verus! {

/// World units per screen pixel: positions and speeds are kept in
/// thousandths of a pixel.
pub const UNITS_PER_PIXEL: i32 = 1000;

/// Width and height of a new player, in world units.
pub const PLAYER_SIZE: u32 = 32_000;

/// Downward acceleration of a new player, in world units per tick per tick.
pub const GRAVITY: i32 = 300;

/// The greatest vertical speed in either direction, in world units per tick.
pub const TERMINAL_VELOCITY: i32 = 8_000;

/// The horizontal speed that a held direction key pulls the player toward.
pub const SPEED_X: i32 = 4_000;

/// The horizontal speed at or below which a player that slows down on the
/// ground comes to a stop.
pub const THRESHOLD_X: i32 = 200;

/// Share, in hundredths, by which the speed nears `SPEED_X` per frame while
/// the player already moves in the direction held.
pub const ACCELERATION_X_START: i32 = 2;

/// Share, in hundredths, of its speed that the player loses per frame on the
/// ground when no direction is held.
pub const ACCELERATION_X_STOP: i32 = 15;

/// Share, in hundredths, by which the speed nears `SPEED_X` per frame while
/// the player sets out or turns round.
pub const ACCELERATION_X_CHANGE: i32 = 6;

/// The upward speed of a jump.
pub const JUMP_SPEED: i32 = 8_000;

/// The upward speed that is left of a jump when its key is let go early.
pub const JUMP_CUT: i32 = 4_000;

/// A hundredth of `n`, rounded away from zero.
pub open spec fn hundredth_up(n: int) -> int {
    if n >= 0 {
        (n + 99) / 100
    } else {
        -((-n + 99) / 100)
    }
}

/// The speed after a step of `share` hundredths of the way from `speed` to
/// `target`. The step is rounded away from zero: a speed that has not
/// reached the target moves on by a unit at least, and so arrives.
pub open spec fn blend(share: int, target: int, speed: int) -> int {
    speed + hundredth_up(share * (target - speed))
}

/// The speed of a player that slows down on the ground: less by
/// `ACCELERATION_X_STOP` hundredths, and none once that is within
/// `THRESHOLD_X` of standing.
pub open spec fn slowed(speed: int) -> int {
    let less = blend(ACCELERATION_X_STOP as int, 0, speed);
    if -THRESHOLD_X <= less <= THRESHOLD_X {
        0
    } else {
        less
    }
}

/// A step toward the target leads on and not past it: the new speed lies
/// between the old one and the target, and differs from the old one unless
/// that was the target already.
pub proof fn lemma_blend_moves_on(share: int, target: int, speed: int)
    requires
        0 < share <= 100,
    ensures
        speed < target ==> speed < blend(share, target, speed) <= target,
        target < speed ==> target <= blend(share, target, speed) < speed,
        speed == target ==> blend(share, target, speed) == target,
{
    let way = target - speed;
    let part = share * way;
    assert(way > 0 ==> 0 < part <= 100 * way) by (nonlinear_arith)
        requires
            0 < share <= 100,
            part == share * way,
    ;
    assert(way < 0 ==> 100 * way <= part < 0) by (nonlinear_arith)
        requires
            0 < share <= 100,
            part == share * way,
    ;
    assert(way == 0 ==> part == 0) by (nonlinear_arith)
        requires
            part == share * way,
    ;
}

/// What the person at the keyboard asks of the player in one frame.
#[derive(Clone, Copy, Debug, PartialEq, Eq, Structural)]
pub struct Controls {
    /// The key for going right is down.
    pub right: bool,
    /// The key for going left is down.
    pub left: bool,
    /// The key for jumping went down in this frame.
    pub jump: bool,
    /// The key for jumping went up in this frame.
    pub jump_released: bool,
}

/// The vertical speed after one tick of `gravity`, held within the terminal
/// velocity.
pub open spec fn fall_speed(dy: int, gravity: int) -> int {
    if dy + gravity > TERMINAL_VELOCITY {
        TERMINAL_VELOCITY as int
    } else if dy + gravity < -TERMINAL_VELOCITY {
        -TERMINAL_VELOCITY
    } else {
        dy + gravity
    }
}

/// The speed after a step of `share` hundredths of the way from `speed` to
/// `target`; it lies between the two.
fn blended(share: i32, target: i32, speed: i32) -> (mixed: i32)
    requires
        0 <= share <= 100,
    ensures
        mixed == blend(share as int, target as int, speed as int),
        target <= speed ==> target <= mixed <= speed,
        speed <= target ==> speed <= mixed <= target,
{
    let way: i64 = target as i64 - speed as i64;
    assert((way >= 0 ==> 0 <= share * way <= 100 * way) && (way <= 0 ==> 100 * way <= share * way
        <= 0)) by (nonlinear_arith)
        requires
            0 <= share <= 100,
    ;
    let part: i64 = share as i64 * way;
    let step: i64 = if part >= 0 {
        (part + 99) / 100
    } else {
        -((-part + 99) / 100)
    };
    (speed as i64 + step) as i32
}

/// The moving actor. Positions, sizes and speeds are in world units; speeds
/// are per tick.
#[derive(Clone, Copy, Debug, PartialEq, Eq, Structural)]
pub struct Player {
    /// Left edge.
    pub x: i32,
    /// Top edge.
    pub y: i32,
    /// Width.
    pub w: u32,
    /// Height.
    pub h: u32,
    /// Horizontal speed, positive to the right.
    pub dx: i32,
    /// Vertical speed, positive downward.
    pub dy: i32,
    /// Downward acceleration.
    pub gravity: i32,
    /// Whether the last tick ended with the player held up by a solid tile.
    pub on_ground: bool,
}

impl Player {
    /// The player's box.
    pub open spec fn rect(self) -> Rect {
        Rect { x: self.x, y: self.y, width: self.w, height: self.h }
    }

    /// The player after gravity has acted for one tick.
    pub open spec fn updated(self) -> Player {
        Player { dy: fall_speed(self.dy as int, self.gravity as int) as i32, ..self }
    }

    /// The horizontal speed that `controls` leave the player with. A held
    /// direction pulls the speed toward `SPEED_X` that way, unless the
    /// player flies the other way; with no direction in force the player
    /// slows down on the ground and keeps its speed in the air.
    pub open spec fn steered_dx(self, controls: Controls) -> int {
        if controls.right && (self.dx >= 0 || self.on_ground) {
            blend(
                if self.dx > 0 {
                    ACCELERATION_X_START as int
                } else {
                    ACCELERATION_X_CHANGE as int
                },
                SPEED_X as int,
                self.dx as int,
            )
        } else if controls.left && (self.dx <= 0 || self.on_ground) {
            blend(
                if self.dx < 0 {
                    ACCELERATION_X_START as int
                } else {
                    ACCELERATION_X_CHANGE as int
                },
                -SPEED_X,
                self.dx as int,
            )
        } else if self.on_ground {
            slowed(self.dx as int)
        } else {
            self.dx as int
        }
    }

    /// Whether `controls` make the player jump: only from the ground.
    pub open spec fn jumps(self, controls: Controls) -> bool {
        self.on_ground && controls.jump
    }

    /// The vertical speed that `controls` leave the player with: that of a
    /// jump when it jumps, and no more than `JUMP_CUT` upward once the jump
    /// key has been let go.
    pub open spec fn steered_dy(self, controls: Controls) -> int {
        let dy = if self.jumps(controls) {
            -JUMP_SPEED
        } else {
            self.dy as int
        };
        if controls.jump_released && dy < -JUMP_CUT {
            -JUMP_CUT
        } else {
            dy
        }
    }

    /// The player after `controls` have been applied.
    pub open spec fn steered(self, controls: Controls) -> Player {
        Player {
            dx: self.steered_dx(controls) as i32,
            dy: self.steered_dy(controls) as i32,
            on_ground: self.on_ground && !self.jumps(controls),
            ..self
        }
    }

    /// A player at rest in the air with its top left corner at `(x, y)`.
    pub fn new(x: i32, y: i32) -> (player: Player)
        ensures
            player == (Player {
                x,
                y,
                w: PLAYER_SIZE,
                h: PLAYER_SIZE,
                dx: 0,
                dy: 0,
                gravity: GRAVITY,
                on_ground: false,
            }),
    {
        Player { x, y, w: PLAYER_SIZE, h: PLAYER_SIZE, dx: 0, dy: 0, gravity: GRAVITY, on_ground: false }
    }

    /// Lets gravity act for one tick: adds `gravity` to the vertical speed and
    /// holds the result within the terminal velocity.
    pub fn update(&mut self)
        ensures
            *final(self) == old(self).updated(),
    {
        let speed: i64 = self.dy as i64 + self.gravity as i64;
        if speed > TERMINAL_VELOCITY as i64 {
            self.dy = TERMINAL_VELOCITY;
        } else if speed < -(TERMINAL_VELOCITY as i64) {
            self.dy = -TERMINAL_VELOCITY;
        } else {
            self.dy = speed as i32;
        }
    }

    /// Applies what the keyboard asks for in one frame: sets the horizontal
    /// speed by the direction held, starts a jump from the ground, and cuts a
    /// jump short when its key is let go.
    pub fn steer(&mut self, controls: &Controls)
        ensures
            *final(self) == old(self).steered(*controls),
    {
        if controls.right && (self.dx >= 0 || self.on_ground) {
            let share: i32 = if self.dx > 0 {
                ACCELERATION_X_START
            } else {
                ACCELERATION_X_CHANGE
            };
            self.dx = blended(share, SPEED_X, self.dx);
        } else if controls.left && (self.dx <= 0 || self.on_ground) {
            let share: i32 = if self.dx < 0 {
                ACCELERATION_X_START
            } else {
                ACCELERATION_X_CHANGE
            };
            self.dx = blended(share, -SPEED_X, self.dx);
        } else if self.on_ground {
            let less: i32 = blended(ACCELERATION_X_STOP, 0, self.dx);
            if -THRESHOLD_X <= less && less <= THRESHOLD_X {
                self.dx = 0;
            } else {
                self.dx = less;
            }
        }
        if self.on_ground {
            if controls.jump {
                self.dy = -JUMP_SPEED;
                self.on_ground = false;
            }
        }
        if controls.jump_released {
            if self.dy < -JUMP_CUT {
                self.dy = -JUMP_CUT;
            }
        }
    }

    /// The player's box.
    pub fn to_rect(&self) -> (r: Rect)
        ensures
            r == self.rect(),
    {
        Rect::new(self.x, self.y, self.w, self.h)
    }
}

} // verus!
