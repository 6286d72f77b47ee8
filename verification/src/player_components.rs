//! The components of the player: what moves it, and how it is drawn.

use vstd::prelude::*;
use crate::player::{Player, GRAVITY};
use crate::rect::Rect;
use crate::sprite::{AnimatedSprite, Reel, StaticSprite};
use crate::tile::{Layer, Tile};

verus! {

/// Moves the player by the rules of the world.
#[derive(Clone, Copy, Debug, PartialEq, Eq, Structural)]
pub struct PlayerPhysicsComponent {
    /// Horizontal speed a player starts with.
    pub dx: i32,
    /// Vertical speed a player starts with.
    pub dy: i32,
    /// Downward acceleration a player starts with.
    pub gravity: i32,
}

impl PlayerPhysicsComponent {
    /// The physics of a player that starts at rest under the usual gravity.
    pub fn new() -> (component: PlayerPhysicsComponent)
        ensures
            component == (PlayerPhysicsComponent { dx: 0, dy: 0, gravity: GRAVITY }),
    {
        PlayerPhysicsComponent { dx: 0, dy: 0, gravity: GRAVITY }
    }

    /// Plays the velocity of `object` out against the solid tiles of
    /// `layer`, as [`Player::resolve`] does.
    pub fn update(&self, object: &mut Player, layer: &Layer<Tile>)
        ensures
            *final(object) == old(object).resolved(layer@),
    {
        object.resolve(layer);
    }
}

/// What the player is seen doing.
#[derive(Clone, Copy, Debug, PartialEq, Eq, Structural)]
pub enum Pose {
    /// In the air.
    Jumping,
    /// On the ground and still.
    Standing,
    /// On the ground and moving.
    Running,
}

impl Player {
    /// What the player is seen doing.
    pub open spec fn pose(self) -> Pose {
        if !self.on_ground {
            Pose::Jumping
        } else if self.dx == 0 {
            Pose::Standing
        } else {
            Pose::Running
        }
    }
}

/// What is to be drawn: a rectangle of the sprite sheet, and how it is
/// mirrored.
#[derive(Clone, Copy, Debug, PartialEq, Eq, Structural)]
pub struct Drawing {
    /// The rectangle of the sheet to draw from.
    pub source: Rect,
    /// Whether to mirror it left to right.
    pub flip_horizontal: bool,
    /// Whether to mirror it top to bottom.
    pub flip_vertical: bool,
}

/// What a graphics component holds: the way the player faces and a sprite
/// for each pose.
pub struct Look {
    /// Whether the player faces left.
    pub flip_horizontal: bool,
    /// Shown while the player stands.
    pub standing: StaticSprite,
    /// Shown while the player runs.
    pub running: Reel,
    /// Shown while the player is in the air.
    pub jumping: StaticSprite,
}

impl Look {
    /// The look after `object` has been drawn `elapsed` milliseconds after
    /// the last drawing: the sprite of the player's pose faces the way the
    /// player does, and the running animation has moved on if it was shown.
    pub open spec fn rendered(self, object: Player, elapsed: u32) -> Look {
        match object.pose() {
            Pose::Jumping => Look {
                jumping: StaticSprite { flip_horizontal: self.flip_horizontal, ..self.jumping },
                ..self
            },
            Pose::Standing => Look {
                standing: StaticSprite { flip_horizontal: self.flip_horizontal, ..self.standing },
                ..self
            },
            Pose::Running => Look {
                flip_horizontal: object.dx < 0,
                running: (Reel { flip_horizontal: object.dx < 0, ..self.running }).advanced(elapsed),
                ..self
            },
        }
    }

    /// What is drawn of `object` by a look that has just been `rendered`
    /// for it.
    pub open spec fn drawing(self, object: Player) -> Drawing {
        match object.pose() {
            Pose::Jumping => Drawing {
                source: self.jumping.source(),
                flip_horizontal: self.jumping.flip_horizontal,
                flip_vertical: self.jumping.flip_vertical,
            },
            Pose::Standing => Drawing {
                source: self.standing.source(),
                flip_horizontal: self.standing.flip_horizontal,
                flip_vertical: self.standing.flip_vertical,
            },
            Pose::Running => Drawing {
                source: self.running.source(),
                flip_horizontal: self.running.flip_horizontal,
                flip_vertical: self.running.flip_vertical,
            },
        }
    }
}

/// Picks the sprite that shows the player and remembers which way the
/// player faces.
pub struct PlayerGraphicsComponent {
    flip_horizontal: bool,
    sprite_standing: StaticSprite,
    sprite_running: AnimatedSprite,
    sprite_jumping: StaticSprite,
}

impl View for PlayerGraphicsComponent {
    type V = Look;

    closed spec fn view(&self) -> Look {
        Look {
            flip_horizontal: self.flip_horizontal,
            standing: self.sprite_standing,
            running: self.sprite_running@,
            jumping: self.sprite_jumping,
        }
    }
}

impl PlayerGraphicsComponent {
    /// The sprites of the player's sheet, the player facing right.
    pub fn new() -> (component: PlayerGraphicsComponent)
        ensures
            component@ == (Look {
                flip_horizontal: false,
                standing: StaticSprite { x: 80, y: 32, flip_horizontal: false, flip_vertical: false },
                running: Reel {
                    x: 96,
                    y: 32,
                    flip_horizontal: false,
                    flip_vertical: false,
                    frames: 3,
                    frame_time: 100,
                    frame: 0,
                    time: 0,
                },
                jumping: StaticSprite { x: 160, y: 32, flip_horizontal: false, flip_vertical: false },
            }),
    {
        PlayerGraphicsComponent {
            flip_horizontal: false,
            sprite_standing: StaticSprite::new(80, 32),
            sprite_running: AnimatedSprite::new(96, 32, 3, 10),
            sprite_jumping: StaticSprite::new(160, 32),
        }
    }

    /// Decides what is drawn of `object`, `elapsed` milliseconds after the
    /// last drawing: the jumping sprite in the air, the standing sprite at
    /// rest, else the running animation, moved on by the time passed. A
    /// running player faces the way it runs; otherwise it faces as before.
    pub fn render(&mut self, object: &Player, elapsed: u32) -> (drawing: Drawing)
        ensures
            final(self)@ == old(self)@.rendered(*object, elapsed),
            drawing == final(self)@.drawing(*object),
    {
        if !object.on_ground {
            self.sprite_jumping.flip_horizontal = self.flip_horizontal;
            Drawing {
                source: self.sprite_jumping.source_rect(),
                flip_horizontal: self.sprite_jumping.flip_horizontal,
                flip_vertical: self.sprite_jumping.flip_vertical,
            }
        } else if object.dx == 0 {
            self.sprite_standing.flip_horizontal = self.flip_horizontal;
            Drawing {
                source: self.sprite_standing.source_rect(),
                flip_horizontal: self.sprite_standing.flip_horizontal,
                flip_vertical: self.sprite_standing.flip_vertical,
            }
        } else {
            if object.dx < 0 {
                self.sprite_running.set_flip_horizontal(true);
                self.flip_horizontal = true;
            } else {
                self.sprite_running.set_flip_horizontal(false);
                self.flip_horizontal = false;
            }
            self.sprite_running.advance(elapsed);
            Drawing {
                source: self.sprite_running.source_rect(),
                flip_horizontal: self.sprite_running.flip_horizontal(),
                flip_vertical: self.sprite_running.flip_vertical(),
            }
        }
    }
}

} // verus!
