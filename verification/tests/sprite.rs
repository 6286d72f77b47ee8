use super_matte_bros::player::Player;
use super_matte_bros::player_components::{Drawing, PlayerGraphicsComponent};
use super_matte_bros::rect::Rect;
use super_matte_bros::sprite::{AnimatedSprite, StaticSprite, DRAW_MS, SPRITE_SIZE};

fn on_ground(dx: i32) -> Player {
    let mut player = Player::new(0, 0);
    player.on_ground = true;
    player.dx = dx;
    player
}

#[test]
fn static_sprite_shows_one_cell() {
    let sprite = StaticSprite::new(16, 0);
    assert_eq!(sprite.source_rect(), Rect::new(16, 0, 16, 16));
    assert!(!sprite.flip_horizontal);
    assert!(!sprite.flip_vertical);
    assert_eq!(SPRITE_SIZE, 16);
    assert_eq!(StaticSprite::new(-3, 9).source_rect(), Rect::new(-3, 9, 16, 16));
}

#[test]
fn animated_sprite_starts_at_its_first_cell() {
    let sprite = AnimatedSprite::new(96, 32, 3, 10);
    assert_eq!(sprite.source_rect(), Rect::new(96, 32, 16, 16));
    assert!(!sprite.flip_horizontal());
    assert!(!sprite.flip_vertical());
}

#[test]
fn animated_sprite_steps_once_per_frame_time() {
    assert_eq!(DRAW_MS, 10);
    let mut sprite = AnimatedSprite::new(96, 32, 3, 10);
    // 10 + 89 = 99 of the 100 milliseconds of a cell.
    sprite.advance(89);
    assert_eq!(sprite.source_rect(), Rect::new(96, 32, 16, 16));
    // 99 + 10 + 0 = 109: one step, 9 left.
    sprite.advance(0);
    assert_eq!(sprite.source_rect(), Rect::new(112, 32, 16, 16));
    // 9 + 10 + 80 = 99: none.
    sprite.advance(80);
    assert_eq!(sprite.source_rect(), Rect::new(112, 32, 16, 16));
    // 99 + 10 + 91 = 200: two steps, back at the first cell.
    sprite.advance(91);
    assert_eq!(sprite.source_rect(), Rect::new(96, 32, 16, 16));
    // 0 + 10 + 190 = 200: two steps.
    sprite.advance(190);
    assert_eq!(sprite.source_rect(), Rect::new(128, 32, 16, 16));
}

#[test]
fn animated_sprite_takes_long_pauses() {
    let mut sprite = AnimatedSprite::new(96, 32, 3, 10);
    // 10 + 4294967295 = 4294967305: 42949673 steps, and 42949673 = 3 * 14316557 + 2.
    sprite.advance(u32::MAX);
    assert_eq!(sprite.source_rect(), Rect::new(128, 32, 16, 16));
    // 5 + 10 + 85 = 100: one step.
    sprite.advance(85);
    assert_eq!(sprite.source_rect(), Rect::new(96, 32, 16, 16));
}

#[test]
fn animated_sprite_frame_time_is_a_whole_number_of_milliseconds() {
    // 1000 / 3 = 333.
    let mut sprite = AnimatedSprite::new(0, 0, 2, 3);
    sprite.advance(322);
    assert_eq!(sprite.source_rect(), Rect::new(0, 0, 16, 16));
    sprite.advance(0);
    assert_eq!(sprite.source_rect(), Rect::new(16, 0, 16, 16));
    // One millisecond a cell.
    let mut sprite = AnimatedSprite::new(0, 0, 7, 1_000);
    sprite.advance(0);
    assert_eq!(sprite.source_rect(), Rect::new(48, 0, 16, 16));
    // Faster than a cell a millisecond: one millisecond a cell all the same.
    let mut sprite = AnimatedSprite::new(0, 0, 7, 5_000);
    sprite.advance(0);
    assert_eq!(sprite.source_rect(), Rect::new(48, 0, 16, 16));
    let mut sprite = AnimatedSprite::new(0, 0, 7, u32::MAX);
    sprite.advance(1);
    assert_eq!(sprite.source_rect(), Rect::new(64, 0, 16, 16));
    // One cell only.
    let mut sprite = AnimatedSprite::new(5, 6, 1, 10);
    sprite.advance(1_000);
    assert_eq!(sprite.source_rect(), Rect::new(5, 6, 16, 16));
}

#[test]
fn animated_sprite_flips() {
    let mut sprite = AnimatedSprite::new(96, 32, 3, 10);
    sprite.set_flip_horizontal(true);
    assert!(sprite.flip_horizontal());
    assert!(!sprite.flip_vertical());
    sprite.set_flip_vertical(true);
    sprite.set_flip_horizontal(false);
    assert!(!sprite.flip_horizontal());
    assert!(sprite.flip_vertical());
    assert_eq!(sprite.source_rect(), Rect::new(96, 32, 16, 16));
}

#[test]
fn animated_sprite_source_stays_within_i32() {
    let mut sprite = AnimatedSprite::new(i32::MAX - 10, 0, 3, 10);
    sprite.advance(90);
    assert_eq!(sprite.source_rect(), Rect::new(i32::MAX, 0, 16, 16));
}

#[test]
fn a_player_in_the_air_is_drawn_jumping() {
    let mut graphics = PlayerGraphicsComponent::new();
    let mut player = Player::new(0, 0);
    player.dx = -700;
    assert_eq!(
        graphics.render(&player, 500),
        Drawing { source: Rect::new(160, 32, 16, 16), flip_horizontal: false, flip_vertical: false }
    );
}

#[test]
fn a_player_at_rest_is_drawn_standing() {
    let mut graphics = PlayerGraphicsComponent::new();
    assert_eq!(
        graphics.render(&on_ground(0), 500),
        Drawing { source: Rect::new(80, 32, 16, 16), flip_horizontal: false, flip_vertical: false }
    );
}

#[test]
fn a_running_player_is_animated_and_faces_the_way_it_runs() {
    let mut graphics = PlayerGraphicsComponent::new();
    assert_eq!(
        graphics.render(&on_ground(-5), 0),
        Drawing { source: Rect::new(96, 32, 16, 16), flip_horizontal: true, flip_vertical: false }
    );
    // 10 + 10 + 80 = 100 milliseconds: the next cell.
    assert_eq!(
        graphics.render(&on_ground(-5), 80),
        Drawing { source: Rect::new(112, 32, 16, 16), flip_horizontal: true, flip_vertical: false }
    );
    assert_eq!(
        graphics.render(&on_ground(5), 90),
        Drawing { source: Rect::new(128, 32, 16, 16), flip_horizontal: false, flip_vertical: false }
    );
}

#[test]
fn the_player_keeps_facing_the_way_it_last_ran() {
    let mut graphics = PlayerGraphicsComponent::new();
    graphics.render(&on_ground(-5), 0);
    assert_eq!(
        graphics.render(&on_ground(0), 0),
        Drawing { source: Rect::new(80, 32, 16, 16), flip_horizontal: true, flip_vertical: false }
    );
    let mut jumping = Player::new(0, 0);
    jumping.dx = 300;
    assert_eq!(
        graphics.render(&jumping, 0),
        Drawing { source: Rect::new(160, 32, 16, 16), flip_horizontal: true, flip_vertical: false }
    );
    graphics.render(&on_ground(5), 0);
    assert_eq!(
        graphics.render(&on_ground(0), 0),
        Drawing { source: Rect::new(80, 32, 16, 16), flip_horizontal: false, flip_vertical: false }
    );
}

#[test]
fn the_running_animation_rests_while_another_pose_is_drawn() {
    let mut graphics = PlayerGraphicsComponent::new();
    graphics.render(&on_ground(5), 80);
    graphics.render(&on_ground(0), 5_000);
    graphics.render(&Player::new(0, 0), 5_000);
    // 90 + 10 + 0 = 100 milliseconds on the running clock.
    assert_eq!(
        graphics.render(&on_ground(5), 0),
        Drawing { source: Rect::new(112, 32, 16, 16), flip_horizontal: false, flip_vertical: false }
    );
}
