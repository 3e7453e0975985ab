use polymorph::cave::Cave;
use polymorph::level::{next_level, LevelTransitioning};
use polymorph::player::{move_player, set_jumping_false, Contact, Keys, Motion, Player};
use polymorph::player::{JUMP_BOOST, PLAYER_HEIGHT, PLAYER_WIDTH, WALK_SPEED};
use polymorph::shape::SquarePos;
use polymorph::transformer::{apply_transformations, is_near};
use polymorph::transformer::{Detection, Effect, Proximity, Transformation, Transformer};
use polymorph::transformer::TransformerAnimState;

const EPSILON: f32 = 0.01;

fn measure(distance: f32, radius: f32) -> Proximity {
    if !(distance < radius) {
        Proximity::Far
    } else if distance < EPSILON {
        Proximity::AtCentre
    } else {
        Proximity::Near
    }
}

fn zone(id: usize, transformation: Transformation, proximity: Proximity) -> Detection {
    Detection { transformer: Transformer::new(id, transformation), proximity }
}

fn player_in(state: TransformerAnimState, cells: &[(i32, i32)]) -> Player {
    let mut player = Player::new();
    player.squares = cells.iter().map(|c| SquarePos(c.0, c.1)).collect();
    player.transformer_anim_state = state;
    player
}

fn cells(player: &Player) -> Vec<(i32, i32)> {
    player.squares.iter().map(|s| (s.0, s.1)).collect()
}

fn keys(left: bool, right: bool, up: bool) -> Keys {
    Keys { left, right, up }
}

#[test]
fn transformer_new_keeps_its_arguments() {
    let transformer = Transformer::new(7, Transformation::AddTop);
    assert_eq!(transformer.id, 7);
    assert_eq!(transformer.transformation, Transformation::AddTop);
}

#[test]
fn a_player_at_rest_is_caught_by_a_near_zone() {
    let mut player = Player::new();
    let detections = vec![zone(3, Transformation::AddRight, measure(5.0, 30.0))];
    let effects = apply_transformations(&mut player, &detections);
    assert_eq!(
        player.transformer_anim_state,
        TransformerAnimState::MovingToward { transformer: 3 }
    );
    assert_eq!(effects, vec![Effect::DisableCollision, Effect::PlayApproachSound]);
    assert_eq!(cells(&player), vec![(0, 0)]);
}

#[test]
fn a_player_that_arrives_is_reshaped_and_turns_back() {
    let mut player =
        player_in(TransformerAnimState::MovingToward { transformer: 3 }, &[(0, 0)]);
    let detections = vec![zone(3, Transformation::AddRight, measure(0.005, 30.0))];
    let effects = apply_transformations(&mut player, &detections);
    assert_eq!(player.transformer_anim_state, TransformerAnimState::MovingAway { transformer: 3 });
    assert_eq!(cells(&player), vec![(0, 0), (1, 0)]);
    assert_eq!(effects, vec![Effect::Reshape]);
}

#[test]
fn no_zone_in_reach_leaves_a_player_at_rest() {
    let mut player = Player::new();
    let detections = vec![
        zone(0, Transformation::AddRight, measure(30.0, 30.0)),
        zone(1, Transformation::AddTop, measure(400.0, 35.0)),
    ];
    let effects = apply_transformations(&mut player, &detections);
    assert_eq!(player.transformer_anim_state, TransformerAnimState::NotAnimating);
    assert!(effects.is_empty());
    let effects = apply_transformations(&mut player, &Vec::new());
    assert_eq!(player.transformer_anim_state, TransformerAnimState::NotAnimating);
    assert!(effects.is_empty());
}

#[test]
fn the_first_zone_in_reach_catches_the_player() {
    let mut player = Player::new();
    let detections = vec![
        zone(0, Transformation::AddRight, Proximity::Far),
        zone(1, Transformation::AddTop, Proximity::Near),
        zone(2, Transformation::RotateCw, Proximity::Near),
    ];
    let effects = apply_transformations(&mut player, &detections);
    assert_eq!(
        player.transformer_anim_state,
        TransformerAnimState::MovingToward { transformer: 1 }
    );
    assert_eq!(effects, vec![Effect::DisableCollision, Effect::PlayApproachSound]);
}

#[test]
fn a_player_caught_at_the_centre_commits_on_the_next_detection_of_that_zone() {
    let mut player = Player::new();
    let detections = vec![zone(5, Transformation::AddTop, Proximity::AtCentre)];
    let effects = apply_transformations(&mut player, &detections);
    assert_eq!(
        player.transformer_anim_state,
        TransformerAnimState::MovingToward { transformer: 5 }
    );
    assert_eq!(effects, vec![Effect::DisableCollision, Effect::PlayApproachSound]);
    assert_eq!(cells(&player), vec![(0, 0)]);
    let effects = apply_transformations(&mut player, &detections);
    assert_eq!(player.transformer_anim_state, TransformerAnimState::MovingAway { transformer: 5 });
    assert_eq!(effects, vec![Effect::Reshape]);
    assert_eq!(cells(&player), vec![(0, 0), (0, 1)]);
}

#[test]
fn a_zone_measured_twice_in_one_tick_catches_and_commits() {
    let mut player = Player::new();
    let detections = vec![
        zone(5, Transformation::AddRight, Proximity::Near),
        zone(5, Transformation::AddRight, Proximity::AtCentre),
    ];
    let effects = apply_transformations(&mut player, &detections);
    assert_eq!(player.transformer_anim_state, TransformerAnimState::MovingAway { transformer: 5 });
    assert_eq!(
        effects,
        vec![Effect::DisableCollision, Effect::PlayApproachSound, Effect::Reshape]
    );
    assert_eq!(cells(&player), vec![(0, 0), (1, 0)]);
}

#[test]
fn a_player_on_its_way_in_cannot_back_out() {
    let mut player =
        player_in(TransformerAnimState::MovingToward { transformer: 2 }, &[(0, 0)]);
    let detections = vec![zone(2, Transformation::AddRight, Proximity::Far)];
    let effects = apply_transformations(&mut player, &detections);
    assert_eq!(
        player.transformer_anim_state,
        TransformerAnimState::MovingToward { transformer: 2 }
    );
    assert!(effects.is_empty());
    let effects = apply_transformations(&mut player, &Vec::new());
    assert_eq!(
        player.transformer_anim_state,
        TransformerAnimState::MovingToward { transformer: 2 }
    );
    assert!(effects.is_empty());
    assert_eq!(cells(&player), vec![(0, 0)]);
}

#[test]
fn a_player_on_its_way_in_waits_until_it_has_arrived() {
    let mut player =
        player_in(TransformerAnimState::MovingToward { transformer: 2 }, &[(0, 0)]);
    let detections = vec![zone(2, Transformation::AddRight, measure(0.01, 30.0))];
    let effects = apply_transformations(&mut player, &detections);
    assert_eq!(
        player.transformer_anim_state,
        TransformerAnimState::MovingToward { transformer: 2 }
    );
    assert!(effects.is_empty());
    assert_eq!(cells(&player), vec![(0, 0)]);
}

#[test]
fn only_the_zone_that_caught_the_player_reshapes_it() {
    let mut player =
        player_in(TransformerAnimState::MovingToward { transformer: 2 }, &[(0, 0)]);
    let detections = vec![
        zone(1, Transformation::AddTop, Proximity::AtCentre),
        zone(2, Transformation::AddRight, Proximity::Near),
    ];
    let effects = apply_transformations(&mut player, &detections);
    assert_eq!(
        player.transformer_anim_state,
        TransformerAnimState::MovingToward { transformer: 2 }
    );
    assert!(effects.is_empty());
    assert_eq!(cells(&player), vec![(0, 0)]);
}

#[test]
fn a_commit_applies_the_transformation_of_the_zone() {
    let mut player = player_in(
        TransformerAnimState::MovingToward { transformer: 9 },
        &[(0, 0), (1, 0)],
    );
    let detections = vec![
        zone(4, Transformation::AddTop, Proximity::Near),
        zone(9, Transformation::RotateCw, Proximity::AtCentre),
    ];
    let effects = apply_transformations(&mut player, &detections);
    assert_eq!(player.transformer_anim_state, TransformerAnimState::MovingAway { transformer: 9 });
    assert_eq!(effects, vec![Effect::Reshape]);
    assert_eq!(cells(&player), vec![(0, 1), (0, 0)]);
}

#[test]
fn a_player_on_its_way_out_stays_so_while_its_zone_is_near() {
    let mut player = player_in(
        TransformerAnimState::MovingAway { transformer: 3 },
        &[(0, 0), (1, 0)],
    );
    let near = vec![zone(3, Transformation::AddRight, Proximity::Near)];
    let effects = apply_transformations(&mut player, &near);
    assert_eq!(player.transformer_anim_state, TransformerAnimState::MovingAway { transformer: 3 });
    assert!(effects.is_empty());
    let centre = vec![zone(3, Transformation::AddRight, Proximity::AtCentre)];
    let effects = apply_transformations(&mut player, &centre);
    assert_eq!(player.transformer_anim_state, TransformerAnimState::MovingAway { transformer: 3 });
    assert!(effects.is_empty());
    assert_eq!(cells(&player), vec![(0, 0), (1, 0)]);
}

#[test]
fn a_player_that_has_left_its_zone_falls() {
    let mut player = player_in(
        TransformerAnimState::MovingAway { transformer: 3 },
        &[(0, 0), (1, 0)],
    );
    let detections = vec![zone(3, Transformation::AddRight, measure(36.0, 35.0))];
    let effects = apply_transformations(&mut player, &detections);
    assert_eq!(player.transformer_anim_state, TransformerAnimState::Falling);
    assert_eq!(effects, vec![Effect::EnableCollision]);
    assert_eq!(cells(&player), vec![(0, 0), (1, 0)]);
}

#[test]
fn another_zone_does_not_hold_a_player_on_its_way_out() {
    let mut player =
        player_in(TransformerAnimState::MovingAway { transformer: 3 }, &[(0, 0)]);
    let detections = vec![
        zone(3, Transformation::AddRight, Proximity::Far),
        zone(4, Transformation::AddTop, Proximity::Near),
    ];
    let effects = apply_transformations(&mut player, &detections);
    assert_eq!(player.transformer_anim_state, TransformerAnimState::Falling);
    assert_eq!(effects, vec![Effect::EnableCollision]);
}

#[test]
fn a_falling_player_is_not_caught() {
    let mut player = player_in(TransformerAnimState::Falling, &[(0, 0)]);
    let detections = vec![zone(1, Transformation::AddRight, Proximity::AtCentre)];
    let effects = apply_transformations(&mut player, &detections);
    assert_eq!(player.transformer_anim_state, TransformerAnimState::Falling);
    assert!(effects.is_empty());
    assert_eq!(cells(&player), vec![(0, 0)]);
}

#[test]
fn a_whole_passage() {
    let mut player = Player::new();
    let kind = Transformation::AddRight;
    let mut trace = Vec::new();
    for proximity in [
        Proximity::Far,
        Proximity::Near,
        Proximity::Near,
        Proximity::AtCentre,
        Proximity::Near,
        Proximity::Far,
    ] {
        let effects = apply_transformations(&mut player, &vec![zone(0, kind, proximity)]);
        trace.push((player.transformer_anim_state, effects, cells(&player).len()));
    }
    assert_eq!(
        trace,
        vec![
            (TransformerAnimState::NotAnimating, vec![], 1),
            (
                TransformerAnimState::MovingToward { transformer: 0 },
                vec![Effect::DisableCollision, Effect::PlayApproachSound],
                1
            ),
            (TransformerAnimState::MovingToward { transformer: 0 }, vec![], 1),
            (TransformerAnimState::MovingAway { transformer: 0 }, vec![Effect::Reshape], 2),
            (TransformerAnimState::MovingAway { transformer: 0 }, vec![], 2),
            (TransformerAnimState::Falling, vec![Effect::EnableCollision], 2),
        ]
    );
    set_jumping_false(&vec![Contact { touches_player: true, vertical: true }], &mut player);
    assert_eq!(player.transformer_anim_state, TransformerAnimState::NotAnimating);
    assert_eq!(cells(&player), vec![(0, 0), (1, 0)]);
}

#[test]
fn apply_transformations_keeps_jumping() {
    let mut player = Player::new();
    player.is_jumping = true;
    apply_transformations(&mut player, &vec![zone(0, Transformation::AddTop, Proximity::Near)]);
    assert!(player.is_jumping);
}

#[test]
fn is_near_looks_for_the_zone_within_its_radius() {
    let detections = vec![
        zone(0, Transformation::AddRight, Proximity::Far),
        zone(1, Transformation::AddRight, Proximity::Near),
        zone(2, Transformation::AddRight, Proximity::AtCentre),
    ];
    assert!(!is_near(&detections, 0));
    assert!(is_near(&detections, 1));
    assert!(is_near(&detections, 2));
    assert!(!is_near(&detections, 3));
    assert!(!is_near(&Vec::new(), 0));
}

#[test]
fn a_falling_player_lands_on_a_vertical_contact() {
    let mut player = player_in(TransformerAnimState::Falling, &[(0, 0), (1, 0)]);
    player.is_jumping = true;
    let contacts = vec![
        Contact { touches_player: false, vertical: true },
        Contact { touches_player: true, vertical: true },
    ];
    set_jumping_false(&contacts, &mut player);
    assert_eq!(player.transformer_anim_state, TransformerAnimState::NotAnimating);
    assert!(!player.is_jumping);
    assert_eq!(cells(&player), vec![(0, 0), (1, 0)]);
}

#[test]
fn a_falling_player_keeps_falling_without_a_vertical_contact() {
    let mut player = player_in(TransformerAnimState::Falling, &[(0, 0)]);
    player.is_jumping = true;
    let contacts = vec![
        Contact { touches_player: true, vertical: false },
        Contact { touches_player: false, vertical: true },
        Contact { touches_player: false, vertical: false },
    ];
    set_jumping_false(&contacts, &mut player);
    assert_eq!(player.transformer_anim_state, TransformerAnimState::Falling);
    assert!(player.is_jumping);
    set_jumping_false(&Vec::new(), &mut player);
    assert_eq!(player.transformer_anim_state, TransformerAnimState::Falling);
    assert!(player.is_jumping);
}

#[test]
fn a_landing_changes_no_state_but_falling() {
    for state in [
        TransformerAnimState::NotAnimating,
        TransformerAnimState::MovingToward { transformer: 1 },
        TransformerAnimState::MovingAway { transformer: 1 },
    ] {
        let mut player = player_in(state, &[(0, 0)]);
        player.is_jumping = true;
        set_jumping_false(&vec![Contact { touches_player: true, vertical: true }], &mut player);
        assert_eq!(player.transformer_anim_state, state);
        assert!(!player.is_jumping);
    }
}

#[test]
fn a_player_at_rest_is_steered_by_the_keys() {
    let still = LevelTransitioning(false);
    let mut player = Player::new();
    assert_eq!(
        move_player(keys(false, true, false), &mut player, &still),
        Motion::Steer { x: 300, lift: 0 }
    );
    assert_eq!(
        move_player(keys(true, false, false), &mut player, &still),
        Motion::Steer { x: -300, lift: 0 }
    );
    assert_eq!(
        move_player(keys(true, true, false), &mut player, &still),
        Motion::Steer { x: 0, lift: 0 }
    );
    assert_eq!(
        move_player(keys(false, false, false), &mut player, &still),
        Motion::Steer { x: 0, lift: 0 }
    );
    assert!(!player.is_jumping);
    assert_eq!(WALK_SPEED, 300);
    assert_eq!(JUMP_BOOST, 350);
}

#[test]
fn a_player_jumps_once() {
    let still = LevelTransitioning(false);
    let mut player = Player::new();
    assert_eq!(
        move_player(keys(false, true, true), &mut player, &still),
        Motion::Steer { x: 300, lift: 350 }
    );
    assert!(player.is_jumping);
    assert_eq!(
        move_player(keys(false, true, true), &mut player, &still),
        Motion::Steer { x: 300, lift: 0 }
    );
    assert!(player.is_jumping);
    set_jumping_false(&vec![Contact { touches_player: true, vertical: true }], &mut player);
    assert_eq!(
        move_player(keys(false, false, true), &mut player, &still),
        Motion::Steer { x: 0, lift: 350 }
    );
}

#[test]
fn nothing_moves_while_the_level_changes() {
    let changing = LevelTransitioning(true);
    for state in [
        TransformerAnimState::NotAnimating,
        TransformerAnimState::MovingToward { transformer: 1 },
        TransformerAnimState::MovingAway { transformer: 1 },
        TransformerAnimState::Falling,
    ] {
        let mut player = player_in(state, &[(0, 0)]);
        assert_eq!(move_player(keys(true, false, true), &mut player, &changing), Motion::Hold);
        assert!(!player.is_jumping);
        assert_eq!(player.transformer_anim_state, state);
    }
}

#[test]
fn a_player_in_a_passage_goes_where_the_animation_takes_it() {
    let still = LevelTransitioning(false);
    let mut player =
        player_in(TransformerAnimState::MovingToward { transformer: 6 }, &[(0, 0)]);
    assert_eq!(
        move_player(keys(true, false, true), &mut player, &still),
        Motion::DrawIn { transformer: 6 }
    );
    assert!(!player.is_jumping);
    player.transformer_anim_state = TransformerAnimState::MovingAway { transformer: 6 };
    assert_eq!(
        move_player(keys(true, false, true), &mut player, &still),
        Motion::PushOut { transformer: 6 }
    );
    player.transformer_anim_state = TransformerAnimState::Falling;
    assert_eq!(move_player(keys(true, false, true), &mut player, &still), Motion::Recover);
    assert!(!player.is_jumping);
    assert_eq!(cells(&player), vec![(0, 0)]);
}

#[test]
fn a_level_is_finished_only_in_place_and_in_shape() {
    let cave = Cave { squares: vec![SquarePos(0, 0), SquarePos(1, 0)] };
    let fitting = player_in(TransformerAnimState::NotAnimating, &[(1, 0), (0, 0)]);
    let larger = player_in(TransformerAnimState::NotAnimating, &[(0, 0), (1, 0), (2, 0)]);
    let half_width = PLAYER_WIDTH as f32 / 2.0;
    let half_height = PLAYER_HEIGHT as f32 / 2.0;
    let in_place = |dx: f32, dy: f32| dx.abs() < half_width && dy.abs() < half_height;

    let flag = LevelTransitioning(false);
    assert!(!next_level(&larger, &cave, in_place(3.0, -4.0), &flag));
    assert!(!next_level(&fitting, &cave, in_place(25.0, 0.0), &flag));
    assert!(!next_level(&fitting, &cave, in_place(0.0, -60.0), &flag));
    assert!(next_level(&fitting, &cave, in_place(3.0, -4.0), &flag));
    assert!(next_level(&fitting, &cave, in_place(-24.5, 24.5), &flag));
}

#[test]
fn a_level_is_not_finished_while_the_level_changes() {
    let cave = Cave { squares: vec![SquarePos(0, 0)] };
    let player = Player::new();
    assert!(next_level(&player, &cave, true, &LevelTransitioning(false)));
    assert!(!next_level(&player, &cave, true, &LevelTransitioning(true)));
}

#[test]
fn a_level_without_a_silhouette_is_never_finished_in_a_cave() {
    let cave = Cave { squares: Vec::new() };
    assert!(!next_level(&Player::new(), &cave, true, &LevelTransitioning(false)));
}
