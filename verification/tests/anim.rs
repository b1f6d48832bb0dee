//! The animations of the pet.

use petphrase::anim::{
    grid_from_image, pick_special, row_of, Animator, PetState, FRAMES_PER_STATE, FRAME_H,
    FRAME_MS, FRAME_W, LOOP_MS,
};

#[test]
fn grid_both_orientations() {
    assert_eq!(grid_from_image(1536, 1872), (9, 8));
    assert_eq!(grid_from_image(1728, 1664), (8, 9));
}

#[test]
fn wave_once_returns_to_idle() {
    let mut a = Animator::new(9, 8);
    a.play(PetState::Wave, true);
    for i in 0..FRAMES_PER_STATE {
        assert_eq!(a.step(), (1, i));
    }
    assert_eq!(a.step(), (0, 0), "播完一轮回 idle");
}

#[test]
fn missing_rows_fall_back_to_idle_row() {
    let mut a = Animator::new(1, 8);
    a.play(PetState::Wave, true);
    assert_eq!(a.step().0, 0);
}

#[test]
fn special_rows_map_to_sheet_order() {
    let mut a = Animator::new(9, 8);
    a.play(PetState::Jump, true);
    assert_eq!(a.step().0, 5);
    a.play(PetState::Run, true);
    assert_eq!(a.step().0, 2);
    for _ in 1..FRAMES_PER_STATE {
        a.step();
    }
    assert!(a.is_idle());
}

#[test]
fn pick_special_respects_available_rows() {
    assert_eq!(pick_special(2, 0), None, "只有 idle/wave 无彩蛋");
    assert_eq!(pick_special(1, 7), None);
    for r in 0..8 {
        let s = pick_special(6, r).unwrap();
        assert!(row_of(s, 6) >= 2, "彩蛋不含 idle/wave");
    }
    assert_eq!(pick_special(3, 5), Some(PetState::Run));
}

#[test]
fn frame_sizes_and_times() {
    assert_eq!((FRAME_W, FRAME_H), (192, 208));
    assert_eq!((FRAMES_PER_STATE, LOOP_MS, FRAME_MS), (6, 1100, 183));
}

#[test]
fn tiny_images_have_one_cell() {
    assert_eq!(grid_from_image(0, 0), (1, 1));
    assert_eq!(grid_from_image(191, 207), (1, 1));
    assert_eq!(grid_from_image(384, 207), (1, 2));
    assert_eq!(grid_from_image(u32::MAX, u32::MAX), (20648881, 22369621));
}

#[test]
fn rows_in_sheet_order() {
    let all = [
        PetState::Idle,
        PetState::Wave,
        PetState::Run,
        PetState::Failed,
        PetState::Review,
        PetState::Jump,
    ];
    for (i, s) in all.iter().enumerate() {
        assert_eq!(row_of(*s, 6), i as i32);
        assert_eq!(row_of(*s, i as i32 + 1), i as i32);
        assert_eq!(row_of(*s, i as i32), 0);
        assert_eq!(row_of(*s, -3), 0);
    }
}

#[test]
fn specials_in_order_of_preference() {
    let picks: Vec<_> = (0..4).map(|r| pick_special(6, r).unwrap()).collect();
    assert_eq!(
        picks,
        vec![PetState::Jump, PetState::Run, PetState::Review, PetState::Failed]
    );
    assert_eq!(pick_special(5, 0), Some(PetState::Run));
    assert_eq!(pick_special(5, 1), Some(PetState::Review));
    assert_eq!(pick_special(4, 1), Some(PetState::Failed));
    assert_eq!(pick_special(6, u32::MAX), Some(PetState::Failed));
    assert_eq!(pick_special(0, 1), None);
}

#[test]
fn narrow_sheets_have_short_rounds() {
    let mut a = Animator::new(6, 3);
    a.play(PetState::Failed, true);
    assert_eq!((a.step(), a.step(), a.step()), ((3, 0), (3, 1), (3, 2)));
    assert!(a.is_idle());
    let mut b = Animator::new(1, 1);
    assert_eq!((b.step(), b.step()), ((0, 0), (0, 0)));
    let mut c = Animator::new(6, 0);
    assert_eq!((c.step(), c.step()), ((0, 0), (0, 0)));
}

#[test]
fn looping_animations_go_on() {
    let mut a = Animator::new(9, 8);
    a.play(PetState::Review, false);
    for round in 0..3 {
        for i in 0..FRAMES_PER_STATE {
            assert_eq!(a.step(), (4, i), "round {}", round);
        }
    }
    assert!(!a.is_idle());
    assert_eq!(a.rows(), 9);
}

#[test]
fn idling_once_is_idling() {
    let mut a = Animator::new(2, 6);
    a.play(PetState::Idle, true);
    for _ in 0..13 {
        assert_eq!(a.step().0, 0);
        assert!(a.is_idle());
    }
}
