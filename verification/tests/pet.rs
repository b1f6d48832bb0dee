//! The pet on the screen.

use petphrase::anim::{Animator, PetState};
use petphrase::pet::{
    animator_for_image, clamp_pet_to_screen, is_listed, pet_at, pet_roots, sheet_step,
    sprite_candidates, Area, IdleClock, PetInfo, SheetStep, Sprite,
};

fn pet(id: &str, sheet: &str, error: Option<&str>) -> PetInfo {
    PetInfo {
        id: id.to_string(),
        name: id.to_uppercase(),
        spritesheet: sheet.to_string(),
        error: error.map(|e| e.to_string()),
    }
}

fn area(x: i32, y: i32, w: i32, h: i32) -> Area {
    Area { x, y, w, h }
}

#[test]
fn selected_pet_is_tried_first() {
    let pets = vec![
        pet("a", "a.png", None),
        pet("b", "b.png", Some("missing")),
        pet("c", "c.png", None),
        pet("c", "c2.png", None),
    ];
    assert_eq!(sprite_candidates(&pets, "c"), vec!["c.png", "a.png", "c.png", "c2.png"]);
    assert_eq!(sprite_candidates(&pets, "b"), vec!["a.png", "c.png", "c2.png"]);
    assert_eq!(sprite_candidates(&pets, "none"), vec!["a.png", "c.png", "c2.png"]);
    assert!(sprite_candidates(&Vec::new(), "a").is_empty());
}

#[test]
fn a_broken_namesake_is_passed_over() {
    let pets = vec![pet("a", "bad.png", Some("x")), pet("a", "good.png", None)];
    assert_eq!(sprite_candidates(&pets, "a"), vec!["good.png", "good.png"]);
}

fn drawn_from(pets: &Vec<PetInfo>, pet_id: &str, good: &[&str]) -> Option<String> {
    let candidates = sprite_candidates(pets, pet_id);
    let (mut tried, mut decoded) = (0, false);
    loop {
        match sheet_step(&candidates, tried, decoded) {
            SheetStep::Try(s) => {
                decoded = good.contains(&s.as_str());
                tried += 1;
            }
            SheetStep::Show(s) => return Some(s),
            SheetStep::Missing => return None,
        }
    }
}

#[test]
fn the_first_sheet_that_decodes_is_drawn() {
    let pets = vec![
        pet("a", "a.png", None),
        pet("b", "b.png", Some("missing")),
        pet("c", "c.png", None),
    ];
    assert_eq!(drawn_from(&pets, "c", &["a.png", "b.png", "c.png"]), Some("c.png".to_string()));
    assert_eq!(drawn_from(&pets, "c", &["a.png", "b.png"]), Some("a.png".to_string()));
    assert_eq!(drawn_from(&pets, "b", &["b.png", "c.png"]), Some("c.png".to_string()));
    assert_eq!(drawn_from(&pets, "none", &["c.png", "a.png"]), Some("a.png".to_string()));
    assert_eq!(drawn_from(&pets, "a", &["b.png"]), None);
    assert_eq!(drawn_from(&Vec::new(), "a", &["a.png"]), None);
}

#[test]
fn the_animator_is_that_of_the_sheet_drawn() {
    let candidates = vec!["a.png".to_string(), "b.png".to_string(), "c.png".to_string()];
    let mut s = Sprite::new();
    assert_eq!((s.animator.rows(), s.sheet.clone(), s.missing), (1, None, false));
    assert_eq!(s.sheet_tried(&candidates, 0, None), SheetStep::Try("a.png".to_string()));
    assert_eq!(s.sheet_tried(&candidates, 1, None), SheetStep::Try("b.png".to_string()));
    assert_eq!((s.animator.rows(), s.missing), (1, false));
    assert_eq!(
        s.sheet_tried(&candidates, 2, Some((1536, 1872))),
        SheetStep::Show("b.png".to_string())
    );
    assert_eq!((s.animator.rows(), s.sheet.as_deref(), s.missing), (9, Some("b.png"), false));
    s.animator.play(PetState::Wave, true);
    assert_eq!(s.sheet_tried(&candidates, 3, None), SheetStep::Missing);
    assert_eq!((s.animator.rows(), s.sheet.clone(), s.missing), (9, None, true));
    assert!(!s.animator.is_idle(), "the animator goes on");
    assert_eq!(
        s.sheet_tried(&candidates, 1, Some((400, 416))),
        SheetStep::Show("a.png".to_string())
    );
    assert_eq!((s.animator.rows(), s.sheet.as_deref(), s.missing), (2, Some("a.png"), false));
    assert!(s.animator.is_idle());
}

#[test]
fn sheets_set_up_the_animator() {
    let mut a = animator_for_image(1536, 1872);
    assert_eq!(a.rows(), 9);
    assert!(a.is_idle());
    for i in 0..6 {
        assert_eq!(a.step(), (0, i));
    }
    let mut b = animator_for_image(400, 416);
    assert_eq!(b.rows(), 2);
    assert_eq!((b.step(), b.step(), b.step()), ((0, 0), (0, 1), (0, 0)));
}

#[test]
fn only_usable_pets_can_be_chosen() {
    let pets = vec![pet("a", "a.png", None), pet("b", "b.png", Some("missing"))];
    assert_eq!(pet_at(&pets, 0), Some(("a".to_string(), "a.png".to_string())));
    assert_eq!(pet_at(&pets, 1), None);
    assert_eq!(pet_at(&pets, 2), None);
    assert_eq!(pet_at(&pets, -1), None);
    assert!(is_listed(&pets, "b.png"));
    assert!(!is_listed(&pets, "c.png"));
}

#[test]
fn places_to_look_for_pets() {
    assert_eq!(pet_roots(Some(1), Some(2), Some(3)), vec![1, 2, 3]);
    assert_eq!(pet_roots(None, Some(2), None), vec![2]);
    assert_eq!(pet_roots(Some(1), None, Some(3)), vec![1, 3]);
    assert!(pet_roots::<i32>(None, None, None).is_empty());
}

#[test]
fn a_special_comes_when_it_is_due() {
    let mut clock = IdleClock::starting(90);
    let mut a = Animator::new(9, 8);
    for _ in 0..89 {
        assert_eq!(clock.frame_with(&mut a, 100).0, 0);
        assert!(a.is_idle());
    }
    // 100 % 4 picks the jump
    assert_eq!(clock.frame_with(&mut a, 100), (5, 0));
    for i in 1..6 {
        assert_eq!(clock.frame_with(&mut a, 100), (5, i));
    }
    for _ in 0..99 {
        assert_eq!(clock.frame_with(&mut a, 101).0, 0);
    }
    // and 101 % 4 the run
    assert_eq!(clock.frame_with(&mut a, 101), (2, 0));
}

#[test]
fn waving_starts_the_wait_anew() {
    let mut clock = IdleClock::starting(90);
    let mut a = Animator::new(9, 8);
    for _ in 0..80 {
        clock.frame_with(&mut a, 100);
    }
    a.play(PetState::Wave, true);
    for i in 0..6 {
        assert_eq!(clock.frame_with(&mut a, 100), (1, i));
    }
    for _ in 0..89 {
        assert_eq!(clock.frame_with(&mut a, 100).0, 0);
    }
    assert_eq!(clock.frame_with(&mut a, 100).0, 5);
}

#[test]
fn short_sheets_only_idle() {
    let mut clock = IdleClock::new();
    let mut a = Animator::new(2, 8);
    for _ in 0..1000 {
        assert_eq!(clock.frame(&mut a).0, 0);
        assert!(a.is_idle());
    }
}

#[test]
fn something_happens_within_the_longest_wait() {
    let mut clock = IdleClock::new();
    let mut a = Animator::new(6, 6);
    let mut frames = 0;
    while clock.frame(&mut a).0 == 0 {
        frames += 1;
        assert!(frames < 330);
    }
    assert!(frames >= 89);
}

#[test]
fn a_pet_in_sight_stays() {
    let screens = vec![area(0, 0, 1920, 1080), area(1920, 0, 1280, 1024)];
    assert_eq!(clamp_pet_to_screen(area(100, 100, 192, 208), &screens, Some(screens[0])), None);
    assert_eq!(clamp_pet_to_screen(area(-95, -100, 192, 208), &screens, Some(screens[0])), None);
    assert_eq!(clamp_pet_to_screen(area(3000, 900, 192, 208), &screens, None), None);
}

#[test]
fn a_lost_pet_comes_back_to_the_corner() {
    let screens = vec![area(0, 0, 1920, 1080), area(1920, 0, 1280, 1024)];
    let corner = Some((1920 - 192 - 80, 1080 - 208 - 120));
    let lost = area(-97, 0, 192, 208);
    assert_eq!(clamp_pet_to_screen(lost, &screens, Some(screens[0])), corner);
    assert_eq!(clamp_pet_to_screen(lost, &screens, None), corner);
    assert_eq!(
        clamp_pet_to_screen(area(5000, 0, 192, 208), &screens, Some(screens[1])),
        Some((1920 + 1280 - 192 - 80, 1024 - 208 - 120))
    );
    // the right and lower edges are outside
    assert_eq!(
        clamp_pet_to_screen(area(3200 - 96, 0, 192, 208), &screens, Some(screens[0])),
        corner
    );
    assert_eq!(
        clamp_pet_to_screen(area(0, 1080 - 104, 192, 208), &screens, Some(screens[0])),
        corner
    );
}

#[test]
fn a_small_screen_keeps_the_pet_at_its_edge() {
    let screens = vec![area(-300, 50, 200, 200)];
    assert_eq!(
        clamp_pet_to_screen(area(900, 900, 192, 208), &screens, None),
        Some((-300, 50))
    );
}

#[test]
fn without_screens_nothing_moves() {
    assert_eq!(clamp_pet_to_screen(area(0, 0, 192, 208), &Vec::new(), None), None);
}
