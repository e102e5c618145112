use drn_editor::camera::Camera;
use drn_editor::cursor::Cursor;
use drn_editor::menu_actions::{MenuAction, MenuActionFn};
use drn_editor::range::{vector_max, vector_min, GridPos, Range};
use drn_editor::style::add_range_to_buffer;
use drn_editor::tween::{ease, EasingFunction, Tween, UNIT};

const CURVES: [EasingFunction; 8] = [
    EasingFunction::Linear,
    EasingFunction::SmoothStep,
    EasingFunction::SmootherStep,
    EasingFunction::EaseIn,
    EasingFunction::EaseOut,
    EasingFunction::EaseInOut,
    EasingFunction::EaseInBack,
    EasingFunction::EaseOutBack,
];

fn r(a: (u32, u32), b: (u32, u32)) -> Range {
    Range::new(GridPos::new(a.0, a.1), GridPos::new(b.0, b.1))
}

#[test]
fn tween_reaches_target_once() {
    let mut t = Tween::new(0, 1000, 100, EasingFunction::SmootherStep);
    t.start();
    let mut finished = 0;
    for dt in [30, 30, 30, 10] {
        if t.update(dt) {
            finished += 1;
        }
    }
    assert_eq!(finished, 1);
    assert!(t.is_ended);
    assert_eq!(t.value, 1000);
    assert!(!t.update(10));
}

#[test]
fn tween_midway_value() {
    let mut t = Tween::new(100, 300, 100, EasingFunction::Linear);
    t.start();
    assert!(!t.update(25));
    assert_eq!(t.value, 150);
    let mut back = Tween::new(0, -200, 10, EasingFunction::EaseIn);
    back.start();
    back.update(5);
    assert_eq!(back.value, -50);
}

#[test]
fn tween_zero_length_is_ended() {
    let t = Tween::new(42, 42, 100, EasingFunction::Linear);
    assert!(t.is_ended);
    let mut z = Tween::new(0, 10, 0, EasingFunction::Linear);
    z.start();
    assert!(z.update(0));
    assert_eq!(z.value, 10);
}

#[test]
fn tween_pause_and_infinite() {
    let mut t = Tween::new(0, 10, 10, EasingFunction::Linear);
    t.start();
    t.pause();
    assert!(!t.update(5));
    assert_eq!(t.value, 0);
    t.toggle();
    assert!(t.is_running());
    let mut spin = Tween::new_infinite(0, 10, 10, EasingFunction::Linear);
    spin.start();
    assert!(!spin.update(10));
    assert!(!spin.is_ended);
    assert_eq!(spin.value, 0);
}

#[test]
fn easing_end_points() {
    for f in CURVES {
        assert_eq!(ease(f, 0), 0);
        assert_eq!(ease(f, UNIT), UNIT);
    }
    assert_eq!(ease(EasingFunction::SmoothStep, UNIT / 2), UNIT / 2);
    assert!(ease(EasingFunction::EaseInBack, UNIT / 2) < 0);
    assert!(ease(EasingFunction::EaseOutBack, UNIT / 2) > UNIT);
}

#[test]
fn range_union_commutes_and_is_idempotent() {
    let a = r((3, 1), (5, 2));
    let b = r((0, 0), (1, 1));
    let mut ab = a;
    ab.add(b);
    let mut ba = b;
    ba.add(a);
    assert_eq!(ab, ba);
    assert_eq!(ab, r((0, 0), (5, 2)));
    let mut aa = a;
    aa.add(a);
    assert_eq!(aa, a);
    let mut empty = Range { start: None, end: None };
    empty.add(a);
    assert_eq!(empty, a);
}

#[test]
fn range_order_and_validity() {
    assert_eq!(vector_max(GridPos::new(9, 0), GridPos::new(1, 1)), GridPos::new(1, 1));
    assert_eq!(vector_min(GridPos::new(9, 0), GridPos::new(1, 1)), GridPos::new(9, 0));
    let rev = r((4, 2), (1, 0));
    assert_eq!(rev.get_real_start(), Some(GridPos::new(1, 0)));
    assert_eq!(rev.get_real_end(), Some(GridPos::new(4, 2)));
    assert!(!r((1, 1), (1, 1)).is_valid());
    assert_eq!(r((1, 1), (1, 1)).get_real_start(), None);
    assert!(r((0, 0), (5, 0)).encloses(&r((1, 0), (3, 0))));
    assert!(!r((1, 0), (3, 0)).encloses(&r((0, 0), (5, 0))));
}

#[test]
fn style_toggle_twice_is_empty() {
    let mut buf = vec![];
    let x = r((2, 0), (7, 0));
    add_range_to_buffer(x, &mut buf);
    assert_eq!(buf, vec![x]);
    add_range_to_buffer(x, &mut buf);
    assert!(buf.is_empty());
}

#[test]
fn style_toggle_inside_splits() {
    let mut buf = vec![r((0, 0), (10, 0))];
    add_range_to_buffer(r((3, 0), (5, 0)), &mut buf);
    assert_eq!(buf, vec![r((0, 0), (3, 0)), r((5, 0), (10, 0))]);
    let mut edge = vec![r((0, 0), (10, 0))];
    add_range_to_buffer(r((0, 0), (4, 0)), &mut edge);
    assert_eq!(edge, vec![r((4, 0), (10, 0))]);
}

#[test]
fn style_toggle_merges_covered_entries() {
    let mut buf = vec![r((1, 0), (2, 0)), r((9, 0), (9, 1)), r((4, 0), (6, 0))];
    add_range_to_buffer(r((0, 0), (8, 0)), &mut buf);
    assert_eq!(buf, vec![r((9, 0), (9, 1)), r((0, 0), (8, 0))]);
    let mut none = vec![r((1, 0), (2, 0))];
    add_range_to_buffer(r((3, 3), (3, 3)), &mut none);
    assert_eq!(none, vec![r((1, 0), (2, 0))]);
}

#[test]
fn cursor_glides_to_new_cell() {
    let mut c = Cursor::new(0, 0, 10, 20);
    c.move_to(3, 2);
    assert_eq!((c.x, c.y), (3, 2));
    assert_eq!(c.real_x(), 30);
    assert_eq!(c.real_y(), 40);
    assert_eq!(c.computed_x(), 0);
    assert_eq!(c.animation_x.unwrap().to, 30);
    let before = c.animation_x;
    c.move_to(3, 2);
    assert_eq!(c.animation_x, before);
}

#[test]
fn camera_moves_are_clamped() {
    let mut cam = Camera::new(800, 600, 0, 55, 10);
    assert_eq!(cam.width, 780);
    assert_eq!(cam.height, 525);
    assert_eq!(cam.initial_y, -65);
    cam.move_y(-50);
    assert_eq!(cam.y, 0);
    cam.move_y(120);
    assert_eq!(cam.y, 120);
    assert_eq!(cam.animation_y.unwrap().to, 55);
    cam.reset();
    assert_eq!((cam.x, cam.y), (0, 0));
}

#[test]
fn menu_action_builders() {
    let f = MenuAction::get_fn(&MenuAction::SaveWithInput("x".into()));
    assert_eq!(f, MenuActionFn::Save);
    assert_eq!(f.apply("a.txt".into()), MenuAction::Save("a.txt".into()));
    assert_eq!(MenuAction::get_fn(&MenuAction::Copy), MenuActionFn::Print);
    assert_eq!(MenuAction::get_fn(&MenuAction::FindAndJumpWithInput).apply("k".into()), MenuAction::FindAndJump("k".into()));
}

#[test]
fn style_split_piece_inside_other_entry_is_dropped() {
    let mut buf = vec![r((0, 0), (10, 0)), r((8, 0), (15, 0))];
    add_range_to_buffer(r((7, 0), (9, 0)), &mut buf);
    assert_eq!(buf, vec![r((8, 0), (15, 0)), r((0, 0), (7, 0))]);
}

#[test]
fn normalized_puts_ends_in_document_order() {
    let rev = r((4, 0), (1, 0));
    assert_eq!(rev.normalized(), r((1, 0), (4, 0)));
    assert_eq!(r((2, 2), (2, 2)).normalized(), r((2, 2), (2, 2)));
}

#[test]
fn non_back_curves_stay_in_unit() {
    for f in CURVES {
        if f == EasingFunction::EaseInBack || f == EasingFunction::EaseOutBack {
            continue;
        }
        for k in 0..=100 {
            let v = ease(f, k * (UNIT / 100));
            assert!((0..=UNIT).contains(&v));
        }
    }
}
