use audioviz::animators::{match_animator, match_animators, Animation};
use audioviz::config::{ordered_animations, Config};

fn entries(list: &[(&str, i32)]) -> Vec<(String, i32)> {
    list.iter().map(|(n, p)| (n.to_string(), *p)).collect()
}

#[test]
fn animations_run_by_priority() {
    let es = entries(&[("wiggly", 3), ("spectrum", 1), ("sine_like", 2)]);
    assert_eq!(ordered_animations(&es), vec!["spectrum", "sine_like", "wiggly"]);
}

#[test]
fn disabled_animations_are_left_out() {
    let es = entries(&[("wiggly", 0), ("spectrum", -4), ("eq_mountains", 5)]);
    assert_eq!(ordered_animations(&es), vec!["eq_mountains"]);
    assert!(ordered_animations(&entries(&[])).is_empty());
}

#[test]
fn equal_priorities_keep_their_order() {
    let es = entries(&[("b", 2), ("a", 1), ("c", 2), ("d", 1)]);
    assert_eq!(ordered_animations(&es), vec!["a", "d", "b", "c"]);
}

#[test]
fn animators_are_chosen_by_name() {
    assert_eq!(match_animator("spectrum"), Animation::Spectrum);
    assert_eq!(match_animator("wiggly"), Animation::Wiggly);
    assert_eq!(match_animator("eq_mountains"), Animation::EqMountains);
    assert_eq!(match_animator("sine_like"), Animation::SineLike);
    assert_eq!(match_animator("no such thing"), Animation::SineLike);
    let names = vec!["wiggly".to_string(), "x".to_string()];
    assert_eq!(match_animators(&names), vec![Animation::Wiggly, Animation::SineLike]);
}

#[test]
fn config_holds_its_settings() {
    let c = Config {
        color_1: (1, 2, 3),
        color_2: (4, 5, 6),
        color_3: (7, 8, 9),
        bg_color: (0, 0, 0),
        bg_alt_color: (10, 10, 10),
        animation_length: 15,
        animations: vec!["spectrum".to_string()],
    };
    assert_eq!(c.animations.len(), 1);
    assert_eq!(c.animation_length, 15);
}
