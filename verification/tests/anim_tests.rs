use raster3d::anim::{anim_frame_filename, decimal_digits, knob_lookup, knobs_for_frame, Variation};

fn vary(knob: &str, fst: usize, last: usize, min_val: f64, max_val: f64) -> Variation<f64> {
    Variation { knob: knob.to_owned(), fst_frame: fst, last_frame: last, min_val, max_val }
}

#[test]
fn decimal_digits_values() {
    assert_eq!(decimal_digits(0), 0);
    assert_eq!(decimal_digits(9), 1);
    assert_eq!(decimal_digits(10), 2);
    assert_eq!(decimal_digits(120), 3);
    assert_eq!(decimal_digits(1000), 4);
}

#[test]
fn anim_frame_filename_pads_to_frame_count_width() {
    assert_eq!(anim_frame_filename(120, "anim", 5), "anim/anim005.png");
    assert_eq!(anim_frame_filename(120, "anim", 99), "anim/anim099.png");
    assert_eq!(anim_frame_filename(10, "frame", 9), "anim/frame09.png");
    assert_eq!(anim_frame_filename(9, "x", 3), "anim/x3.png");
}

#[test]
fn knob_at_window_start_has_zero_progress() {
    let vs = vec![vary("knobA", 0, 9, 0.0, 1.0)];
    let t = knobs_for_frame(0, &vs);
    assert_eq!(t.len(), 1);
    assert_eq!(t[0].knob, "knobA");
    assert_eq!(t[0].num, 0);
    assert_eq!(t[0].den, 9);
    assert_eq!(t[0].min_val, 0.0);
    assert_eq!(t[0].max_val, 1.0);
}

#[test]
fn knob_at_window_end_has_full_progress() {
    let vs = vec![vary("knobA", 0, 9, 0.0, 1.0)];
    let t = knobs_for_frame(9, &vs);
    assert_eq!(t.len(), 1);
    assert_eq!(t[0].num, t[0].den);
    // interpolating as the scene composer does lands exactly on max_val
    let value = t[0].min_val + (t[0].max_val - t[0].min_val) * (t[0].num as f64 / t[0].den as f64);
    assert_eq!(value, 1.0);
}

#[test]
fn knob_mid_window_progress_counts_frames() {
    let vs = vec![vary("k", 2, 10, 0.5, 2.5)];
    let t = knobs_for_frame(6, &vs);
    assert_eq!(t.len(), 1);
    assert_eq!(t[0].num, 4);
    assert_eq!(t[0].den, 8);
}

#[test]
fn knob_outside_window_is_absent() {
    let vs = vec![vary("k", 2, 10, 0.0, 1.0)];
    assert_eq!(knobs_for_frame(1, &vs).len(), 0);
    assert_eq!(knobs_for_frame(11, &vs).len(), 0);
}

#[test]
fn knobs_for_frame_is_pure() {
    let vs = vec![vary("a", 0, 5, 0.0, 1.0), vary("b", 3, 9, 1.0, 2.0)];
    let t1 = knobs_for_frame(4, &vs);
    let t2 = knobs_for_frame(4, &vs);
    assert_eq!(t1.len(), t2.len());
    for (x, y) in t1.iter().zip(t2.iter()) {
        assert_eq!(x.knob, y.knob);
        assert_eq!(x.num, y.num);
        assert_eq!(x.den, y.den);
        assert_eq!(x.min_val, y.min_val);
        assert_eq!(x.max_val, y.max_val);
    }
}

#[test]
fn knobs_keep_variation_order() {
    let vs = vec![
        vary("a", 0, 5, 0.0, 1.0),
        vary("b", 0, 5, 1.0, 2.0),
        vary("c", 6, 9, 0.0, 1.0),
    ];
    let t = knobs_for_frame(3, &vs);
    assert_eq!(t.len(), 2);
    assert_eq!(t[0].knob, "a");
    assert_eq!(t[1].knob, "b");
}

#[test]
fn overlapping_windows_last_one_wins() {
    let vs = vec![vary("k", 0, 9, 0.0, 1.0), vary("k", 5, 9, 3.0, 4.0)];
    let t = knobs_for_frame(7, &vs);
    assert_eq!(t.len(), 2);
    let name = "k".to_owned();
    let hit = knob_lookup(&t, &name).expect("knob missing");
    assert_eq!(hit.min_val, 3.0);
    assert_eq!(hit.max_val, 4.0);
    assert_eq!(hit.num, 2);
    assert_eq!(hit.den, 4);
}

#[test]
fn lookup_misses_unknown_knob() {
    let vs = vec![vary("k", 0, 9, 0.0, 1.0)];
    let t = knobs_for_frame(4, &vs);
    let name = "other".to_owned();
    assert!(knob_lookup(&t, &name).is_none());
}

#[test]
fn single_frame_window_is_degenerate() {
    let vs = vec![vary("k", 4, 4, 0.0, 1.0)];
    let t = knobs_for_frame(4, &vs);
    assert_eq!(t.len(), 1);
    assert_eq!(t[0].num, 0);
    assert_eq!(t[0].den, 0);
}

#[test]
fn no_variations_give_empty_table() {
    let vs: Vec<Variation<f64>> = vec![];
    assert_eq!(knobs_for_frame(0, &vs).len(), 0);
}

#[test]
fn decimal_digits_of_largest_word() {
    assert_eq!(decimal_digits(usize::MAX), 20);
}
