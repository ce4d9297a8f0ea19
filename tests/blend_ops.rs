use plutofilter_rs::{
    blend_color_burn_op, blend_color_dodge_op, blend_darken_op, blend_difference_op,
    blend_exclusion_op, blend_hard_light_op, blend_lighten_op, blend_multiply_op, blend_normal_op,
    blend_overlay_op, blend_screen_op, blend_soft_light_op,
};

type Op = fn(u32, u32, u32, u32) -> u32;

const CASES: [(u32, u32, u32, u32); 6] = [
    (60, 100, 120, 200),
    (100, 30, 120, 200),
    (10, 150, 40, 160),
    (0, 0, 0, 0),
    (255, 255, 255, 255),
    (30, 10, 200, 90),
];

fn check(op: Op, expected: [u32; 6]) {
    for (i, &(s, d, sa, da)) in CASES.iter().enumerate() {
        assert_eq!(op(s, d, sa, da), expected[i], "case {}", i);
    }
}

#[test]
fn normal_op_values() {
    check(blend_normal_op, [113, 116, 136, 0, 255, 32]);
}

#[test]
fn multiply_op_values() {
    check(blend_multiply_op, [89, 49, 136, 0, 255, 23]);
}

#[test]
fn screen_op_values() {
    check(blend_screen_op, [136, 118, 154, 0, 255, 39]);
}

#[test]
fn overlay_op_values() {
    check(blend_overlay_op, [113, 61, 153, 0, 255, 24]);
}

#[test]
fn darken_op_values() {
    check(blend_darken_op, [113, 52, 136, 0, 255, 29]);
}

#[test]
fn lighten_op_values() {
    check(blend_lighten_op, [113, 116, 154, 0, 255, 32]);
}

#[test]
fn color_dodge_op_values() {
    check(blend_color_dodge_op, [160, 122, 155, 0, 255, 30]);
}

#[test]
fn color_burn_op_values() {
    check(blend_color_burn_op, [66, 37, 149, 0, 255, 22]);
}

#[test]
fn hard_light_op_values() {
    check(blend_hard_light_op, [113, 105, 142, 0, 255, 24]);
}

#[test]
fn soft_light_op_values() {
    check(blend_soft_light_op, [112, 66, 152, 0, 509, 24]);
}

#[test]
fn difference_op_values() {
    check(blend_difference_op, [66, 102, 148, 0, 0, 24]);
}

#[test]
fn exclusion_op_values() {
    check(blend_exclusion_op, [113, 106, 148, 0, 0, 38]);
}
