use mandelbrot::palette::{cyclic_at, hue_color, lerp_channel, linear_at, Color, Depth};
use mandelbrot::table::Palette;

const BLACK: Color = Color { r: 0, g: 0, b: 0 };
const WHITE: Color = Color { r: 65535, g: 65535, b: 65535 };

#[test]
fn depth_gives_the_largest_channel_value() {
    assert_eq!(Depth::Eight.full(), 255);
    assert_eq!(Depth::Sixteen.full(), 65535);
}

#[test]
fn hue_color_covers_the_six_sectors() {
    let d = Depth::Sixteen;
    assert_eq!(hue_color(0, 7, d), Color { r: 65535, g: 7, b: 0 });
    assert_eq!(hue_color(59, 7, d), Color { r: 65535, g: 7, b: 0 });
    assert_eq!(hue_color(60, 7, d), Color { r: 7, g: 65535, b: 0 });
    assert_eq!(hue_color(119, 7, d), Color { r: 7, g: 65535, b: 0 });
    assert_eq!(hue_color(120, 7, d), Color { r: 0, g: 65535, b: 7 });
    assert_eq!(hue_color(180, 7, d), Color { r: 0, g: 7, b: 65535 });
    assert_eq!(hue_color(240, 7, d), Color { r: 7, g: 0, b: 65535 });
    assert_eq!(hue_color(300, 7, d), Color { r: 65535, g: 0, b: 7 });
    assert_eq!(hue_color(359, 7, d), Color { r: 65535, g: 0, b: 7 });
}

#[test]
fn hue_color_wraps_a_full_turn() {
    let d = Depth::Sixteen;
    assert_eq!(hue_color(360, 9, d), hue_color(0, 9, d));
    assert_eq!(hue_color(360 + 125, 9, d), hue_color(125, 9, d));
    assert_eq!(hue_color(720 + 301, 9, d), hue_color(301, 9, d));
    assert_eq!(hue_color(u32::MAX, 9, d), hue_color(u32::MAX % 360, 9, d));
}

#[test]
fn hue_color_at_eight_bits() {
    assert_eq!(hue_color(130, 20, Depth::Eight), Color { r: 0, g: 255, b: 20 });
}

#[test]
fn lerp_channel_truncates() {
    assert_eq!(lerp_channel(0, 65535, 0, 4), 0);
    assert_eq!(lerp_channel(0, 65535, 1, 4), 16383);
    assert_eq!(lerp_channel(0, 65535, 2, 4), 32767);
    assert_eq!(lerp_channel(0, 65535, 3, 4), 49151);
    assert_eq!(lerp_channel(0, 65535, 4, 4), 65535);
    assert_eq!(lerp_channel(10, 20, 1, 3), 13);
}

#[test]
fn lerp_channel_descends_towards_a_lower_target() {
    assert_eq!(lerp_channel(100, 0, 0, 3), 100);
    assert_eq!(lerp_channel(100, 0, 1, 3), 66);
    assert_eq!(lerp_channel(100, 0, 2, 3), 33);
    assert_eq!(lerp_channel(100, 0, 3, 3), 0);
}

#[test]
fn lerp_channel_stands_a_large_budget() {
    assert_eq!(lerp_channel(65535, 65535, usize::MAX / 2, usize::MAX), 65535);
    assert_eq!(lerp_channel(0, 65535, usize::MAX, usize::MAX), 65535);
}

#[test]
fn linear_at_interpolates_each_channel() {
    let base = Color { r: 0, g: 100, b: 65535 };
    let target = Color { r: 65535, g: 0, b: 65535 };
    assert_eq!(linear_at(base, target, 0, 4), base);
    assert_eq!(linear_at(base, target, 1, 4), Color { r: 16383, g: 75, b: 65535 });
    assert_eq!(linear_at(base, target, 4, 4), target);
}

#[test]
fn cyclic_at_starts_red_and_turns_through_the_hues() {
    let d = Depth::Sixteen;
    assert_eq!(cyclic_at(0, 6, 1, d), Color { r: 65535, g: 0, b: 0 });
    assert_eq!(cyclic_at(1, 6, 1, d), Color { r: 65535, g: 65535, b: 0 });
    assert_eq!(cyclic_at(2, 6, 1, d), Color { r: 0, g: 65535, b: 0 });
    assert_eq!(cyclic_at(3, 6, 1, d), Color { r: 0, g: 65535, b: 65535 });
    assert_eq!(cyclic_at(4, 6, 1, d), Color { r: 0, g: 0, b: 65535 });
    assert_eq!(cyclic_at(5, 6, 1, d), Color { r: 65535, g: 0, b: 65535 });
}

#[test]
fn cyclic_at_truncates_the_secondary_channel() {
    let d = Depth::Sixteen;
    // hue 30: the secondary channel stands at one half
    assert_eq!(cyclic_at(1, 12, 1, d), Color { r: 65535, g: 32767, b: 0 });
    // hue 90: on the way down in the second sector
    assert_eq!(cyclic_at(3, 12, 1, d), Color { r: 32767, g: 65535, b: 0 });
    // hue 36 of 100 steps: 65535 * 60 / 100
    assert_eq!(cyclic_at(10, 100, 1, d), Color { r: 65535, g: 39321, b: 0 });
    assert_eq!(cyclic_at(1, 12, 1, Depth::Eight), Color { r: 255, g: 127, b: 0 });
}

#[test]
fn cyclic_at_repeats_with_more_cycles() {
    let d = Depth::Sixteen;
    assert_eq!(cyclic_at(8, 12, 2, d), Color { r: 0, g: 65535, b: 0 });
    assert_eq!(cyclic_at(6, 12, 2, d), cyclic_at(0, 12, 2, d));
    assert_eq!(cyclic_at(7, 12, 2, d), cyclic_at(1, 12, 2, d));
    assert_eq!(cyclic_at(5, 12, 3, d), cyclic_at(3, 12, 1, d));
    assert_eq!(cyclic_at(5, 12, 0, d), Color { r: 65535, g: 0, b: 0 });
}

#[test]
fn cyclic_at_wraps_instead_of_clamping() {
    let d = Depth::Sixteen;
    // index 12 of 12 with one cycle is a full turn: back at red
    assert_eq!(cyclic_at(12, 12, 1, d), cyclic_at(0, 12, 1, d));
    assert_eq!(cyclic_at(13, 12, 1, d), cyclic_at(1, 12, 1, d));
}

#[test]
fn cyclic_at_stands_large_arguments() {
    let c = cyclic_at(usize::MAX - 1, usize::MAX, u32::MAX, Depth::Sixteen);
    assert!(c.r == 65535 || c.g == 65535 || c.b == 65535);
    assert!(c.r == 0 || c.g == 0 || c.b == 0);
}

#[test]
fn sentinel_gets_the_in_set_color_of_a_linear_palette() {
    let base = Color { r: 1, g: 2, b: 3 };
    let in_set = Color { r: 9, g: 9, b: 9 };
    let p = Palette::linear(10, base, WHITE, in_set);
    assert_eq!(p.max_iter(), 10);
    assert_eq!(p.in_set_color(), in_set);
    assert_eq!(p.color(10), in_set);
    assert_eq!(p.color(11), in_set);
    assert_eq!(p.color(usize::MAX), in_set);
    assert_eq!(p.color(0), base);
    assert_eq!(p.color(5), linear_at(base, WHITE, 5, 10));
    assert_eq!(p.color(9), linear_at(base, WHITE, 9, 10));
}

#[test]
fn sentinel_gets_black_in_a_cyclic_palette() {
    for cycles in 0..5u32 {
        for max_iter in 0..20usize {
            let p = Palette::cyclic(max_iter, cycles, Depth::Sixteen);
            assert_eq!(p.max_iter(), max_iter);
            assert_eq!(p.color(max_iter), BLACK);
            assert_eq!(p.color(max_iter + 1), BLACK);
            for i in 0..max_iter {
                assert_eq!(p.color(i), cyclic_at(i, max_iter, cycles, Depth::Sixteen));
                assert_ne!(p.color(i), BLACK);
            }
        }
    }
}

#[test]
fn sentinel_does_not_come_from_the_gradient() {
    // a gradient that ends in white on white still marks the set in black
    let p = Palette::linear(4, WHITE, WHITE, BLACK);
    assert_eq!(p.color(3), WHITE);
    assert_eq!(p.color(4), BLACK);
}

#[test]
fn from_gradient_appends_the_in_set_color() {
    let a = Color { r: 1, g: 0, b: 0 };
    let b = Color { r: 0, g: 1, b: 0 };
    let p = Palette::from_gradient(vec![a, b], WHITE);
    assert_eq!(p.max_iter(), 2);
    assert_eq!(p.color(0), a);
    assert_eq!(p.color(1), b);
    assert_eq!(p.color(2), WHITE);
    assert_eq!(p.color(3), WHITE);
}

#[test]
fn palette_of_budget_zero_holds_only_the_sentinel() {
    let p = Palette::from_gradient(Vec::new(), BLACK);
    assert_eq!(p.max_iter(), 0);
    assert_eq!(p.color(0), BLACK);
    let q = Palette::linear(0, WHITE, WHITE, BLACK);
    assert_eq!(q.max_iter(), 0);
    assert_eq!(q.color(0), BLACK);
}

#[test]
fn escaped_color_stays_in_the_gradient() {
    let p = Palette::cyclic(10, 1, Depth::Sixteen);
    assert_eq!(p.escaped_color(0), p.color(0));
    assert_eq!(p.escaped_color(3), p.color(3));
    assert_eq!(p.escaped_color(9), p.color(9));
    assert_eq!(p.escaped_color(10), p.color(9));
    assert_eq!(p.escaped_color(11), p.color(9));
    assert_eq!(p.escaped_color(usize::MAX), p.color(9));
    assert_ne!(p.escaped_color(10), p.in_set_color());
    let one = Palette::from_gradient(vec![WHITE], BLACK);
    assert_eq!(one.escaped_color(0), WHITE);
    assert_eq!(one.escaped_color(1), WHITE);
}

#[test]
fn hue_color_keeps_within_the_depth() {
    for hue in (0..720).step_by(7) {
        let c = hue_color(hue, 255, Depth::Eight);
        assert!(c.r <= 255 && c.g <= 255 && c.b <= 255);
    }
}
