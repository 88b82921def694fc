use fractal_core::error::FractalError;
use fractal_core::palette::{det_px_col, Palette, PaletteEntry, PaletteStop, Rgb8};
use fractal_core::position::UnitPosition;

fn stop(position: f32, r: u8, g: u8, b: u8) -> PaletteStop {
    PaletteStop {
        rel_index: position.to_bits(),
        index: 0,
        comment: format!("stop at {}", position),
        color: Rgb8 { r, g, b },
    }
}

fn entry(boundary: u32, r: u8, g: u8, b: u8) -> PaletteEntry {
    PaletteEntry {
        relative_position: UnitPosition::from_bits(0).unwrap(),
        absolute_boundary: boundary,
        label: String::new(),
        color: Rgb8 { r, g, b },
    }
}

fn three_stops() -> Vec<PaletteEntry> {
    vec![entry(0, 0, 0, 0), entry(10, 100, 200, 50), entry(20, 255, 0, 150)]
}

#[test]
fn interpolates_between_neighbouring_stops() {
    let stops = three_stops();
    // Half way between the first two stops.
    assert_eq!(det_px_col(5, &stops), Rgb8 { r: 50, g: 100, b: 25 });
    // Three tenths of the way: 30, 60, 15.
    assert_eq!(det_px_col(3, &stops), Rgb8 { r: 30, g: 60, b: 15 });
    // Between the second and the third stop, four tenths of the way:
    // 100 + 62 = 162, 200 - 80 = 120, 50 + 40 = 90.
    assert_eq!(det_px_col(14, &stops), Rgb8 { r: 162, g: 120, b: 90 });
}

#[test]
fn rounds_channels_to_nearest_with_halves_up() {
    let stops = vec![entry(0, 0, 0, 0), entry(2, 1, 3, 255)];
    // Half way: 0.5 -> 1, 1.5 -> 2, 127.5 -> 128.
    assert_eq!(det_px_col(1, &stops), Rgb8 { r: 1, g: 2, b: 128 });
    let thirds = vec![entry(0, 0, 0, 0), entry(3, 1, 2, 10)];
    // One third of the way: 0.33 -> 0, 0.67 -> 1, 3.33 -> 3.
    assert_eq!(det_px_col(1, &thirds), Rgb8 { r: 0, g: 1, b: 3 });
    // Two thirds of the way: 0.67 -> 1, 1.33 -> 1, 6.67 -> 7.
    assert_eq!(det_px_col(2, &thirds), Rgb8 { r: 1, g: 1, b: 7 });
}

#[test]
fn boundary_values_get_the_stop_colour_exactly() {
    let stops = three_stops();
    assert_eq!(det_px_col(10, &stops), Rgb8 { r: 100, g: 200, b: 50 });
    assert_eq!(det_px_col(20, &stops), Rgb8 { r: 255, g: 0, b: 150 });
}

#[test]
fn values_above_the_last_boundary_get_the_last_colour() {
    let stops = three_stops();
    assert_eq!(det_px_col(21, &stops), Rgb8 { r: 255, g: 0, b: 150 });
    assert_eq!(det_px_col(u32::MAX, &stops), Rgb8 { r: 255, g: 0, b: 150 });
}

#[test]
fn values_at_or_below_the_first_boundary_are_black() {
    let stops = vec![entry(5, 9, 9, 9), entry(10, 100, 200, 50)];
    assert_eq!(det_px_col(0, &stops), Rgb8 { r: 0, g: 0, b: 0 });
    assert_eq!(det_px_col(5, &stops), Rgb8 { r: 0, g: 0, b: 0 });
    assert_eq!(det_px_col(6, &stops), Rgb8 { r: 27, g: 47, b: 17 });
}

#[test]
fn degenerate_palettes_never_fail() {
    let none: Vec<PaletteEntry> = Vec::new();
    assert_eq!(det_px_col(0, &none), Rgb8 { r: 0, g: 0, b: 0 });
    assert_eq!(det_px_col(7, &none), Rgb8 { r: 0, g: 0, b: 0 });
    let single = vec![entry(4, 10, 20, 30)];
    assert_eq!(det_px_col(4, &single), Rgb8 { r: 0, g: 0, b: 0 });
    assert_eq!(det_px_col(3, &single), Rgb8 { r: 0, g: 0, b: 0 });
    assert_eq!(det_px_col(5, &single), Rgb8 { r: 10, g: 20, b: 30 });
}

#[test]
fn first_matching_pair_wins_among_unordered_stops() {
    let stops = vec![entry(0, 0, 0, 0), entry(10, 100, 100, 100), entry(4, 7, 7, 7), entry(8, 200, 200, 200)];
    // Both the first pair (0, 10] and the third pair (4, 8] hold 6.
    assert_eq!(det_px_col(6, &stops), Rgb8 { r: 60, g: 60, b: 60 });
}

#[test]
fn wide_boundaries_do_not_overflow() {
    let stops = vec![entry(0, 255, 255, 255), entry(u32::MAX, 255, 0, 1)];
    assert_eq!(det_px_col(u32::MAX, &stops), Rgb8 { r: 255, g: 0, b: 1 });
    assert_eq!(det_px_col(1, &stops), Rgb8 { r: 255, g: 255, b: 255 });
}

#[test]
fn load_accepts_an_ordered_definition() {
    let definition = vec![stop(0.0, 0, 0, 0), stop(0.25, 10, 20, 30), stop(1.0, 255, 255, 255)];
    let palette = Palette::load(&definition).unwrap();
    let entries = palette.entries();
    assert_eq!(entries.len(), 3);
    assert_eq!(entries[1].relative_position.bits(), 0.25f32.to_bits());
    assert_eq!(entries[1].label, "stop at 0.25");
    assert_eq!(entries[1].color, Rgb8 { r: 10, g: 20, b: 30 });
    assert_eq!(palette.max_iterations(), 0);
    assert_eq!(entries[0].absolute_boundary, 0);
    assert_eq!(entries[2].absolute_boundary, 0);
}

#[test]
fn load_accepts_equal_positions_and_negative_zero() {
    let definition = vec![stop(-0.0, 0, 0, 0), stop(0.5, 1, 1, 1), stop(0.5, 2, 2, 2)];
    let palette = Palette::load(&definition).unwrap();
    assert_eq!(palette.entries()[0].relative_position.bits(), 0);
    assert_eq!(palette.entries().len(), 3);
}

#[test]
fn load_accepts_an_empty_definition() {
    let palette = Palette::load(&Vec::new()).unwrap();
    assert_eq!(palette.entries().len(), 0);
    assert_eq!(palette.color_for(12), Rgb8 { r: 0, g: 0, b: 0 });
}

#[test]
fn load_refuses_positions_out_of_range() {
    for bad in [1.5f32, -0.25, f32::INFINITY, f32::NEG_INFINITY, f32::NAN, 1.0000001] {
        let definition = vec![stop(0.0, 0, 0, 0), stop(bad, 1, 1, 1)];
        assert!(matches!(Palette::load(&definition), Err(FractalError::PaletteFormat)));
    }
}

#[test]
fn load_refuses_positions_out_of_order() {
    let definition = vec![stop(0.0, 0, 0, 0), stop(0.75, 1, 1, 1), stop(0.5, 2, 2, 2)];
    assert!(matches!(Palette::load(&definition), Err(FractalError::PaletteFormat)));
}

#[test]
fn rescale_scales_every_boundary() {
    let definition = vec![stop(0.0, 0, 0, 0), stop(0.25, 10, 20, 30), stop(0.5, 40, 50, 60), stop(1.0, 255, 255, 255)];
    let mut palette = Palette::load(&definition).unwrap();
    palette.rescale(100);
    let boundaries: Vec<u32> = palette.entries().iter().map(|e| e.absolute_boundary).collect();
    assert_eq!(boundaries, vec![0, 25, 50, 100]);
    assert_eq!(palette.max_iterations(), 100);
    palette.rescale(1000);
    let boundaries: Vec<u32> = palette.entries().iter().map(|e| e.absolute_boundary).collect();
    assert_eq!(boundaries, vec![0, 250, 500, 1000]);
    assert_eq!(palette.entries()[2].color, Rgb8 { r: 40, g: 50, b: 60 });
    assert_eq!(palette.entries()[2].label, "stop at 0.5");
}

#[test]
fn rescaled_leaves_the_palette_as_it_was() {
    let definition = vec![stop(0.0, 0, 0, 0), stop(1.0, 255, 255, 255)];
    let palette = Palette::load(&definition).unwrap();
    let scaled = palette.rescaled(64);
    assert_eq!(scaled.entries()[1].absolute_boundary, 64);
    assert_eq!(palette.entries()[1].absolute_boundary, 0);
}

#[test]
fn palette_round_trip_at_boundaries() {
    let definition = vec![stop(0.0, 1, 2, 3), stop(0.1, 10, 20, 30), stop(0.6, 40, 50, 60), stop(1.0, 250, 251, 252)];
    let mut palette = Palette::load(&definition).unwrap();
    palette.rescale(200);
    for i in 1..4 {
        let e = &palette.entries()[i];
        assert_eq!(palette.color_for(e.absolute_boundary), e.color);
    }
    // The first stop has no stop below it: its boundary gets the background.
    assert_eq!(palette.color_for(0), Rgb8 { r: 0, g: 0, b: 0 });
}

#[test]
fn color_for_interpolates_over_scaled_boundaries() {
    let definition = vec![stop(0.0, 0, 0, 0), stop(0.5, 100, 0, 200), stop(1.0, 200, 100, 0)];
    let mut palette = Palette::load(&definition).unwrap();
    palette.rescale(40);
    assert_eq!(palette.color_for(10), Rgb8 { r: 50, g: 0, b: 100 });
    assert_eq!(palette.color_for(30), Rgb8 { r: 150, g: 50, b: 100 });
    assert_eq!(palette.color_for(41), Rgb8 { r: 200, g: 100, b: 0 });
}

#[test]
fn scale_rounds_to_nearest_with_halves_up() {
    let half = UnitPosition::from_bits(0.5f32.to_bits()).unwrap();
    assert_eq!(half.scale(3), 2);
    assert_eq!(half.scale(1), 1);
    assert_eq!(half.scale(0), 0);
    let quarter = UnitPosition::from_bits(0.25f32.to_bits()).unwrap();
    assert_eq!(quarter.scale(1), 0);
    assert_eq!(quarter.scale(2), 1);
    assert_eq!(quarter.scale(5), 1);
    assert_eq!(quarter.scale(6), 2);
    let third = UnitPosition::from_bits((1.0f32 / 3.0).to_bits()).unwrap();
    assert_eq!(third.scale(10), 3);
    assert_eq!(third.scale(300), 100);
    let just_below_half = UnitPosition::from_bits(0.5f32.to_bits() - 1).unwrap();
    assert_eq!(just_below_half.scale(1), 0);
    assert_eq!(just_below_half.scale(3), 1);
}

#[test]
fn scale_takes_both_ends() {
    let zero = UnitPosition::from_bits(0).unwrap();
    let one = UnitPosition::from_bits(1.0f32.to_bits()).unwrap();
    for cap in [0u32, 1, 2, 255, 1000, u32::MAX] {
        assert_eq!(zero.scale(cap), 0);
        assert_eq!(one.scale(cap), cap);
    }
}

#[test]
fn scale_handles_small_and_subnormal_positions() {
    let least = UnitPosition::from_bits(1).unwrap();
    assert_eq!(least.scale(u32::MAX), 0);
    let least_normal = UnitPosition::from_bits(f32::MIN_POSITIVE.to_bits()).unwrap();
    assert_eq!(least_normal.scale(u32::MAX), 0);
    // Two to the power of minus 32, times the greatest cap, is just below one.
    let tiny = UnitPosition::from_bits((0.5f32).powi(32).to_bits()).unwrap();
    assert_eq!(tiny.scale(u32::MAX), 1);
    assert_eq!(tiny.scale(0x7FFF_FFFF), 0);
    assert_eq!(tiny.scale(0x8000_0000), 1);
}

#[test]
fn scale_agrees_with_double_precision_where_that_is_exact() {
    let mut bits: u32 = 0x3000_0000;
    while bits <= 0x3F80_0000 {
        let position = UnitPosition::from_bits(bits).unwrap();
        for cap in [1u32, 7, 100, 1000, 65_535, 1_000_000] {
            let exact = (f32::from_bits(bits) as f64) * (cap as f64);
            let expected = (exact + 0.5).floor() as u32;
            assert_eq!(position.scale(cap), expected, "bits {:#x} cap {}", bits, cap);
        }
        bits += 0x0001_2345;
    }
}

#[test]
fn scale_is_monotone_in_the_position() {
    let mut last = 0;
    let mut bits: u32 = 0;
    while bits <= 0x3F80_0000 {
        let now = UnitPosition::from_bits(bits).unwrap().scale(1000);
        assert!(last <= now);
        last = now;
        bits += 0x0003_1111;
    }
    assert!(last <= 1000);
}

#[test]
fn from_bits_refuses_what_is_no_position() {
    assert!(UnitPosition::from_bits(0x3F80_0001).is_none());
    assert!(UnitPosition::from_bits(0x7F80_0000).is_none());
    assert!(UnitPosition::from_bits(0x7FC0_0000).is_none());
    assert!(UnitPosition::from_bits(0x8000_0001).is_none());
    assert!(UnitPosition::from_bits(0xBF80_0000).is_none());
    assert!(UnitPosition::from_bits(0x3F80_0000).is_some());
    assert_eq!(UnitPosition::from_bits(0x8000_0000).unwrap().bits(), 0);
}
