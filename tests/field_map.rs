use noise_gradient::colormap::{interpolate, magma, twilight, Rgb};
use noise_gradient::field::{derive_gradient, sample_grid, Grad};
use noise_gradient::fixed::{remap_unit, ONE};
use noise_gradient::map::{EncodeError, FieldMap};

fn rgb(r: u8, g: u8, b: u8) -> Rgb {
    Rgb { r, g, b }
}

fn zero() -> Grad {
    Grad { x: 0, y: 0 }
}

#[test]
fn sampler_is_row_major() {
    let data = sample_grid(3, 2, |i: usize, j: usize| (i + 10 * j) as i32);
    assert_eq!(data, vec![0, 1, 2, 10, 11, 12]);
}

#[test]
fn field_lengths_match_grid() {
    let m = FieldMap::new(5, 3, |i: usize, j: usize| (i * j) as i32);
    assert_eq!(m.width(), 5);
    assert_eq!(m.height(), 3);
    assert_eq!(m.data().len(), 15);
    assert_eq!(m.deriv().len(), 15);
}

#[test]
fn empty_grid_has_empty_fields() {
    let m = FieldMap::new(0, 4, |_i: usize, _j: usize| 1);
    assert_eq!(m.data().len(), 0);
    assert_eq!(m.deriv().len(), 0);
}

#[test]
fn sampling_twice_gives_same_fields() {
    let f = |i: usize, j: usize| ((i * 7919 + j * 104729) % 131071) as i32 - 65536;
    let a = FieldMap::new(6, 4, f);
    let b = FieldMap::new(6, 4, f);
    assert_eq!(a.data(), b.data());
    assert_eq!(a.deriv(), b.deriv());
}

#[test]
fn constant_field_has_zero_gradient() {
    let m = FieldMap::new(4, 3, |_i: usize, _j: usize| 12345);
    for g in m.deriv() {
        assert_eq!(*g, zero());
    }
}

#[test]
fn rising_field_gradient_points_right() {
    let m = FieldMap::new(5, 4, |i: usize, _j: usize| i as i32);
    for k in 0..20 {
        let g = m.deriv()[k];
        assert!(g.x > 0);
        assert_eq!(g.y, 0);
        let i = k % 5;
        if i > 0 && i < 4 {
            assert_eq!(g, Grad { x: 2, y: 0 });
        } else {
            assert_eq!(g, Grad { x: 1, y: 0 });
        }
    }
}

#[test]
fn two_by_two_zero_field() {
    let data = vec![0, 0, 0, 0];
    assert_eq!(derive_gradient(&data, 2, 2), vec![zero(), zero(), zero(), zero()]);
    let m = FieldMap::new(2, 2, |_i: usize, _j: usize| 0);
    assert_eq!(m.deriv(), &vec![zero(), zero(), zero(), zero()]);
    let mid = interpolate(&magma(), ONE / 2);
    assert_eq!(mid, rgb(181, 54, 122));
    let pixels = m.encode_data();
    assert_eq!(pixels, vec![181, 54, 122, 181, 54, 122, 181, 54, 122, 181, 54, 122]);
}

#[test]
fn interior_cell_of_a_ramp() {
    let data = vec![0, 1, 2];
    let deriv = derive_gradient(&data, 3, 1);
    assert_eq!(deriv[1], Grad { x: 2, y: 0 });
    assert_eq!(deriv[0], Grad { x: 1, y: 0 });
    assert_eq!(deriv[2], Grad { x: 1, y: 0 });
}

#[test]
fn corner_cells_use_existing_neighbours_only() {
    let data = vec![0, 1, 2, 3];
    let deriv = derive_gradient(&data, 2, 2);
    assert_eq!(deriv, vec![
        Grad { x: 1, y: -2 },
        Grad { x: 1, y: -2 },
        Grad { x: 1, y: -2 },
        Grad { x: 1, y: -2 },
    ]);
    let data = vec![0, 0, 0, 0, 9, 0, 0, 0, 0];
    let deriv = derive_gradient(&data, 3, 3);
    assert_eq!(deriv[4], Grad { x: 0, y: 0 });
    assert_eq!(deriv[1], Grad { x: 0, y: -9 });
    assert_eq!(deriv[7], Grad { x: 0, y: 9 });
    assert_eq!(deriv[3], Grad { x: 9, y: 0 });
    assert_eq!(deriv[5], Grad { x: -9, y: 0 });
}

#[test]
fn extreme_samples_do_not_overflow() {
    let data = vec![i32::MIN, i32::MAX, i32::MIN];
    let deriv = derive_gradient(&data, 3, 1);
    assert_eq!(deriv[1].x, 0);
    assert_eq!(deriv[0].x, i32::MAX as i64 - i32::MIN as i64);
}

#[test]
fn interpolation_hits_end_stops() {
    for stops in [magma(), twilight(), vec![rgb(1, 2, 3), rgb(200, 100, 50), rgb(7, 8, 9)]] {
        assert_eq!(interpolate(&stops, 0), stops[0]);
        assert_eq!(interpolate(&stops, ONE), stops[stops.len() - 1]);
    }
    let single = vec![rgb(9, 8, 7)];
    assert_eq!(interpolate(&single, 0), rgb(9, 8, 7));
    assert_eq!(interpolate(&single, ONE), rgb(9, 8, 7));
    assert_eq!(interpolate(&single, ONE / 3), rgb(9, 8, 7));
}

#[test]
fn interpolation_clamps_out_of_range() {
    let stops = magma();
    assert_eq!(interpolate(&stops, -5), stops[0]);
    assert_eq!(interpolate(&stops, i64::MIN), stops[0]);
    assert_eq!(interpolate(&stops, ONE + 1), stops[8]);
    assert_eq!(interpolate(&stops, i64::MAX), stops[8]);
}

#[test]
fn interpolation_blends_between_stops() {
    assert_eq!(interpolate(&magma(), 4096), rgb(14, 8, 36));
    let stops = vec![rgb(0, 255, 100), rgb(255, 0, 100)];
    assert_eq!(interpolate(&stops, ONE / 4), rgb(63, 191, 100));
}

#[test]
fn cyclic_colormap_has_no_seam() {
    let stops = twilight();
    let a = interpolate(&stops, 0);
    let b = interpolate(&stops, ONE);
    assert_eq!(a, b);
}

#[test]
fn remap_of_unit_range() {
    assert_eq!(remap_unit(-(ONE as i32)), 0);
    assert_eq!(remap_unit(0), ONE / 2);
    assert_eq!(remap_unit(ONE as i32), ONE);
    assert_eq!(remap_unit(-2 * ONE as i32), 0);
    assert_eq!(remap_unit(3), 32769);
}

#[test]
fn encoded_rasters_have_three_bytes_per_cell() {
    let m = FieldMap::new(7, 5, |i: usize, j: usize| (i as i32 - 3) * 9000 + j as i32 * 100);
    assert_eq!(m.encode_data().len(), 7 * 5 * 3);
    let angles = vec![0; 35];
    assert_eq!(m.encode_deriv(&angles).len(), 7 * 5 * 3);
}

#[test]
fn scalar_colours_follow_magma() {
    let m = FieldMap::new(3, 1, |i: usize, _j: usize| [-(ONE as i32), 0, ONE as i32][i]);
    assert_eq!(m.encode_data(), vec![0, 0, 4, 181, 54, 122, 252, 253, 191]);
}

#[test]
fn gradient_colours_follow_twilight() {
    let m = FieldMap::new(3, 1, |i: usize, _j: usize| [0, 1, 2][i]);
    let angles = vec![ONE as i32, -(ONE as i32), 0];
    assert_eq!(m.encode_deriv(&angles), vec![226, 217, 226, 226, 217, 226, 47, 20, 52]);
}

#[test]
fn zero_gradient_takes_angle_zero() {
    let m = FieldMap::new(2, 1, |_i: usize, _j: usize| 5);
    let angles = vec![ONE as i32, -(ONE as i32)];
    assert_eq!(m.encode_deriv(&angles), vec![47, 20, 52, 47, 20, 52]);
}

#[test]
fn png_output_is_a_png_file() {
    let m = FieldMap::new(2, 2, |_i: usize, _j: usize| 0);
    let png = m.encode_data_png().unwrap();
    assert_eq!(&png[..8], &[137, 80, 78, 71, 13, 10, 26, 10]);
    assert_ne!(png, m.encode_data());
    let again = m.encode_data_png().unwrap();
    assert_eq!(png, again);
    let deriv_png = m.encode_deriv_png(&vec![0; 4]).unwrap();
    assert_eq!(&deriv_png[..8], &[137, 80, 78, 71, 13, 10, 26, 10]);
}

#[test]
fn empty_map_cannot_be_serialised() {
    let m = FieldMap::new(0, 3, |_i: usize, _j: usize| 0);
    assert_eq!(m.encode_data_png(), Err(EncodeError::Serialization));
    assert_eq!(m.encode_deriv_png(&vec![]), Err(EncodeError::Serialization));
    let m = FieldMap::new(3, 0, |_i: usize, _j: usize| 0);
    assert_eq!(m.encode_data_png(), Err(EncodeError::Serialization));
}
