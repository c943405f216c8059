use seam_carving::{
    calculate_energy_map, delete_seam, find_low_energy_seam, get_pixel_energy, EnergyMap, Image,
    Pixel, ResizeError, Seam,
};

fn px(r: u8, g: u8, b: u8) -> Pixel {
    Pixel { r, g, b }
}

fn gray(v: u8) -> Pixel {
    px(v, v, v)
}

fn image_from_rows(rows: &[&[Pixel]]) -> Image {
    let height = rows.len();
    let width = if height == 0 { 0 } else { rows[0].len() };
    let mut data = Vec::new();
    for row in rows {
        assert_eq!(row.len(), width);
        data.extend_from_slice(row);
    }
    Image::from_pixels(width, height, data).unwrap()
}

#[test]
fn test_get_pixel_energy() {
    let left = None;

    let (mr, mg, mb) = (10, 10, 10);
    let (rr, rg, rb) = (20, 20, 20);

    let r: Pixel = px(rr, rg, rb);

    let middle: Pixel = px(mr, mg, mb);
    let right = Some(r);

    let energy = get_pixel_energy(left, middle, right);

    let energy_ = ((rr as i32 - mr as i32).pow(2)
        + (rg as i32 - mg as i32).pow(2)
        + (rb as i32 - mb as i32).pow(2)) as f64;

    assert_eq!(energy, energy_.sqrt().floor() as u32);
}

#[test]
fn energy_of_perfect_square_sum() {
    // one neighbor, squared differences 3*3 + 4*4 + 0 = 25
    let energy = get_pixel_energy(Some(px(3, 4, 0)), px(0, 0, 0), None);
    assert_eq!(energy, 5);
}

#[test]
fn energy_of_both_neighbors() {
    // 25 from each side sums to 50, whose floor square root is 7
    let energy = get_pixel_energy(Some(px(3, 4, 0)), px(0, 0, 0), Some(px(4, 3, 0)));
    assert_eq!(energy, 7);
}

#[test]
fn energy_map_keeps_dimensions() {
    let a = px(0, 0, 0);
    let b = px(3, 4, 0);
    let img = image_from_rows(&[&[a, b], &[a, b]]);
    let em = calculate_energy_map(&img).unwrap();
    assert_eq!(em.width(), 2);
    assert_eq!(em.height(), 2);
    for y in 0..2 {
        assert_eq!(em.get(0, y), 5);
        assert_eq!(em.get(1, y), 5);
    }
}

#[test]
fn uniform_neighbors_have_zero_energy() {
    let g = gray(90);
    let img = image_from_rows(&[&[g, g, g], &[g, g, g]]);
    let em = calculate_energy_map(&img).unwrap();
    for y in 0..2 {
        for x in 0..3 {
            assert_eq!(em.get(x, y), 0);
        }
    }
}

#[test]
fn single_column_has_zero_energy() {
    let img = image_from_rows(&[&[px(1, 2, 3)], &[px(200, 100, 50)], &[px(9, 9, 9)]]);
    let em = calculate_energy_map(&img).unwrap();
    for y in 0..3 {
        assert_eq!(em.get(0, y), 0);
    }
}

#[test]
fn degenerate_image_is_rejected() {
    let img = Image::from_pixels(0, 0, Vec::new()).unwrap();
    assert_eq!(
        calculate_energy_map(&img).unwrap_err(),
        ResizeError::DegenerateImage
    );
}

#[test]
fn image_buffer_length_must_match() {
    let data = vec![gray(1), gray(2), gray(3)];
    assert_eq!(
        Image::from_pixels(2, 2, data).unwrap_err(),
        ResizeError::InvalidDimensions
    );
}

#[test]
fn energy_map_buffer_length_must_match() {
    assert_eq!(
        EnergyMap::from_values(2, 2, vec![0; 5]).unwrap_err(),
        ResizeError::InvalidDimensions
    );
}

#[test]
fn found_seam_is_well_formed() {
    let values = vec![9, 1, 7, 4, 4, 2, 5, 8, 3];
    let em = EnergyMap::from_values(3, 3, values).unwrap();
    let seam = find_low_energy_seam(&em);
    assert_eq!(seam.len(), 3);
    for y in 0..3 {
        assert!(seam.column(y) < 3);
    }
}

#[test]
fn seam_of_empty_map_is_empty() {
    let em = EnergyMap::from_values(0, 0, Vec::new()).unwrap();
    let seam = find_low_energy_seam(&em);
    assert_eq!(seam.len(), 0);
}

#[test]
fn seam_prefers_low_energy_and_breaks_ties_left() {
    // column 1 of the middle row is expensive; all paths that avoid it
    // tie at zero, and the leftmost bottom column wins the tie
    let values = vec![0, 0, 0, 0, 50, 0, 0, 0, 0];
    let em = EnergyMap::from_values(3, 3, values).unwrap();
    let seam = find_low_energy_seam(&em);
    assert_eq!(seam.len(), 3);
    assert_eq!(seam.column(0), 0);
    assert_eq!(seam.column(1), 0);
    assert_eq!(seam.column(2), 0);
}

#[test]
fn delete_seam_removes_one_pixel_per_row() {
    let img = image_from_rows(&[
        &[gray(1), gray(2), gray(3)],
        &[gray(4), gray(5), gray(6)],
    ]);
    let seam = Seam::from_columns(vec![0, 2]);
    let out = delete_seam(&img, &seam).unwrap();
    assert_eq!(out.width(), 2);
    assert_eq!(out.height(), 2);
    assert_eq!(out.get_pixel(0, 0), gray(2));
    assert_eq!(out.get_pixel(1, 0), gray(3));
    assert_eq!(out.get_pixel(0, 1), gray(4));
    assert_eq!(out.get_pixel(1, 1), gray(5));
}

#[test]
fn seam_of_map_without_rows_is_empty() {
    let em = EnergyMap::from_values(3, 0, Vec::new()).unwrap();
    let seam = find_low_energy_seam(&em);
    assert_eq!(seam.len(), 0);
}

#[test]
fn delete_seam_rejects_zero_width_image() {
    let img = Image::from_pixels(0, 2, Vec::new()).unwrap();
    let seam = Seam::from_columns(vec![0, 0]);
    assert_eq!(
        delete_seam(&img, &seam).unwrap_err(),
        ResizeError::MalformedSeam
    );
}

#[test]
fn delete_seam_rejects_wrong_row_count() {
    let img = image_from_rows(&[&[gray(1), gray(2)], &[gray(3), gray(4)]]);
    let seam = Seam::from_columns(vec![0]);
    assert_eq!(
        delete_seam(&img, &seam).unwrap_err(),
        ResizeError::MalformedSeam
    );
}

#[test]
fn delete_seam_rejects_out_of_bounds_column() {
    let img = image_from_rows(&[&[gray(1), gray(2)], &[gray(3), gray(4)]]);
    let seam = Seam::from_columns(vec![0, 2]);
    assert_eq!(
        delete_seam(&img, &seam).unwrap_err(),
        ResizeError::MalformedSeam
    );
}
