use seam_carving::{calculate_energy_map, carve_one_seam, resize_image_width, Image, Pixel, ResizeError};

fn px(r: u8, g: u8, b: u8) -> Pixel {
    Pixel { r, g, b }
}

fn gray(v: u8) -> Pixel {
    px(v, v, v)
}

fn image_from_rows(rows: &[&[Pixel]]) -> Image {
    let height = rows.len();
    let width = if height == 0 { 0 } else { rows[0].len() };
    let mut data = Vec::new();
    for row in rows {
        assert_eq!(row.len(), width);
        data.extend_from_slice(row);
    }
    Image::from_pixels(width, height, data).unwrap()
}

fn assert_images_equal(a: &Image, b: &Image) {
    assert_eq!(a.width(), b.width());
    assert_eq!(a.height(), b.height());
    for y in 0..a.height() {
        for x in 0..a.width() {
            assert_eq!(a.get_pixel(x, y), b.get_pixel(x, y));
        }
    }
}

#[test]
fn scenario_bright_corner_three_by_two() {
    // one bright pixel in the top-right corner; its jump to the uniform
    // neighborhood dominates the top row's energies
    let g = gray(10);
    let bright = px(200, 10, 10);
    let img = image_from_rows(&[&[g, g, bright], &[g, g, g]]);

    let em = calculate_energy_map(&img).unwrap();
    assert_eq!(em.get(0, 0), 0);
    assert_eq!(em.get(1, 0), 190);
    assert_eq!(em.get(2, 0), 190);
    for x in 0..3 {
        assert_eq!(em.get(x, 1), 0);
    }

    // the cheapest path runs down the zero-energy left column, and the
    // left-to-right bottom scan picks it over the equally cheap column 1
    let seam = seam_carving::find_low_energy_seam(&em);
    assert_eq!(seam.len(), 2);
    assert_eq!(seam.column(0), 0);
    assert_eq!(seam.column(1), 0);

    let carved = carve_one_seam(&img).unwrap();
    assert_eq!(carved.width(), 2);
    assert_eq!(carved.height(), 2);
    assert_eq!(carved.get_pixel(0, 0), g);
    assert_eq!(carved.get_pixel(1, 0), bright);
    assert_eq!(carved.get_pixel(0, 1), g);
    assert_eq!(carved.get_pixel(1, 1), g);
}

#[test]
fn scenario_uniform_five_to_three() {
    let c = px(7, 80, 7);
    let row = [c, c, c, c, c];
    let img = image_from_rows(&[&row, &row, &row]);
    let out = resize_image_width(&img, 3).unwrap();
    assert_eq!(out.width(), 3);
    assert_eq!(out.height(), 3);
    for y in 0..3 {
        for x in 0..3 {
            assert_eq!(out.get_pixel(x, y), c);
        }
    }
}

#[test]
fn resize_to_same_width_returns_image_unchanged() {
    let img = image_from_rows(&[
        &[px(1, 2, 3), px(4, 5, 6)],
        &[px(7, 8, 9), px(10, 11, 12)],
    ]);
    let out = resize_image_width(&img, 2).unwrap();
    assert_images_equal(&img, &out);
}

#[test]
fn resize_rejects_upsampling() {
    let img = image_from_rows(&[&[gray(1), gray(2)]]);
    assert_eq!(
        resize_image_width(&img, 3).unwrap_err(),
        ResizeError::UpsampleRejected
    );
}

#[test]
fn resize_rejects_image_without_rows() {
    let img = Image::from_pixels(2, 0, Vec::new()).unwrap();
    assert_eq!(
        resize_image_width(&img, 1).unwrap_err(),
        ResizeError::DegenerateImage
    );
    // zero seams to carve: even without rows the image comes back as is
    let same = resize_image_width(&img, 2).unwrap();
    assert_eq!(same.width(), 2);
    assert_eq!(same.height(), 0);
}

#[test]
fn resize_is_deterministic() {
    let img = image_from_rows(&[
        &[px(12, 0, 40), px(200, 3, 9), px(5, 5, 5), px(66, 31, 90)],
        &[px(0, 0, 0), px(255, 255, 255), px(17, 4, 99), px(3, 14, 15)],
        &[px(88, 70, 0), px(1, 2, 3), px(250, 0, 250), px(45, 45, 45)],
    ]);
    let once = resize_image_width(&img, 2).unwrap();
    let again = resize_image_width(&img, 2).unwrap();
    assert_images_equal(&once, &again);
}

#[test]
fn carve_rejects_degenerate_image() {
    let img = Image::from_pixels(0, 0, Vec::new()).unwrap();
    assert_eq!(
        carve_one_seam(&img).unwrap_err(),
        ResizeError::DegenerateImage
    );
}
