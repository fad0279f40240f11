use perlin_noise::draw_pixels;
use perlin_noise::raster::grid_points;
use perlin_noise::raster::rgb_from_gray;
use perlin_noise::raster::rgba_from_gray;

#[test]
fn rgba_layout() {
    assert_eq!(rgba_from_gray(&vec![7, 200]), vec![7, 7, 7, 255, 200, 200, 200, 255]);
    assert_eq!(rgba_from_gray(&vec![]), Vec::<u8>::new());
}

#[test]
fn rgb_layout() {
    assert_eq!(rgb_from_gray(&vec![1, 2, 3]), vec![1, 1, 1, 2, 2, 2, 3, 3, 3]);
    assert_eq!(rgb_from_gray(&vec![]), Vec::<u8>::new());
}

#[test]
fn buffer_and_image_agree() {
    let gray: Vec<u8> = (0..=255).collect();
    let rgba = rgba_from_gray(&gray);
    let rgb = rgb_from_gray(&gray);
    assert_eq!(rgba.len(), gray.len() * 4);
    for i in 0..gray.len() {
        assert_eq!(&rgba[4 * i..4 * i + 3], &rgb[3 * i..3 * i + 3]);
        assert_eq!(rgba[4 * i + 3], 255);
    }
}

#[test]
fn single_pixel_grid() {
    assert_eq!(grid_points(1, 1), vec![(0, 0)]);
    let gray = vec![137u8];
    assert_eq!(rgba_from_gray(&gray), vec![137, 137, 137, 255]);
    assert_eq!(rgb_from_gray(&gray), vec![137, 137, 137]);
}

#[test]
fn grid_is_row_major() {
    assert_eq!(
        grid_points(3, 2),
        vec![(0, 0), (1, 0), (2, 0), (0, 1), (1, 1), (2, 1)]
    );
    assert_eq!(grid_points(0, 5), vec![]);
    assert_eq!(grid_points(4, 0), vec![]);
}

#[test]
fn stripes_alternate_by_column() {
    assert_eq!(
        draw_pixels(3, 2),
        vec![
            0, 0, 0, 255, 255, 255, 255, 255, 0, 0, 0, 255, //
            0, 0, 0, 255, 255, 255, 255, 255, 0, 0, 0, 255,
        ]
    );
    assert_eq!(draw_pixels(0, 3), Vec::<u8>::new());
}
