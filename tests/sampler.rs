use falling_bodies::geometry::Vec2;
use falling_bodies::sampler::{cell_center_doubled, sample_cells, Cell, Raster};

fn blank(width: usize, height: usize) -> Raster {
    Raster { width, height, pixels: vec![0u8; width * height] }
}

fn light(r: &mut Raster, x: usize, y: usize, v: u8) {
    r.pixels[y * r.width + x] = v;
}

#[test]
fn one_cell_with_two_bright_pixels_gives_one_shape() {
    let mut r = blank(10, 10);
    light(&mut r, 6, 1, 255);
    light(&mut r, 8, 3, 251);
    let cells = sample_cells(&r, 5, 250);
    assert_eq!(cells, vec![Cell { col: 1, row: 0 }]);
    assert_eq!(cell_center_doubled(10, 10, 5, cells[0]), Vec2::new(5, 5));
}

#[test]
fn dark_raster_gives_no_shape() {
    let r = blank(12, 7);
    assert!(sample_cells(&r, 4, 250).is_empty());
    assert!(sample_cells(&blank(0, 0), 4, 250).is_empty());
}

#[test]
fn pixel_at_threshold_is_not_bright() {
    let mut r = blank(4, 4);
    light(&mut r, 0, 0, 250);
    assert!(sample_cells(&r, 2, 250).is_empty());
}

#[test]
fn cells_come_in_scan_order_and_cover_partial_edges() {
    let mut r = blank(7, 5);
    light(&mut r, 6, 0, 255);
    light(&mut r, 0, 4, 255);
    light(&mut r, 1, 4, 255);
    light(&mut r, 2, 2, 255);
    let cells = sample_cells(&r, 3, 250);
    assert_eq!(
        cells,
        vec![Cell { col: 2, row: 0 }, Cell { col: 0, row: 0 }, Cell { col: 0, row: 1 }]
    );
    assert_eq!(cell_center_doubled(7, 5, 3, Cell { col: 2, row: 0 }), Vec2::new(8, 2));
}
