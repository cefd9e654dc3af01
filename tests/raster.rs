use rustracer::raster::{generate_y_sections, render_bands, render_section, row_bands};

fn tiles(bands: &[(i32, i32)], ny: i32) -> bool {
    if ny == 0 {
        return bands.is_empty();
    }
    if bands.is_empty() || bands[0].0 != ny || bands[bands.len() - 1].1 != 0 {
        return false;
    }
    bands.iter().all(|b| b.1 < b.0) && bands.windows(2).all(|w| w[0].1 == w[1].0)
}

#[test]
fn sections_count_down_from_the_top() {
    assert_eq!(generate_y_sections(10, 3), vec![(10, 7), (7, 4), (4, 1)]);
    assert_eq!(generate_y_sections(6, 2), vec![(6, 4), (4, 2), (2, 0)]);
    assert_eq!(generate_y_sections(2, 5), vec![]);
}

#[test]
fn bands_divide_evenly() {
    assert_eq!(row_bands(10, 5), vec![(10, 8), (8, 6), (6, 4), (4, 2), (2, 0)]);
}

#[test]
fn leftover_rows_become_single_bands() {
    assert_eq!(row_bands(10, 3), vec![(10, 7), (7, 4), (4, 1), (1, 0)]);
    assert_eq!(row_bands(11, 4), vec![(11, 9), (9, 7), (7, 5), (5, 3), (3, 1), (1, 0)]);
}

#[test]
fn more_threads_than_rows() {
    assert_eq!(row_bands(3, 8), vec![(3, 2), (2, 1), (1, 0)]);
}

#[test]
fn no_threads_means_one_band() {
    assert_eq!(row_bands(5, 0), vec![(5, 0)]);
    assert_eq!(row_bands(5, 1), vec![(5, 0)]);
}

#[test]
fn empty_image_has_no_bands() {
    assert!(row_bands(0, 4).is_empty());
    assert!(render_bands(0).is_empty());
}

#[test]
fn bands_tile_every_image() {
    for ny in 0..40 {
        for t in 0..12 {
            assert!(tiles(&row_bands(ny, t), ny), "ny {} threads {}", ny, t);
        }
        assert!(tiles(&render_bands(ny), ny));
    }
}

#[test]
fn section_pixels_top_down_left_to_right() {
    let out = render_section(2, 3, 1, |i: i32, j: i32| (i as u8, j as u8, 7));
    assert_eq!(out, vec![0, 2, 7, 1, 2, 7, 0, 1, 7, 1, 1, 7]);
}

#[test]
fn empty_section() {
    assert!(render_section(4, 2, 2, |_: i32, _: i32| (1, 2, 3)).is_empty());
    assert!(render_section(0, 5, 0, |_: i32, _: i32| (1, 2, 3)).is_empty());
}

#[test]
fn bands_concatenate_to_the_whole_image() {
    let shade = |i: i32, j: i32| ((i * 7) as u8, (j * 3) as u8, (i + j) as u8);
    let (nx, ny) = (5, 13);
    let whole = render_section(nx, ny, 0, shade);
    for t in 1..8 {
        let mut joined = Vec::new();
        for (start, end) in row_bands(ny, t) {
            joined.extend(render_section(nx, start, end, shade));
        }
        assert_eq!(joined, whole);
    }
    assert_eq!(whole.len(), 3 * 5 * 13);
}

#[test]
fn machine_bands_are_those_of_some_thread_count() {
    for ny in [0, 1, 7, 100, 481] {
        let bands = render_bands(ny);
        assert!((0..4096usize).any(|t| row_bands(ny, t) == bands), "ny {}", ny);
    }
}
