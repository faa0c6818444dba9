use mandelbrot::bands::{bands, rows_per_band, Band, THREADS};

fn rows_covered(plan: &[Band]) -> Vec<usize> {
    let mut rows = Vec::new();
    for band in plan {
        for row in band.top..band.top + band.height {
            rows.push(row);
        }
    }
    rows
}

#[test]
fn the_renderer_aims_at_eight_bands() {
    assert_eq!(THREADS, 8);
}

#[test]
fn rows_per_band_rounds_down_and_adds_one() {
    assert_eq!(rows_per_band(750, 8), 94);
    assert_eq!(rows_per_band(201, 8), 26);
    assert_eq!(rows_per_band(16, 8), 3);
    assert_eq!(rows_per_band(3, 8), 1);
    assert_eq!(rows_per_band(0, 8), 1);
    assert_eq!(rows_per_band(10, 1), 11);
}

#[test]
fn bands_of_a_height_that_the_workers_do_not_divide() {
    let plan = bands(201, 8);
    assert_eq!(plan.len(), 8);
    for (i, band) in plan.iter().enumerate() {
        assert_eq!(band.top, 26 * i);
    }
    for band in &plan[..7] {
        assert_eq!(band.height, 26);
    }
    assert_eq!(plan[7], Band { top: 182, height: 19 });
    assert_eq!(plan.iter().map(|band| band.height).sum::<usize>(), 201);
    assert_eq!(rows_covered(&plan), (0..201).collect::<Vec<usize>>());
}

#[test]
fn bands_of_a_height_that_the_workers_divide() {
    let plan = bands(16, 8);
    assert_eq!(
        plan,
        vec![
            Band { top: 0, height: 3 },
            Band { top: 3, height: 3 },
            Band { top: 6, height: 3 },
            Band { top: 9, height: 3 },
            Band { top: 12, height: 3 },
            Band { top: 15, height: 1 },
        ]
    );
}

#[test]
fn a_low_image_has_fewer_bands_than_workers() {
    assert_eq!(
        bands(3, 8),
        vec![
            Band { top: 0, height: 1 },
            Band { top: 1, height: 1 },
            Band { top: 2, height: 1 },
        ]
    );
}

#[test]
fn an_image_without_rows_has_no_bands() {
    assert_eq!(bands(0, 8), Vec::<Band>::new());
}

#[test]
fn one_worker_gets_the_whole_image() {
    assert_eq!(bands(750, 1), vec![Band { top: 0, height: 750 }]);
}

#[test]
fn bands_cover_every_row_once_and_never_outnumber_the_workers() {
    for threads in 1..12 {
        for height in 0..100 {
            let plan = bands(height, threads);
            assert!(plan.len() <= threads);
            assert_eq!(rows_covered(&plan), (0..height).collect::<Vec<usize>>());
            for band in &plan {
                assert!(1 <= band.height && band.height <= rows_per_band(height, threads));
            }
        }
    }
}
