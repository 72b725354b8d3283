use openslide_rs::bounds::{
    read_property, scale_extent, scale_size, BOUNDS_HEIGHT, BOUNDS_WIDTH, BOUNDS_X, BOUNDS_Y,
};
use openslide_rs::pixels::MAX_RESAMPLE_EXTENT;
use openslide_rs::{resize_dimensions, Pixels, Size};

#[test]
fn resize_dimensions_of_a_thumbnail() {
    // A slide level of 150 by 125 in a square of 100.
    assert_eq!(resize_dimensions(150, 125, 100, 100, false), (100, 83));
    assert_eq!(resize_dimensions(300, 250, 100, 100, false), (100, 83));
    assert_eq!(resize_dimensions(125, 150, 100, 100, false), (83, 100));
}

#[test]
fn resize_dimensions_fits_or_fills() {
    assert_eq!(resize_dimensions(200, 100, 50, 50, false), (50, 25));
    assert_eq!(resize_dimensions(200, 100, 50, 50, true), (100, 50));
    assert_eq!(resize_dimensions(100, 200, 50, 50, false), (25, 50));
    assert_eq!(resize_dimensions(100, 200, 50, 50, true), (50, 100));
    assert_eq!(resize_dimensions(100, 100, 50, 50, false), (50, 50));
    assert_eq!(resize_dimensions(100, 100, 50, 50, true), (50, 50));
    assert_eq!(resize_dimensions(10, 10, 1000, 500, false), (500, 500));
    assert_eq!(resize_dimensions(3, 2, 0, 0, false), (0, 0));
    assert_eq!(resize_dimensions(0, 5, 3, 3, false), (0, 3));
}

#[test]
fn resize_dimensions_stays_within_32_bits() {
    assert_eq!(resize_dimensions(1, 2, u32::MAX, u32::MAX, true), (2147483647, u32::MAX));
    assert_eq!(resize_dimensions(2, 1, u32::MAX, u32::MAX, true), (u32::MAX, 2147483647));
    assert_eq!(resize_dimensions(1, 4, 100, u32::MAX, true), (1073741823, u32::MAX));
    assert_eq!(resize_dimensions(1, 1, u32::MAX, u32::MAX, false), (u32::MAX, u32::MAX));
}

#[test]
fn pixels_need_four_bytes_for_each_pixel() {
    assert!(Pixels::from_raw(2, 3, vec![0; 24]).is_some());
    assert!(Pixels::from_raw(2, 3, vec![0; 23]).is_none());
    assert!(Pixels::from_raw(2, 3, vec![0; 25]).is_none());
    assert!(Pixels::from_raw(0, 3, vec![]).is_some());
    assert!(Pixels::from_raw(u32::MAX, u32::MAX, vec![]).is_none());
    let pixels = Pixels::from_raw(2, 1, vec![1, 2, 3, 4, 5, 6, 7, 8]).unwrap();
    assert_eq!(pixels.size(), Size { w: 2, h: 1 });
    assert_eq!(*pixels.as_raw(), vec![1, 2, 3, 4, 5, 6, 7, 8]);
    assert_eq!(pixels.into_raw(), vec![1, 2, 3, 4, 5, 6, 7, 8]);
}

#[test]
fn fit_keeps_an_image_of_the_right_size() {
    let data: Vec<u8> = (0..96).collect();
    let pixels = Pixels::from_raw(4, 6, data.clone()).unwrap();
    let fitted = pixels.fit(Size { w: 4, h: 6 }).unwrap();
    assert_eq!(fitted.size(), Size { w: 4, h: 6 });
    assert_eq!(fitted.into_raw(), data);
}

#[test]
fn fit_resamples_to_the_size_asked_for() {
    let mut data = Vec::new();
    for _ in 0..8 * 8 {
        data.extend_from_slice(&[10, 20, 30, 255]);
    }
    let pixels = Pixels::from_raw(8, 8, data).unwrap();
    let smaller = pixels.fit(Size { w: 3, h: 5 }).unwrap();
    assert_eq!(smaller.size(), Size { w: 3, h: 5 });
    assert_eq!(smaller.as_raw().len(), 4 * 3 * 5);
    for pixel in smaller.as_raw().chunks(4) {
        assert_eq!(pixel, [10, 20, 30, 255]);
    }
    let larger = smaller.fit(Size { w: 9, h: 7 }).unwrap();
    assert_eq!(larger.size(), Size { w: 9, h: 7 });
    assert_eq!(larger.as_raw().len(), 4 * 9 * 7);
}

#[test]
fn fit_resamples_as_the_lanczos_filter_does() {
    let data: Vec<u8> = (0..4 * 6 * 4).map(|i| (i * 7 % 256) as u8).collect();
    let pixels = Pixels::from_raw(6, 4, data.clone()).unwrap();
    let fitted = pixels.fit(Size { w: 3, h: 2 }).unwrap();
    let image = image::RgbaImage::from_raw(6, 4, data).unwrap();
    let expected = image::imageops::resize(&image, 3, 2, image::imageops::FilterType::Lanczos3);
    assert_eq!(*fitted.as_raw(), expected.into_raw());
}

#[test]
fn fit_handles_empty_images() {
    let empty = Pixels::from_raw(0, 0, vec![]).unwrap();
    let fitted = empty.fit(Size { w: 2, h: 2 }).unwrap();
    assert_eq!(fitted.size(), Size { w: 2, h: 2 });
    assert_eq!(fitted.as_raw().len(), 16);
    let some = Pixels::from_raw(2, 2, vec![9; 16]).unwrap();
    let none = some.fit(Size { w: 0, h: 5 }).unwrap();
    assert_eq!(none.size(), Size { w: 0, h: 5 });
    assert!(none.as_raw().is_empty());
}

#[test]
fn fit_refuses_what_memory_cannot_hold() {
    let empty = Pixels::from_raw(0, 0, vec![]).unwrap();
    assert!(empty.fit(Size { w: u32::MAX, h: u32::MAX }).is_none());
}

#[test]
fn fit_resamples_up_to_the_largest_extent() {
    assert_eq!(MAX_RESAMPLE_EXTENT, 1 << 20);
    let row = Pixels::from_raw(2, 1, vec![40, 50, 60, 255, 40, 50, 60, 255]).unwrap();
    let wide = row.fit(Size { w: MAX_RESAMPLE_EXTENT, h: 1 }).unwrap();
    assert_eq!(wide.size(), Size { w: MAX_RESAMPLE_EXTENT, h: 1 });
    assert_eq!(wide.as_raw().len(), 4 << 20);
    assert_eq!(wide.as_raw()[..4], [40, 50, 60, 255]);
    assert_eq!(wide.as_raw()[(4 << 20) - 4..], [40, 50, 60, 255]);
    let narrow = wide.fit(Size { w: 3, h: 1 }).unwrap();
    assert_eq!(*narrow.as_raw(), [40, 50, 60, 255].repeat(3));
}

#[test]
fn fit_refuses_extents_above_the_largest() {
    let over = MAX_RESAMPLE_EXTENT + 1;
    let row = Pixels::from_raw(2, 1, vec![0; 8]).unwrap();
    assert!(row.fit(Size { w: over, h: 1 }).is_none());
    let row = Pixels::from_raw(2, 1, vec![0; 8]).unwrap();
    assert!(row.fit(Size { w: 1, h: over }).is_none());
    let wide = Pixels::from_raw(over, 1, vec![0; 4 * over as usize]).unwrap();
    assert!(wide.fit(Size { w: 2, h: 1 }).is_none());
    let high = Pixels::from_raw(1, over, vec![0; 4 * over as usize]).unwrap();
    assert!(high.fit(Size { w: 1, h: 2 }).is_none());
    // An image of the size asked for is handed back whatever its extent.
    let wide = Pixels::from_raw(over, 1, vec![7; 4 * over as usize]).unwrap();
    let same = wide.fit(Size { w: over, h: 1 }).unwrap();
    assert_eq!(same.size(), Size { w: over, h: 1 });
}

#[test]
fn bounds_property_names() {
    assert_eq!(BOUNDS_X, "openslide.bounds-x");
    assert_eq!(BOUNDS_Y, "openslide.bounds-y");
    assert_eq!(BOUNDS_WIDTH, "openslide.bounds-width");
    assert_eq!(BOUNDS_HEIGHT, "openslide.bounds-height");
}

#[test]
fn properties_fall_back_to_the_default() {
    assert_eq!(read_property(&Some("17".to_string()), 5), 17);
    assert_eq!(read_property(&Some("+17".to_string()), 5), 17);
    assert_eq!(read_property(&Some("17px".to_string()), 5), 5);
    assert_eq!(read_property(&Some("-17".to_string()), 5), 5);
    assert_eq!(read_property(&Some("".to_string()), 5), 5);
    assert_eq!(read_property(&Some("4294967296".to_string()), 5), 5);
    assert_eq!(read_property(&None, 5), 5);
}

#[test]
fn extents_scale_as_doubles_do() {
    assert_eq!(scale_extent(300, 300, 300), 300);
    assert_eq!(scale_extent(150, 200, 400), 75);
    assert_eq!(scale_extent(63, 125, 250), 32);
    assert_eq!(scale_extent(3, 1, 3), 1);
    assert_eq!(scale_extent(0, 7, 9), 0);
    assert_eq!(scale_extent(9, 0, 7), 0);
    assert_eq!(scale_extent(0, 0, 0), 0);
    assert_eq!(scale_extent(5, 0, 0), 0);
    assert_eq!(scale_extent(0, 5, 0), 0);
    assert_eq!(scale_extent(5, 5, 0), u32::MAX);
    assert_eq!(scale_extent(u32::MAX, u32::MAX, 1), u32::MAX);
    let mut state = 12345u64;
    for _ in 0..20000 {
        state = state.wrapping_mul(6364136223846793005).wrapping_add(1442695040888963407);
        let extent = (state >> 40) as u32 % 200_000;
        let bounds = (state >> 20) as u32 % 100_000;
        let full = 1 + (state >> 8) as u32 % 100_000;
        let scale = bounds as f64 / full as f64;
        assert_eq!(
            scale_extent(extent, bounds, full),
            (extent as f64 * scale).ceil() as u32,
            "{} * {} / {}",
            extent,
            bounds,
            full
        );
    }
    assert_eq!(
        scale_size(
            Size { w: 100, h: 63 },
            Size { w: 200, h: 125 },
            Size { w: 400, h: 250 }
        ),
        Size { w: 50, h: 32 }
    );
}
