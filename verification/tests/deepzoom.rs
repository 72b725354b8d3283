use openslide_rs::{
    Address, BoundsProperties, DeepZoom, Downsample, OpenSlideError, Pixels, Region, Size,
    SlideInfo, SlideLevel,
};

fn no_bounds() -> BoundsProperties {
    BoundsProperties { x: None, y: None, width: None, height: None }
}

/// The level that a slide with these downsamples holds best for `factor`:
/// the last one whose downsample does not exceed it, and level 0 below all.
fn best_level(downsamples: &[f64], factor: f64) -> u32 {
    let mut best = 0;
    for (level, downsample) in downsamples.iter().enumerate() {
        if *downsample <= factor {
            best = level as u32;
        }
    }
    best
}

fn slide(dimensions: &[(u32, u32)], downsamples: &[f64], bounds: BoundsProperties) -> SlideInfo {
    let levels = dimensions
        .iter()
        .zip(downsamples.iter())
        .map(|(dims, downsample)| SlideLevel {
            dimensions: Size { w: dims.0, h: dims.1 },
            downsample: Downsample::from_bits(downsample.to_bits()).unwrap(),
        })
        .collect();
    let best_levels = (0..33).map(|k| best_level(downsamples, 2f64.powi(k))).collect();
    SlideInfo { levels, best_levels, bounds }
}

/// A slide of 300 by 250 pixels with four levels, each half the one before.
fn boxes() -> SlideInfo {
    slide(
        &[(300, 250), (150, 125), (75, 62), (37, 31)],
        &[1.0, 2.0, 4.0, 8.0],
        no_bounds(),
    )
}

fn blank(width: u32, height: u32) -> Pixels {
    Pixels::from_raw(width, height, vec![0u8; 4 * width as usize * height as usize]).unwrap()
}

#[test]
fn test_metadata() {
    let slide = boxes();
    let dz = DeepZoom::new(&slide, 254, 1, false).unwrap();

    assert_eq!(dz.level_count(), 10);

    assert_eq!(
        *dz.level_dimensions(),
        vec![
            Size { w: 1, h: 1 },
            Size { w: 2, h: 1 },
            Size { w: 3, h: 2 },
            Size { w: 5, h: 4 },
            Size { w: 10, h: 8 },
            Size { w: 19, h: 16 },
            Size { w: 38, h: 32 },
            Size { w: 75, h: 63 },
            Size { w: 150, h: 125 },
            Size { w: 300, h: 250 }
        ]
    );

    assert_eq!(
        *dz.level_tiles(),
        vec![
            Size { w: 1, h: 1 },
            Size { w: 1, h: 1 },
            Size { w: 1, h: 1 },
            Size { w: 1, h: 1 },
            Size { w: 1, h: 1 },
            Size { w: 1, h: 1 },
            Size { w: 1, h: 1 },
            Size { w: 1, h: 1 },
            Size { w: 1, h: 1 },
            Size { w: 2, h: 1 }
        ]
    );
}

#[test]
#[should_panic(expected = "Level 10 out of range")]
fn test_get_tile_bad_level() {
    let slide = boxes();
    let dz = DeepZoom::new(&slide, 254, 1, false).unwrap();

    if let Err(e) = dz.read_tile(10, Address { x: 0, y: 0 }, blank(1, 1)) {
        panic!("{}", e.error_message());
    }
}

#[test]
fn test_get_tile_coordinates() {
    let slide = boxes();
    let dz = DeepZoom::new(&slide, 254, 1, false).unwrap();

    let expected = Region {
        address: Address { x: 253, y: 0 },
        level: 0,
        size: Size { w: 47, h: 250 },
    };
    assert_eq!(dz.tile_region(9, Address { x: 1, y: 0 }).unwrap(), expected);
}

#[test]
fn test_get_tile_dimensions() {
    let slide = boxes();
    let dz = DeepZoom::new(&slide, 254, 1, false).unwrap();

    let expected = Size { w: 47, h: 250 };
    assert_eq!(dz.tile_size(9, Address { x: 1, y: 0 }).unwrap(), expected);
}

#[test]
fn test_open() {
    let slide = slide(&[(600, 400)], &[1.0], no_bounds());
    let dz = DeepZoom::new(&slide, 224, 0, false).unwrap();

    let region = dz.tile_region(9, Address { x: 0, y: 0 }).unwrap();
    assert_eq!(
        region,
        Region { address: Address { x: 0, y: 0 }, level: 0, size: Size { w: 448, h: 400 } }
    );
    let tile = dz
        .read_tile(9, Address { x: 0, y: 0 }, blank(region.size.w, region.size.h))
        .unwrap();
    assert_eq!(tile.size(), Size { w: 224, h: 200 });
}

#[test]
fn first_tile_of_the_finest_level() {
    let dz = DeepZoom::new(&boxes(), 254, 1, false).unwrap();
    let (region, size) = dz.tile_info(9, Address { x: 0, y: 0 }).unwrap();
    assert_eq!(
        region,
        Region { address: Address { x: 0, y: 0 }, level: 0, size: Size { w: 255, h: 250 } }
    );
    assert_eq!(size, Size { w: 255, h: 250 });
}

#[test]
fn coarser_levels_read_from_coarser_native_levels() {
    let dz = DeepZoom::new(&boxes(), 254, 1, false).unwrap();
    // Level 8 (150 by 125) has downsample 2 and is read from native level 1.
    assert_eq!(
        dz.tile_region(8, Address { x: 0, y: 0 }).unwrap(),
        Region { address: Address { x: 0, y: 0 }, level: 1, size: Size { w: 150, h: 125 } }
    );
    // Level 7 is 75 by 63, native level 2 only 75 by 62: the region is clamped.
    assert_eq!(
        dz.tile_region(7, Address { x: 0, y: 0 }).unwrap(),
        Region { address: Address { x: 0, y: 0 }, level: 2, size: Size { w: 75, h: 62 } }
    );
    assert_eq!(dz.tile_size(7, Address { x: 0, y: 0 }).unwrap(), Size { w: 75, h: 63 });
    // Levels below 6 have a downsample over 8 and are read from native level 3.
    assert_eq!(
        dz.tile_region(0, Address { x: 0, y: 0 }).unwrap(),
        Region { address: Address { x: 0, y: 0 }, level: 3, size: Size { w: 37, h: 31 } }
    );
    assert_eq!(dz.tile_size(0, Address { x: 0, y: 0 }).unwrap(), Size { w: 1, h: 1 });
}

#[test]
fn inner_tiles_overlap_on_both_sides() {
    let slide = slide(&[(1000, 700)], &[1.0], no_bounds());
    let dz = DeepZoom::new(&slide, 256, 2, false).unwrap();
    assert_eq!(dz.level_count(), 11);
    assert_eq!(dz.level_tiles()[10], Size { w: 4, h: 3 });
    let (region, size) = dz.tile_info(10, Address { x: 1, y: 1 }).unwrap();
    assert_eq!(size, Size { w: 260, h: 260 });
    assert_eq!(
        region,
        Region { address: Address { x: 254, y: 254 }, level: 0, size: Size { w: 260, h: 260 } }
    );
    // The last column is partial and has no neighbour to its right.
    let (region, size) = dz.tile_info(10, Address { x: 3, y: 2 }).unwrap();
    assert_eq!(size, Size { w: 234, h: 190 });
    assert_eq!(
        region,
        Region { address: Address { x: 766, y: 510 }, level: 0, size: Size { w: 234, h: 190 } }
    );
    // One level down every pixel stands for two of the slide.
    let (region, size) = dz.tile_info(9, Address { x: 1, y: 0 }).unwrap();
    assert_eq!(size, Size { w: 246, h: 258 });
    assert_eq!(
        region,
        Region { address: Address { x: 508, y: 0 }, level: 0, size: Size { w: 492, h: 516 } }
    );
}

#[test]
fn single_tile_has_no_overlap() {
    let dz = DeepZoom::new(&boxes(), 254, 1, false).unwrap();
    for level in 0..9u32 {
        assert_eq!(dz.level_tiles()[level as usize], Size { w: 1, h: 1 });
        assert_eq!(
            dz.tile_size(level, Address { x: 0, y: 0 }).unwrap(),
            dz.level_dimensions()[level as usize]
        );
    }
}

#[test]
fn tile_grid_is_level_over_tile_size_rounded_up() {
    for tile_size in [1u32, 7, 64, 254, 256, 300, 4096] {
        let dz = DeepZoom::new(&boxes(), tile_size, 0, false).unwrap();
        for level in 0..dz.level_count() {
            let dims = dz.level_dimensions()[level];
            let tiles = dz.level_tiles()[level];
            assert_eq!(tiles.w, (dims.w + tile_size - 1) / tile_size);
            assert_eq!(tiles.h, (dims.h + tile_size - 1) / tile_size);
        }
    }
}

#[test]
fn tiles_reconstruct_each_level() {
    let slide = slide(&[(1000, 700), (250, 175)], &[1.0, 4.0], no_bounds());
    for (tile_size, overlap) in [(256u32, 0u32), (254, 1), (100, 3), (7, 2), (1, 1)] {
        let dz = DeepZoom::new(&slide, tile_size, overlap, false).unwrap();
        for level in 0..dz.level_count() as u32 {
            let dims = dz.level_dimensions()[level as usize];
            let tiles = dz.level_tiles()[level as usize];
            let mut width = 0;
            for x in 0..tiles.w {
                let size = dz.tile_size(level, Address { x, y: 0 }).unwrap();
                let before = if x != 0 { overlap } else { 0 };
                let after = if x != tiles.w - 1 { overlap } else { 0 };
                width += size.w - before - after;
            }
            assert_eq!(width, dims.w);
            let mut height = 0;
            for y in 0..tiles.h {
                let size = dz.tile_size(level, Address { x: 0, y }).unwrap();
                let before = if y != 0 { overlap } else { 0 };
                let after = if y != tiles.h - 1 { overlap } else { 0 };
                height += size.h - before - after;
            }
            assert_eq!(height, dims.h);
        }
    }
}

#[test]
fn tile_requests_are_pure() {
    let dz = DeepZoom::new(&boxes(), 254, 1, false).unwrap();
    for level in 0..11u32 {
        for x in 0..3u32 {
            let address = Address { x, y: 0 };
            assert_eq!(dz.tile_region(level, address), dz.tile_region(level, address));
            assert_eq!(dz.tile_size(level, address), dz.tile_size(level, address));
        }
    }
}

#[test]
fn finest_level_is_the_slide() {
    let dz = DeepZoom::new(&boxes(), 254, 1, false).unwrap();
    assert_eq!(dz.level_dimensions()[dz.level_count() - 1], Size { w: 300, h: 250 });
}

#[test]
fn level_out_of_range_names_the_level() {
    let dz = DeepZoom::new(&boxes(), 254, 1, false).unwrap();
    for level in [10u32, 11, 4_000_000_000] {
        let expected = OpenSlideError::IndexError(level.to_string());
        assert_eq!(dz.tile_region(level, Address { x: 0, y: 0 }), Err(expected.clone()));
        assert_eq!(dz.tile_size(level, Address { x: 0, y: 0 }), Err(expected.clone()));
        assert_eq!(dz.tile_info(level, Address { x: 0, y: 0 }), Err(expected));
    }
    let e = dz.tile_region(10, Address { x: 0, y: 0 }).unwrap_err();
    assert_eq!(e.error_message(), "Level 10 out of range");
}

#[test]
fn address_out_of_range_names_level_and_address() {
    let dz = DeepZoom::new(&boxes(), 254, 1, false).unwrap();
    assert!(dz.tile_region(9, Address { x: 1, y: 0 }).is_ok());
    assert_eq!(
        dz.tile_region(9, Address { x: 2, y: 0 }),
        Err(OpenSlideError::IndexError("9 address (2, 0)".to_string()))
    );
    assert_eq!(
        dz.tile_size(9, Address { x: 0, y: 1 }),
        Err(OpenSlideError::IndexError("9 address (0, 1)".to_string()))
    );
    assert_eq!(
        dz.tile_info(3, Address { x: 1, y: 0 }),
        Err(OpenSlideError::IndexError("3 address (1, 0)".to_string()))
    );
    let e = dz.tile_region(9, Address { x: 2, y: 0 }).unwrap_err();
    assert_eq!(e.error_message(), "Level 9 address (2, 0) out of range");
}

#[test]
fn read_tile_checks_the_address_first() {
    let dz = DeepZoom::new(&boxes(), 254, 1, false).unwrap();
    assert_eq!(
        dz.read_tile(9, Address { x: 5, y: 5 }, blank(2, 2)).unwrap_err(),
        OpenSlideError::IndexError("9 address (5, 5)".to_string())
    );
}

#[test]
fn read_tile_keeps_pixels_of_the_right_size() {
    let dz = DeepZoom::new(&boxes(), 254, 1, false).unwrap();
    let data: Vec<u8> = (0..4 * 47 * 250).map(|i| (i % 251) as u8).collect();
    let pixels = Pixels::from_raw(47, 250, data.clone()).unwrap();
    let tile = dz.read_tile(9, Address { x: 1, y: 0 }, pixels).unwrap();
    assert_eq!(tile.size(), Size { w: 47, h: 250 });
    assert_eq!(*tile.as_raw(), data);
}

#[test]
fn read_tile_resamples_pixels_of_another_size() {
    let dz = DeepZoom::new(&boxes(), 254, 1, false).unwrap();
    // Level 7 is 75 by 63 but native level 2 holds only 62 rows.
    let region = dz.tile_region(7, Address { x: 0, y: 0 }).unwrap();
    assert_eq!(region.size, Size { w: 75, h: 62 });
    let data = vec![200u8; 4 * 75 * 62];
    let pixels = Pixels::from_raw(75, 62, data).unwrap();
    let tile = dz.read_tile(7, Address { x: 0, y: 0 }, pixels).unwrap();
    assert_eq!(tile.size(), Size { w: 75, h: 63 });
    assert_eq!(tile.as_raw().len(), 4 * 75 * 63);
    assert!(tile.as_raw().iter().all(|byte| *byte == 200));
}

#[test]
fn read_tile_refuses_a_tile_that_memory_cannot_hold() {
    let edge = 0x8000_0000u32;
    let slide = slide(&[(edge, edge)], &[1.0], no_bounds());
    let dz = DeepZoom::new(&slide, edge, 0, false).unwrap();
    assert_eq!(dz.level_count(), 32);
    assert_eq!(dz.tile_size(31, Address { x: 0, y: 0 }).unwrap(), Size { w: edge, h: edge });
    assert_eq!(
        dz.read_tile(31, Address { x: 0, y: 0 }, blank(0, 0)).unwrap_err(),
        OpenSlideError::InternalError("Tile too large".to_string())
    );
}

#[test]
fn read_tile_refuses_pixels_too_wide_to_resample() {
    // A tile of 2^20 + 1 pixels, and pixels for it that are one row short.
    let edge = (1u32 << 20) + 1;
    let slide = slide(&[(edge, 2)], &[1.0], no_bounds());
    let dz = DeepZoom::new(&slide, edge, 0, false).unwrap();
    let level = dz.level_count() as u32 - 1;
    assert_eq!(dz.tile_size(level, Address { x: 0, y: 0 }).unwrap(), Size { w: edge, h: 2 });
    assert_eq!(
        dz.read_tile(level, Address { x: 0, y: 0 }, blank(edge, 1)).unwrap_err(),
        OpenSlideError::InternalError("Tile too large".to_string())
    );
    // Pixels of the size of the tile need no resampling.
    let tile = dz.read_tile(level, Address { x: 0, y: 0 }, blank(edge, 2)).unwrap();
    assert_eq!(tile.size(), Size { w: edge, h: 2 });
}

#[test]
fn slide_without_levels_is_refused() {
    let slide = SlideInfo { levels: vec![], best_levels: vec![0; 33], bounds: no_bounds() };
    assert_eq!(
        DeepZoom::new(&slide, 254, 1, false).err(),
        Some(OpenSlideError::InternalError("Level 0 out of range".to_string()))
    );
}

#[test]
fn tile_wider_than_32_bits_is_refused() {
    let too_large = Some(OpenSlideError::InternalError("Tile too large".to_string()));
    assert_eq!(DeepZoom::new(&boxes(), u32::MAX, 1, false).err(), too_large);
    assert_eq!(DeepZoom::new(&boxes(), 2, 0x7fff_ffff, false).err(), too_large);
    assert_eq!(DeepZoom::new(&boxes(), 1, u32::MAX, false).err(), too_large);
    assert!(DeepZoom::new(&boxes(), u32::MAX, 0, false).is_ok());
    assert!(DeepZoom::new(&boxes(), 1, 0x7fff_ffff, false).is_ok());
    assert!(DeepZoom::new(&boxes(), 0xffff_fffd, 1, false).is_ok());
    // A slide without levels is refused for that first.
    let empty = SlideInfo { levels: vec![], best_levels: vec![0; 33], bounds: no_bounds() };
    assert_eq!(
        DeepZoom::new(&empty, u32::MAX, 1, false).err(),
        Some(OpenSlideError::InternalError("Level 0 out of range".to_string()))
    );
}

#[test]
fn slide_with_too_few_answers_is_refused() {
    let mut slide = boxes();
    slide.best_levels.truncate(9);
    assert_eq!(
        DeepZoom::new(&slide, 254, 1, false).err(),
        Some(OpenSlideError::InternalError("Best level missing".to_string()))
    );
    let mut slide = boxes();
    slide.best_levels.truncate(10);
    assert!(DeepZoom::new(&slide, 254, 1, false).is_ok());
}

#[test]
fn slide_that_names_a_missing_level_is_refused() {
    let mut slide = boxes();
    slide.best_levels[3] = 4;
    slide.best_levels[5] = 7;
    // Level 4 of the pyramid asks for the downsample 2^5 and comes first.
    assert_eq!(
        DeepZoom::new(&slide, 254, 1, false).err(),
        Some(OpenSlideError::IndexError("7".to_string()))
    );
    // Answers for downsamples that the pyramid does not have are not read.
    let mut slide = boxes();
    slide.best_levels[10] = 99;
    assert!(DeepZoom::new(&slide, 254, 1, false).is_ok());
}

#[test]
fn smallest_slides() {
    let one = slide(&[(1, 1)], &[1.0], no_bounds());
    let dz = DeepZoom::new(&one, 254, 1, false).unwrap();
    assert_eq!(dz.level_count(), 1);
    assert_eq!(*dz.level_dimensions(), vec![Size { w: 1, h: 1 }]);
    assert_eq!(
        dz.tile_info(0, Address { x: 0, y: 0 }).unwrap(),
        (
            Region { address: Address { x: 0, y: 0 }, level: 0, size: Size { w: 1, h: 1 } },
            Size { w: 1, h: 1 }
        )
    );

    let empty = slide(&[(0, 0)], &[1.0], no_bounds());
    let dz = DeepZoom::new(&empty, 254, 1, false).unwrap();
    assert_eq!(*dz.level_dimensions(), vec![Size { w: 0, h: 0 }]);
    assert_eq!(*dz.level_tiles(), vec![Size { w: 0, h: 0 }]);
    assert!(dz.tile_info(0, Address { x: 0, y: 0 }).is_err());

    let strip = slide(&[(5, 1)], &[1.0], no_bounds());
    let dz = DeepZoom::new(&strip, 2, 0, false).unwrap();
    assert_eq!(
        *dz.level_dimensions(),
        vec![
            Size { w: 1, h: 1 },
            Size { w: 2, h: 1 },
            Size { w: 3, h: 1 },
            Size { w: 5, h: 1 }
        ]
    );
    assert_eq!(dz.level_tiles()[3], Size { w: 3, h: 1 });
}

#[test]
fn largest_slide_has_thirty_three_levels() {
    let slide = slide(&[(u32::MAX, 1)], &[1.0], no_bounds());
    let dz = DeepZoom::new(&slide, 1024, 0, false).unwrap();
    assert_eq!(dz.level_count(), 33);
    assert_eq!(dz.level_dimensions()[0], Size { w: 1, h: 1 });
    assert_eq!(dz.level_dimensions()[1], Size { w: 2, h: 1 });
    assert_eq!(dz.level_dimensions()[31], Size { w: 0x8000_0000, h: 1 });
    // The coarsest level stands for 2^32 pixels of the slide.
    assert_eq!(
        dz.tile_region(0, Address { x: 0, y: 0 }).unwrap(),
        Region { address: Address { x: 0, y: 0 }, level: 0, size: Size { w: u32::MAX, h: 1 } }
    );
}

#[test]
fn bounds_crop_the_slide() {
    let bounds = BoundsProperties {
        x: Some("100".to_string()),
        y: Some("50".to_string()),
        width: Some("200".to_string()),
        height: Some("125".to_string()),
    };
    let slide = slide(&[(400, 250), (100, 63)], &[1.0, 4.0], bounds);
    let dz = DeepZoom::new(&slide, 128, 1, true).unwrap();
    // 200 by 125 at full resolution: nine levels.
    assert_eq!(dz.level_count(), 9);
    assert_eq!(dz.level_dimensions()[8], Size { w: 200, h: 125 });
    assert_eq!(dz.level_tiles()[8], Size { w: 2, h: 1 });
    assert_eq!(
        dz.tile_info(8, Address { x: 1, y: 0 }).unwrap(),
        (
            Region {
                address: Address { x: 227, y: 50 },
                level: 0,
                size: Size { w: 73, h: 125 }
            },
            Size { w: 73, h: 125 }
        )
    );
    // Native level 1 is scaled to 50 by 32 (63 * 125 / 250 rounded up).
    assert_eq!(
        dz.tile_info(6, Address { x: 0, y: 0 }).unwrap(),
        (
            Region {
                address: Address { x: 100, y: 50 },
                level: 1,
                size: Size { w: 50, h: 32 }
            },
            Size { w: 50, h: 32 }
        )
    );
    // Without the limit the same slide is shown whole.
    let whole = DeepZoom::new(&slide, 128, 1, false).unwrap();
    assert_eq!(whole.level_count(), 10);
    assert_eq!(whole.level_dimensions()[9], Size { w: 400, h: 250 });
    assert_eq!(
        whole.tile_region(9, Address { x: 0, y: 0 }).unwrap().address,
        Address { x: 0, y: 0 }
    );
}

#[test]
fn absent_or_unreadable_bounds_fall_back() {
    let bounds = BoundsProperties {
        x: Some("ten".to_string()),
        y: None,
        width: Some("-5".to_string()),
        height: Some("".to_string()),
    };
    let slide = slide(&[(300, 250)], &[1.0], bounds);
    let limited = DeepZoom::new(&slide, 254, 1, true).unwrap();
    let whole = DeepZoom::new(&slide, 254, 1, false).unwrap();
    assert_eq!(limited.level_dimensions(), whole.level_dimensions());
    assert_eq!(
        limited.tile_info(9, Address { x: 1, y: 0 }),
        whole.tile_info(9, Address { x: 1, y: 0 })
    );
}

#[test]
fn uneven_downsamples_agree_with_floating_point() {
    let downsamples = [1.0, 2.0, (300.0 / 75.0 + 250.0 / 62.0) / 2.0, (300.0 / 37.0 + 250.0 / 31.0) / 2.0];
    let dimensions = [(300u32, 250u32), (150, 125), (75, 62), (37, 31)];
    let slide = slide(&dimensions, &downsamples, no_bounds());
    for (tile_size, overlap) in [(254u32, 1u32), (16, 1), (5, 2)] {
        let dz = DeepZoom::new(&slide, tile_size, overlap, false).unwrap();
        let count = dz.level_count() as u32;
        for level in 0..count {
            let tiles = dz.level_tiles()[level as usize];
            let dims = dz.level_dimensions()[level as usize];
            let total = 2f64.powi((count - 1 - level) as i32);
            let native = best_level(&downsamples, total) as usize;
            let ratio = total / downsamples[native];
            for x in 0..tiles.w {
                let region = dz.tile_region(level, Address { x, y: 0 }).unwrap();
                let size = dz.tile_size(level, Address { x, y: 0 }).unwrap();
                let before = if x != 0 { overlap } else { 0 };
                let after = if x != tiles.w - 1 { overlap } else { 0 };
                let extent = tile_size.min(dims.w - tile_size * x) + before + after;
                let origin = (ratio * (tile_size * x - before) as f64).ceil() as u32;
                assert_eq!(size.w, extent);
                assert_eq!(region.level, native);
                assert_eq!(region.address.x, (downsamples[native] * origin as f64) as u32);
                assert_eq!(
                    region.size.w,
                    ((ratio * extent as f64).ceil() as u32)
                        .min(dimensions[native].0.saturating_sub(origin))
                );
            }
        }
    }
}

#[test]
fn background_is_white_unless_chosen() {
    let dz = DeepZoom::new(&boxes(), 254, 1, false).unwrap();
    assert_eq!(dz.background(), 0xff_ffff);
    let dz = dz.with_background(0x10_2030);
    assert_eq!(dz.background(), 0x10_2030);
    assert_eq!(dz.level_count(), 10);
}

/// The mapping of one axis in double-precision arithmetic.
fn axis_in_doubles(
    tile_size: u32,
    overlap: u32,
    dim: u32,
    tiles: u32,
    index: u32,
    ratio: f64,
    factor: f64,
    offset: u32,
    limit: u32,
) -> (u32, u32, u32) {
    let before = if index != 0 { overlap } else { 0 };
    let after = if index != tiles - 1 { overlap } else { 0 };
    let extent = tile_size.min(dim - tile_size * index) + before + after;
    let start = (tile_size * index) as i64 - before as i64;
    let origin = (ratio * start as f64).ceil() as u32;
    let address = (factor * origin as f64 + offset as f64) as u32;
    let size = ((ratio * extent as f64).ceil() as u32).min(limit.saturating_sub(origin));
    (address, size, extent)
}

#[test]
fn random_slides_agree_with_floating_point() {
    let mut state = 99u64;
    let mut next = move |bound: u64| {
        state = state.wrapping_mul(6364136223846793005).wrapping_add(1442695040888963407);
        (state >> 24) % bound
    };
    for _ in 0..300 {
        let width = 1 + next(5000) as u32;
        let height = 1 + next(5000) as u32;
        let mut dimensions = vec![(width, height)];
        let mut downsamples = vec![1.0f64];
        for _ in 0..next(4) {
            let (w, h) = *dimensions.last().unwrap();
            let step = 2 + next(3) as u32;
            if w / step == 0 || h / step == 0 {
                break;
            }
            dimensions.push((w / step, h / step));
            downsamples.push(
                (width as f64 / (w / step) as f64 + height as f64 / (h / step) as f64) / 2.0,
            );
        }
        let limit_bounds = next(2) == 0;
        let bounds = BoundsProperties {
            x: Some(next(width as u64).to_string()),
            y: Some(next(height as u64).to_string()),
            width: Some((1 + next(width as u64)).to_string()),
            height: if next(4) == 0 { None } else { Some((1 + next(height as u64)).to_string()) },
        };
        let (offset, scale) = if limit_bounds {
            let bw: u32 = bounds.width.as_ref().unwrap().parse().unwrap();
            let bh: u32 = bounds.height.as_ref().map_or(height, |h| h.parse().unwrap());
            (
                (
                    bounds.x.as_ref().unwrap().parse::<u32>().unwrap(),
                    bounds.y.as_ref().unwrap().parse::<u32>().unwrap(),
                ),
                (bw as f64 / width as f64, bh as f64 / height as f64),
            )
        } else {
            ((0, 0), (1.0, 1.0))
        };
        let limits: Vec<(u32, u32)> = dimensions
            .iter()
            .map(|(w, h)| {
                if limit_bounds {
                    ((*w as f64 * scale.0).ceil() as u32, (*h as f64 * scale.1).ceil() as u32)
                } else {
                    (*w, *h)
                }
            })
            .collect();
        let tile_size = 1 + next(600) as u32;
        let overlap = next(4) as u32;
        let source = slide(&dimensions, &downsamples, bounds);
        let dz = DeepZoom::new(&source, tile_size, overlap, limit_bounds).unwrap();
        let count = dz.level_count() as u32;
        assert_eq!(dz.level_dimensions()[count as usize - 1], Size { w: limits[0].0, h: limits[0].1 });
        for level in 0..count {
            let dims = dz.level_dimensions()[level as usize];
            let tiles = dz.level_tiles()[level as usize];
            assert_eq!(tiles.w, (dims.w as f64 / tile_size as f64).ceil() as u32);
            assert_eq!(tiles.h, (dims.h as f64 / tile_size as f64).ceil() as u32);
            if level + 1 < count {
                let finer = dz.level_dimensions()[level as usize + 1];
                assert_eq!(dims.w, ((finer.w as f64 / 2.0).ceil() as u32).max(1));
                assert_eq!(dims.h, ((finer.h as f64 / 2.0).ceil() as u32).max(1));
            }
            let total = 2f64.powi((count - 1 - level) as i32);
            let native = best_level(&downsamples, total) as usize;
            let ratio = total / downsamples[native];
            for step in 0..12 {
                let address = Address {
                    x: if step < 2 { step * (tiles.w - 1) } else { next(tiles.w as u64) as u32 },
                    y: if step < 2 { step * (tiles.h - 1) } else { next(tiles.h as u64) as u32 },
                };
                let (region, size) = dz.tile_info(level, address).unwrap();
                let x = axis_in_doubles(
                    tile_size,
                    overlap,
                    dims.w,
                    tiles.w,
                    address.x,
                    ratio,
                    downsamples[native],
                    offset.0,
                    limits[native].0,
                );
                let y = axis_in_doubles(
                    tile_size,
                    overlap,
                    dims.h,
                    tiles.h,
                    address.y,
                    ratio,
                    downsamples[native],
                    offset.1,
                    limits[native].1,
                );
                assert_eq!(
                    region,
                    Region {
                        address: Address { x: x.0, y: y.0 },
                        level: native,
                        size: Size { w: x.1, h: y.1 }
                    }
                );
                assert_eq!(size, Size { w: x.2, h: y.2 });
            }
        }
    }
}

#[test]
fn overlap_wider_than_the_tile() {
    // The second tile would start before the level does: it starts at its edge.
    let source = slide(&[(10, 1)], &[1.0], no_bounds());
    let dz = DeepZoom::new(&source, 2, 5, false).unwrap();
    let (region, size) = dz.tile_info(4, Address { x: 1, y: 0 }).unwrap();
    assert_eq!(size, Size { w: 12, h: 1 });
    assert_eq!(
        region,
        Region { address: Address { x: 0, y: 0 }, level: 0, size: Size { w: 10, h: 1 } }
    );
}
