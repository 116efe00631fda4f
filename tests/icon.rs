use macos_icon::family::{pack, FamilyBuilder, Insertion, PackError};
use macos_icon::pixels::{extract_channel, interleave, resample, PixelFormat, PixelImage};
use macos_icon::slot::{classify, floor_power_of_two, slot_for, Classification, Density, SlotType};

fn square(side: u32, format: PixelFormat, value: u8) -> PixelImage {
    let channels: usize = match format {
        PixelFormat::Gray => 1,
        PixelFormat::GrayAlpha => 2,
        PixelFormat::Rgb => 3,
        PixelFormat::Rgba => 4,
        PixelFormat::Unsupported => 8,
    };
    PixelImage {
        width: side,
        height: side,
        format,
        data: vec![value; side as usize * side as usize * channels],
    }
}

fn slot(size: u32, density: u32) -> SlotType {
    SlotType { size, density }
}

#[test]
fn floor_power_of_two_values() {
    assert_eq!(floor_power_of_two(1), 1);
    assert_eq!(floor_power_of_two(2), 2);
    assert_eq!(floor_power_of_two(3), 2);
    assert_eq!(floor_power_of_two(17), 16);
    assert_eq!(floor_power_of_two(1000), 512);
    assert_eq!(floor_power_of_two(1024), 1024);
    assert_eq!(floor_power_of_two(u32::MAX), 2147483648);
}

#[test]
fn slot_table_matches_container() {
    for size in [16u32, 32, 48, 64, 128, 256, 512] {
        assert_eq!(slot_for(size, Density::Standard), Some(slot(size, 1)));
    }
    for size in [32u32, 64, 256, 512, 1024] {
        assert_eq!(slot_for(size, Density::Retina), Some(slot(size, 2)));
    }
    assert_eq!(slot_for(1024, Density::Standard), None);
    assert_eq!(slot_for(16, Density::Retina), None);
    assert_eq!(slot_for(128, Density::Retina), None);
    assert_eq!(slot_for(100, Density::Standard), None);
}

#[test]
fn classify_direct_resize_unusable() {
    assert_eq!(classify(512, Density::Standard), Classification::Direct(slot(512, 1)));
    assert_eq!(classify(17, Density::Standard), Classification::NeedsResize(16));
    assert_eq!(classify(1000, Density::Retina), Classification::NeedsResize(512));
    assert_eq!(classify(17, Density::Retina), Classification::Unusable);
    assert_eq!(classify(1024, Density::Standard), Classification::Unusable);
    assert_eq!(classify(2048, Density::Retina), Classification::Unusable);
    assert_eq!(classify(8, Density::Standard), Classification::Unusable);
    assert_eq!(classify(0, Density::Standard), Classification::Unusable);
}

#[test]
fn classify_twice_same_verdict() {
    for side in [0u32, 1, 17, 100, 512, 1000, 1024, 5000] {
        for density in [Density::Standard, Density::Retina] {
            assert_eq!(classify(side, density), classify(side, density));
        }
    }
}

#[test]
fn resize_target_rounds_down() {
    for side in 1u32..3000 {
        for density in [Density::Standard, Density::Retina] {
            if let Classification::NeedsResize(t) = classify(side, density) {
                assert!(t.is_power_of_two());
                assert!(t < side && side < 2 * t);
            }
        }
    }
}

#[test]
fn resample_shrinks_to_target() {
    let img = square(17, PixelFormat::Rgba, 200);
    let out = resample(&img, 16);
    assert_eq!(out.width, 16);
    assert_eq!(out.height, 16);
    assert_eq!(out.format, PixelFormat::Rgba);
    assert_eq!(out.data.len(), 16 * 16 * 4);
    assert!(out.data.iter().all(|&b| b >= 195 && b <= 205));
}

#[test]
fn resample_keeps_channels_apart() {
    let mut img = square(20, PixelFormat::GrayAlpha, 0);
    for p in 0..400 {
        img.data[2 * p] = 10;
        img.data[2 * p + 1] = 250;
    }
    let out = resample(&img, 16);
    assert_eq!(out.data.len(), 16 * 16 * 2);
    for p in 0..256 {
        assert!(out.data[2 * p] <= 15);
        assert!(out.data[2 * p + 1] >= 245);
    }
}

#[test]
fn add_direct_image() {
    let mut family = FamilyBuilder::new();
    let img = square(32, PixelFormat::Rgb, 7);
    assert_eq!(family.add(&img, Density::Retina), Ok(Insertion::Added(slot(32, 2))));
    assert_eq!(family.len(), 1);
    let stored = family.image_for(slot(32, 2)).unwrap();
    assert_eq!(stored.width, 32);
    assert_eq!(stored.data, img.data);
}

#[test]
fn add_resizes_oversized_image() {
    let mut family = FamilyBuilder::new();
    let img = square(300, PixelFormat::Gray, 9);
    assert_eq!(family.add(&img, Density::Standard), Ok(Insertion::Added(slot(256, 1))));
    let stored = family.image_for(slot(256, 1)).unwrap();
    assert_eq!((stored.width, stored.height), (256, 256));
    assert_eq!(stored.data.len(), 256 * 256);
}

#[test]
fn add_squares_non_square_image() {
    let mut family = FamilyBuilder::new();
    let img = PixelImage { width: 64, height: 80, format: PixelFormat::Gray, data: vec![1; 64 * 80] };
    assert_eq!(family.add(&img, Density::Standard), Ok(Insertion::Added(slot(64, 1))));
    let stored = family.image_for(slot(64, 1)).unwrap();
    assert_eq!((stored.width, stored.height), (64, 64));
    assert!(stored.width <= img.width && stored.height <= img.height);
}

#[test]
fn dedup_first_writer_wins() {
    let mut family = FamilyBuilder::new();
    let first = square(64, PixelFormat::Gray, 1);
    let second = square(64, PixelFormat::Gray, 2);
    assert_eq!(family.add(&first, Density::Standard), Ok(Insertion::Added(slot(64, 1))));
    assert_eq!(family.add(&second, Density::Standard), Ok(Insertion::Duplicate(slot(64, 1))));
    assert_eq!(family.len(), 1);
    assert_eq!(family.image_for(slot(64, 1)).unwrap().data, first.data);
}

#[test]
fn unusable_image_is_skipped() {
    let mut family = FamilyBuilder::new();
    let img = square(10, PixelFormat::Rgba, 0);
    assert_eq!(family.add(&img, Density::Standard), Ok(Insertion::Unusable));
    assert!(family.is_empty());
}

#[test]
fn unsupported_format_is_hard_error() {
    let mut family = FamilyBuilder::new();
    let img = square(16, PixelFormat::Unsupported, 0);
    assert_eq!(
        family.add(&img, Density::Standard),
        Err(PackError::UnsupportedPixelFormat(slot(16, 1)))
    );
    assert!(family.is_empty());
    let images = vec![(square(32, PixelFormat::Gray, 0), Density::Standard), (img, Density::Standard)];
    assert_eq!(pack(&images), Err(PackError::UnsupportedPixelFormat(slot(16, 1))));
}

#[test]
fn unsupported_format_in_filled_slot_is_skipped() {
    let images = vec![
        (square(16, PixelFormat::Gray, 0), Density::Standard),
        (square(16, PixelFormat::Unsupported, 0), Density::Standard),
    ];
    let (_, notes) = pack(&images).unwrap();
    assert_eq!(notes, vec![Insertion::Added(slot(16, 1)), Insertion::Duplicate(slot(16, 1))]);
}

#[test]
fn empty_input_is_empty_family() {
    assert_eq!(pack(&Vec::new()), Err(PackError::EmptyFamily));
    assert_eq!(FamilyBuilder::new().serialize(), Err(PackError::EmptyFamily));
}

#[test]
fn only_unusable_input_is_empty_family() {
    let images = vec![
        (square(10, PixelFormat::Rgba, 0), Density::Standard),
        (square(17, PixelFormat::Rgba, 0), Density::Retina),
        (square(1024, PixelFormat::Gray, 0), Density::Standard),
    ];
    assert_eq!(pack(&images), Err(PackError::EmptyFamily));
}

#[test]
fn scenario_mixed_sizes_standard_density() {
    let images = vec![
        (square(1024, PixelFormat::Rgba, 3), Density::Standard),
        (square(512, PixelFormat::Rgba, 4), Density::Standard),
        (square(17, PixelFormat::Rgba, 5), Density::Standard),
    ];
    let (bytes, notes) = pack(&images).unwrap();
    assert_eq!(
        notes,
        vec![Insertion::Unusable, Insertion::Added(slot(512, 1)), Insertion::Added(slot(16, 1))]
    );
    assert_eq!(&bytes[0..4], b"icns");
}

#[test]
fn scenario_mixed_sizes_retina_density() {
    let images = vec![
        (square(1024, PixelFormat::Rgba, 3), Density::Retina),
        (square(1000, PixelFormat::Rgba, 4), Density::Retina),
        (square(17, PixelFormat::Rgba, 5), Density::Retina),
    ];
    let (_, notes) = pack(&images).unwrap();
    assert_eq!(
        notes,
        vec![
            Insertion::Added(slot(1024, 2)),
            Insertion::Added(slot(512, 2)),
            Insertion::Unusable
        ]
    );
}

#[test]
fn scenario_resized_image_duplicates_direct_one() {
    let images = vec![
        (square(512, PixelFormat::Rgba, 4), Density::Standard),
        (square(600, PixelFormat::Rgba, 3), Density::Standard),
    ];
    let (_, notes) = pack(&images).unwrap();
    assert_eq!(notes, vec![Insertion::Added(slot(512, 1)), Insertion::Duplicate(slot(512, 1))]);
}

#[test]
fn scenario_single_retina_image_serializes() {
    let images = vec![(square(512, PixelFormat::Rgba, 128), Density::Retina)];
    let (bytes, notes) = pack(&images).unwrap();
    assert_eq!(notes, vec![Insertion::Added(slot(512, 2))]);
    assert!(bytes.len() > 8);
    assert_eq!(&bytes[0..4], b"icns");
    let total = u32::from_be_bytes([bytes[4], bytes[5], bytes[6], bytes[7]]);
    assert_eq!(total as usize, bytes.len());
}

#[test]
fn serialize_rle_and_mask_slots() {
    let mut family = FamilyBuilder::new();
    family.add(&square(16, PixelFormat::Rgba, 50), Density::Standard).unwrap();
    family.add(&square(48, PixelFormat::Gray, 60), Density::Standard).unwrap();
    family.add(&square(32, PixelFormat::GrayAlpha, 70), Density::Retina).unwrap();
    assert_eq!(family.slots(), vec![slot(16, 1), slot(48, 1), slot(32, 2)]);
    let bytes = family.serialize().unwrap();
    assert_eq!(&bytes[0..4], b"icns");
    let total = u32::from_be_bytes([bytes[4], bytes[5], bytes[6], bytes[7]]);
    assert_eq!(total as usize, bytes.len());
}

#[test]
fn interleave_places_channels() {
    let planes = vec![vec![1u8, 2, 3], vec![10u8, 20, 30]];
    assert_eq!(interleave(&planes, 3), vec![1, 10, 2, 20, 3, 30]);
    let data = vec![1u8, 10, 2, 20, 3, 30];
    assert_eq!(extract_channel(&data, 2, 1), vec![10, 20, 30]);
}

#[test]
fn resample_large_thin_image() {
    let img = PixelImage { width: 50000, height: 40, format: PixelFormat::Gray, data: vec![5; 50000 * 40] };
    let out = resample(&img, 32);
    assert_eq!((out.width, out.height), (32, 32));
    assert_eq!(out.data.len(), 32 * 32);
}
