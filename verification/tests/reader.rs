use sekai::error::AnvilError;
use sekai::reader::{entry_of, RegionImage};

fn header_only() -> Vec<u8> {
    vec![0; 8192]
}

#[test]
fn empty_region_yields_no_chunks() {
    let image = RegionImage::from_bytes(header_only(), 0, 0).unwrap();
    let mut count = 0;
    image
        .visit_chunks(|_| {
            count += 1;
            true
        })
        .unwrap();
    assert_eq!(count, 0);
}

#[test]
fn zero_length_image_is_empty_region() {
    let image = RegionImage::from_bytes(Vec::new(), 0, 0).unwrap();
    assert!(image.image().is_empty());
    let mut count = 0;
    image
        .visit_chunks(|_| {
            count += 1;
            true
        })
        .unwrap();
    assert_eq!(count, 0);
}

#[test]
fn reads_single_chunk_with_global_coords() {
    let mut image = header_only();
    image.extend_from_slice(&[0; 4096]);
    let slot = (3 + 32 * 5) * 4;
    image[slot..slot + 4].copy_from_slice(&entry_of(2, 1));
    let sector = 8192;
    image[sector..sector + 4].copy_from_slice(&5u32.to_be_bytes());
    image[sector + 4] = 2;
    image[sector + 5..sector + 9].copy_from_slice(b"nbt!");
    let image = RegionImage::from_bytes(image, -1, 0).unwrap();
    let mut seen = Vec::new();
    image
        .visit_chunks(|chunk| {
            seen.push((chunk.x, chunk.z, chunk.payload.to_vec()));
            true
        })
        .unwrap();
    assert_eq!(seen.len(), 1);
    assert_eq!(seen[0].0, -29);
    assert_eq!(seen[0].1, 5);
    assert_eq!(seen[0].2, [&[2u8] as &[_], b"nbt!"].concat());
}

#[test]
fn visitor_can_stop_early() {
    let mut image = header_only();
    image.extend_from_slice(&[0; 8192]);
    image[0..4].copy_from_slice(&entry_of(2, 1));
    image[4..8].copy_from_slice(&entry_of(3, 1));
    for (sector, slot) in [(8192, 0), (12288, 1)] {
        image[sector..sector + 4].copy_from_slice(&2u32.to_be_bytes());
        image[sector + 4] = 3;
        image[sector + 5] = slot;
    }
    let image = RegionImage::from_bytes(image, 0, 0).unwrap();
    let mut count = 0;
    image
        .visit_chunks(|_| {
            count += 1;
            false
        })
        .unwrap();
    assert_eq!(count, 1);
}

#[test]
fn rejects_damaged_images() {
    assert!(matches!(
        RegionImage::from_bytes(vec![0; 100], 0, 0),
        Err(AnvilError::TruncatedFile { .. })
    ));
    assert!(matches!(
        RegionImage::from_bytes(vec![0; 8193], 0, 0),
        Err(AnvilError::MisalignedFile { .. })
    ));

    let mut image = header_only();
    image.extend_from_slice(&[0; 4096]);
    image[0..4].copy_from_slice(&entry_of(9, 1));
    let image = RegionImage::from_bytes(image, 0, 0).unwrap();
    assert!(matches!(image.visit_chunks(|_| true), Err(AnvilError::CorruptEntry { .. })));

    let mut image = header_only();
    image.extend_from_slice(&[0; 4096]);
    image[0..4].copy_from_slice(&entry_of(2, 0));
    let image = RegionImage::from_bytes(image, 0, 0).unwrap();
    assert!(matches!(image.visit_chunks(|_| true), Err(AnvilError::CorruptEntry { .. })));

    let mut image = header_only();
    image.extend_from_slice(&[0; 4096]);
    image[0..4].copy_from_slice(&entry_of(2, 1));
    image[8192..8196].copy_from_slice(&5000u32.to_be_bytes());
    let image = RegionImage::from_bytes(image, 0, 0).unwrap();
    assert!(matches!(image.visit_chunks(|_| true), Err(AnvilError::CorruptChunk { .. })));

    let mut image = header_only();
    image.extend_from_slice(&[0; 4096]);
    image[0..4].copy_from_slice(&entry_of(2, 1));
    image[8192..8196].copy_from_slice(&0u32.to_be_bytes());
    let image = RegionImage::from_bytes(image, 0, 0).unwrap();
    assert!(matches!(image.visit_chunks(|_| true), Err(AnvilError::CorruptChunk { .. })));
}

#[test]
fn rejects_absurd_regions() {
    assert!(matches!(
        RegionImage::from_bytes(header_only(), i32::MAX, 0),
        Err(AnvilError::CoordinateOverflow { .. })
    ));
}

#[test]
fn reports_first_damaged_slot_exactly() {
    let mut image = header_only();
    image.extend_from_slice(&[0; 4096]);
    image[8..12].copy_from_slice(&entry_of(1, 3));
    image[12..16].copy_from_slice(&entry_of(2, 0));
    let image = RegionImage::from_bytes(image, 0, 0).unwrap();
    assert_eq!(
        image.visit_chunks(|_| true),
        Err(AnvilError::CorruptEntry { index: 2, offset: 1, sectors: 3 })
    );

    let mut image = header_only();
    image.extend_from_slice(&[0; 4096]);
    image[0..4].copy_from_slice(&entry_of(2, 1));
    image[8192..8196].copy_from_slice(&4093u32.to_be_bytes());
    let image = RegionImage::from_bytes(image, 0, 0).unwrap();
    assert_eq!(
        image.visit_chunks(|_| true),
        Err(AnvilError::CorruptChunk { index: 0, len: 4093 })
    );
    assert_eq!(image.region_x(), 0);
    assert_eq!(image.region_z(), 0);
    assert_eq!(image.image().len(), 12288);
}
