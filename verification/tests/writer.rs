use sekai::error::AnvilError;
use sekai::reader::{entry_of, RegionImage};
use sekai::writer::RegionBuilder;

fn builder() -> RegionBuilder {
    RegionBuilder::new(0, 0, 0x1234_5678).unwrap()
}

#[test]
fn stages_and_forgets() {
    let mut builder = builder();
    builder.stage_chunk(1, 2, &[2, 9, 9]).unwrap();
    builder.remove_chunk(1, 2).unwrap();
    builder.remove_chunk(1, 2).unwrap();
    assert_eq!(builder.image().unwrap().len(), 8192);
}

#[test]
fn stages_replace_existing_payload() {
    let mut builder = builder();
    builder.stage_chunk(0, 0, &[2, 1]).unwrap();
    builder.stage_chunk(0, 0, &[2, 2, 3]).unwrap();
    let image = builder.image().unwrap();
    assert_eq!(&image[8192..8196], &3u32.to_be_bytes());
    assert_eq!(&image[8196..8199], &[2, 2, 3]);
}

#[test]
fn rejects_foreign_empty_and_huge() {
    let mut builder = builder();
    assert!(matches!(builder.stage_chunk(32, 0, &[1]), Err(AnvilError::WrongRegion { .. })));
    assert!(matches!(builder.stage_chunk(-1, 0, &[1]), Err(AnvilError::WrongRegion { .. })));
    assert!(matches!(builder.stage_chunk(0, 0, &[]), Err(AnvilError::EmptyPayload)));
    assert!(matches!(
        builder.stage_chunk(0, 0, &vec![0; 255 * 4096]),
        Err(AnvilError::ChunkTooLarge { .. })
    ));
    assert!(matches!(
        RegionBuilder::new(i32::MAX, 0, 0),
        Err(AnvilError::CoordinateOverflow { .. })
    ));
}

#[test]
fn keeps_chunks_in_slot_order() {
    let mut builder = builder();
    builder.stage_chunk(1, 1, &[3, 1]).unwrap();
    builder.stage_chunk(0, 0, &[3, 0]).unwrap();
    let image = builder.image().unwrap();
    assert_eq!(&image[0..4], &entry_of(2, 1));
    assert_eq!(&image[132..136], &entry_of(3, 1));
}

#[test]
fn packs_image_with_header_and_padding() {
    let mut builder = builder();
    builder.stage_chunk(0, 0, &[2, 7]).unwrap();
    let big = vec![5u8; 4093];
    builder.stage_chunk(1, 1, &big).unwrap();
    let image = builder.image().unwrap();
    assert_eq!(&image[0..4], &entry_of(2, 1));
    assert_eq!(&image[33 * 4..33 * 4 + 4], &entry_of(3, 2));
    assert_eq!(&image[4096..4100], &0x1234_5678u32.to_be_bytes());
    assert_eq!(&image[4096 + 33 * 4..4096 + 33 * 4 + 4], &0x1234_5678u32.to_be_bytes());
    assert_eq!(&image[4096 + 4..4096 + 8], &[0; 4]);
    assert_eq!(&image[8192..8196], &2u32.to_be_bytes());
    assert_eq!(&image[8196..8198], &[2, 7]);
    let second = 8192 + 4096;
    assert_eq!(&image[second..second + 4], &4093u32.to_be_bytes());
    assert!(image.len() % 4096 == 0);
    assert_eq!(image.len(), 8192 + 4096 + 8192);
}

#[test]
fn built_images_read_back_verbatim() {
    let mut builder = RegionBuilder::new(-1, 2, 7).unwrap();
    let big = vec![9u8; 5000];
    builder.stage_chunk(-32 + 5, 64 + 3, &big).unwrap();
    builder.stage_chunk(-32, 64, &[4, 1, 2, 3]).unwrap();
    builder.stage_chunk(-1, 95, &[1]).unwrap();
    builder.stage_chunk(-1, 95, &[2, 2]).unwrap();
    assert_eq!(builder.region_x(), -1);
    assert_eq!(builder.region_z(), 2);
    let image = builder.image().unwrap();
    let image = RegionImage::from_bytes(image, -1, 2).unwrap();
    let mut seen = Vec::new();
    image
        .visit_chunks(|chunk| {
            seen.push((chunk.x, chunk.z, chunk.payload.to_vec()));
            true
        })
        .unwrap();
    assert_eq!(
        seen,
        vec![(-32, 64, vec![4, 1, 2, 3]), (-27, 67, big), (-1, 95, vec![2, 2])]
    );
}

#[test]
fn removing_from_another_region_is_refused() {
    let mut builder = builder();
    assert_eq!(
        builder.remove_chunk(40, 0),
        Err(AnvilError::WrongRegion { region_x: 0, region_z: 0, x: 40, z: 0 })
    );
}
