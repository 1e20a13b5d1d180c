use sekai::error::AnvilError;
use sekai::region::{base_coords, check_image_len, parse_region_name, sectors_for, RegionLoc};
use sekai::restore::region_file_name;

#[test]
fn parses_region_names() {
    assert_eq!(parse_region_name("r.0.0.mca"), Ok((0, 0)));
    assert_eq!(parse_region_name("r.-1.2.mca"), Ok((-1, 2)));
    assert!(parse_region_name("r.0.0.mcr").is_err());
    assert!(parse_region_name("r.0.mca").is_err());
    assert!(parse_region_name("r.a.b.mca").is_err());
    assert!(parse_region_name("x.0.0.mca").is_err());
    assert!(parse_region_name("r.0.0.1.mca").is_err());
    assert!(parse_region_name("r.99999999999.0.mca").is_err());
}

#[test]
fn rejects_absurd_bases() {
    assert!(base_coords(0, 0).is_ok());
    assert!(base_coords(i32::MAX, 0).is_err());
    assert!(base_coords(67_108_863, 0).is_ok());
    assert!(base_coords(67_108_864, 0).is_err());
    assert!(base_coords(0, i32::MIN).is_err());
}

#[test]
fn validates_image_lengths() {
    assert_eq!(check_image_len(0), Ok(0));
    assert!(matches!(check_image_len(1), Err(AnvilError::TruncatedFile { .. })));
    assert!(matches!(check_image_len(8191), Err(AnvilError::TruncatedFile { .. })));
    assert_eq!(check_image_len(8192), Ok(2));
    assert!(matches!(check_image_len(8193), Err(AnvilError::MisalignedFile { .. })));
    assert_eq!(check_image_len(12288), Ok(3));
}

#[test]
fn sizes_sectors_with_ceiling() {
    assert_eq!(sectors_for(0), Ok(1));
    assert_eq!(sectors_for(4092), Ok(1));
    assert_eq!(sectors_for(4093), Ok(2));
    assert!(matches!(sectors_for(255 * 4096), Err(AnvilError::ChunkTooLarge { .. })));
}

#[test]
fn region_loc_maps_slots_both_ways() {
    let loc = RegionLoc::new(-1, 2).unwrap();
    assert_eq!(loc.region_x(), -1);
    assert_eq!(loc.region_z(), 2);
    let slot = loc.slot_of(-29, 69).unwrap();
    assert_eq!(slot, 3 + 32 * 5);
    assert_eq!(loc.coord_at(slot), (-29, 69));
    assert!(loc.slot_of(0, 0).is_err());
}

#[test]
fn parses_signs_and_rejects_bare_signs() {
    assert_eq!(parse_region_name("r.+3.-0.mca"), Ok((3, 0)));
    assert_eq!(parse_region_name("r.-2147483648.2147483647.mca"), Ok((i32::MIN, i32::MAX)));
    assert!(parse_region_name("r.2147483648.0.mca").is_err());
    assert!(parse_region_name("r.-.0.mca").is_err());
    assert!(parse_region_name("r..0.mca").is_err());
    assert!(parse_region_name("r.0..mca").is_err());
    assert!(parse_region_name(".mca").is_err());
    assert_eq!(
        parse_region_name("r.x.mca"),
        Err(AnvilError::BadFilename { name: "r.x.mca".to_owned() })
    );
}

#[test]
fn region_file_names_parse_back() {
    for (x, z) in [(0, 0), (-1, 2), (i32::MIN, i32::MAX), (123, -4567)] {
        let name = region_file_name(x, z);
        assert_eq!(parse_region_name(&name), Ok((x, z)));
    }
    assert_eq!(region_file_name(-3, 14), "r.-3.14.mca");
}

#[test]
fn sector_counts_and_coordinate_errors() {
    assert_eq!(sectors_for(255 * 4096 - 4), Ok(255));
    assert_eq!(
        sectors_for(255 * 4096 - 3),
        Err(AnvilError::ChunkTooLarge { len: 255 * 4096 - 3 })
    );
    assert_eq!(base_coords(-2, 3), Ok((-64, 96)));
    assert_eq!(
        RegionLoc::new(0, -67_108_865),
        Err(AnvilError::CoordinateOverflow { region_x: 0, region_z: -67_108_865 })
    );
    let loc = RegionLoc::new(0, 0).unwrap();
    assert_eq!(
        loc.slot_of(32, 0),
        Err(AnvilError::WrongRegion { region_x: 0, region_z: 0, x: 32, z: 0 })
    );
    assert_eq!(loc.slot_of(31, 31), Ok(1023));
    assert_eq!(loc.coord_at(1023), (31, 31));
}
