use sekai::area::{
    describe_selection, has_broad_areas, parse_area, AreaSpec, DimArea, Rect, RegionSpec,
};
use sekai::flags::Xz;
use sekai::hash::Dimension;
use sekai::history::pair_from_history;
use sekai::style::Styler;
use sekai::summary::{id_list, status_counts, status_line, StatusReport};
use sekai::tags::{tag_action, TagAction};
use sekai::timing::{slowest_first, SLOWEST_SHOWN};

#[test]
fn lists_costliest_regions_first_keeping_ties_in_order() {
    assert_eq!(slowest_first(&[5, 9, 1, 9, 3, 7, 2], SLOWEST_SHOWN), vec![1, 3, 5, 0, 4]);
    assert_eq!(slowest_first(&[4, 4, 4], SLOWEST_SHOWN), vec![0, 1, 2]);
    assert_eq!(slowest_first(&[1, 2, 3], 0), Vec::<usize>::new());
    assert_eq!(slowest_first(&[], SLOWEST_SHOWN), Vec::<usize>::new());
    assert_eq!(slowest_first(&[u128::MAX, 0, u128::MAX], 2), vec![0, 2]);
}

#[test]
fn parses_area_shapes() {
    assert_eq!(parse_area("", "overworld"), Ok(DimArea::All));
    assert_eq!(
        parse_area("3,-4", "overworld:3,-4"),
        Ok(DimArea::Chunk(Xz { x: 3, z: -4 }))
    );
    assert_eq!(
        parse_area(" -1 , 2..10,20 ", "nether: -1 , 2..10,20 "),
        Ok(DimArea::Rect(Rect { x0: -1, z0: 2, x1: 10, z1: 20 }))
    );
}

#[test]
fn rectangle_corners_are_ordered() {
    assert_eq!(
        parse_area("31,5..0,-3", "overworld:31,5..0,-3"),
        Ok(DimArea::Rect(Rect { x0: 0, z0: -3, x1: 31, z1: 5 }))
    );
    assert_eq!(Rect::new(4, -9, -4, 9), Rect { x0: -4, z0: -9, x1: 4, z1: 9 });
    assert!(parse_area("1,2,3", "overworld:1,2,3").is_err());
    assert!(parse_area("1..2", "overworld:1..2").is_err());
}

#[test]
fn reports_the_first_bad_pair_of_an_area() {
    assert_eq!(
        parse_area("1,2..3", "end:1,2..3"),
        Err("expected X,Z in \"end:1,2..3\"".to_owned())
    );
    assert_eq!(
        parse_area("a,2..3,4", "end:a,2..3,4"),
        Err("invalid X coordinate \"a\" in \"end:a,2..3,4\", expected X,Z".to_owned())
    );
    assert_eq!(
        parse_area("1,2...3,4", "end:1,2...3,4"),
        Err("invalid X coordinate \".3\" in \"end:1,2...3,4\", expected X,Z".to_owned())
    );
}

#[test]
fn broad_areas_need_enumeration() {
    let dim = Dimension::new(0);
    let chunk = AreaSpec { dim, area: DimArea::Chunk(Xz { x: 0, z: 0 }) };
    let whole = AreaSpec { dim, area: DimArea::All };
    let region = RegionSpec { dim, at: Xz { x: 1, z: 1 } };
    assert!(!has_broad_areas(&[chunk, chunk], &[]));
    assert!(has_broad_areas(&[chunk, whole], &[]));
    assert!(has_broad_areas(&[chunk], &[region]));
    assert!(!has_broad_areas(&[], &[]));
}

#[test]
fn describes_selections() {
    let dim = Dimension::new(0);
    let chunk = AreaSpec { dim, area: DimArea::Chunk(Xz { x: 0, z: 0 }) };
    let region = RegionSpec { dim, at: Xz { x: 1, z: 1 } };
    let kinds = vec!["region".to_owned(), "poi".to_owned()];
    assert_eq!(describe_selection(&[], &[], &kinds), "whole world");
    assert_eq!(describe_selection(&[chunk, chunk], &[], &[]), "2 area(s)");
    assert_eq!(
        describe_selection(&[chunk], &[region], &kinds),
        "1 area(s), 1 region(s), kinds region,poi"
    );
    assert_eq!(describe_selection(&[], &[region, region, region], &[]), "3 region(s)");
}

#[test]
fn default_pair_comes_from_history() {
    assert_eq!(pair_from_history(&[3, 5, 8], None), Ok((5, 8)));
    assert_eq!(pair_from_history(&[3, 5, 8], Some(3)), Ok((5, 3)));
    assert_eq!(
        pair_from_history(&[4], None),
        Err("at least 2 snapshots are required when snapshot IDs are omitted".to_owned())
    );
    assert!(pair_from_history(&[], Some(1)).is_err());
}

fn report() -> StatusReport {
    StatusReport {
        clean: false,
        latest: Some(2),
        changed_regions: 1,
        new_files: 0,
        deleted_files: 0,
        new_chunks: 3,
        tombstones: 1,
        new_blobs: 2,
    }
}

#[test]
fn renders_status_lines() {
    let style = Styler::disabled();
    assert_eq!(
        status_line(&report(), style),
        "would record against snapshot 2: 1 regions changed (0 new, 0 deleted), 3 chunks, 1 tombstones, 2 new blobs"
    );
    assert_eq!(
        status_line(
            &StatusReport {
                clean: true,
                latest: None,
                ..report()
            },
            style
        ),
        "clean: no changes since no snapshot yet"
    );
}

#[test]
fn status_line_bolds_changed_regions() {
    let busy = StatusReport {
        changed_regions: 3,
        new_files: 1,
        new_chunks: 120,
        tombstones: 2,
        new_blobs: 40,
        latest: Some(12),
        ..report()
    };
    assert_eq!(
        status_line(&busy, Styler::enabled()),
        "would record against snapshot 12: \x1b[1m3\x1b[0m regions changed (1 new, 0 deleted), 120 chunks, 2 tombstones, 40 new blobs"
    );
    assert_eq!(
        status_line(&StatusReport { clean: true, ..busy }, Styler::enabled()),
        "clean: no changes since snapshot 12"
    );
}

#[test]
fn joins_snapshot_ids() {
    assert_eq!(id_list(&[]), "");
    assert_eq!(id_list(&[42]), "42");
    assert_eq!(id_list(&[1, 10, 100]), "1, 10, 100");
}

#[test]
fn tag_command_lines_map_to_requests() {
    assert_eq!(tag_action(true, false, true), Ok(TagAction::Delete));
    assert_eq!(tag_action(true, true, true), Ok(TagAction::Delete));
    assert_eq!(
        tag_action(false, true, true),
        Err("tag name is required to delete a tag".to_owned())
    );
    assert_eq!(tag_action(true, true, false), Ok(TagAction::Create));
    assert_eq!(
        tag_action(true, false, false),
        Err("tag creation needs both <name> and <snapshot>".to_owned())
    );
    assert_eq!(
        tag_action(false, true, false),
        Err("tag creation needs both <name> and <snapshot>".to_owned())
    );
    assert_eq!(tag_action(false, false, false), Ok(TagAction::List));
}

#[test]
fn status_counts_tally_the_staged_outcome() {

    let busy = status_counts(Some(4), 2, &[true, false, true], &[true, false, true, true], 1, 1, 5);
    assert_eq!(busy.new_files, 2);
    assert_eq!(busy.new_chunks, 3);
    assert_eq!(busy.deleted_files, 1);
    assert!(!busy.clean);
    assert_eq!(busy.latest, Some(4));
    let quiet = status_counts(None, 0, &[false], &[], 0, 0, 0);
    assert!(quiet.clean);
    assert_eq!(quiet.new_files, 0);
    let only_new = status_counts(None, 1, &[true], &[], 0, 0, 0);
    assert!(!only_new.clean);
}
