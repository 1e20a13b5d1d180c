use sekai::balance::partition_groups;
use sekai::flags::Xz;
use sekai::pair::parse_pair;

#[test]
fn balances_largest_first_onto_lightest() {
    assert_eq!(partition_groups(&[5, 10, 3, 10], 2), vec![vec![1, 0], vec![3, 2]]);
    assert_eq!(partition_groups(&[1, 2, 3], 5), vec![vec![2], vec![1], vec![0]]);
    assert_eq!(partition_groups(&[7], 1), vec![vec![0]]);
    assert_eq!(partition_groups(&[], 4), Vec::<Vec<usize>>::new());
}

#[test]
fn zero_sized_items_share_the_first_group() {
    assert_eq!(partition_groups(&[0, 0, 0], 3), vec![vec![0, 1, 2]]);
}

#[test]
fn every_item_lands_exactly_once() {
    let sizes = [9, 1, 8, 2, 7, 3, 6, 4, 5, 5];
    let groups = partition_groups(&sizes, 3);
    assert_eq!(groups.len(), 3);
    let mut seen: Vec<usize> = groups.iter().flatten().copied().collect();
    seen.sort();
    assert_eq!(seen, (0..sizes.len()).collect::<Vec<_>>());
    assert!(groups.iter().all(|g| !g.is_empty()));
}

#[test]
fn parses_coordinate_pairs() {
    assert_eq!(parse_pair("10,-5", "overworld:10,-5"), Ok(Xz { x: 10, z: -5 }));
    assert_eq!(parse_pair(" 1 , 2\t", "w"), Ok(Xz { x: 1, z: 2 }));
    assert_eq!(
        parse_pair("1;2", "overworld:1;2"),
        Err("expected X,Z in \"overworld:1;2\"".to_owned())
    );
    assert_eq!(
        parse_pair("a,2", "nether:a,2"),
        Err("invalid X coordinate \"a\" in \"nether:a,2\", expected X,Z".to_owned())
    );
    assert_eq!(
        parse_pair("1,2,3", "overworld:1,2,3"),
        Err("invalid Z coordinate \"2,3\" in \"overworld:1,2,3\", expected X,Z".to_owned())
    );
}
