use lightfield::position_map::PositionMap;

#[test]
fn new_map_is_empty_with_ceiling_chunk_counts() {
    let m: PositionMap<u32> = PositionMap::new(16_000, 64_000, 40_000);
    // ceil(64/16) = 4 columns, ceil(40/16) = 3 rows.
    assert_eq!(m.iter().len(), 0);
    let c = m.get_chunk(0, 0);
    assert!(c.is_some());
    assert_eq!(c.unwrap().len(), 0);
}

#[test]
fn added_value_is_retrieved_from_its_chunk() {
    let mut m: PositionMap<u32> = PositionMap::new(16_000, 64_000, 48_000);
    m.add_value(5_000, 5_000, 7);
    let c = m.get_chunk(5_000, 5_000).expect("chunk of an in-grid point");
    assert_eq!(c.len(), 1);
    assert_eq!(c[0].0.x, 5_000);
    assert_eq!(c[0].0.y, 5_000);
    assert_eq!(c[0].1, 7);
    // A different chunk stays empty.
    let d = m.get_chunk(40_000, 40_000).expect("chunk of an in-grid point");
    assert_eq!(d.len(), 0);
}

#[test]
fn negative_coordinates_saturate_to_chunk_zero() {
    let mut m: PositionMap<u32> = PositionMap::new(16_000, 64_000, 48_000);
    m.add_value(-30_000, -40_000, 1);
    let c = m.get_chunk(-1, -1).expect("chunk zero");
    assert_eq!(c.len(), 1);
    assert_eq!(c[0].0.x, -30_000);
    assert_eq!(m.iter().len(), 1);
}

#[test]
fn far_out_of_grid_position_is_dropped() {
    let mut m: PositionMap<u32> = PositionMap::new(16_000, 64_000, 48_000);
    m.add_value(5_000, 9_000_000, 3);
    assert_eq!(m.iter().len(), 0);
    assert!(m.get_chunk(5_000, 9_000_000).is_none());
}

#[test]
fn iter_walks_chunks_in_order() {
    let mut m: PositionMap<u32> = PositionMap::new(16_000, 64_000, 48_000);
    m.add_value(40_000, 40_000, 2);
    m.add_value(5_000, 5_000, 1);
    m.add_value(6_000, 6_000, 3);
    let all = m.iter();
    assert_eq!(all.len(), 3);
    // Chunk (0,0) comes before chunk (2,2); within a chunk, insertion
    // order is kept.
    assert_eq!(all[0].1, 1);
    assert_eq!(all[1].1, 3);
    assert_eq!(all[2].1, 2);
}

#[test]
fn radius_query_returns_the_covering_chunks() {
    let mut m: PositionMap<u32> = PositionMap::new(16_000, 640_000, 480_000);
    m.add_value(5_000, 5_000, 1);
    m.add_value(20_000, 5_000, 2);
    m.add_value(300_000, 300_000, 9);
    let near = m.get_in_radius(0, 0, 16_000);
    // Both nearby values sit in chunks overlapping the query box; the far
    // one does not.
    assert_eq!(near.len(), 2);
    assert_eq!(near[0].1, 1);
    assert_eq!(near[1].1, 2);
    let wide = m.get_in_radius(0, 0, 400_000);
    assert_eq!(wide.len(), 3);
}

#[test]
fn radius_query_is_a_superset_not_an_exact_filter() {
    // The query gathers whole chunks, so a value in a covered chunk is
    // returned even when it lies farther than the radius itself.
    let mut m: PositionMap<u32> = PositionMap::new(16_000, 64_000, 48_000);
    m.add_value(15_000, 15_000, 4);
    let got = m.get_in_radius(1_000, 1_000, 2_000);
    assert_eq!(got.len(), 1);
    assert_eq!(got[0].1, 4);
}
