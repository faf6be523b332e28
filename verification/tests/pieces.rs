use store::ships::full_garage;
use store::table::{find, insert, remove};
use store::{CubeCoords, Player, ShipType, SHIPS};

#[test]
fn roster_is_fixed_and_ordered() {
    assert_eq!(
        SHIPS,
        [
            ShipType::Carrier,
            ShipType::Cruiser,
            ShipType::Frigate,
            ShipType::Frigate,
            ShipType::Scout,
        ]
    );
}

#[test]
fn full_garage_is_the_roster_front_first() {
    let mut queue = full_garage();
    assert_eq!(queue.len(), 5);
    for ship in SHIPS {
        assert_eq!(queue.pop_front(), Some(ship));
    }
    assert_eq!(queue.pop_front(), None);
}

#[test]
fn find_gives_the_first_entry_with_the_key() {
    let table = vec![(7u64, 'a'), (3, 'b'), (7, 'c')];
    assert_eq!(find(&table, 7), Some(0));
    assert_eq!(find(&table, 3), Some(1));
    assert_eq!(find(&table, 4), None);
    assert_eq!(find(&Vec::<(u64, char)>::new(), 0), None);
}

#[test]
fn insert_overwrites_in_place_or_appends() {
    let mut table = vec![(7u64, Player { name: "x".to_string() })];
    insert(&mut table, 3, Player { name: "y".to_string() });
    insert(&mut table, 7, Player { name: "z".to_string() });
    assert_eq!(
        table,
        vec![(7, Player { name: "z".to_string() }), (3, Player { name: "y".to_string() })]
    );
}

#[test]
fn remove_takes_the_entry_out_and_keeps_the_order() {
    let mut table = vec![(1u64, 10), (2, 20), (3, 30)];
    remove(&mut table, 2);
    assert_eq!(table, vec![(1, 10), (3, 30)]);
    remove(&mut table, 2);
    assert_eq!(table, vec![(1, 10), (3, 30)]);
    remove(&mut table, 1);
    remove(&mut table, 3);
    assert!(table.is_empty());
}

#[test]
fn cube_coords_add_and_subtract_by_axis() {
    let a = CubeCoords { q: 1, r: 2, s: -3 };
    let b = CubeCoords { q: 4, r: -6, s: 2 };
    assert_eq!(a + b, CubeCoords { q: 5, r: -4, s: -1 });
    assert_eq!(a - b, CubeCoords { q: -3, r: 8, s: -5 });
    assert_eq!(b - b, CubeCoords { q: 0, r: 0, s: 0 });
}

#[test]
fn steps_are_summed_over_the_axes() {
    let a = CubeCoords { q: 0, r: 0, s: 0 };
    let b = CubeCoords { q: 2, r: -3, s: 1 };
    assert_eq!(a.steps_to(&b), 6);
    assert_eq!(b.steps_to(&a), 6);
    assert_eq!(b.steps_to(&b), 0);
    let low = CubeCoords { q: i32::MIN, r: i32::MIN, s: i32::MIN };
    let high = CubeCoords { q: i32::MAX, r: i32::MAX, s: i32::MAX };
    assert_eq!(low.steps_to(&high), 3 * 4294967295);
}

#[test]
fn disc_cells_walks_the_first_axis_then_the_third() {
    assert_eq!(store::map::disc_cells(0), vec![CubeCoords { q: 0, r: 0, s: 0 }]);
    assert_eq!(
        store::map::disc_cells(1),
        vec![
            CubeCoords { q: -1, r: 2, s: -1 },
            CubeCoords { q: -1, r: 1, s: 0 },
            CubeCoords { q: -1, r: 0, s: 1 },
            CubeCoords { q: 0, r: 1, s: -1 },
            CubeCoords { q: 0, r: 0, s: 0 },
            CubeCoords { q: 0, r: -1, s: 1 },
            CubeCoords { q: 1, r: 0, s: -1 },
            CubeCoords { q: 1, r: -1, s: 0 },
            CubeCoords { q: 1, r: -2, s: 1 },
        ]
    );
    assert!(store::map::disc_cells(-1).is_empty());
}

#[test]
fn disc_cells_keeps_the_band() {
    let cells = store::map::disc_cells(2);
    assert_eq!(cells.len(), 23);
    assert!(!cells.contains(&CubeCoords { q: -2, r: 4, s: -2 }));
    assert!(!cells.contains(&CubeCoords { q: 2, r: -4, s: 2 }));
    assert!(cells.contains(&CubeCoords { q: -2, r: 3, s: -1 }));
    for c in cells {
        assert_eq!(c.q + c.r + c.s, 0);
        assert!(c.r.abs() <= 3);
    }
}

#[test]
fn hexagon_fan_closes_round_the_centre() {
    assert_eq!(
        store::map::hexagon_fan(),
        vec![0, 1, 2, 0, 2, 3, 0, 3, 4, 0, 4, 5, 0, 5, 6, 0, 6, 1]
    );
}
