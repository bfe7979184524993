use game_core::ids::Position;
use game_core::pos::PosGenerator;

#[test]
fn total_positions_of_a_ring() {
    assert_eq!(PosGenerator::new(0).total_pos(), 1);
    assert_eq!(PosGenerator::new(1).total_pos(), 1);
    assert_eq!(PosGenerator::new(3).total_pos(), 7);
    assert_eq!(PosGenerator::new(10).total_pos(), 91);
}

#[test]
fn first_side_of_ring_two() {
    let mut g = PosGenerator::new(2);
    assert_eq!(g.next(), Some(Position { x: 0, y: 0 }));
    assert_eq!(g.next(), Some(Position { x: 1, y: 1 }));
    // the south corner has a negative coordinate: no position on that side
    assert_eq!(g.next(), None);
}

#[test]
fn ring_zero_gives_nothing() {
    let mut g = PosGenerator::new(0);
    assert_eq!(g.next(), None);
}
