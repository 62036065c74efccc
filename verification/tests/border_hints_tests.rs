use hexsnake::border_hints::wrap_edges;
use hexsnake::hex::{Dir, HexPoint};

/// Stepping back out of where a wrap landed must leave the board again and
/// land back where it came from.
#[test]
fn wrapping_is_symmetric() {
    for board_dim in [
        HexPoint { h: 5, v: 5 },
        HexPoint { h: 10, v: 10 },
        HexPoint { h: 20, v: 13 },
        HexPoint { h: 7, v: 20 },
    ] {
        for (pos, dir, destination) in wrap_edges(board_dim) {
            let back = destination.wrap_destination(-dir, board_dim);
            assert_eq!(
                back,
                Some(pos),
                "{board_dim:?}: {pos:?} {dir:?} -> {destination:?}, but back out is {back:?}",
            );
        }
    }
}

#[test]
fn wrap_edges_lists_only_border_cells_that_wrap() {
    let board_dim = HexPoint { h: 6, v: 4 };
    let edges = wrap_edges(board_dim);
    assert!(!edges.is_empty());
    for (pos, dir, destination) in &edges {
        assert!(pos.h == 0 || pos.v == 0 || pos.h == board_dim.h - 1 || pos.v == board_dim.v - 1);
        assert!(!board_dim.contains(pos.translate(*dir, 1)));
        assert!(board_dim.contains(*destination));
    }
    // going up from the top row wraps to the bottom row
    assert!(edges.contains(&(HexPoint { h: 2, v: 0 }, Dir::U, HexPoint { h: 2, v: 3 })));
}
