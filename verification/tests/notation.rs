use hexstack::notation::{PlyParseError, TileParseError};
use hexstack::tile::{Ply, Tile};

#[test]
fn every_label_reads_back() {
    for t in Tile::all_tiles() {
        let label = t.to_string();
        assert_eq!(label.chars().count(), 2);
        assert_eq!(Tile::from_str(&label), Ok(t));
    }
}

#[test]
fn labels_of_known_cells() {
    assert_eq!(Tile::from_xyz(-2, 3, -1).unwrap().to_string(), "a1");
    assert_eq!(Tile::from_xyz(-2, -1, 3).unwrap().to_string(), "a5");
    assert_eq!(Tile::from_xyz(0, -3, 3).unwrap().to_string(), "c7");
    assert_eq!(Tile::from_xyz(0, 0, 0).unwrap().to_string(), "c4");
    assert_eq!(Tile::from_xyz(1, -3, 2).unwrap().to_string(), "d6");
    assert_eq!(Tile::from_xyz(2, 1, -3).unwrap().to_string(), "e1");
    assert_eq!(Tile::from_str("d6").unwrap().code(), 36);
    assert_eq!(Tile::from_str("b5").unwrap().code(), 14);
}

#[test]
fn malformed_tile_texts_are_rejected() {
    assert_eq!(Tile::from_str(""), Err(TileParseError));
    assert_eq!(Tile::from_str("a"), Err(TileParseError));
    assert_eq!(Tile::from_str("a12"), Err(TileParseError));
    assert_eq!(Tile::from_str("f1"), Err(TileParseError));
    assert_eq!(Tile::from_str("A1"), Err(TileParseError));
    assert_eq!(Tile::from_str("ax"), Err(TileParseError));
    assert_eq!(Tile::from_str("a0"), Err(TileParseError));
    assert_eq!(Tile::from_str("a6"), Err(TileParseError));
    assert_eq!(Tile::from_str("c8"), Err(TileParseError));
    assert_eq!(Tile::from_str("e6"), Err(TileParseError));
    assert_eq!(Tile::from_str("\u{e9}"), Err(TileParseError));
    assert_eq!(Tile::from_str("\u{e9}1"), Err(TileParseError));
}

#[test]
fn ply_texts() {
    let p = Ply::from_str("d6b5").unwrap();
    assert_eq!(p.from_tile.code(), 36);
    assert_eq!(p.to_tile.code(), 14);
    assert_eq!(p.to_string(), "d6b5");
    assert_eq!(Ply::from_str("d6b"), Err(PlyParseError::Other));
    assert_eq!(Ply::from_str("d6b5x"), Err(PlyParseError::Other));
    assert_eq!(Ply::from_str(""), Err(PlyParseError::Other));
    assert_eq!(Ply::from_str("\u{e9}12"), Err(PlyParseError::Other));
    assert_eq!(Ply::from_str("z6b5"), Err(PlyParseError::Tile(TileParseError)));
    assert_eq!(Ply::from_str("d6b9"), Err(PlyParseError::Tile(TileParseError)));
    assert_eq!(PlyParseError::from(TileParseError), PlyParseError::Tile(TileParseError));
    for a in Tile::all_tiles() {
        for b in Tile::all_tiles() {
            let p = Ply { from_tile: a, to_tile: b };
            assert_eq!(Ply::from_str(&p.to_string()), Ok(p));
        }
    }
}
