use hexstack::bitboards::{bit_to_tile, tile_to_bit, BitSet, BOARD_BITS};
use hexstack::board::{Species, Tall, BOARD_RADIUS};
use hexstack::delta::{i3_to_u3, u3_to_i3, Delta};
use hexstack::piecemap::PieceMap;
use hexstack::tile::Tile;
use itertools::Itertools;

#[test]
fn board_test_tiles() {
    let sbr = BOARD_RADIUS as i8;
    (-sbr..=sbr).for_each(|y: i8| {
        (-sbr..=sbr).for_each(|x: i8| {
            let z = -x - y;
            if let Some(t) = Tile::from_xyz(x, y, z) {
                assert_eq!(t.x(), x);
                assert_eq!(t.y(), y);
                assert_eq!(t.z(), z);
            }
        })
    });

    Tile::all_tiles().into_iter().for_each(|t| {
        let parsed = Tile::from_str(&format!("{}", t.to_string())).expect("Tile parse error");
        assert_eq!(t, parsed);
    });
}

#[test]
fn board_test_3bit() {
    (0..4).for_each(|u| {
        assert_eq!(u, u3_to_i3(u) as u8);
        assert_eq!(u as i8, u3_to_i3(u));
    });

    assert_eq!(i3_to_u3(-4), 4);
    assert_eq!(u3_to_i3(4), -4);

    (-4..4).for_each(|i| {
        assert_eq!(i, u3_to_i3(i3_to_u3(i)));
    });
}

#[test]
fn board_test_delta() {
    assert_eq!(Delta::from_xyz(1, 0, -1).0, 1);
    assert_eq!(Delta::from_xyz(-1, 0, 1).0, 7);
    assert_eq!(Delta::from_xyz(0, 1, -1).0, 0x10);
    assert_eq!(Delta::from_xyz(0, -1, 1).0, 0xF0);

    (-2..=2)
        .cartesian_product(-3..=3)
        .flat_map(|(x, y)| Tile::from_xyz(x, y, -x - y))
        .for_each(|t| {
            (-2..=2)
                .cartesian_product(-2..=2)
                .map(|(x, y)| (x, y, -x - y))
                .filter(|(_, _, z)| (-2..=2).contains(z))
                .for_each(|(dx, dy, dz)| {
                    let delta = Delta::from_xyz(dx, dy, dz);

                    assert_eq!(dx, delta.dx());
                    assert_eq!(dy, delta.dy());
                    assert_eq!(dz, delta.dz());

                    let transl = t.shift(delta);
                    let transl_manual = Tile::from_xyz(t.x() + dx, t.y() + dy, t.z() + dz);

                    assert_eq!(transl, transl_manual);
                });
        });
}

#[test]
fn board_test_in_board() {
    (-2..=2).cartesian_product(-3..=3).for_each(|(x, y)| {
        let tile_xyz = Tile::from_xyz(x, y, -x - y);

        if let Some(tile_xyz) = tile_xyz {
            assert_eq!(Tile::from_uxy(tile_xyz.ux(), tile_xyz.uy()), tile_xyz);

            if Tile::new(tile_xyz.0).is_none() {
                panic!(
                    "Tile x,y = {},{} is some from_xyz (value ${:02X}) but none on new.",
                    x, y, tile_xyz.0
                );
            }
        }
    });

    (0..=255).for_each(|u| {
        let uu = u & 0b01110111;

        if let Some(tile) = Tile::new(uu) {
            assert!(Tile::from_xyz(tile.x(), tile.y(), tile.z()).is_some())
        }
    });
}

#[test]
fn board_test_bitsets() {
    (-2..=2).cartesian_product(-3..=3).for_each(|(x, y)| {
        let tile_xyz = Tile::from_xyz(x, y, -x - y);

        if let Some(tile_xyz) = tile_xyz {
            let bit = tile_to_bit(&tile_xyz);
            if !BOARD_BITS.contains(&bit) {
                panic!(
                    "tile {} ({}/{}) maps to bit {} which is invalid.",
                    tile_xyz.to_string(),
                    tile_xyz.ux(),
                    tile_xyz.uy(),
                    bit
                )
            };
        }
    });

    BOARD_BITS.iter().for_each(|b| {
        let nasty = bit_to_tile(*b);

        assert!(Tile::from_xyz(nasty.x(), nasty.y(), nasty.z()).is_some())
    });
}

#[test]
fn bitboards_test_bitsets() {
    (-2..=2).cartesian_product(-3..=3).for_each(|(x, y)| {
        let tile_xyz = Tile::from_xyz(x, y, -x - y);

        if let Some(tile_xyz) = tile_xyz {
            let bit = tile_to_bit(&tile_xyz);
            if !BOARD_BITS.contains(&bit) {
                panic!(
                    "tile {} ({}/{}) maps to bit {} which is invalid.",
                    tile_xyz.to_string(),
                    tile_xyz.ux(),
                    tile_xyz.uy(),
                    bit
                )
            };
            assert!(BitSet::board_mask().get(&tile_xyz));
        }
    });

    BOARD_BITS.iter().for_each(|b| {
        let nasty = bit_to_tile(*b);

        assert!(Tile::from_xyz(nasty.x(), nasty.y(), nasty.z()).is_some())
    });
}

#[test]
fn board_test_piecemaps() {
    [Tall::Blind, Tall::Star, Tall::Hand].into_iter().for_each(|t| {
        let (a, b) = PieceMap::encode_tall(t);
        let t2 = PieceMap::decode_tall(a, b).unwrap();
        assert_eq!(t, t2);
    });
}

#[test]
fn bitboards_test_piecemaps() {
    [Tall::Blind, Tall::Star, Tall::Hand].into_iter().for_each(|t| {
        let (a, b) = PieceMap::encode_tall(t);
        let t2 = PieceMap::decode_tall(a, b).unwrap();
        assert_eq!(t, t2);
    });
    for code in 0..7u8 {
        let s = Species::from_code(code);
        let (f, a, b) = PieceMap::encode_species(s);
        assert_eq!(PieceMap::decode_species(f, a, b), Some(s));
    }
    assert_eq!(PieceMap::decode_species(false, false, false), None);
}

#[test]
fn all_tiles_are_the_29_cells_in_order() {
    let tiles = Tile::all_tiles();
    assert_eq!(tiles.len(), 29);
    let codes: Vec<u8> = tiles.iter().map(|t| t.code()).collect();
    assert_eq!(codes, BOARD_BITS.to_vec());
    assert_eq!(BitSet::board_mask().into_iter(), tiles);
    assert_eq!(BitSet::board_mask().count(), 29);
}

#[test]
fn coordinates_lead_back_to_the_cell() {
    for t in Tile::all_tiles() {
        assert_eq!(t.x() + t.y() + t.z(), 0);
        assert_eq!(Tile::from_xyz(t.x(), t.y(), t.z()), Some(t));
        assert_eq!(Tile::new(t.code()), Some(t));
        assert_eq!(t.antipode().antipode(), t);
        assert_eq!(t.antipode().code(), 54 - t.code());
        assert_eq!(t.mirror().mirror(), t);
        assert_eq!(t.mod3() as i8, (t.x() - t.y()).rem_euclid(3));
    }
    assert_eq!(Tile::from_xyz(0, 0, 0).unwrap().code(), 27);
    assert_eq!(Tile::from_xyz(-2, -1, 3).unwrap().code(), 2);
    assert_eq!(Tile::from_xyz(2, 1, -3).unwrap().code(), 52);
    assert_eq!(Tile::from_xyz(3, 0, -3), None);
    assert_eq!(Tile::from_xyz(2, 2, -4), None);
    assert_eq!(Tile::from_xyz(0, 4, -4), None);
    assert_eq!(Tile::new(0), None);
    assert_eq!(Tile::new(7), None);
    assert_eq!(Tile::new(53), None);
    assert_eq!(Tile::new(255), None);
}

#[test]
fn border_cells() {
    let n = Tile::all_tiles().into_iter().filter(|t| t.is_border()).count();
    assert_eq!(n, 16);
    assert!(!Tile::from_xyz(0, 0, 0).unwrap().is_border());
    assert!(Tile::from_xyz(0, 3, -3).unwrap().is_border());
}

#[test]
fn adjacent_cells_of_the_centre_and_of_a_corner() {
    let c = Tile::from_xyz(0, 0, 0).unwrap();
    let around = c.adjacent();
    assert!(around.iter().all(|t| t.is_some()));
    let codes: Vec<u8> = around.iter().map(|t| t.unwrap().code()).collect();
    assert_eq!(codes, vec![38, 28, 15, 16, 26, 39]);
    let corner = Tile::from_xyz(0, 3, -3).unwrap();
    assert_eq!(corner.adjacent().iter().filter(|t| t.is_some()).count(), 3);
}

#[test]
fn species_codes_values_and_parts() {
    let values = [20, 20, 30, 30, 38, 48, 48];
    for code in 0..7u8 {
        let s = Species::from_code(code);
        assert_eq!(s.code(), code);
        assert_eq!(s.value(), values[code as usize]);
    }
    assert_eq!(Species::Stack(Tall::Star).to_lone(), Species::Lone(Tall::Star));
    assert_eq!(Species::Flat.to_lone(), Species::Flat);
    assert_eq!(
        Species::Stack(Tall::Hand).unstack(),
        vec![Species::Flat, Species::Lone(Tall::Hand)]
    );
    assert_eq!(Species::Lone(Tall::Hand).unstack(), vec![Species::Lone(Tall::Hand)]);
    assert_eq!(Species::Flat.positional_weight(), 10);
    assert_eq!(Species::Stack(Tall::Hand).positional_weight(), 11);
}
