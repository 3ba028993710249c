use frieze::array2d::Array2D;
use frieze::flags::{Grid, Point, AB, ABX, E, EW, EWX, N, NE, SE, SN, SNX};
use frieze::frieze::{derive_grids, Frieze, FriezeGroup};

fn points(bits: &[u8], rows: usize) -> Array2D<Point> {
    let v: Vec<Point> = bits.iter().map(|b| Point::from_bits(*b).unwrap()).collect();
    Array2D::from_vec(v, rows).unwrap()
}

fn frieze(bits: &[u8], rows: usize) -> Frieze {
    Frieze::from_points(points(bits, rows)).unwrap()
}

#[test]
fn from_vec_accepts_even_shape() {
    let m = Array2D::from_vec(vec![1, 2, 3, 4, 5, 6], 2).unwrap();
    assert_eq!(m.num_rows(), 2);
    assert_eq!(m.num_cols(), 3);
    assert_eq!(m.num_elems(), 6);
}

#[test]
fn from_vec_rejects_uneven_shape() {
    assert!(Array2D::from_vec(vec![1, 2, 3, 4, 5], 2).is_none());
    assert!(Array2D::from_vec(vec![1, 2, 3], 0).is_none());
}

#[test]
fn from_vec_empty() {
    let m: Array2D<u8> = Array2D::from_vec(vec![], 0).unwrap();
    assert_eq!(m.num_rows(), 0);
    assert_eq!(m.num_cols(), 0);
    let m: Array2D<u8> = Array2D::from_vec(vec![], 3).unwrap();
    assert_eq!(m.num_cols(), 0);
}

#[test]
fn get_in_and_out_of_bounds() {
    let m = Array2D::from_vec(vec![1, 2, 3, 4, 5, 6], 2).unwrap();
    assert_eq!(m.get(0, 0), Some(&1));
    assert_eq!(m.get(0, 2), Some(&3));
    assert_eq!(m.get(1, 0), Some(&4));
    assert_eq!(m.get(1, 2), Some(&6));
    assert_eq!(m.get(2, 0), None);
    assert_eq!(m.get(0, 3), None);
}

#[test]
fn get_mut_writes_one_cell() {
    let mut m = Array2D::from_vec(vec![1, 2, 3, 4], 2).unwrap();
    *m.get_mut(1, 0).unwrap() = 9;
    assert!(m.get_mut(2, 0).is_none());
    assert_eq!(m.get(1, 0), Some(&9));
    assert_eq!(m.get(0, 0), Some(&1));
    assert_eq!(m.get(1, 1), Some(&4));
}

#[test]
fn rows_are_slices_of_width_cols() {
    let m = Array2D::from_vec(vec![1, 2, 3, 4, 5, 6], 3).unwrap();
    let rows = m.rows();
    assert_eq!(rows.len(), 3);
    assert_eq!(rows[0], &[1, 2][..]);
    assert_eq!(rows[1], &[3, 4][..]);
    assert_eq!(rows[2], &[5, 6][..]);
}

#[test]
fn point_from_bits_range() {
    assert_eq!(Point::from_bits(15).unwrap().bits(), 15);
    assert_eq!(Point::from_bits(0).unwrap().bits(), 0);
    assert!(Point::from_bits(16).is_none());
    assert!(Point::from_bits(255).is_none());
    let p = Point::from_bits(5).unwrap();
    assert!(p.contains(N) && p.contains(E) && !p.contains(NE) && !p.contains(SE));
}

#[test]
fn cell_of_north_east_points() {
    let p = Point::from_bits(N | E).unwrap();
    let g = Grid::from_points(p, p, p);
    assert!(g.contains(EW));
    assert!(g.contains(SN));
    assert!(!g.contains(AB));
    assert!(!g.contains(EWX));
    assert!(!g.contains(SNX));
    assert!(!g.contains(ABX));
    assert_eq!(g.bits(), EW | SN);
}

#[test]
fn derive_two_by_two_north_east() {
    let g = derive_grids(&points(&[5, 5, 5, 5], 2)).unwrap();
    assert_eq!(g.num_rows(), 1);
    assert_eq!(g.num_cols(), 1);
    let c = g.get(0, 0).unwrap();
    assert!(c.contains(EW) && c.contains(SN) && !c.contains(AB));
    assert!(!c.contains(EWX) && !c.contains(SNX) && !c.contains(ABX));
}

#[test]
fn derive_needs_two_rows_and_columns() {
    assert!(derive_grids(&points(&[5, 5, 5], 1)).is_none());
    assert!(derive_grids(&points(&[5, 5, 5], 3)).is_none());
    let g = derive_grids(&points(&[0, 0, 0, 0, 1, 4], 2)).unwrap();
    assert_eq!(g.num_cols(), 2);
    assert_eq!(g.get(0, 0).unwrap().bits(), EWX);
    assert_eq!(g.get(0, 1).unwrap().bits(), EW | EWX);
}

#[test]
fn cell_features_from_three_corners() {
    let o = Point::from_bits(N | NE | E).unwrap();
    let u = Point::from_bits(SE).unwrap();
    let r = Point::from_bits(0).unwrap();
    let g = Grid::from_points(o, u, r);
    assert_eq!(g.bits(), EW | AB | EWX | SNX);
}

#[test]
fn cell_transforms_toggle_marked_bits() {
    let o = Point::from_bits(N | NE | E).unwrap();
    let u = Point::from_bits(0).unwrap();
    let r = Point::from_bits(0).unwrap();
    let g = Grid::from_points(o, u, r);
    assert_eq!(g.bits(), EW | AB | EWX | SNX | ABX);
    assert_eq!(g.hr().bits(), EW | SN | EWX | SNX | ABX);
    assert_eq!(g.vr().bits(), EWX | SNX | ABX);
    assert_eq!(g.rotate().bits(), SN | AB | EWX | SNX | ABX);
}

#[test]
fn too_small_is_not_a_frieze() {
    assert!(Frieze::from_points(points(&[5, 5, 5, 5], 2)).is_none());
    assert!(Frieze::from_points(points(&[4, 4, 4, 4, 4], 1)).is_none());
    assert!(Frieze::from_points(points(&[4, 4, 4], 3)).is_none());
}

#[test]
fn aperiodic_is_not_a_frieze() {
    assert!(Frieze::from_points(points(&[1, 0, 0, 0, 0, 0, 1, 0, 0, 0, 0, 0], 2)).is_none());
}

#[test]
fn horizontal_line_strip() {
    let f = frieze(&[4; 15], 3);
    assert_eq!(f.period(), 2);
    assert!(f.horizontal());
    assert_eq!(f.vertical(), Some(1));
    assert_eq!(f.group(), FriezeGroup::TRHVG(1));
    assert_eq!(f.grids().num_rows(), 2);
    assert_eq!(f.grids().num_cols(), 4);
    assert_eq!(f.grids().get(0, 0).unwrap().bits(), SN);
}

#[test]
fn group_is_repeatable() {
    let bits = [2u8, 8, 2, 8, 2, 8, 2, 8, 2, 8, 2, 8, 2, 8, 2, 8, 2, 8];
    let a = frieze(&bits, 2);
    let b = frieze(&bits, 2);
    assert_eq!(a.group(), a.group());
    assert_eq!(a.period(), a.period());
    assert_eq!(a.group(), b.group());
    assert_eq!(a.period(), b.period());
}

#[test]
fn group_tv_strip() {
    let f = frieze(&[0u8, 0, 0, 0, 0, 0, 0, 0, 0, 0, 0, 0, 0, 1, 0, 1, 0, 1, 0, 1, 0, 1, 0, 1, 0, 1, 0, 0, 0, 0, 0, 0, 0, 0, 0, 0, 0, 0, 0], 3);
    assert_eq!(f.period(), 2);
    assert_eq!(f.horizontal(), false);
    assert_eq!(f.vertical(), Some(1));
    assert_eq!(f.glied(), None);
    assert_eq!(f.rotation(), None);
    assert_eq!(f.group(), FriezeGroup::TV(1));
}

#[test]
fn group_t_strip() {
    let f = frieze(&[0u8, 0, 0, 0, 0, 0, 0, 0, 0, 0, 0, 0, 0, 5, 0, 5, 0, 5, 0, 5, 0, 5, 0, 5, 0, 5, 0, 0, 0, 0, 0, 0, 0, 0, 0, 0, 0, 0, 0], 3);
    assert_eq!(f.period(), 2);
    assert_eq!(f.horizontal(), false);
    assert_eq!(f.vertical(), None);
    assert_eq!(f.glied(), None);
    assert_eq!(f.rotation(), None);
    assert_eq!(f.group(), FriezeGroup::T);
}

#[test]
fn group_tr_strip() {
    let f = frieze(&[0u8, 0, 0, 0, 0, 0, 0, 0, 0, 0, 0, 0, 0, 0, 2, 0, 2, 0, 2, 0, 2, 0, 2, 0, 2, 0, 2, 0, 2, 0, 2, 0, 2, 0, 2, 0, 2, 0, 2], 3);
    assert_eq!(f.period(), 2);
    assert_eq!(f.horizontal(), false);
    assert_eq!(f.vertical(), None);
    assert_eq!(f.glied(), None);
    assert_eq!(f.rotation(), Some(0));
    assert_eq!(f.group(), FriezeGroup::TR(0));
}

#[test]
fn group_thg_strip() {
    let f = frieze(&[12u8, 0, 12, 0, 12, 0, 12, 0, 12, 0, 12, 0, 12, 0, 0, 0, 0, 0, 0, 0, 0, 0, 0, 0, 0, 0, 6, 0, 6, 0, 6, 0, 6, 0, 6, 0, 6, 0, 6], 3);
    assert_eq!(f.period(), 2);
    assert_eq!(f.horizontal(), true);
    assert_eq!(f.vertical(), None);
    assert_eq!(f.glied(), Some(0));
    assert_eq!(f.rotation(), None);
    assert_eq!(f.group(), FriezeGroup::THG);
}

#[test]
fn group_tg_strip() {
    let f = frieze(&[0u8, 1, 0, 0, 1, 0, 0, 1, 0, 0, 1, 0, 0, 0, 1, 0, 0, 1, 0, 0, 1, 0, 0, 1, 0, 0, 0, 0, 1, 0, 0, 1, 0, 0, 1, 0, 0, 1, 0], 3);
    assert_eq!(f.period(), 3);
    assert_eq!(f.horizontal(), false);
    assert_eq!(f.vertical(), None);
    assert_eq!(f.glied(), Some(2));
    assert_eq!(f.rotation(), Some(0));
    assert_eq!(f.group(), FriezeGroup::TG(2));
}

#[test]
fn group_trvg_strip() {
    let f = frieze(&[1u8, 0, 1, 0, 1, 0, 1, 0, 1, 0, 1, 0, 1, 0, 1, 0, 1, 0, 1, 0, 1, 0, 1, 0, 1, 0, 1, 0, 1, 0, 1, 0, 1, 0, 1, 0, 1, 0, 1], 3);
    assert_eq!(f.period(), 2);
    assert_eq!(f.horizontal(), false);
    assert_eq!(f.vertical(), Some(1));
    assert_eq!(f.glied(), Some(1));
    assert_eq!(f.rotation(), Some(1));
    assert_eq!(f.group(), FriezeGroup::TRVG(1));
}

#[test]
fn group_trhvg_strip() {
    let f = frieze(&[0u8; 39], 3);
    assert_eq!(f.period(), 2);
    assert_eq!(f.horizontal(), true);
    assert_eq!(f.vertical(), Some(1));
    assert_eq!(f.glied(), Some(0));
    assert_eq!(f.rotation(), Some(0));
    assert_eq!(f.group(), FriezeGroup::TRHVG(1));
}

#[test]
fn precedence_on_mirrored_strip() {
    let f = frieze(&[4; 15], 3);
    assert!(f.horizontal());
    assert!(!matches!(f.group(), FriezeGroup::TG(_) | FriezeGroup::TRVG(_)));
}

#[test]
fn paths_one_per_stroke() {
    let bits = [4u8, 4, 4, 4, 4, 15, 15, 15, 15, 15, 4, 4, 4, 4, 4];
    let f = frieze(&bits, 3);
    let total: usize = bits.iter().map(|b| b.count_ones() as usize).sum();
    assert_eq!(f.paths().len(), total);
}

#[test]
fn paths_exact_endpoints() {
    let bits = [0u8, 0, 0, 0, 0, 15, 0, 15, 0, 15, 0, 0, 0, 0, 0];
    let f = frieze(&bits, 3);
    assert_eq!(
        f.paths(),
        vec![
            ((0, 1), (0, 0)),
            ((0, 1), (1, 0)),
            ((0, 1), (1, 1)),
            ((0, 1), (1, 2)),
            ((2, 1), (2, 0)),
            ((2, 1), (3, 0)),
            ((2, 1), (3, 1)),
            ((2, 1), (3, 2)),
            ((4, 1), (4, 0)),
            ((4, 1), (5, 0)),
            ((4, 1), (5, 1)),
            ((4, 1), (5, 2)),
        ]
    );
}

#[test]
fn paths_north_of_top_row_wraps() {
    let bits = [1u8, 0, 0, 0, 0, 0, 0, 0, 0, 0];
    let f = Frieze::from_points(points(&bits, 2));
    match f {
        Some(f) => assert_eq!(f.paths(), vec![((0, 0), (0, usize::MAX))]),
        None => panic!("expected a frieze"),
    }
}

#[test]
fn point_xor_keeps_differing_strokes() {
    let a = Point::from_bits(N | E).unwrap();
    let b = Point::from_bits(E | SE).unwrap();
    assert_eq!(a.xor(&b).bits(), N | SE);
    assert_eq!(a.xor(&a).bits(), 0);
}

#[test]
fn tiled_motif_gives_its_width() {
    let mut bits: Vec<u8> = Vec::new();
    for row in [[0u8, 1, 0], [0, 0, 1], [1, 0, 0]] {
        for _ in 0..4 {
            bits.extend_from_slice(&row);
        }
    }
    let f = frieze(&bits, 3);
    assert_eq!(f.period(), 3);
}

#[test]
fn tiled_blank_motif_has_period_two() {
    let f = frieze(&[0u8; 27], 3);
    assert_eq!(f.period(), 2);
}

#[test]
fn motif_repeated_twice_has_no_period_in_range() {
    let bits = [0u8, 1, 0, 0, 1, 0, 0, 0, 1, 0, 0, 1];
    assert!(Frieze::from_points(points(&bits, 2)).is_none());
}

#[test]
fn transforms_undo_themselves() {
    for bits in 0u8..=15 {
        for x in [0u8, 1, 2, 4, 8, 15] {
            let o = Point::from_bits(bits).unwrap();
            let u = Point::from_bits(x).unwrap();
            let r = Point::from_bits(15 - x).unwrap();
            let g = Grid::from_points(o, u, r);
            assert_eq!(g.hr().hr(), g);
            assert_eq!(g.vr().vr(), g);
            assert_eq!(g.rotate().rotate(), g);
            assert_eq!(g.hr().vr(), g.rotate());
            assert_eq!(g.vr().hr(), g.rotate());
            assert_eq!(g.bits() & 0x88, 0);
        }
    }
}

#[test]
fn horizontal_line_cells_are_top_edges() {
    let f = frieze(&[4; 15], 3);
    for r in 0..2 {
        for c in 0..4 {
            let g = *f.grids().get(r, c).unwrap();
            assert_eq!(g.bits(), SN);
            assert_eq!(g.hr(), g);
            assert_eq!(g.vr(), g);
            assert_eq!(g.rotate(), g);
        }
    }
    assert_eq!(f.rotation(), Some(0));
}
