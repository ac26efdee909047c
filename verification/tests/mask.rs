use cartographers::mask::Mask;

fn cells_of(mask: Mask) -> Vec<u8> {
    let mut out = Vec::new();
    let mut cells = mask.cells();
    while let Some(i) = cells.next() {
        out.push(i);
    }
    out
}

fn clusters_of(mask: Mask) -> Vec<Mask> {
    let mut out = Vec::new();
    let mut clusters = mask.clusters();
    while let Some(c) = clusters.next() {
        out.push(c);
    }
    out
}

fn sub_masks_of(mask: Mask, pattern: Mask) -> Vec<Mask> {
    let mut out = Vec::new();
    let mut places = mask.sub_masks(pattern);
    while let Some(p) = places.next() {
        out.push(p);
    }
    out
}

fn sample() -> Vec<Mask> {
    vec![
        Mask::empty(),
        Mask::full(),
        Mask::cell(0, 0),
        Mask::cell(10, 10),
        Mask::row(3) | Mask::column(7),
        Mask::border(),
        Mask::from_bits(0x1234_5678_9abc_def0_1357_9bdf_0246_8ace),
        Mask::cell(4, 4) | Mask::cell(5, 4) | Mask::cell(9, 0) | Mask::cell(10, 0),
    ]
}

#[test]
fn constants_have_the_board_size() {
    assert_eq!(Mask::SIZE, 11);
    assert_eq!(Mask::CELL_COUNT, 121);
    assert_eq!(Mask::full().to_bits(), (1u128 << 121) - 1);
    assert_eq!(Mask::empty().to_bits(), 0);
}

#[test]
fn cell_is_bit_y_times_eleven_plus_x() {
    assert_eq!(Mask::cell(3, 1).to_bits(), 1u128 << 14);
    assert_eq!(Mask::cell(3, 1), Mask::cell_idx(14));
    assert_eq!(Mask::cell(10, 10), Mask::cell_idx(120));
    assert_eq!(cells_of(Mask::cell(2, 8)), vec![90]);
}

#[test]
fn from_bits_drops_what_is_off_the_board() {
    assert_eq!(Mask::from_bits(u128::MAX), Mask::full());
    assert_eq!(Mask::from_bits(0b101).to_bits(), 0b101);
    assert_eq!(Mask::from_bits(1u128 << 121), Mask::empty());
}

#[test]
fn rows_columns_and_border() {
    assert_eq!(cells_of(Mask::row(0)), (0..11).collect::<Vec<u8>>());
    assert_eq!(cells_of(Mask::row(10)), (110..121).collect::<Vec<u8>>());
    assert_eq!(cells_of(Mask::column(0)), (0..11).map(|y| y * 11).collect::<Vec<u8>>());
    assert_eq!(cells_of(Mask::column(10)), (0..11).map(|y| y * 11 + 10).collect::<Vec<u8>>());
    assert_eq!(Mask::border().count_cells(), 40);
    assert_eq!(
        Mask::border(),
        Mask::row(0) | Mask::row(10) | Mask::column(0) | Mask::column(10)
    );
}

#[test]
fn from_cells_takes_the_listed_cells() {
    let m = Mask::from_cells(&[16, 23, 31, 89, 97, 104]);
    assert_eq!(cells_of(m), vec![16, 23, 31, 89, 97, 104]);
    assert_eq!(
        m,
        Mask::cell(5, 1)
            | Mask::cell(1, 2)
            | Mask::cell(9, 2)
            | Mask::cell(1, 8)
            | Mask::cell(9, 8)
            | Mask::cell(5, 9)
    );
    assert_eq!(Mask::from_cells(&[]), Mask::empty());
    assert_eq!(Mask::from_cells(&[7, 7, 7]), Mask::cell_idx(7));
    let all: Vec<u8> = (0..121).collect();
    assert_eq!(Mask::from_cells(&all), Mask::full());
    let twice: Vec<u8> = (0..121).chain(0..121).collect();
    assert_eq!(Mask::from_cells(&twice), Mask::full());
}

#[test]
fn complement_partitions_the_board() {
    for a in sample() {
        assert!((a & !a).is_empty());
        assert_eq!(a | !a, Mask::full());
        assert_eq!(a.count_cells() + (!a).count_cells(), 121);
    }
}

#[test]
fn opposite_shifts_lose_one_line() {
    for a in sample() {
        assert_eq!(a.shift_right().shift_left(), a & !Mask::column(10));
        assert_eq!(a.shift_left().shift_right(), a & !Mask::column(0));
        assert_eq!(a.shift_down().shift_up(), a & !Mask::row(10));
        assert_eq!(a.shift_up().shift_down(), a & !Mask::row(0));
        assert!(a.contains(a.shift_right().shift_left()));
    }
}

#[test]
fn shifts_move_by_one_cell() {
    assert_eq!(Mask::cell(3, 4).shift_right(), Mask::cell(4, 4));
    assert_eq!(Mask::cell(3, 4).shift_left(), Mask::cell(2, 4));
    assert_eq!(Mask::cell(3, 4).shift_up(), Mask::cell(3, 3));
    assert_eq!(Mask::cell(3, 4).shift_down(), Mask::cell(3, 5));
    assert_eq!(Mask::cell(10, 4).shift_right(), Mask::empty());
    assert_eq!(Mask::cell(0, 4).shift_left(), Mask::empty());
    assert_eq!(Mask::cell(3, 0).shift_up(), Mask::empty());
    assert_eq!(Mask::cell(3, 10).shift_down(), Mask::empty());
}

#[test]
fn neighbors_are_the_cells_beside() {
    assert_eq!(
        Mask::cell(5, 5).neighbors(),
        Mask::cell(4, 5) | Mask::cell(6, 5) | Mask::cell(5, 4) | Mask::cell(5, 6)
    );
    assert_eq!(Mask::cell(0, 0).neighbors(), Mask::cell(1, 0) | Mask::cell(0, 1));
    // an isolated cell is not its own neighbor, two cells side by side are
    let pair = Mask::cell(2, 2) | Mask::cell(3, 2);
    assert!(pair.neighbors().contains(pair));
    let lone = Mask::cell(8, 8);
    assert!((lone.neighbors() & lone).is_empty());
    assert_eq!(Mask::empty().neighbors(), Mask::empty());
    assert_eq!(Mask::full().neighbors(), Mask::full());
}

#[test]
fn touches_and_touches_not_split_a_set() {
    let a = Mask::row(4);
    let b = Mask::cell(3, 5) | Mask::cell(9, 3);
    assert_eq!(a.touches(b), Mask::cell(3, 4) | Mask::cell(9, 4));
    assert_eq!(a.touches_not(b), a & !(Mask::cell(3, 4) | Mask::cell(9, 4)));
    assert_eq!(a.touches(b) | a.touches_not(b), a);
}

#[test]
fn contains_is_the_subset_test() {
    assert!(Mask::full().contains(Mask::border()));
    assert!(Mask::border().contains(Mask::row(0)));
    assert!(!Mask::row(0).contains(Mask::border()));
    assert!(Mask::row(0).contains(Mask::empty()));
    assert!(Mask::empty().is_empty());
    assert!(!Mask::empty().has_cells());
    assert!(Mask::cell(1, 1).has_cells());
}

#[test]
fn masks_are_ordered_by_their_bits() {
    assert!(Mask::cell_idx(3) < Mask::cell_idx(4));
    assert!(Mask::cell_idx(4) < (Mask::cell_idx(4) | Mask::cell_idx(0)));
    assert!(Mask::empty() < Mask::cell_idx(0));
}

#[test]
fn cells_come_in_ascending_order() {
    let m = Mask::cell_idx(120) | Mask::cell_idx(0) | Mask::cell_idx(64) | Mask::cell_idx(65);
    assert_eq!(cells_of(m), vec![0, 64, 65, 120]);
    assert_eq!(cells_of(Mask::empty()), Vec::<u8>::new());
    assert_eq!(cells_of(Mask::full()).len(), 121);
}

#[test]
fn clusters_split_by_adjacency() {
    let a = Mask::cell(0, 0) | Mask::cell(1, 0) | Mask::cell(5, 5);
    assert_eq!(
        clusters_of(a),
        vec![Mask::cell(0, 0) | Mask::cell(1, 0), Mask::cell(5, 5)]
    );
    assert_eq!(clusters_of(Mask::empty()), Vec::<Mask>::new());
    assert_eq!(clusters_of(Mask::full()), vec![Mask::full()]);
    // cells that touch only at a corner are apart
    let diagonal = Mask::cell(2, 2) | Mask::cell(3, 3);
    assert_eq!(clusters_of(diagonal), vec![Mask::cell(2, 2), Mask::cell(3, 3)]);
    // the end of one row and the start of the next are apart
    let wrap = Mask::cell(10, 4) | Mask::cell(0, 5);
    assert_eq!(clusters_of(wrap).len(), 2);
}

#[test]
fn clusters_partition_the_set() {
    for a in sample() {
        let clusters = clusters_of(a);
        let mut union = Mask::empty();
        for (i, c) in clusters.iter().enumerate() {
            assert!(c.has_cells());
            assert!((union & *c).is_empty());
            union = union | *c;
            // nothing of the set outside the cluster lies beside it
            assert!((c.neighbors() & a & !*c).is_empty());
            for d in &clusters[i + 1..] {
                assert!((*c & *d).is_empty());
            }
            // a flood from the least cell fills the cluster
            let mut flood = Mask::cell_idx(cells_of(*c)[0]);
            loop {
                let next = flood | (flood.neighbors() & *c);
                if next == flood {
                    break;
                }
                flood = next;
            }
            assert_eq!(flood, *c);
        }
        assert_eq!(union, a);
    }
}

#[test]
fn sub_masks_slide_row_by_row() {
    let m = Mask::row(0) | Mask::row(1);
    let p = Mask::cell(0, 0) | Mask::cell(0, 1);
    let found = sub_masks_of(m, p);
    assert_eq!(found.len(), 11);
    for (x, t) in found.iter().enumerate() {
        assert_eq!(*t, Mask::cell(x as u8, 0) | Mask::cell(x as u8, 1));
    }
}

#[test]
fn sub_masks_yield_each_translation_once() {
    let p = Mask::cell(0, 0) | Mask::cell(1, 0) | Mask::cell(1, 1);
    let found = sub_masks_of(Mask::full(), p);
    assert_eq!(found.len(), 100);
    for (i, t) in found.iter().enumerate() {
        let (dx, dy) = ((i % 10) as u8, (i / 10) as u8);
        assert_eq!(
            *t,
            Mask::cell(dx, dy) | Mask::cell(dx + 1, dy) | Mask::cell(dx + 1, dy + 1)
        );
        assert!(!found[..i].contains(t));
    }
}

#[test]
fn sub_masks_only_inside_the_set() {
    let m = !(Mask::cell(5, 5) | Mask::row(10));
    let p = Mask::cell(0, 0) | Mask::cell(0, 1) | Mask::cell(1, 1);
    let found = sub_masks_of(m, p);
    let mut expected = Vec::new();
    for dy in 0..10u8 {
        for dx in 0..10u8 {
            let t = Mask::cell(dx, dy) | Mask::cell(dx, dy + 1) | Mask::cell(dx + 1, dy + 1);
            if m.contains(t) {
                expected.push(t);
            }
        }
    }
    assert_eq!(found, expected);
    assert_eq!(sub_masks_of(Mask::full(), Mask::empty()), Vec::<Mask>::new());
    assert_eq!(sub_masks_of(Mask::empty(), p), Vec::<Mask>::new());
    assert_eq!(sub_masks_of(Mask::full(), Mask::full()), vec![Mask::full()]);
}

#[test]
fn sub_masks_of_a_pattern_away_from_the_corner() {
    // the pattern is moved right and down from where it lies
    let p = Mask::cell(9, 9);
    assert_eq!(
        sub_masks_of(Mask::full(), p),
        vec![Mask::cell(9, 9), Mask::cell(10, 9), Mask::cell(9, 10), Mask::cell(10, 10)]
    );
}

#[test]
fn assigning_operators() {
    let mut m = Mask::row(2);
    m |= Mask::column(2);
    assert_eq!(m, Mask::row(2) | Mask::column(2));
    m &= Mask::row(2);
    assert_eq!(m, Mask::row(2));
}

#[test]
fn a_picture_shows_the_rows() {
    let m = Mask::cell(0, 0) | Mask::cell(10, 0) | Mask::cell(1, 1) | Mask::row(10);
    let mut expected = String::from("\n");
    expected.push_str("o.........o\n");
    expected.push_str(".o.........\n");
    for _ in 2..10 {
        expected.push_str("...........\n");
    }
    expected.push_str("ooooooooooo\n");
    assert_eq!(m.to_text(), expected);
    assert_eq!(Mask::empty().to_text().len(), 1 + 11 * 12);
}
