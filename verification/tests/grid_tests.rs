use xladd::value::{Body, Cell, RectRef, Variant, ERR_NA, ERR_NULL, ERR_VALUE};

fn number_grid(values: &[f64], columns: usize) -> Variant {
    let bits: Vec<u64> = values.iter().map(|v| v.to_bits()).collect();
    Variant::grid_from_numbers(&bits, columns)
}

fn cell_number(v: &Variant, col: usize, row: usize) -> f64 {
    f64::from_bits(v.at(col, row).as_number_bits().unwrap())
}

#[test]
fn concat_two_texts_horizontally_pads_to_two_by_two() {
    let parts = [Variant::from_text("a"), Variant::from_text("b")];
    let g = Variant::concat(&parts, true);
    assert_eq!(g.dim(), (2, 2));
    assert_eq!(g.at(0, 0).as_text().unwrap(), "a");
    assert_eq!(g.at(1, 0).as_text().unwrap(), "b");
    assert!(matches!(g.at(0, 1).body, Body::Cell(Cell::Error(ERR_NA))));
    assert!(matches!(g.at(1, 1).body, Body::Cell(Cell::Error(ERR_NA))));
}

#[test]
fn concat_vertically_stacks_rows() {
    let parts = [Variant::from_int(1), Variant::from_int(2), Variant::from_int(3)];
    let g = Variant::concat(&parts, false);
    assert_eq!(g.dim(), (2, 3));
    assert_eq!(g.at(0, 0).as_integer().unwrap(), 1);
    assert_eq!(g.at(0, 1).as_integer().unwrap(), 2);
    assert_eq!(g.at(0, 2).as_integer().unwrap(), 3);
    assert!(matches!(g.at(1, 0).body, Body::Cell(Cell::Error(ERR_NA))));
}

#[test]
fn concat_flattens_grid_inputs_block_by_block() {
    let left = number_grid(&[1.0, 2.0, 3.0, 4.0], 2);
    let right = number_grid(&[5.0, 6.0], 1);
    let g = Variant::concat(&[left, right], true);
    assert_eq!(g.dim(), (3, 2));
    assert_eq!(cell_number(&g, 0, 0), 1.0);
    assert_eq!(cell_number(&g, 1, 0), 2.0);
    assert_eq!(cell_number(&g, 2, 0), 5.0);
    assert_eq!(cell_number(&g, 0, 1), 3.0);
    assert_eq!(cell_number(&g, 1, 1), 4.0);
    assert_eq!(cell_number(&g, 2, 1), 6.0);
}

#[test]
fn concat_skips_missing_inputs() {
    let parts = [Variant::from_int(7), Variant::missing(), Variant::from_int(8)];
    let g = Variant::concat(&parts, true);
    assert_eq!(g.dim(), (2, 2));
    assert_eq!(g.at(0, 0).as_integer().unwrap(), 7);
    assert_eq!(g.at(1, 0).as_integer().unwrap(), 8);
}

#[test]
fn concat_of_nothing_gives_na_filled_two_by_two() {
    let g = Variant::concat(&[], true);
    assert_eq!(g.dim(), (2, 2));
    for row in 0..2 {
        for col in 0..2 {
            assert!(matches!(g.at(col, row).body, Body::Cell(Cell::Error(ERR_NA))));
        }
    }
}

#[test]
fn concat_beyond_row_limit_gives_text_error() {
    let tall = RectRef { row_first: 0, row_last: 1_999_999, col_first: 0, col_last: 0 };
    let parts = [Variant::from_sref(tall)];
    let g = Variant::concat(&parts, false);
    assert_eq!(g.as_text().unwrap(), "#ERR resulting array is too big");
}

#[test]
fn concat_beyond_column_limit_gives_text_error() {
    let wide = RectRef { row_first: 0, row_last: 0, col_first: 0, col_last: 19_999 };
    let parts = [Variant::from_sref(wide)];
    let g = Variant::concat(&parts, true);
    assert_eq!(g.as_text().unwrap(), "#ERR resulting array is too big");
}

#[test]
fn transpose_of_scalar_is_a_clone() {
    let v = Variant::from_text("still me");
    assert_eq!(v.transpose().as_text().unwrap(), "still me");
    let e = Variant::from_err(ERR_NA);
    assert!(matches!(e.transpose().body, Body::Cell(Cell::Error(ERR_NA))));
}

#[test]
fn transpose_swaps_columns_and_rows() {
    let g = number_grid(&[1.0, 2.0, 3.0, 4.0, 5.0, 6.0], 3);
    let t = g.transpose();
    assert_eq!(t.dim(), (2, 3));
    for row in 0..2 {
        for col in 0..3 {
            assert_eq!(cell_number(&t, row, col), cell_number(&g, col, row));
        }
    }
}

#[test]
fn transpose_twice_restores_the_grid() {
    let g = number_grid(&[1.5, -2.0, 0.25, 8.0, 9.5, -3.125], 2);
    let back = g.transpose().transpose();
    assert_eq!(back.dim(), g.dim());
    for row in 0..3 {
        for col in 0..2 {
            assert_eq!(cell_number(&back, col, row), cell_number(&g, col, row));
        }
    }
}

#[test]
fn transpose_beyond_column_limit_gives_text_error() {
    let bits: Vec<u64> = vec![0u64; 20_000];
    let tall = Variant::grid_from_numbers(&bits, 1);
    assert_eq!(tall.dim(), (1, 20_000));
    let t = tall.transpose();
    assert_eq!(t.as_text().unwrap(), "#ERR resulting array is too big");
}

#[test]
fn grid_from_texts_builds_tables() {
    let words: Vec<String> = ["a", "b", "c", "d", "e", "f"].iter().map(|s| s.to_string()).collect();
    let g = Variant::grid_from_texts(&words, 2);
    assert_eq!(g.dim(), (2, 3));
    assert_eq!(g.at(0, 0).as_text().unwrap(), "a");
    assert_eq!(g.at(1, 2).as_text().unwrap(), "f");
    let empty: Vec<String> = Vec::new();
    assert!(matches!(
        Variant::grid_from_texts(&empty, 2).body,
        Body::Cell(Cell::Error(ERR_NULL))
    ));
    let one: Vec<String> = vec!["only".to_string()];
    let scalar = Variant::grid_from_texts(&one, 1);
    assert_eq!(scalar.as_text().unwrap(), "only");
}

#[test]
fn grid_from_numbers_drops_partial_rows() {
    let bits: Vec<u64> = [1.0f64, 2.0, 3.0, 4.0, 5.0].iter().map(|v| v.to_bits()).collect();
    let g = Variant::grid_from_numbers(&bits, 2);
    assert_eq!(g.dim(), (2, 2));
    assert_eq!(cell_number(&g, 0, 0), 1.0);
    assert_eq!(cell_number(&g, 1, 1), 4.0);
}

#[test]
fn grid_from_pairs_builds_two_columns() {
    let pairs = vec![
        ("first".to_string(), 1.0f64.to_bits()),
        ("second".to_string(), 2.0f64.to_bits()),
    ];
    let g = Variant::grid_from_pairs(&pairs);
    assert_eq!(g.dim(), (2, 2));
    assert_eq!(g.at(0, 0).as_text().unwrap(), "first");
    assert_eq!(cell_number(&g, 1, 0), 1.0);
    assert_eq!(g.at(0, 1).as_text().unwrap(), "second");
    assert_eq!(cell_number(&g, 1, 1), 2.0);
    let no_pairs: Vec<(String, u64)> = Vec::new();
    assert!(matches!(
        Variant::grid_from_pairs(&no_pairs).body,
        Body::Cell(Cell::Error(ERR_NULL))
    ));
}

#[test]
fn grid_from_text_row_is_one_row_wide() {
    let words: Vec<String> = ["x", "y", "z"].iter().map(|s| s.to_string()).collect();
    let g = Variant::grid_from_text_row(&words);
    assert_eq!(g.dim(), (3, 1));
    assert_eq!(g.at(2, 0).as_text().unwrap(), "z");
    let single: Vec<String> = vec!["x".to_string()];
    assert_eq!(Variant::grid_from_text_row(&single).dim(), (1, 1));
}

#[test]
fn oversized_text_in_grid_becomes_value_error() {
    let words: Vec<String> = vec!["ok".to_string(), "b".repeat(xladd::TEXT_LIMIT + 1)];
    let g = Variant::grid_from_text_row(&words);
    assert_eq!(g.at(0, 0).as_text().unwrap(), "ok");
    assert!(matches!(g.at(1, 0).body, Body::Cell(Cell::Error(ERR_VALUE))));
}

#[test]
fn concat_stacks_grid_blocks_vertically() {
    let top = number_grid(&[1.0, 2.0, 3.0, 4.0], 2);
    let bottom = number_grid(&[5.0, 6.0], 2);
    let g = Variant::concat(&[top, bottom], false);
    assert_eq!(g.dim(), (2, 3));
    assert_eq!(cell_number(&g, 0, 0), 1.0);
    assert_eq!(cell_number(&g, 1, 0), 2.0);
    assert_eq!(cell_number(&g, 0, 1), 3.0);
    assert_eq!(cell_number(&g, 1, 1), 4.0);
    assert_eq!(cell_number(&g, 0, 2), 5.0);
    assert_eq!(cell_number(&g, 1, 2), 6.0);
}

#[test]
fn concat_at_the_row_limit_still_builds_a_grid() {
    let tall = RectRef { row_first: 0, row_last: 1_048_575, col_first: 0, col_last: 0 };
    let parts = [Variant::from_sref(tall)];
    let g = Variant::concat(&parts, false);
    assert_eq!(g.dim(), (2, 1_048_576));
    // the reference spans many rows for sizing but occupies one cell
    assert!(g.at(0, 0).is_ref());
    assert!(matches!(g.at(0, 1).body, Body::Cell(Cell::Error(ERR_NA))));
}
