use xladd::value::{
    Body, Cell, FreeAction, Ownership, RectRef, Variant, ERR_DIV0, ERR_NA, ERR_VALUE,
};

#[test]
fn number_round_trip_finite() {
    let samples: [f64; 7] = [0.0, 1.0, -1.0, 3.75, -123456.789, 5e-324, 1.7976931348623157e308];
    for v in samples {
        let var = Variant::from_number_bits(v.to_bits());
        let bits = var.as_number_bits().unwrap();
        assert_eq!(f64::from_bits(bits), v);
    }
}

#[test]
fn number_nan_and_infinity_become_na_errors() {
    let nan = Variant::from_number_bits(f64::NAN.to_bits());
    assert!(matches!(nan.body, Body::Cell(Cell::Error(ERR_NA))));
    let inf = Variant::from_number_bits(f64::INFINITY.to_bits());
    assert!(matches!(inf.body, Body::Cell(Cell::Error(ERR_NA))));
    let neg_inf = Variant::from_number_bits(f64::NEG_INFINITY.to_bits());
    assert!(matches!(neg_inf.body, Body::Cell(Cell::Error(ERR_NA))));
    // a different code is not the #NA error
    assert!(!matches!(Variant::from_err(ERR_VALUE).body, Body::Cell(Cell::Error(ERR_NA))));
}

#[test]
fn dim_of_missing_is_empty() {
    assert_eq!(Variant::missing().dim(), (0, 0));
}

#[test]
fn dim_of_scalars_is_one_by_one() {
    assert_eq!(Variant::nil().dim(), (1, 1));
    assert_eq!(Variant::from_number_bits(2.5f64.to_bits()).dim(), (1, 1));
    assert_eq!(Variant::from_int(-3).dim(), (1, 1));
    assert_eq!(Variant::from_bool(true).dim(), (1, 1));
    assert_eq!(Variant::from_err(ERR_DIV0).dim(), (1, 1));
    assert_eq!(Variant::from_text("hello").dim(), (1, 1));
}

#[test]
fn dim_of_single_reference_is_its_span() {
    let r = RectRef { row_first: 2, row_last: 9, col_first: 1, col_last: 3 };
    let v = Variant::from_sref(r);
    assert_eq!(v.dim(), (3, 8));
}

#[test]
fn missing_and_nil_predicates() {
    assert!(Variant::missing().is_missing_or_null());
    assert!(Variant::nil().is_missing_or_null());
    assert!(Variant::default().is_missing_or_null());
    assert!(!Variant::from_int(0).is_missing_or_null());
    let r = RectRef { row_first: 0, row_last: 0, col_first: 0, col_last: 0 };
    assert!(Variant::from_sref(r).is_ref());
    assert!(!Variant::from_int(1).is_ref());
}

#[test]
fn at_on_scalar_acts_as_one_by_one_grid() {
    let v = Variant::from_int(42);
    assert_eq!(v.at(0, 0).as_integer().unwrap(), 42);
    assert!(matches!(v.at(1, 0).body, Body::Cell(Cell::Error(ERR_NA))));
    assert!(matches!(v.at(0, 1).body, Body::Cell(Cell::Error(ERR_NA))));
}

#[test]
fn at_on_grid_returns_cells_and_na_out_of_bounds() {
    let bits: Vec<u64> = (1..=6).map(|n| (n as f64).to_bits()).collect();
    let g = Variant::grid_from_numbers(&bits, 3);
    assert_eq!(g.dim(), (3, 2));
    for row in 0..2 {
        for col in 0..3 {
            let cell = g.at(col, row);
            let expected = (row * 3 + col + 1) as f64;
            assert_eq!(f64::from_bits(cell.as_number_bits().unwrap()), expected);
        }
    }
    assert!(matches!(g.at(3, 0).body, Body::Cell(Cell::Error(ERR_NA))));
    assert!(matches!(g.at(0, 2).body, Body::Cell(Cell::Error(ERR_NA))));
}

#[test]
fn clone_is_deep_and_extension_owned() {
    let bits: Vec<u64> = (0..4).map(|n| (n as f64).to_bits()).collect();
    let original = Variant::grid_from_numbers(&bits, 2).into_borrowed();
    let copy = original.clone();
    assert_eq!(copy.owner, Ownership::OwnedByExtension);
    assert_eq!(original.owner, Ownership::Borrowed);
    for row in 0..2 {
        for col in 0..2 {
            assert_eq!(
                copy.at(col, row).as_number_bits().unwrap(),
                original.at(col, row).as_number_bits().unwrap()
            );
        }
    }
}

#[test]
fn clone_independence_after_replacement() {
    let bits: Vec<u64> = (0..4).map(|n| (n as f64).to_bits()).collect();
    let original = Variant::grid_from_numbers(&bits, 2);
    let mut copy = original.clone();
    let replaced = copy.set_at(1, 0, &Variant::from_text("changed"));
    assert!(replaced);
    assert_eq!(copy.at(1, 0).as_text().unwrap(), "changed");
    assert_eq!(f64::from_bits(original.at(1, 0).as_number_bits().unwrap()), 1.0);
}

#[test]
fn set_at_rejects_non_grids_and_out_of_bounds() {
    let mut scalar = Variant::from_int(5);
    assert!(!scalar.set_at(0, 0, &Variant::from_int(6)));
    assert_eq!(scalar.as_integer().unwrap(), 5);
    let bits: Vec<u64> = vec![0; 4];
    let mut grid = Variant::grid_from_numbers(&bits, 2);
    assert!(!grid.set_at(2, 0, &Variant::from_int(6)));
    let other_grid = grid.clone();
    assert!(!grid.set_at(0, 0, &other_grid));
}

#[test]
fn borrowed_values_release_nothing() {
    let text = Variant::from_text("leased").into_borrowed();
    assert_eq!(text.free_action(), FreeAction::NoAction);
    let bits: Vec<u64> = vec![0; 4];
    let grid = Variant::grid_from_numbers(&bits, 2).into_borrowed();
    assert_eq!(grid.free_action(), FreeAction::NoAction);
}

#[test]
fn release_protocol_by_owner_and_variant() {
    assert_eq!(Variant::from_text("mine").free_action(), FreeAction::TextByExtension);
    let bits: Vec<u64> = vec![0; 4];
    assert_eq!(
        Variant::grid_from_numbers(&bits, 2).free_action(),
        FreeAction::CellsByExtension
    );
    assert_eq!(Variant::from_int(3).free_action(), FreeAction::NoAction);
    assert_eq!(Variant::from_text("x").free_action(), FreeAction::TextByExtension);
    let host_owned = Variant { body: Body::Cell(Cell::Int(1)), owner: Ownership::OwnedByHost };
    assert_eq!(host_owned.free_action(), FreeAction::HostFree);
}

#[test]
fn text_limit_is_enforced() {
    let at_limit = "a".repeat(xladd::TEXT_LIMIT);
    let stored = Variant::from_text(&at_limit);
    assert_eq!(stored.as_text().unwrap(), at_limit);
    let beyond = "a".repeat(xladd::TEXT_LIMIT + 1);
    let rejected = Variant::from_text(&beyond);
    assert!(matches!(rejected.body, Body::Cell(Cell::Error(ERR_VALUE))));
}

#[test]
fn text_round_trip_multilingual() {
    for s in ["", "hello", "grüße", "こんにちは", "a\u{10002}b\u{1D11E}"] {
        let v = Variant::from_text(s);
        assert_eq!(v.as_text().unwrap(), s);
    }
}

#[test]
fn text_encoding_uses_utf16_units() {
    let v = Variant::from_text("A€\u{1D11E}");
    match &v.body {
        Body::Cell(Cell::Text(units)) => {
            assert_eq!(units, &vec![0x0041u16, 0x20AC, 0xD834, 0xDD1E]);
        }
        _ => panic!("expected a text value"),
    }
}

#[test]
fn lossy_decode_replaces_unpaired_surrogates() {
    let v = Variant {
        body: Body::Cell(Cell::Text(vec![0x0041, 0xD800, 0x0042])),
        owner: Ownership::OwnedByExtension,
    };
    assert_eq!(v.as_text().unwrap(), "A\u{FFFD}B");
}
