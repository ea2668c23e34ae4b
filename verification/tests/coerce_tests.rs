use xladd::coerce::{XLAddError, NAN_BITS, ONE_BITS};
use xladd::value::{Variant, ERR_DIV0, ERR_NA, ERR_NAME, ERR_NULL, ERR_NUM, ERR_REF, ERR_VALUE};

#[test]
fn strict_conversions_succeed_only_on_matching_variants() {
    assert_eq!(
        f64::from_bits(Variant::from_number_bits(2.5f64.to_bits()).as_number_bits().unwrap()),
        2.5
    );
    assert_eq!(Variant::from_int(-7).as_integer().unwrap(), -7);
    assert!(Variant::from_bool(true).as_boolean().unwrap());
    assert_eq!(Variant::from_text("hi").as_text().unwrap(), "hi");

    assert!(Variant::from_text("hi").as_number_bits().is_err());
    assert!(Variant::from_number_bits(1.0f64.to_bits()).as_integer().is_err());
    assert!(Variant::from_int(1).as_boolean().is_err());
    assert!(Variant::from_bool(false).as_text().is_err());
}

#[test]
fn strict_failure_messages_show_the_value() {
    let err = Variant::from_int(41).as_number_bits().unwrap_err();
    match &err {
        XLAddError::F64ConversionFailed(shown) => assert_eq!(shown, "41"),
        _ => panic!("wrong error variant"),
    }
    assert_eq!(err.message(), "Could not convert parameter [41] to f64");

    let err = Variant::from_text("nope").as_integer().unwrap_err();
    assert_eq!(err.message(), "Could not convert parameter [nope] to integer");

    let err = XLAddError::MissingArgument("stats".to_string(), "alpha".to_string());
    assert_eq!(err.message(), "Function [stats] is missing parameter alpha");
}

#[test]
fn lenient_numbers_convert_cell_by_cell() {
    let parts = [
        Variant::from_number_bits(3.25f64.to_bits()),
        Variant::from_int(7),
        Variant::from_bool(true),
        Variant::from_bool(false),
        Variant::from_text("words"),
        Variant::from_err(ERR_DIV0),
    ];
    let g = Variant::concat(&parts, true);
    let nums = g.to_numbers();
    assert_eq!(nums.len(), 12);
    assert_eq!(f64::from_bits(nums[0]), 3.25);
    assert_eq!(f64::from_bits(nums[1]), 7.0);
    assert_eq!(nums[2], ONE_BITS);
    assert_eq!(f64::from_bits(nums[2]), 1.0);
    assert_eq!(f64::from_bits(nums[3]), 0.0);
    assert!(f64::from_bits(nums[4]).is_nan());
    assert_eq!(nums[4], NAN_BITS);
    assert!(f64::from_bits(nums[5]).is_nan());
}

#[test]
fn lenient_numbers_on_scalar_gives_one_element() {
    let nums = Variant::from_int(-12).to_numbers();
    assert_eq!(nums.len(), 1);
    assert_eq!(f64::from_bits(nums[0]), -12.0);
    let nums = Variant::missing().to_numbers();
    assert_eq!(nums.len(), 1);
    assert!(f64::from_bits(nums[0]).is_nan());
}

#[test]
fn integer_to_double_bits_is_exact() {
    let samples: [i32; 9] =
        [0, 1, -1, 2, 1023, -4096, i32::MAX, i32::MIN, 715827883];
    for w in samples {
        let bits = Variant::from_int(w).to_numbers()[0];
        assert_eq!(f64::from_bits(bits), w as f64);
        assert_eq!(bits, (w as f64).to_bits());
    }
}

#[test]
fn lenient_texts_convert_cell_by_cell() {
    let parts = [
        Variant::from_text("hi"),
        Variant::from_bool(true),
        Variant::from_bool(false),
        Variant::from_int(5),
        Variant::from_number_bits(4.0f64.to_bits()),
    ];
    let g = Variant::concat(&parts, false);
    let texts = g.to_texts();
    assert_eq!(texts.len(), 10);
    assert_eq!(texts[0], "hi");
    assert_eq!(texts[2], "true");
    assert_eq!(texts[4], "false");
    assert_eq!(texts[6], "");
    assert_eq!(texts[8], "4");
}

#[test]
fn display_strings_for_error_codes() {
    assert_eq!(Variant::from_err(ERR_NULL).display_string(), "#NULL");
    assert_eq!(Variant::from_err(ERR_DIV0).display_string(), "#DIV0");
    assert_eq!(Variant::from_err(ERR_VALUE).display_string(), "#VALUE");
    assert_eq!(Variant::from_err(ERR_REF).display_string(), "#REF");
    assert_eq!(Variant::from_err(ERR_NAME).display_string(), "#NAME");
    assert_eq!(Variant::from_err(ERR_NUM).display_string(), "#NUM");
    assert_eq!(Variant::from_err(ERR_NA).display_string(), "#NA");
    assert_eq!(Variant::from_err(43).display_string(), "#DATA");
    assert_eq!(Variant::from_err(99).display_string(), "#BAD_ERR 99");
}

#[test]
fn display_strings_for_scalars() {
    assert_eq!(Variant::nil().display_string(), "#NIL");
    assert_eq!(Variant::missing().display_string(), "#MISSING");
    assert_eq!(Variant::from_int(0).display_string(), "0");
    assert_eq!(Variant::from_int(-90210).display_string(), "-90210");
    assert_eq!(Variant::from_bool(true).display_string(), "true");
    assert_eq!(Variant::from_text("shown").display_string(), "shown");
    let grid = Variant::concat(&[Variant::from_int(1)], true);
    assert_eq!(grid.display_string(), "#MULTI");
}

#[test]
fn display_strings_for_numbers() {
    assert_eq!(Variant::from_number_bits(0.0f64.to_bits()).display_string(), "0");
    assert_eq!(Variant::from_number_bits((-0.0f64).to_bits()).display_string(), "-0");
    assert_eq!(Variant::from_number_bits(42.0f64.to_bits()).display_string(), "42");
    assert_eq!(
        Variant::from_number_bits((-42.0f64).to_bits()).display_string(),
        "-42"
    );
    assert_eq!(
        Variant::from_number_bits(9007199254740992.0f64.to_bits()).display_string(),
        "9007199254740992"
    );
    assert_eq!(Variant::from_number_bits(0.5f64.to_bits()).display_string(), "0x1.0000000000000p-1");
    assert_eq!(Variant::from_number_bits(0.1f64.to_bits()).display_string(), "0x1.999999999999ap-4");
    assert_eq!(Variant::from_number_bits(2.5f64.to_bits()).display_string(), "0x1.4000000000000p1");
    assert_eq!(
        Variant::from_number_bits(5e-324f64.to_bits()).display_string(),
        "0x0.0000000000001p-1022"
    );
}

#[test]
fn every_strict_error_variant_reports_its_target() {
    let err = Variant::from_int(1).as_boolean().unwrap_err();
    assert!(matches!(err, XLAddError::BoolConversionFailed(_)));
    assert_eq!(err.message(), "Could not convert parameter [1] to bool");

    let err = Variant::from_bool(true).as_text().unwrap_err();
    assert!(matches!(err, XLAddError::StringConversionFailed(_)));
    assert_eq!(err.message(), "Could not convert parameter [true] to string");

    let err = Variant::missing().as_number_bits().unwrap_err();
    assert_eq!(err.message(), "Could not convert parameter [#MISSING] to f64");
}

#[test]
fn to_texts_on_scalar_gives_one_element() {
    let texts = Variant::from_text("solo").to_texts();
    assert_eq!(texts, vec!["solo".to_string()]);
    let texts = Variant::nil().to_texts();
    assert_eq!(texts, vec![String::new()]);
}

#[test]
fn display_markers_for_references() {
    let r = xladd::value::RectRef { row_first: 0, row_last: 1, col_first: 0, col_last: 1 };
    assert_eq!(Variant::from_sref(r).display_string(), "#SREF");
}
