use cert_storage::calc::{
    AdditionalFunctions, AllowAnchorPositioningFunctions, AllowParse, CalcUnits, MathFunction,
    FUNCTION_ANCHOR, FUNCTION_ANCHOR_SIZE, UNITS_ALL, UNITS_ANGLE, UNITS_LENGTH,
    UNITS_LENGTH_PERCENTAGE, UNITS_PERCENTAGE, UNITS_TIME,
};

#[test]
fn allow_parse_new_allows_only_given_units() {
    let allowed = AllowParse::new(CalcUnits { bits: UNITS_PERCENTAGE });
    assert!(allowed.includes(CalcUnits { bits: UNITS_PERCENTAGE }));
    assert!(allowed.includes(CalcUnits { bits: UNITS_LENGTH_PERCENTAGE }));
    assert!(!allowed.includes(CalcUnits { bits: UNITS_LENGTH }));
    assert!(!allowed.allows_functions(AdditionalFunctions { bits: FUNCTION_ANCHOR }));
    let none = AllowParse::new(CalcUnits { bits: 0 });
    assert!(!none.includes(CalcUnits { bits: UNITS_ALL }));
}

#[test]
fn allow_parse_new_including_adds_units() {
    let allowed = AllowParse::new(CalcUnits { bits: UNITS_ANGLE })
        .new_including(CalcUnits { bits: UNITS_TIME });
    assert!(allowed.includes(CalcUnits { bits: UNITS_ANGLE }));
    assert!(allowed.includes(CalcUnits { bits: UNITS_TIME }));
    assert!(!allowed.includes(CalcUnits { bits: UNITS_LENGTH }));
}

#[test]
fn allow_parse_anchor_functions() {
    let no = AllowParse::for_length_percentage(AllowAnchorPositioningFunctions::No);
    let size = AllowParse::for_length_percentage(AllowAnchorPositioningFunctions::AllowAnchorSize);
    let both =
        AllowParse::for_length_percentage(AllowAnchorPositioningFunctions::AllowAnchorAndAnchorSize);
    let anchor = AdditionalFunctions { bits: FUNCTION_ANCHOR };
    let anchor_size = AdditionalFunctions { bits: FUNCTION_ANCHOR_SIZE };
    assert!(!no.allows_functions(anchor) && !no.allows_functions(anchor_size));
    assert!(!size.allows_functions(anchor) && size.allows_functions(anchor_size));
    assert!(both.allows_functions(anchor) && both.allows_functions(anchor_size));
    for a in [no, size, both] {
        assert!(a.includes(CalcUnits { bits: UNITS_LENGTH }));
        assert!(a.includes(CalcUnits { bits: UNITS_PERCENTAGE }));
        assert!(!a.includes(CalcUnits { bits: UNITS_ANGLE }));
    }
    assert_ne!(MathFunction::Calc, MathFunction::Min);
}
