use rust_graph_db::types::graphid::{
    parse_graphid, Graphid, GraphidError, MAX_LABID, MAX_LOCID,
};

#[test]
fn test_graphid_creation() {
    let id = Graphid::new(1, 100).unwrap();
    assert_eq!(id.labid(), 1);
    assert_eq!(id.locid(), 100);
}

#[test]
fn test_graphid_max_values() {
    let id = Graphid::new(MAX_LABID, MAX_LOCID).unwrap();
    assert_eq!(id.labid(), MAX_LABID);
    assert_eq!(id.locid(), MAX_LOCID);
}

#[test]
fn test_graphid_out_of_range() {
    let result = Graphid::new(1, MAX_LOCID + 1);
    assert!(result.is_err());
}

#[test]
fn test_graphid_raw_conversion() {
    let original = Graphid::new(5, 12345).unwrap();
    let raw = original.as_raw();
    let restored = Graphid::from_raw(raw);
    assert_eq!(original, restored);
}

#[test]
fn test_graphid_display() {
    let id = Graphid::new(10, 500).unwrap();
    assert_eq!(format!("{}", id.to_string()), "10.500");
}

#[test]
fn test_graphid_bitwise_structure() {
    // The label ordinal sits in the high 16 bits, the local ordinal in the low 48.
    let labid: u16 = 0xABCD;
    let locid: u64 = 0x123456789ABC;
    let id = Graphid::new(labid, locid).unwrap();

    let expected = ((labid as u64) << 48) | locid;
    assert_eq!(id.as_raw(), expected);
}

#[test]
fn graphid_out_of_range_names_the_ordinal() {
    assert_eq!(
        Graphid::new(7, MAX_LOCID + 1),
        Err(GraphidError::LocidOutOfRange(MAX_LOCID + 1))
    );
}

#[test]
fn graphid_order_follows_raw_value() {
    let a = Graphid::new(1, 5).unwrap();
    let b = Graphid::new(1, 6).unwrap();
    let c = Graphid::new(2, 0).unwrap();
    assert!(a < b && b < c);
    assert!(Graphid::from_raw(u64::MAX).is_valid());
    assert_eq!(Graphid::try_from_u64(42), Ok(Graphid::from_raw(42)));
    assert_eq!(Graphid::from_raw(42).into_u64(), 42);
}

#[test]
fn graphid_is_read_from_its_display_form() {
    assert_eq!(parse_graphid("1.100"), Ok(Graphid::new(1, 100).unwrap()));
    assert_eq!(parse_graphid("0.0"), Ok(Graphid::from_raw(0)));
    assert_eq!(
        parse_graphid("65535.281474976710655"),
        Ok(Graphid::new(MAX_LABID, MAX_LOCID).unwrap())
    );
    let id = Graphid::new(12, 34567).unwrap();
    assert_eq!(id.to_string(), "12.34567");
    assert_eq!(parse_graphid(&id.to_string()), Ok(id));
    assert_eq!(
        parse_graphid("1.281474976710656"),
        Err(GraphidError::LocidOutOfRange(MAX_LOCID + 1))
    );
    assert_eq!(parse_graphid("+1.5"), Ok(Graphid::new(1, 5).unwrap()));
    assert_eq!(parse_graphid("1.+5"), Ok(Graphid::new(1, 5).unwrap()));
    assert_eq!(parse_graphid("+01.+005"), Ok(Graphid::new(1, 5).unwrap()));
    for bad in [
        "", "1", ".", "1.", ".1", "1.2.3", "a.1", "1.b", "65536.1", " 1.1", "1-1", "+.1", "1.+",
        "++1.1", "-1.1", "1.-1", "1+.1", "x.1",
    ] {
        assert!(parse_graphid(bad).is_err(), "{:?}", bad);
    }
}
