use rtcp::curve::NamedCurve;

#[test]
fn test_named_curve_from_u16() {
    assert_eq!(NamedCurve::from(0x0017), NamedCurve::P256);
    assert_eq!(NamedCurve::from(0x0018), NamedCurve::P384);
    assert_eq!(NamedCurve::from(0x001d), NamedCurve::X25519);
    assert_eq!(NamedCurve::from(0x0000), NamedCurve::Unsupported);
    assert_eq!(NamedCurve::from(0x001e), NamedCurve::Unsupported);
}
