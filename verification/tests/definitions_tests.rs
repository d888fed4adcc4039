use thunder::definitions::is_fundamental_type;

#[test]
fn the_single_precision_number_is_the_one_fundamental_type() {
    assert!(is_fundamental_type("f32"));
    for other in ["", "f", "f3", "f64", "f322", "F32", " f32", "u32", "Vec3", "f3\u{32}\u{301}"] {
        assert!(!is_fundamental_type(other));
    }
}
