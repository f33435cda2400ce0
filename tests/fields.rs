use bitparse::fields::{field_value, unpack_fields, Field};

#[test]
fn field_bits() {
    assert_eq!(field_value(0xABCD, 4, 8), 0xBC);
    assert_eq!(field_value(0xABCD, 0, 4), 0xD);
    assert_eq!(field_value(u64::MAX, 0, 64), u64::MAX);
    assert_eq!(field_value(u64::MAX, 60, 100), 0xF);
    assert_eq!(field_value(0xFF, 3, 0), 0);
}

#[test]
fn fields_between_offsets() {
    let fields = unpack_fields(0xABCD, 16, &vec![0, 4, 12, 16]);
    assert_eq!(
        fields,
        vec![
            Field { start: 0, end: 4, value: 0xD },
            Field { start: 4, end: 12, value: 0xBC },
            Field { start: 12, end: 16, value: 0xA },
        ]
    );
    assert_eq!(unpack_fields(0xABCD, 8, &vec![0, 4, 12, 16]).len(), 2);
    assert_eq!(unpack_fields(0xABCD, 8, &vec![4]), vec![]);
    assert_eq!(unpack_fields(0xABCD, 8, &vec![]), vec![]);
}
