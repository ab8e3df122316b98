use log_grabber::ids::{RANDOM_VERSION_AND_VARIANT, VERSION_AND_VARIANT_BITS};
use log_grabber::OperationId;

#[test]
fn an_id_is_written_in_hyphenated_lower_case() {
    let id = OperationId(0xa1a2a3a4_b1b2_c1c2_d1d2_d3d4d5d6d7d8);
    assert_eq!(id.to_text(), "a1a2a3a4-b1b2-c1c2-d1d2-d3d4d5d6d7d8");
    assert_eq!(OperationId(0).to_text(), "00000000-0000-0000-0000-000000000000");
    assert_eq!(OperationId(u128::MAX).to_text(), "ffffffff-ffff-ffff-ffff-ffffffffffff");
    assert_eq!(
        OperationId(0x0123_4567_89ab_cdef_0123_4567_89ab_cdef).to_text(),
        "01234567-89ab-cdef-0123-456789abcdef"
    );
}

#[test]
fn the_text_of_an_id_is_that_of_the_uuid() {
    for value in [1u128, 0xdead_beef, 0x67e5504410b1426f9247bb680e5fe0c8, u128::MAX / 3] {
        assert_eq!(OperationId(value).to_text(), uuid::Uuid::from_u128(value).to_string());
    }
    assert_eq!(
        OperationId(0x67e5504410b1426f9247bb680e5fe0c8).to_text(),
        "67e55044-10b1-426f-9247-bb680e5fe0c8"
    );
}

#[test]
fn a_fresh_id_is_a_random_uuid() {
    let a = OperationId::fresh();
    let b = OperationId::fresh();
    assert_ne!(a, b);
    for id in [a, b] {
        assert_eq!(id.0 & VERSION_AND_VARIANT_BITS, RANDOM_VERSION_AND_VARIANT);
        assert_eq!(uuid::Uuid::from_u128(id.0).get_version_num(), 4);
        let text = id.to_text();
        assert_eq!(text.len(), 36);
        assert_eq!(&text[14..15], "4");
    }
}
