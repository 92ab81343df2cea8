use ipa_dp::keygen::{certificate_serial_number, certificate_validity, CertificateValidity};

#[test]
fn certificate_is_valid_from_a_day_before_for_ninety_one_days() {
    assert_eq!(
        certificate_validity(1_700_000_000),
        CertificateValidity { not_before: 1_700_000_000 - 86_400, not_after: 1_700_000_000 - 86_400 + 91 * 86_400 }
    );
    assert_eq!(certificate_validity(86_400), CertificateValidity { not_before: 0, not_after: 91 * 86_400 });
}

#[test]
fn serial_number_fits_in_i64() {
    for _ in 0..100 {
        assert!(certificate_serial_number() <= i64::MAX as u64);
    }
}
