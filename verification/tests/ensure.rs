use catnip_echo::ensure::{ensure_eq, ensure_neq};

#[test]
fn test_ensure() {
    assert!(ensure_eq(1, 1).is_ok());
    assert!(ensure_eq(1, 1).is_ok());
    assert!(ensure_neq(1, 2).is_ok());
    assert!(ensure_neq(1, 2).is_ok());
}

#[test]
fn ensure_reports_mismatch() {
    assert!(ensure_eq(1, 2).is_err());
    assert!(ensure_neq(3, 3).is_err());
}
