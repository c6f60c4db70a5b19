use agent_transport::version::{version_compare, version_parts};

#[test]
fn test_version_compare() {
    assert_eq!(version_compare("1.0.0", "1.0.0"), 0);
    assert_eq!(version_compare("1.0.1", "1.0.0"), 1);
    assert_eq!(version_compare("1.0.0", "1.0.1"), -1);
    assert_eq!(version_compare("2.0.0", "1.9.9"), 1);
    assert_eq!(version_compare("1.9.9", "2.0.0"), -1);
}

#[test]
fn shorter_version_is_padded_with_zeros() {
    assert_eq!(version_compare("1.2", "1.2.0"), 0);
    assert_eq!(version_compare("1.2", "1.2.1"), -1);
    assert_eq!(version_compare("1.10", "1.9"), 1);
}

#[test]
fn non_numeric_components_are_left_out() {
    assert_eq!(version_parts("1.x.3"), vec![1, 3]);
    assert_eq!(version_parts("+7..2"), vec![7, 2]);
    assert_eq!(version_parts(""), Vec::<u32>::new());
    assert_eq!(version_parts("4294967295.4294967296"), vec![4294967295]);
    assert_eq!(version_compare("1.x.3", "1.3"), 0);
    assert_eq!(version_compare("1.0-beta", "1"), 0);
}
