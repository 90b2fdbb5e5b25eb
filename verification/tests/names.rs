use resolver_core::name::PackageName;

#[test]
fn package_name_is_normalized() {
    let name = PackageName::new("Friendly-Bard").unwrap();
    assert_eq!(name.as_str(), "friendly-bard");
    let name = PackageName::new("FRIENDLY.._Bard").unwrap();
    assert_eq!(name.as_str(), "friendly-bard");
}

#[test]
fn package_name_rejects_edges_and_strangers() {
    assert!(PackageName::new("").is_err());
    assert!(PackageName::new("-bard").is_err());
    assert!(PackageName::new("bard-").is_err());
    assert!(PackageName::new("friendly bard").is_err());
    assert_eq!(PackageName::new("b@rd").unwrap_err().name, "b@rd");
}
