use resolver_core::range::{Bound, VersionRange};
use resolver_core::version::{PreKind, Version};

fn v(release: &[u64]) -> Version {
    Version::new(release.to_vec())
}

#[test]
fn version_text_spells_every_part() {
    assert_eq!(v(&[2, 0, 0]).to_string(), "2.0.0");
    let full = Version {
        epoch: 1,
        release: vec![1, 10],
        pre: Some((PreKind::Rc, 2)),
        post: Some(3),
        dev: Some(4),
    };
    assert_eq!(full.to_string(), "1!1.10rc2.post3.dev4");
    let alpha = Version { epoch: 0, release: vec![0], pre: Some((PreKind::Alpha, 0)), post: None, dev: None };
    assert_eq!(alpha.to_string(), "0a0");
    assert_eq!(v(&[18446744073709551615]).to_string(), "18446744073709551615");
}

#[test]
fn versions_order_by_release_with_missing_places_as_zero() {
    assert!(v(&[1, 9]).lt(&v(&[1, 10])));
    assert!(!v(&[1, 10]).lt(&v(&[1, 9])));
    assert!(!v(&[1, 0]).lt(&v(&[1])));
    assert!(!v(&[1]).lt(&v(&[1, 0])));
    assert!(v(&[1]).lt(&v(&[1, 0, 1])));
    assert!(!v(&[2]).lt(&v(&[2])));
    let later_epoch = Version { epoch: 1, release: vec![0], pre: None, post: None, dev: None };
    assert!(v(&[99]).lt(&later_epoch));
}

#[test]
fn versions_of_one_release_order_by_stage() {
    let with = |pre: Option<(PreKind, u64)>, post: Option<u64>, dev: Option<u64>| Version {
        epoch: 0,
        release: vec![1, 0],
        pre,
        post,
        dev,
    };
    let chain = vec![
        with(None, None, Some(456)),
        with(Some((PreKind::Alpha, 1)), None, None),
        with(Some((PreKind::Alpha, 2)), None, Some(456)),
        with(Some((PreKind::Alpha, 12)), None, Some(456)),
        with(Some((PreKind::Alpha, 12)), None, None),
        with(Some((PreKind::Beta, 1)), None, Some(456)),
        with(Some((PreKind::Beta, 2)), None, None),
        with(Some((PreKind::Beta, 2)), Some(345), Some(456)),
        with(Some((PreKind::Beta, 2)), Some(345), None),
        with(Some((PreKind::Rc, 1)), None, Some(456)),
        with(Some((PreKind::Rc, 1)), None, None),
        with(None, None, None),
        with(None, Some(456), Some(34)),
        with(None, Some(456), None),
    ];
    for i in 0..chain.len() {
        for j in 0..chain.len() {
            assert_eq!(chain[i].lt(&chain[j]), i < j, "{} < {}", chain[i].to_string(), chain[j].to_string());
        }
    }
}

#[test]
fn same_compares_every_field() {
    assert!(v(&[1, 2]).same(&v(&[1, 2])));
    assert!(!v(&[1, 2]).same(&v(&[1, 2, 0])));
    let dev = Version { epoch: 0, release: vec![1, 2], pre: None, post: None, dev: Some(1) };
    assert!(!v(&[1, 2]).same(&dev));
    assert!(dev.clone().same(&dev));
}

#[test]
fn range_between_holds_lower_and_leaves_upper() {
    let r = VersionRange::between(v(&[2]), v(&[3]));
    assert!(r.contains(&v(&[2])));
    assert!(r.contains(&v(&[2, 0, 0])));
    assert!(r.contains(&v(&[2, 9, 9])));
    assert!(!r.contains(&v(&[3])));
    assert!(!r.contains(&v(&[1, 9])));
}

#[test]
fn range_constructors() {
    assert!(VersionRange::full().contains(&v(&[0])));
    assert!(!VersionRange::empty().contains(&v(&[0])));
    assert!(VersionRange::singleton(v(&[1, 0])).contains(&v(&[1])));
    assert!(!VersionRange::singleton(v(&[1, 0])).contains(&v(&[1, 1])));
    assert!(VersionRange::higher_than(v(&[10])).contains(&v(&[10])));
    assert!(!VersionRange::higher_than(v(&[10])).contains(&v(&[9, 9])));
    assert!(VersionRange::strictly_lower_than(v(&[2])).contains(&v(&[1, 26])));
    assert!(!VersionRange::strictly_lower_than(v(&[2])).contains(&v(&[2])));
}

#[test]
fn range_is_the_union_of_its_intervals() {
    let mut r = VersionRange::strictly_lower_than(v(&[1]));
    r.segments.extend(VersionRange::from_bounds(Bound::Excluded(v(&[2])), Bound::Included(v(&[3]))).segments);
    assert!(r.contains(&v(&[0, 5])));
    assert!(!r.contains(&v(&[1])));
    assert!(!r.contains(&v(&[2])));
    assert!(r.contains(&v(&[2, 1])));
    assert!(r.contains(&v(&[3])));
    assert!(!r.contains(&v(&[3, 1])));
    assert!(r.clone().contains(&v(&[3])));
}

#[test]
fn a_version_without_release_numbers_counts_as_zero() {
    let none = v(&[]);
    assert_eq!(none.to_string(), "0");
    assert!(!none.lt(&v(&[0])));
    assert!(!v(&[0]).lt(&none));
    assert!(none.lt(&v(&[0, 1])));
    assert!(VersionRange::strictly_lower_than(v(&[1])).contains(&none));
    assert!(VersionRange::higher_than(none).contains(&v(&[0, 0])));
    assert_eq!(v(&[]).with_release().release, vec![0]);
}

#[test]
fn an_interval_whose_ends_are_crossed_holds_nothing() {
    let crossed = VersionRange::between(v(&[3]), v(&[2]));
    assert!(!crossed.contains(&v(&[2])));
    assert!(!crossed.contains(&v(&[2, 5])));
    assert!(!crossed.contains(&v(&[3])));
    let point = VersionRange::between(v(&[2]), v(&[2]));
    assert!(!point.contains(&v(&[2])));
}
