use std::cmp::Ordering;
use term_rustdoc::key::{Features, PkgKey, Version};

fn key(name: &str, major: u64, minor: u64, patch: u64, features: Features) -> PkgKey {
    PkgKey::new(name.to_string(), Version::new(major, minor, patch), features)
}

#[test]
fn key_equality_is_an_equivalence_matching_the_order() {
    let a = key("demo", 1, 0, 0, Features::Default);
    let b = key("demo", 1, 0, 0, Features::Default);
    let c = key("demo", 1, 0, 0, Features::Default);
    assert!(a == a);
    assert!(a == b && b == a);
    assert!(a == b && b == c && a == c);
    assert_eq!(a.compare(&b), Ordering::Equal);
    let d = key("demo", 1, 0, 1, Features::Default);
    assert!(a != d);
    assert_eq!(a.compare(&d), Ordering::Less);
    assert_eq!(d.compare(&a), Ordering::Greater);
}

#[test]
fn keys_order_by_name_then_version_then_features() {
    let a1 = key("a", 2, 0, 0, Features::All);
    let b1 = key("b", 1, 0, 0, Features::Default);
    assert_eq!(a1.compare(&b1), Ordering::Less);
    let ab = key("ab", 0, 0, 1, Features::Default);
    let a = key("a", 9, 9, 9, Features::Default);
    assert_eq!(ab.compare(&a), Ordering::Greater);
    let v1 = key("x", 1, 2, 3, Features::Default);
    let v2 = key("x", 1, 10, 0, Features::Default);
    assert_eq!(v1.compare(&v2), Ordering::Less);
    let f1 = key("x", 1, 0, 0, Features::All);
    let f2 = key("x", 1, 0, 0, Features::DefaultPlus(vec!["derive".to_string()]));
    assert_eq!(f1.compare(&f2), Ordering::Less);
}

#[test]
fn features_order_by_variant_then_names() {
    let all = [
        Features::Default,
        Features::All,
        Features::DefaultPlus(vec!["a".to_string()]),
        Features::NoDefault,
        Features::NoDefaultPlus(vec!["a".to_string()]),
    ];
    for i in 0..all.len() {
        for j in 0..all.len() {
            assert_eq!(all[i].compare(&all[j]), i.cmp(&j));
        }
    }
    let short = Features::DefaultPlus(vec!["a".to_string()]);
    let long = Features::DefaultPlus(vec!["a".to_string(), "b".to_string()]);
    let other = Features::DefaultPlus(vec!["b".to_string()]);
    assert_eq!(short.compare(&long), Ordering::Less);
    assert_eq!(long.compare(&other), Ordering::Less);
    assert_eq!(other.compare(&other.copied()), Ordering::Equal);
}

#[test]
fn version_text_is_dotted_decimal() {
    assert_eq!(Version::new(1, 0, 0).text(), "1.0.0");
    assert_eq!(Version::new(10, 20, 3).text(), "10.20.3");
    let k = key("demo", 0, 12, 7, Features::Default);
    assert_eq!(k.ver_str(), "0.12.7");
    assert_eq!(k.name(), "demo");
    assert_eq!(k.version(), Version::new(0, 12, 7));
}

#[test]
fn default_feature_key_and_copy() {
    let k = PkgKey::new_with_default_feature("demo".to_string(), Version::new(1, 0, 0));
    assert_eq!(k.features().compare(&Features::Default), Ordering::Equal);
    let c = k.copied();
    assert!(c == k);
}

#[test]
fn non_ascii_names_order_by_their_bytes() {
    let e = key("é", 1, 0, 0, Features::Default);
    let z = key("z", 1, 0, 0, Features::Default);
    assert_eq!(z.compare(&e), Ordering::Less);
    assert_eq!("z".cmp("é"), Ordering::Less);
}
