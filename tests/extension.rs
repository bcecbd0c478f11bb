use carcassonne::extension::{extension_group, Extension, ExtensionMajor, ExtensionState};
use std::convert::TryFrom;

#[test]
fn extension_keys() {
    assert_eq!(Extension::Ex0Garden.to_key(), (0, 'a'));
    assert_eq!(Extension::Ex5Scarecrow.to_key(), (5, 'e'));
    assert_eq!(Extension::ExCropCircle.to_key(), (11, 'g'));
}

#[test]
fn extension_from_key() {
    assert_eq!(Extension::try_from((8, 'c')), Ok(Extension::Ex8Castle));
    assert_eq!(Extension::try_from((0, 'c')), Err(()));
    assert_eq!(Extension::try_from((12, 'a')), Err(()));
    for major in [ExtensionMajor::Ex0, ExtensionMajor::Ex5, ExtensionMajor::ExSmallBox] {
        for e in extension_group(major) {
            assert_eq!(Extension::try_from(e.to_key()), Ok(e));
        }
    }
}

#[test]
fn extension_groups() {
    assert_eq!(
        extension_group(ExtensionMajor::Ex4),
        vec![Extension::Ex4Tiles, Extension::Ex4TowerThief]
    );
    assert_eq!(extension_group(ExtensionMajor::ExSmallBox).len(), 7);
}

#[test]
fn enable_and_disable_minor() {
    let mut st = ExtensionState { enabled: vec![] };
    st.enable_minor(Extension::Ex2Pig);
    st.enable_minor(Extension::Ex2Pig);
    assert!(st.is_enabled(Extension::Ex2Pig));
    assert!(!st.is_enabled(Extension::Ex2Goods));
    st.disable_minor(Extension::Ex2Pig);
    assert!(!st.is_enabled(Extension::Ex2Pig));
}

#[test]
fn enable_and_disable_major() {
    let mut st = ExtensionState { enabled: vec![Extension::Ex0River] };
    assert!(!st.is_major_fully_enabled(ExtensionMajor::Ex1));
    st.enable_major(ExtensionMajor::Ex1);
    assert!(st.is_major_fully_enabled(ExtensionMajor::Ex1));
    assert!(st.is_enabled(Extension::Ex1Cathedral));
    st.disable_major(ExtensionMajor::Ex1);
    assert!(!st.is_enabled(Extension::Ex1Tiles));
    assert!(!st.is_enabled(Extension::Ex1Inn));
    assert!(!st.is_major_fully_enabled(ExtensionMajor::Ex1));
    assert!(st.is_enabled(Extension::Ex0River));
}
