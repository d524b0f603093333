use ironplc::ident::{Id, SourceLoc};
use std::collections::hash_map::DefaultHasher;
use std::hash::{Hash, Hasher};

fn hash_of(id: &Id) -> u64 {
    let mut hasher = DefaultHasher::new();
    id.hash(&mut hasher);
    hasher.finish()
}

#[test]
fn source_loc_new_has_no_end() {
    let loc = SourceLoc::new(7);
    assert_eq!(loc.start, 7);
    assert_eq!(loc.end, None);
}

#[test]
fn source_loc_range_has_end() {
    let loc = SourceLoc::range(3, 9);
    assert_eq!(loc.start, 3);
    assert_eq!(loc.end, Some(9));
}

#[test]
fn source_locs_are_all_equal() {
    assert!(SourceLoc::new(1) == SourceLoc::range(5, 20));
    assert!(SourceLoc::range(0, 0) == SourceLoc::range(100, 200));
}

#[test]
fn id_from_keeps_text_and_lowercases_key() {
    let id = Id::from("LogLevel");
    assert_eq!(id.to_string(), "LogLevel");
    assert_eq!(id.lower_case(), "loglevel");
    assert!(id.location().is_none());
}

#[test]
fn id_lowercases_beyond_ascii() {
    let id = Id::from("ÄÖÜ_Straße");
    assert_eq!(id.lower_case(), "äöü_straße");
    assert_eq!(id.to_string(), "ÄÖÜ_Straße");
}

#[test]
fn id_equality_ignores_case() {
    assert!(Id::from("CRITICAL") == Id::from("critical"));
    assert!(Id::from("Critical") == Id::from("cRITICAL"));
    assert!(Id::from("CRITICAL") != Id::from("ERROR"));
}

#[test]
fn id_equality_ignores_location() {
    let located = Id::from("Motor").with_location(SourceLoc::range(4, 9));
    assert!(located == Id::from("MOTOR"));
}

#[test]
fn id_with_location_sets_location() {
    let id = Id::from("Motor").with_location(SourceLoc::range(4, 9));
    let loc = id.location().as_ref().unwrap();
    assert_eq!(loc.start, 4);
    assert_eq!(loc.end, Some(9));
    assert_eq!(id.to_string(), "Motor");
    assert_eq!(id.lower_case(), "motor");
}

#[test]
fn id_clone_keeps_text_and_location() {
    let id = Id::from("Pump").with_location(SourceLoc::new(12));
    let copy = id.clone();
    assert_eq!(copy.to_string(), "Pump");
    assert_eq!(copy.lower_case(), "pump");
    assert_eq!(copy.location().as_ref().unwrap().start, 12);
    assert_eq!(copy.location().as_ref().unwrap().end, None);
    assert!(copy == id);
}

#[test]
fn id_clone_without_location() {
    let copy = Id::from("Pump").clone();
    assert!(copy.location().is_none());
}

#[test]
fn equal_ids_hash_alike() {
    assert_eq!(hash_of(&Id::from("Valve")), hash_of(&Id::from("VALVE")));
    let located = Id::from("valve").with_location(SourceLoc::new(3));
    assert_eq!(hash_of(&located), hash_of(&Id::from("VaLvE")));
}
