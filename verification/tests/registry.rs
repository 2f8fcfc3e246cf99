use game_case::schema::{
    kind_of, ElementKind, GCEbmlSpec, ID_GAME_CASE, ID_INDEX_POSITION, ID_ROM_DATA, ID_TITLE,
};

#[test]
fn known_identifiers_carry_their_registered_kind() {
    assert_eq!(kind_of(ID_GAME_CASE), Some(ElementKind::Master));
    assert_eq!(kind_of(ID_TITLE), Some(ElementKind::Text));
    assert_eq!(kind_of(ID_ROM_DATA), Some(ElementKind::Binary));
    assert_eq!(kind_of(ID_INDEX_POSITION), Some(ElementKind::UInt));
}

#[test]
fn unknown_identifiers_are_legal_and_answer_none() {
    assert_eq!(kind_of(0x7E10), None);
    assert_eq!(kind_of(0), None);
}

#[test]
fn registry_lookup_finds_each_element_under_its_own_identifier() {
    let e = GCEbmlSpec::GameCase;
    assert_eq!(e.id(), ID_GAME_CASE);
    assert_eq!(e.kind(), ElementKind::Master);
    assert_eq!(e.name(), "GameCase");
    assert_eq!(GCEbmlSpec::lookup(ID_GAME_CASE), Some(GCEbmlSpec::GameCase));
    assert_eq!(GCEbmlSpec::lookup(0x12345), None);
    assert_eq!(GCEbmlSpec::lookup(game_case::schema::ID_SHA512), Some(GCEbmlSpec::SHA512));
    assert_eq!(GCEbmlSpec::SHA512.kind(), ElementKind::Binary);
}
