use rebarr::suggestions::{relation_label, relation_kind_str, parse_relation_kind, source_kind_str, SuggestionRelationKind, SuggestionSourceKind};

#[test]
fn relation_labels_are_collection_friendly() {
    assert_eq!(relation_label(SuggestionRelationKind::Sequel), "Sequel");
    assert_eq!(relation_label(SuggestionRelationKind::SideStory), "Side story");
}

#[test]
fn relation_labels_of_every_kind() {
    assert_eq!(relation_label(SuggestionRelationKind::Parent), "Parent story");
    assert_eq!(relation_label(SuggestionRelationKind::Character), "Character link");
    assert_eq!(relation_label(SuggestionRelationKind::Alternative), "Alternative version");
    assert_eq!(relation_label(SuggestionRelationKind::SpinOff), "Spin-off");
    assert_eq!(relation_label(SuggestionRelationKind::Other), "Related work");
    assert_eq!(relation_label(SuggestionRelationKind::Source), "Source material");
    assert_eq!(relation_label(SuggestionRelationKind::Adaptation), "Adaptation");
    assert_eq!(relation_label(SuggestionRelationKind::Contains), "Contains");
}

#[test]
fn relation_kind_names_round_trip() {
    let kinds = [
        SuggestionRelationKind::Adaptation,
        SuggestionRelationKind::Prequel,
        SuggestionRelationKind::Sequel,
        SuggestionRelationKind::Parent,
        SuggestionRelationKind::SideStory,
        SuggestionRelationKind::Character,
        SuggestionRelationKind::Summary,
        SuggestionRelationKind::Alternative,
        SuggestionRelationKind::SpinOff,
        SuggestionRelationKind::Other,
        SuggestionRelationKind::Source,
        SuggestionRelationKind::Compilation,
        SuggestionRelationKind::Contains,
    ];
    for k in kinds {
        let name = relation_kind_str(k).to_string();
        assert_eq!(parse_relation_kind(Some(name)), Some(k));
    }
    assert_eq!(relation_kind_str(SuggestionRelationKind::SideStory), "SideStory");
    assert_eq!(parse_relation_kind(Some("Sideways".to_string())), None);
    assert_eq!(parse_relation_kind(None), None);
}

#[test]
fn source_kind_names() {
    assert_eq!(source_kind_str(SuggestionSourceKind::Recommendation), "Recommendation");
    assert_eq!(source_kind_str(SuggestionSourceKind::Relation), "Relation");
}
