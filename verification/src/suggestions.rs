//! Library suggestions: the kinds of links between a series in the library and
//! a suggested one, their stored names and their display labels.

use vstd::prelude::*;
use crate::text::str_eq;

verus! {

/// How a suggestion was found.
#[derive(Debug, Clone, Copy, PartialEq, Eq, Structural)]
pub enum SuggestionSourceKind {
    Recommendation,
    Relation,
}

/// The relation between a library series and a related work.
#[derive(Debug, Clone, Copy, PartialEq, Eq, Structural)]
pub enum SuggestionRelationKind {
    Adaptation,
    Prequel,
    Sequel,
    Parent,
    SideStory,
    Character,
    Summary,
    Alternative,
    SpinOff,
    Other,
    Source,
    Compilation,
    Contains,
}

/// Stored name of a suggestion source kind.
pub open spec fn source_kind_name(k: SuggestionSourceKind) -> Seq<char> {
    match k {
        SuggestionSourceKind::Recommendation => "Recommendation"@,
        SuggestionSourceKind::Relation => "Relation"@,
    }
}

/// The name under which a suggestion source kind is stored.
pub fn source_kind_str(kind: SuggestionSourceKind) -> (s: &'static str)
    ensures
        s@ == source_kind_name(kind),
{
    match kind {
        SuggestionSourceKind::Recommendation => "Recommendation",
        SuggestionSourceKind::Relation => "Relation",
    }
}

/// Stored name of a relation kind.
pub open spec fn relation_kind_name(k: SuggestionRelationKind) -> Seq<char> {
    match k {
        SuggestionRelationKind::Adaptation => "Adaptation"@,
        SuggestionRelationKind::Prequel => "Prequel"@,
        SuggestionRelationKind::Sequel => "Sequel"@,
        SuggestionRelationKind::Parent => "Parent"@,
        SuggestionRelationKind::SideStory => "SideStory"@,
        SuggestionRelationKind::Character => "Character"@,
        SuggestionRelationKind::Summary => "Summary"@,
        SuggestionRelationKind::Alternative => "Alternative"@,
        SuggestionRelationKind::SpinOff => "SpinOff"@,
        SuggestionRelationKind::Other => "Other"@,
        SuggestionRelationKind::Source => "Source"@,
        SuggestionRelationKind::Compilation => "Compilation"@,
        SuggestionRelationKind::Contains => "Contains"@,
    }
}

/// The name under which a relation kind is stored.
pub fn relation_kind_str(kind: SuggestionRelationKind) -> (s: &'static str)
    ensures
        s@ == relation_kind_name(kind),
{
    match kind {
        SuggestionRelationKind::Adaptation => "Adaptation",
        SuggestionRelationKind::Prequel => "Prequel",
        SuggestionRelationKind::Sequel => "Sequel",
        SuggestionRelationKind::Parent => "Parent",
        SuggestionRelationKind::SideStory => "SideStory",
        SuggestionRelationKind::Character => "Character",
        SuggestionRelationKind::Summary => "Summary",
        SuggestionRelationKind::Alternative => "Alternative",
        SuggestionRelationKind::SpinOff => "SpinOff",
        SuggestionRelationKind::Other => "Other",
        SuggestionRelationKind::Source => "Source",
        SuggestionRelationKind::Compilation => "Compilation",
        SuggestionRelationKind::Contains => "Contains",
    }
}

/// The relation kind a stored name stands for.
pub open spec fn parse_relation_kind_spec(value: Option<Seq<char>>) -> Option<SuggestionRelationKind> {
    match value {
        None => None,
        Some(s) => if s == "Adaptation"@ {
            Some(SuggestionRelationKind::Adaptation)
        } else if s == "Prequel"@ {
            Some(SuggestionRelationKind::Prequel)
        } else if s == "Sequel"@ {
            Some(SuggestionRelationKind::Sequel)
        } else if s == "Parent"@ {
            Some(SuggestionRelationKind::Parent)
        } else if s == "SideStory"@ {
            Some(SuggestionRelationKind::SideStory)
        } else if s == "Character"@ {
            Some(SuggestionRelationKind::Character)
        } else if s == "Summary"@ {
            Some(SuggestionRelationKind::Summary)
        } else if s == "Alternative"@ {
            Some(SuggestionRelationKind::Alternative)
        } else if s == "SpinOff"@ {
            Some(SuggestionRelationKind::SpinOff)
        } else if s == "Other"@ {
            Some(SuggestionRelationKind::Other)
        } else if s == "Source"@ {
            Some(SuggestionRelationKind::Source)
        } else if s == "Compilation"@ {
            Some(SuggestionRelationKind::Compilation)
        } else if s == "Contains"@ {
            Some(SuggestionRelationKind::Contains)
        } else {
            None
        },
    }
}

/// Reads a stored relation kind; `None` when absent or unknown.
pub fn parse_relation_kind(value: Option<String>) -> (r: Option<SuggestionRelationKind>)
    ensures
        r == parse_relation_kind_spec(match value { Some(s) => Some(s@), None => None }),
{
    match value {
        None => None,
        Some(v) => {
            let s = v.as_str();
            if str_eq(s, "Adaptation") {
                Some(SuggestionRelationKind::Adaptation)
            } else if str_eq(s, "Prequel") {
                Some(SuggestionRelationKind::Prequel)
            } else if str_eq(s, "Sequel") {
                Some(SuggestionRelationKind::Sequel)
            } else if str_eq(s, "Parent") {
                Some(SuggestionRelationKind::Parent)
            } else if str_eq(s, "SideStory") {
                Some(SuggestionRelationKind::SideStory)
            } else if str_eq(s, "Character") {
                Some(SuggestionRelationKind::Character)
            } else if str_eq(s, "Summary") {
                Some(SuggestionRelationKind::Summary)
            } else if str_eq(s, "Alternative") {
                Some(SuggestionRelationKind::Alternative)
            } else if str_eq(s, "SpinOff") {
                Some(SuggestionRelationKind::SpinOff)
            } else if str_eq(s, "Other") {
                Some(SuggestionRelationKind::Other)
            } else if str_eq(s, "Source") {
                Some(SuggestionRelationKind::Source)
            } else if str_eq(s, "Compilation") {
                Some(SuggestionRelationKind::Compilation)
            } else if str_eq(s, "Contains") {
                Some(SuggestionRelationKind::Contains)
            } else {
                None
            }
        },
    }
}

/// Every relation kind reads back from its stored name.
pub proof fn law_relation_kind_round_trip(k: SuggestionRelationKind)
    ensures
        parse_relation_kind_spec(Some(relation_kind_name(k))) == Some(k),
{
    reveal_strlit("Adaptation");
    reveal_strlit("Prequel");
    reveal_strlit("Sequel");
    reveal_strlit("Parent");
    reveal_strlit("SideStory");
    reveal_strlit("Character");
    reveal_strlit("Summary");
    reveal_strlit("Alternative");
    reveal_strlit("SpinOff");
    reveal_strlit("Other");
    reveal_strlit("Source");
    reveal_strlit("Compilation");
    reveal_strlit("Contains");
    match k {
        SuggestionRelationKind::Adaptation => {
        },
        SuggestionRelationKind::Prequel => {
            assert("Prequel"@.len() != "Adaptation"@.len());
        },
        SuggestionRelationKind::Sequel => {
            assert("Sequel"@.len() != "Adaptation"@.len());
            assert("Sequel"@.len() != "Prequel"@.len());
        },
        SuggestionRelationKind::Parent => {
            assert("Parent"@.len() != "Adaptation"@.len());
            assert("Parent"@.len() != "Prequel"@.len());
            assert("Parent"@[0] != "Sequel"@[0]);
        },
        SuggestionRelationKind::SideStory => {
            assert("SideStory"@.len() != "Adaptation"@.len());
            assert("SideStory"@.len() != "Prequel"@.len());
            assert("SideStory"@.len() != "Sequel"@.len());
            assert("SideStory"@.len() != "Parent"@.len());
        },
        SuggestionRelationKind::Character => {
            assert("Character"@.len() != "Adaptation"@.len());
            assert("Character"@.len() != "Prequel"@.len());
            assert("Character"@.len() != "Sequel"@.len());
            assert("Character"@.len() != "Parent"@.len());
            assert("Character"@[0] != "SideStory"@[0]);
        },
        SuggestionRelationKind::Summary => {
            assert("Summary"@.len() != "Adaptation"@.len());
            assert("Summary"@[0] != "Prequel"@[0]);
            assert("Summary"@.len() != "Sequel"@.len());
            assert("Summary"@.len() != "Parent"@.len());
            assert("Summary"@.len() != "SideStory"@.len());
            assert("Summary"@.len() != "Character"@.len());
        },
        SuggestionRelationKind::Alternative => {
            assert("Alternative"@.len() != "Adaptation"@.len());
            assert("Alternative"@.len() != "Prequel"@.len());
            assert("Alternative"@.len() != "Sequel"@.len());
            assert("Alternative"@.len() != "Parent"@.len());
            assert("Alternative"@.len() != "SideStory"@.len());
            assert("Alternative"@.len() != "Character"@.len());
            assert("Alternative"@.len() != "Summary"@.len());
        },
        SuggestionRelationKind::SpinOff => {
            assert("SpinOff"@.len() != "Adaptation"@.len());
            assert("SpinOff"@[0] != "Prequel"@[0]);
            assert("SpinOff"@.len() != "Sequel"@.len());
            assert("SpinOff"@.len() != "Parent"@.len());
            assert("SpinOff"@.len() != "SideStory"@.len());
            assert("SpinOff"@.len() != "Character"@.len());
            assert("SpinOff"@[1] != "Summary"@[1]);
            assert("SpinOff"@.len() != "Alternative"@.len());
        },
        SuggestionRelationKind::Other => {
            assert("Other"@.len() != "Adaptation"@.len());
            assert("Other"@.len() != "Prequel"@.len());
            assert("Other"@.len() != "Sequel"@.len());
            assert("Other"@.len() != "Parent"@.len());
            assert("Other"@.len() != "SideStory"@.len());
            assert("Other"@.len() != "Character"@.len());
            assert("Other"@.len() != "Summary"@.len());
            assert("Other"@.len() != "Alternative"@.len());
            assert("Other"@.len() != "SpinOff"@.len());
        },
        SuggestionRelationKind::Source => {
            assert("Source"@.len() != "Adaptation"@.len());
            assert("Source"@.len() != "Prequel"@.len());
            assert("Source"@[1] != "Sequel"@[1]);
            assert("Source"@[0] != "Parent"@[0]);
            assert("Source"@.len() != "SideStory"@.len());
            assert("Source"@.len() != "Character"@.len());
            assert("Source"@.len() != "Summary"@.len());
            assert("Source"@.len() != "Alternative"@.len());
            assert("Source"@.len() != "SpinOff"@.len());
            assert("Source"@.len() != "Other"@.len());
        },
        SuggestionRelationKind::Compilation => {
            assert("Compilation"@.len() != "Adaptation"@.len());
            assert("Compilation"@.len() != "Prequel"@.len());
            assert("Compilation"@.len() != "Sequel"@.len());
            assert("Compilation"@.len() != "Parent"@.len());
            assert("Compilation"@.len() != "SideStory"@.len());
            assert("Compilation"@.len() != "Character"@.len());
            assert("Compilation"@.len() != "Summary"@.len());
            assert("Compilation"@[0] != "Alternative"@[0]);
            assert("Compilation"@.len() != "SpinOff"@.len());
            assert("Compilation"@.len() != "Other"@.len());
            assert("Compilation"@.len() != "Source"@.len());
        },
        SuggestionRelationKind::Contains => {
            assert("Contains"@.len() != "Adaptation"@.len());
            assert("Contains"@.len() != "Prequel"@.len());
            assert("Contains"@.len() != "Sequel"@.len());
            assert("Contains"@.len() != "Parent"@.len());
            assert("Contains"@.len() != "SideStory"@.len());
            assert("Contains"@.len() != "Character"@.len());
            assert("Contains"@.len() != "Summary"@.len());
            assert("Contains"@.len() != "Alternative"@.len());
            assert("Contains"@.len() != "SpinOff"@.len());
            assert("Contains"@.len() != "Other"@.len());
            assert("Contains"@.len() != "Source"@.len());
            assert("Contains"@.len() != "Compilation"@.len());
        },
    }
}

/// Label shown for a relation in suggestion context lines.
pub open spec fn relation_label_spec(k: SuggestionRelationKind) -> Seq<char> {
    match k {
        SuggestionRelationKind::Adaptation => "Adaptation"@,
        SuggestionRelationKind::Prequel => "Prequel"@,
        SuggestionRelationKind::Sequel => "Sequel"@,
        SuggestionRelationKind::Parent => "Parent story"@,
        SuggestionRelationKind::SideStory => "Side story"@,
        SuggestionRelationKind::Character => "Character link"@,
        SuggestionRelationKind::Summary => "Summary"@,
        SuggestionRelationKind::Alternative => "Alternative version"@,
        SuggestionRelationKind::SpinOff => "Spin-off"@,
        SuggestionRelationKind::Other => "Related work"@,
        SuggestionRelationKind::Source => "Source material"@,
        SuggestionRelationKind::Compilation => "Compilation"@,
        SuggestionRelationKind::Contains => "Contains"@,
    }
}

/// The human-readable label of a relation kind.
pub fn relation_label(kind: SuggestionRelationKind) -> (s: &'static str)
    ensures
        s@ == relation_label_spec(kind),
{
    match kind {
        SuggestionRelationKind::Adaptation => "Adaptation",
        SuggestionRelationKind::Prequel => "Prequel",
        SuggestionRelationKind::Sequel => "Sequel",
        SuggestionRelationKind::Parent => "Parent story",
        SuggestionRelationKind::SideStory => "Side story",
        SuggestionRelationKind::Character => "Character link",
        SuggestionRelationKind::Summary => "Summary",
        SuggestionRelationKind::Alternative => "Alternative version",
        SuggestionRelationKind::SpinOff => "Spin-off",
        SuggestionRelationKind::Other => "Related work",
        SuggestionRelationKind::Source => "Source material",
        SuggestionRelationKind::Compilation => "Compilation",
        SuggestionRelationKind::Contains => "Contains",
    }
}

} // verus!
