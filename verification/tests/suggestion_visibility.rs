use rebarr::errors::ApiStatus;
use rebarr::ids::uuid_string;
use rebarr::libraries::SuggestionVisibilityRequest;
use rebarr::suggestion_visibility::{set_suggestion_visibility, SuggestionVisibility};

const LIB_A: u128 = 0xa;
const LIB_B: u128 = 0xb;

#[test]
fn replace_preserves_hidden_per_library_only() {
    let mut v = SuggestionVisibility::new();
    v.replace_library_suggestions(LIB_A, &[77]);
    v.replace_library_suggestions(LIB_B, &[77]);
    assert!(v.set_hidden(LIB_A, 77, true, 1000));
    v.replace_library_suggestions(LIB_A, &[77]);
    v.replace_library_suggestions(LIB_B, &[77]);
    assert!(v.is_hidden(LIB_A, 77));
    assert!(!v.is_hidden(LIB_B, 77));
}

#[test]
fn shown_again_after_unhiding() {
    let mut v = SuggestionVisibility::new();
    v.replace_library_suggestions(LIB_A, &[1, 2]);
    assert!(v.set_hidden(LIB_A, 2, true, 5));
    assert!(v.is_hidden(LIB_A, 2));
    assert!(!v.is_hidden(LIB_A, 1));
    assert!(v.set_hidden(LIB_A, 2, false, 6));
    assert!(!v.is_hidden(LIB_A, 2));
    // A suggestion the library does not have is not found.
    assert!(!v.set_hidden(LIB_A, 3, true, 7));
    // A suggestion dropped by a refresh is gone.
    v.replace_library_suggestions(LIB_A, &[1]);
    assert!(!v.set_hidden(LIB_A, 2, true, 8));
}

#[test]
fn visibility_request_errors() {
    let mut v = SuggestionVisibility::new();
    v.replace_library_suggestions(LIB_A, &[9]);
    let e = set_suggestion_visibility(&mut v, "nope", 9, &SuggestionVisibilityRequest { hidden: true }, 1).unwrap_err();
    assert_eq!(e.status, ApiStatus::BadRequest);
    assert_eq!(e.body.error, "invalid UUID");
    let id = uuid_string(LIB_A);
    let e = set_suggestion_visibility(&mut v, &id, 10, &SuggestionVisibilityRequest { hidden: true }, 1).unwrap_err();
    assert_eq!(e.status, ApiStatus::NotFound);
    assert_eq!(e.body.error, "suggestion not found");
    assert_eq!(set_suggestion_visibility(&mut v, &id, 9, &SuggestionVisibilityRequest { hidden: true }, 1).unwrap(), LIB_A);
    assert!(v.is_hidden(LIB_A, 9));
}
