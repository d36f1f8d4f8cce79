use rebarr::errors::ApiStatus;
use rebarr::importer::check_imports_given;
use rebarr::trusted_groups::{
    add_trusted_group, list_trusted_groups, remove_trusted_group, AddTrustedGroupRequest,
    TrustedGroups,
};

fn req(name: &str) -> AddTrustedGroupRequest {
    AddTrustedGroupRequest { name: name.to_string() }
}

#[test]
fn trusted_groups_list_in_case_insensitive_order() {
    let mut g = TrustedGroups::new();
    assert_eq!(add_trusted_group(&mut g, &req("zeta")).unwrap(), 201);
    assert_eq!(add_trusted_group(&mut g, &req("  Alpha ")).unwrap(), 201);
    assert_eq!(add_trusted_group(&mut g, &req("beta")).unwrap(), 201);
    assert_eq!(add_trusted_group(&mut g, &req("Gamma")).unwrap(), 201);
    assert_eq!(list_trusted_groups(&g), vec!["Alpha", "beta", "Gamma", "zeta"]);
}

#[test]
fn trusting_a_name_twice_keeps_one() {
    let mut g = TrustedGroups::new();
    add_trusted_group(&mut g, &req("Scans")).unwrap();
    add_trusted_group(&mut g, &req("Scans ")).unwrap();
    assert_eq!(list_trusted_groups(&g), vec!["Scans"]);
}

#[test]
fn empty_trusted_group_name_is_refused() {
    let mut g = TrustedGroups::new();
    let e = add_trusted_group(&mut g, &req("   ")).unwrap_err();
    assert_eq!(e.status, ApiStatus::BadRequest);
    assert_eq!(e.body.error, "name must not be empty");
    assert!(list_trusted_groups(&g).is_empty());
}

#[test]
fn removing_a_just_added_group_restores_the_list() {
    let mut g = TrustedGroups::new();
    add_trusted_group(&mut g, &req("One")).unwrap();
    add_trusted_group(&mut g, &req("two")).unwrap();
    add_trusted_group(&mut g, &req("Three")).unwrap();
    assert_eq!(remove_trusted_group(&mut g, "Three"), 200);
    assert_eq!(list_trusted_groups(&g), vec!["One", "two"]);
    // Removing a name that is not trusted changes nothing.
    assert_eq!(remove_trusted_group(&mut g, "one"), 200);
    assert_eq!(list_trusted_groups(&g), vec!["One", "two"]);
}

#[test]
fn import_requests_must_name_something() {
    let e = check_imports_given(0).unwrap_err();
    assert_eq!(e.status, ApiStatus::BadRequest);
    assert_eq!(e.body.error, "no imports provided");
    assert!(check_imports_given(2).is_ok());
}
