use delivery::acl::{RoleKind, UserRole};
use delivery::countries::{Country, CountryDirectory, CountrySearch, NewCountry};
use delivery::errors::Error;
use delivery::services;

fn new_country(label: &str, parent: Option<&str>, level: u32, alpha2: &str, alpha3: &str, numeric: u32) -> NewCountry {
    NewCountry {
        label: label.to_string(),
        parent_label: parent.map(|p| p.to_string()),
        level,
        alpha2: alpha2.to_string(),
        alpha3: alpha3.to_string(),
        numeric,
    }
}

fn create_new_countries(label: &str) -> NewCountry {
    NewCountry {
        label: label.to_string(),
        parent_label: Some("EEE".to_string()),
        level: 3,
        alpha2: "RU".to_string(),
        alpha3: "RUS".to_string(),
        numeric: 643,
    }
}

fn directory_down_to_region() -> CountryDirectory {
    let mut directory = CountryDirectory::new();
    directory.create(new_country("root", None, 0, "", "", 0)).unwrap();
    directory.create(new_country("XEU", Some("root"), 1, "XE", "XEU", 150)).unwrap();
    directory.create(new_country("EEE", Some("XEU"), 2, "EE", "EEE", 151)).unwrap();
    directory
}

fn superuser(user_id: i32) -> Vec<UserRole> {
    vec![UserRole { id: 1, user_id, name: RoleKind::Superuser, data: None }]
}

const MOCK_USER_ID: i32 = 1;

#[test]
fn test_get_countries() {
    let directory = directory_down_to_region();
    let roles = superuser(MOCK_USER_ID);
    let result = services::get_country(&roles, Some(MOCK_USER_ID), &directory, &"root".to_string());
    assert_eq!(result.unwrap().label, "root".to_string());
}

#[test]
fn test_create_countries() {
    let mut directory = directory_down_to_region();
    let roles = superuser(MOCK_USER_ID);
    let new_countries = create_new_countries("rus");
    let result = services::create_country(&roles, Some(MOCK_USER_ID), &mut directory, new_countries).unwrap();
    assert_eq!(result.label, "rus".to_string());
}

#[test]
fn root_then_rus_resolves_and_flattens_in_order() {
    let mut directory = CountryDirectory::new();
    directory.create(new_country("root", None, 0, "", "", 0)).unwrap();
    directory.create(new_country("rus", Some("root"), 1, "RU", "RUS", 643)).unwrap();
    let found = directory.resolve(&CountrySearch::Alpha3("RUS".to_string())).unwrap();
    assert_eq!(found.label, "rus");
    assert_eq!(found.alpha2, "RU");
    assert_eq!(found.numeric, 643);
    let flat: Vec<Country> = directory.flatten().unwrap();
    let labels: Vec<&str> = flat.iter().map(|c| c.label.as_str()).collect();
    assert_eq!(labels, vec!["root", "rus"]);
}

#[test]
fn resolve_by_each_key() {
    let mut directory = directory_down_to_region();
    directory.create(create_new_countries("rus")).unwrap();
    assert_eq!(directory.resolve(&CountrySearch::Label("rus".to_string())).unwrap().numeric, 643);
    assert_eq!(directory.resolve(&CountrySearch::Alpha2("RU".to_string())).unwrap().label, "rus");
    assert_eq!(directory.resolve(&CountrySearch::Alpha3("XEU".to_string())).unwrap().label, "XEU");
    assert_eq!(directory.resolve(&CountrySearch::Numeric(151)).unwrap().label, "EEE");
    assert_eq!(directory.resolve(&CountrySearch::Alpha2("ru".to_string())).unwrap().alpha2, "RU");
    assert_eq!(directory.resolve(&CountrySearch::Alpha3("xEu".to_string())).unwrap().alpha3, "XEU");
    assert!(matches!(directory.resolve(&CountrySearch::Label("RUS".to_string())), Err(Error::NotFound)));
    assert_eq!(directory.alpha3_of(&"rus".to_string()), Some("RUS".to_string()));
    assert_eq!(directory.alpha3_of(&"fra".to_string()), None);
    assert!(matches!(directory.resolve(&CountrySearch::Alpha3("FRA".to_string())), Err(Error::NotFound)));
    assert!(matches!(directory.resolve(&CountrySearch::Numeric(999)), Err(Error::NotFound)));
}

#[test]
fn create_refuses_taken_keys_missing_parent_and_wrong_level() {
    let mut directory = directory_down_to_region();
    assert!(matches!(directory.create(new_country("EEE", Some("root"), 1, "ZZ", "ZZZ", 9)), Err(Error::Validate)));
    assert!(matches!(directory.create(new_country("new", Some("root"), 1, "EE", "ZZZ", 9)), Err(Error::Validate)));
    assert!(matches!(directory.create(new_country("new", Some("root"), 1, "ZZ", "EEE", 9)), Err(Error::Validate)));
    assert!(matches!(directory.create(new_country("new", Some("root"), 1, "ZZ", "ZZZ", 151)), Err(Error::Validate)));
    assert!(matches!(directory.create(new_country("new", Some("nowhere"), 1, "ZZ", "ZZZ", 9)), Err(Error::NotFound)));
    assert!(matches!(directory.create(new_country("new", Some("EEE"), 2, "ZZ", "ZZZ", 9)), Err(Error::Validate)));
    assert!(matches!(directory.create(new_country("new", None, 1, "ZZ", "ZZZ", 9)), Err(Error::Validate)));
    assert!(matches!(directory.create(new_country("new", None, 0, "ZZ", "ZZZ", 9)), Err(Error::Validate)));
    assert!(matches!(directory.create(new_country("new", Some("root"), 1, "ee", "ZZZ", 9)), Err(Error::Validate)));
    assert!(matches!(directory.create(new_country("new", Some("root"), 1, "ZZ", "eEe", 9)), Err(Error::Validate)));
    assert_eq!(directory.len(), 3);
    assert!(directory.create(new_country("new", Some("EEE"), 3, "ZZ", "ZZZ", 9)).is_ok());
    assert_eq!(directory.len(), 4);
}

#[test]
fn parent_chain_reaches_root_in_level_hops() {
    let mut directory = directory_down_to_region();
    directory.create(create_new_countries("rus")).unwrap();
    let mut current = directory.find(&"rus".to_string()).unwrap();
    let level = current.level;
    let mut hops = 0;
    while let Some(parent) = current.parent_label.clone() {
        current = directory.find(&parent).unwrap();
        hops += 1;
    }
    assert_eq!(hops, level);
    assert_eq!(hops, 3);
    assert_eq!(current.label, "root");
    assert_eq!(current.level, 0);
}

#[test]
fn tree_groups_children_by_parent_and_flatten_is_pre_order() {
    let mut directory = CountryDirectory::new();
    directory.create(new_country("All", None, 0, "", "", 0)).unwrap();
    directory.create(new_country("Europe", Some("All"), 1, "XE", "XEU", 150)).unwrap();
    directory.create(new_country("Asia", Some("All"), 1, "XA", "XAS", 142)).unwrap();
    directory.create(new_country("fra", Some("Europe"), 2, "FR", "FRA", 250)).unwrap();
    directory.create(new_country("jpn", Some("Asia"), 2, "JP", "JPN", 392)).unwrap();
    directory.create(new_country("deu", Some("Europe"), 2, "DE", "DEU", 276)).unwrap();
    let tree = directory.tree().unwrap();
    assert_eq!(tree.len(), 6);
    assert_eq!(tree.root_index(), 0);
    assert_eq!(tree.node(0).unwrap().label, "All");
    assert_eq!(tree.children_at(0), vec![1, 2]);
    assert_eq!(tree.children_at(1), vec![3, 5]);
    assert_eq!(tree.children_at(2), vec![4]);
    assert_eq!(tree.children_at(3), Vec::<usize>::new());
    assert_eq!(tree.children_at(17), Vec::<usize>::new());
    assert!(tree.node(6).is_none());
    let flat = directory.flatten().unwrap();
    let labels: Vec<&str> = flat.iter().map(|c| c.label.as_str()).collect();
    assert_eq!(labels, vec!["All", "Europe", "fra", "deu", "Asia", "jpn"]);
}

#[test]
fn tree_of_an_empty_directory_is_not_found() {
    let directory = CountryDirectory::new();
    assert!(matches!(directory.tree(), Err(Error::NotFound)));
    assert!(matches!(directory.flatten(), Err(Error::NotFound)));
    assert!(directory.get(0).is_none());
}

#[test]
fn an_absent_label_is_not_found() {
    let directory = directory_down_to_region();
    let roles = superuser(MOCK_USER_ID);
    let absent = services::get_country(&roles, Some(MOCK_USER_ID), &directory, &"nowhere".to_string());
    assert!(matches!(absent, Err(Error::NotFound)));
    let denied = services::get_country(&Vec::new(), Some(5), &directory, &"root".to_string());
    assert!(matches!(denied, Err(Error::Forbidden(_))));
}

#[test]
fn codes_are_one_code_in_any_case() {
    let same = |a: &str, b: &str| delivery::text::same_code(&a.to_string(), &b.to_string());
    assert!(same("rus", "RUS"));
    assert!(same("rUs", "RuS"));
    assert!(same("", ""));
    assert!(!same("rus", "ru"));
    assert!(!same("rus", "rut"));
    assert!(!same("RU1", "RU2"));
    assert!(delivery::text::same_letter('a', 'A'));
    assert!(delivery::text::same_letter('z', 'Z'));
    assert!(!delivery::text::same_letter('a', 'b'));
    assert!(!delivery::text::same_letter('@', '`'));
    assert!(!delivery::text::same_letter('[', '{'));
}

#[test]
fn flatten_lists_every_country_once() {
    let mut directory = directory_down_to_region();
    directory.create(create_new_countries("rus")).unwrap();
    directory.create(new_country("fra", Some("XEU"), 2, "FR", "FRA", 250)).unwrap();
    let flat = directory.flatten().unwrap();
    assert_eq!(flat.len(), directory.len());
    let mut labels: Vec<&str> = flat.iter().map(|c| c.label.as_str()).collect();
    assert_eq!(labels, vec!["root", "XEU", "EEE", "rus", "fra"]);
    labels.sort();
    labels.dedup();
    assert_eq!(labels.len(), 5);
}

#[test]
fn new_countries_with_malformed_codes_are_refused() {
    use_validate(new_country("x", Some("root"), 1, "RU", "RUS", 1), true);
    use_validate(new_country("x", Some("root"), 1, "ru", "rus", 1), true);
    use_validate(new_country("x", None, 0, "", "", 0), true);
    use_validate(new_country("x", Some("root"), 1, "R", "RUS", 1), false);
    use_validate(new_country("x", Some("root"), 1, "RU", "RU", 1), false);
    use_validate(new_country("x", Some("root"), 1, "R1", "RUS", 1), false);
    use_validate(new_country("x", Some("root"), 1, "RU", "RUSS", 1), false);
    use_validate(new_country("x", Some("root"), 1, "RU", "R-S", 1), false);
}

fn use_validate(new: NewCountry, valid: bool) {
    let answer = delivery::countries::validate_new_country(&new);
    if valid {
        assert_eq!(answer, Ok(()));
    } else {
        assert_eq!(answer, Err(Error::Validate));
    }
    assert_eq!(delivery::text::has_letters(&new.alpha3, 3), new.alpha3.len() == 3 && new.alpha3.chars().all(|c| c.is_ascii_alphabetic()));
}
