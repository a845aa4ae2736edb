use delivery::acl::{RoleKind, UserRole};
use delivery::controller::{caller_id, dispatch, Method, Operation};
use delivery::countries::{Country, CountryDirectory, NewCountry};
use delivery::errors::Error;
use delivery::routes::create_route_parser;
use delivery::services::{create_country as service_create_country, find_country, get_all_countries};

static MOCK_COUNTRY_ENDPOINT: &str = "countries";

/// The state a request is served from.
struct Service {
    roles: Vec<UserRole>,
    directory: CountryDirectory,
}

fn fixture(label: &str, parent: Option<&str>, level: u32, alpha2: &str, alpha3: &str, numeric: u32) -> NewCountry {
    NewCountry {
        label: label.to_string(),
        parent_label: parent.map(|p| p.to_string()),
        level,
        alpha2: alpha2.to_string(),
        alpha3: alpha3.to_string(),
        numeric,
    }
}

fn setup() -> Service {
    let mut directory = CountryDirectory::new();
    directory.create(fixture("All", None, 0, "XX", "XAL", 1)).unwrap();
    directory.create(fixture("Europe", Some("All"), 1, "XE", "XEU", 150)).unwrap();
    directory.create(fixture("Africa", Some("All"), 1, "XF", "XAF", 2)).unwrap();
    directory.create(fixture("Russia", Some("Europe"), 2, "RU", "RUS", 643)).unwrap();
    Service { roles: vec![UserRole { id: 1, user_id: 1, name: RoleKind::Superuser, data: None }], directory }
}

fn create_user_role(user_id: i32, service: &mut Service) -> Result<UserRole, Error> {
    let role = UserRole { id: 100 + user_id as u128, user_id, name: RoleKind::User, data: None };
    service.roles.push(role);
    Ok(role)
}

fn delete_role(user_id: i32, service: &mut Service) -> Result<Vec<UserRole>, Error> {
    let removed: Vec<UserRole> = service.roles.iter().filter(|r| r.user_id == user_id).cloned().collect();
    service.roles.retain(|r| r.user_id != user_id);
    Ok(removed)
}

/// Serves one request for a country: who calls, which operation, then the
/// operation itself.
fn request(
    service: &mut Service,
    method: Method,
    url: String,
    body: Option<NewCountry>,
    user_id: Option<String>,
) -> Result<Country, Error> {
    let caller = caller_id(user_id.as_deref());
    let route = create_route_parser().test(&url);
    match dispatch(method, route, "")? {
        Operation::CreateCountry => {
            service_create_country(&service.roles, caller, &mut service.directory, body.ok_or(Error::Parse)?)
        }
        Operation::GetAllCountries => {
            let tree = get_all_countries(&service.roles, caller, &service.directory)?;
            tree.node(tree.root_index()).ok_or(Error::NotFound)
        }
        Operation::FindCountry { search } => find_country(&service.roles, caller, &service.directory, &search),
        _ => Err(Error::NotFound),
    }
}

// super user
fn create_country(label: String, service: &mut Service, base_url: String, user_id: Option<String>) -> Result<Country, Error> {
    let new_country = NewCountry {
        label,
        level: 2,
        parent_label: Some("Africa".to_string()),
        alpha2: "GN".to_string(),
        alpha3: "GIN".to_string(),
        numeric: 0,
    };
    request(service, Method::Post, format!("{}/{}", base_url, MOCK_COUNTRY_ENDPOINT), Some(new_country), user_id)
}

// test country by superuser
#[test]
fn test_country_superuser_crud() {
    let mut service = setup();
    let base_url = String::new();
    let user_id = 1;
    let label = "Guinea7".to_string();
    let url_crud = format!("{}/{}", base_url, MOCK_COUNTRY_ENDPOINT);

    // create
    println!("run create new country for label {}", label);
    let create_result = create_country(label.clone(), &mut service, base_url.clone(), Some(user_id.to_string()));
    println!("{:?}", create_result.as_ref().map(|c| c.label.clone()));
    assert!(create_result.is_ok());

    // read
    println!("run read country for label {}", label);
    let read_result = request(&mut service, Method::Get, url_crud.clone(), None, Some(user_id.to_string()));
    println!("{:?}", read_result.as_ref().map(|c| c.label.clone()));
    assert!(read_result.is_ok());
}

// test country by regular user
#[test]
fn test_country_regular_user_crud() {
    let mut service = setup();
    let base_url = String::new();
    let label = "Guinea7".to_string();
    let url_crud = format!("{}/{}", base_url, MOCK_COUNTRY_ENDPOINT);

    // create user for test acl
    let user_id = 2;
    let create_role_result = create_user_role(user_id, &mut service);
    assert!(create_role_result.is_ok());

    // create
    println!("run create new country for label {} for regular user", label);
    let create_result = create_country(label.clone(), &mut service, base_url.clone(), Some(user_id.to_string()));
    println!("{:?}", create_result.as_ref().map(|c| c.label.clone()));
    assert!(create_result.is_err());

    // create by super user
    println!("run create new country for label {}", label);
    let create_result = create_country(label.clone(), &mut service, base_url.clone(), Some(1.to_string()));
    println!("{:?}", create_result.as_ref().map(|c| c.label.clone()));
    assert!(create_result.is_ok());

    // read
    println!("run read country for label {}", label);
    let read_result = request(&mut service, Method::Get, url_crud.clone(), None, Some(user_id.to_string()));
    println!("{:?}", read_result.as_ref().map(|c| c.label.clone()));
    assert!(read_result.is_ok());

    // delete user role
    let delete_result = delete_role(user_id, &mut service);
    assert!(delete_result.is_ok());
}

// test update country without authorization data
#[test]
fn test_country_unauthorized() {
    let mut service = setup();
    let base_url = String::new();
    let label = "Guinea7".to_string();
    let url_crud = format!("{}/{}", base_url, MOCK_COUNTRY_ENDPOINT);

    // create
    println!("run create new country for label {}", label);
    let create_result = create_country(label.clone(), &mut service, base_url.clone(), None);
    println!("{:?}", create_result.as_ref().map(|c| c.label.clone()));
    assert!(create_result.is_err());

    // create by super user
    println!("run create new country for label {}", label);
    let create_result = create_country(label.clone(), &mut service, base_url.clone(), Some(1.to_string()));
    println!("{:?}", create_result.as_ref().map(|c| c.label.clone()));
    assert!(create_result.is_ok());

    // read
    println!("run read country for label {}", label);
    let read_result = request(&mut service, Method::Get, url_crud.clone(), None, None);
    println!("{:?}", read_result.as_ref().map(|c| c.label.clone()));
    assert!(read_result.is_ok());
}

#[test]
fn test_read_alpha2_country_unauthorized() {
    let mut service = setup();
    let base_url = String::new();
    let alpha2 = "ru".to_string();
    // read
    println!("run read country by  alpha2: {:?}", alpha2);
    let read_result = request(
        &mut service,
        Method::Get,
        format!("{}/{}/alpha2/{}", base_url, MOCK_COUNTRY_ENDPOINT, alpha2),
        None,
        None,
    );
    println!("{:?}", read_result.as_ref().map(|c| c.label.clone()));
    assert!(read_result.is_ok());
}

#[test]
fn test_read_alpha3_country_unauthorized() {
    let mut service = setup();
    let base_url = String::new();
    let codes = vec!["rus".to_string(), "XEU".to_string()];

    for item in codes {
        // read
        println!("run read country by  alpha3: {:?}", item);
        let read_result = request(
            &mut service,
            Method::Get,
            format!("{}/{}/alpha3/{}", base_url, MOCK_COUNTRY_ENDPOINT, item),
            None,
            None,
        );
        println!("{:?}", read_result.as_ref().map(|c| c.label.clone()));
        assert!(read_result.is_ok());
    }
}

#[test]
fn test_read_numeric_country_unauthorized() {
    let mut service = setup();
    let base_url = String::new();
    let numeric = 643;
    // read
    println!("run read country by  numeric: {}", numeric);
    let read_result = request(
        &mut service,
        Method::Get,
        format!("{}/{}/numeric/{}", base_url, MOCK_COUNTRY_ENDPOINT, numeric),
        None,
        None,
    );
    println!("{:?}", read_result.as_ref().map(|c| c.label.clone()));
    assert!(read_result.is_ok());
}

#[test]
fn denied_requests_name_resource_and_action() {
    let mut service = setup();
    let denied = create_country("Guinea7".to_string(), &mut service, String::new(), None);
    match denied {
        Err(Error::Forbidden(f)) => {
            assert_eq!(f.resource, delivery::acl::Resource::Countries);
            assert_eq!(f.action, delivery::acl::Action::Create);
        }
        _ => panic!("not denied"),
    }
    assert_eq!(service.directory.len(), 4);
}
