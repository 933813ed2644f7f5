use wdttg::config::create_default_config;
use wdttg::model::Rate;
use wdttg::tools::{
    archive_activity, archive_client, archive_project, create_activity, create_client, list_clients,
    create_project, update_activity, update_client, update_project, ArchiveActivityParams,
    ArchiveClientParams, ArchiveProjectParams, CreateActivityParams, CreateClientParams,
    CreateProjectParams, UpdateActivityParams, UpdateClientParams, UpdateProjectParams,
};

fn rate(v: f64) -> Rate {
    Rate { bits: v.to_bits() }
}

fn new_client(id: &str) -> CreateClientParams {
    CreateClientParams {
        id: id.into(),
        name: "New Co".into(),
        color: "#123456".into(),
        rate: rate(90.0),
        currency: None,
        address: None,
        email: Some("a@b.c".into()),
        tax_id: None,
        payment_terms: None,
        notes: None,
    }
}

#[test]
fn create_client_adds_with_default_currency() {
    let mut config = create_default_config();
    let n = config.clients.len();
    assert!(create_client(&mut config, new_client("newco")).is_ok());
    assert_eq!(config.clients.len(), n + 1);
    let c = config.clients.last().unwrap();
    assert_eq!(c.id, "newco");
    assert_eq!(c.currency, "USD");
    assert_eq!(c.email.as_deref(), Some("a@b.c"));
    assert!(!c.archived);
    assert!(c.projects.is_empty());
}

#[test]
fn create_client_refuses_a_taken_id() {
    let mut config = create_default_config();
    let n = config.clients.len();
    assert_eq!(
        create_client(&mut config, new_client("personal")),
        Err("client ID 'personal' already exists".to_string())
    );
    assert_eq!(config.clients.len(), n);
}

#[test]
fn update_client_changes_only_given_fields() {
    let mut config = create_default_config();
    let before = config.clients[1].clone();
    let params = UpdateClientParams {
        id: "sample-client".into(),
        name: Some("Renamed".into()),
        color: None,
        rate: Some(rate(120.0)),
        currency: None,
        address: Some("1 Road".into()),
        email: None,
        tax_id: None,
        payment_terms: None,
        notes: None,
    };
    assert_eq!(update_client(&mut config, params), Ok(1));
    let c = &config.clients[1];
    assert_eq!(c.name, "Renamed");
    assert_eq!(c.color, before.color);
    assert_eq!(c.rate, rate(120.0));
    assert_eq!(c.address.as_deref(), Some("1 Road"));
    let missing = UpdateClientParams {
        id: "ghost".into(),
        name: None,
        color: None,
        rate: None,
        currency: None,
        address: None,
        email: None,
        tax_id: None,
        payment_terms: None,
        notes: None,
    };
    assert_eq!(update_client(&mut config, missing), Err("client 'ghost' not found".to_string()));
}

#[test]
fn archive_client_cascades_to_projects_and_activities() {
    let mut config = create_default_config();
    assert_eq!(archive_client(&mut config, ArchiveClientParams { id: "personal".into(), archived: true }), Ok(0));
    assert!(config.clients[0].archived);
    assert!(config.clients[0].projects.iter().all(|p| p.archived));
    assert!(config.clients[0].activities.iter().all(|a| a.archived));
    assert!(!config.clients[1].archived);
    assert!(config.clients[1].projects.iter().all(|p| !p.archived));
    assert_eq!(archive_client(&mut config, ArchiveClientParams { id: "personal".into(), archived: false }), Ok(0));
    assert!(!config.clients[0].archived);
    assert!(config.clients[0].projects.iter().all(|p| !p.archived));
    assert!(config.clients[0].activities.iter().all(|a| !a.archived));
    assert_eq!(
        archive_client(&mut config, ArchiveClientParams { id: "x".into(), archived: true }),
        Err("client 'x' not found".to_string())
    );
}

#[test]
fn projects_are_created_updated_and_archived() {
    let mut config = create_default_config();
    let params = CreateProjectParams {
        client_id: "personal".into(),
        id: "blog".into(),
        name: "Blog".into(),
        color: "#abcdef".into(),
        rate_override: None,
    };
    assert_eq!(create_project(&mut config, params), Ok(0));
    let last = config.clients[0].projects.last().unwrap();
    assert_eq!(last.id, "blog");
    let dup = CreateProjectParams {
        client_id: "personal".into(),
        id: "blog".into(),
        name: "Again".into(),
        color: "#abcdef".into(),
        rate_override: None,
    };
    assert_eq!(
        create_project(&mut config, dup),
        Err("project ID 'blog' already exists under client 'personal'".to_string())
    );
    let upd = UpdateProjectParams {
        client_id: "personal".into(),
        id: "blog".into(),
        name: None,
        color: Some("#000000".into()),
        rate_override: Some(rate(10.0)),
    };
    let n = config.clients[0].projects.len();
    assert_eq!(update_project(&mut config, upd), Ok((0, n - 1)));
    let p = &config.clients[0].projects[n - 1];
    assert_eq!(p.name, "Blog");
    assert_eq!(p.color, "#000000");
    assert_eq!(p.rate_override, Some(rate(10.0)));
    let arch = ArchiveProjectParams { client_id: "personal".into(), id: "blog".into(), archived: true };
    assert_eq!(archive_project(&mut config, arch), Ok((0, n - 1)));
    assert!(config.clients[0].projects[n - 1].archived);
    let missing = ArchiveProjectParams { client_id: "personal".into(), id: "nope".into(), archived: true };
    assert_eq!(archive_project(&mut config, missing), Err("project 'nope' not found".to_string()));
}

#[test]
fn activities_are_created_updated_and_archived() {
    let mut config = create_default_config();
    let params = CreateActivityParams {
        client_id: "sample-client".into(),
        id: "testing".into(),
        name: "Testing".into(),
        color: "#ff0000".into(),
    };
    assert_eq!(create_activity(&mut config, params), Ok(1));
    let dup = CreateActivityParams {
        client_id: "sample-client".into(),
        id: "design".into(),
        name: "Design".into(),
        color: "#ff0000".into(),
    };
    assert_eq!(
        create_activity(&mut config, dup),
        Err("activity ID 'design' already exists under client 'sample-client'".to_string())
    );
    let upd = UpdateActivityParams {
        client_id: "sample-client".into(),
        id: "design".into(),
        name: Some("UI Design".into()),
        color: None,
    };
    assert_eq!(update_activity(&mut config, upd), Ok((1, 1)));
    assert_eq!(config.clients[1].activities[1].name, "UI Design");
    let arch = ArchiveActivityParams { client_id: "nobody".into(), id: "design".into(), archived: true };
    assert_eq!(archive_activity(&mut config, arch), Err("client 'nobody' not found".to_string()));
    let arch = ArchiveActivityParams { client_id: "sample-client".into(), id: "design".into(), archived: true };
    assert_eq!(archive_activity(&mut config, arch), Ok((1, 1)));
    assert!(config.clients[1].activities[1].archived);
}

#[test]
fn list_clients_hides_archived_items_unless_asked() {
    let mut config = create_default_config();
    config.clients[1].archived = true;
    config.clients[0].projects[1].archived = true;
    config.clients[0].activities[0].archived = true;
    assert_eq!(list_clients(&config, false), vec![(0, vec![0], vec![1])]);
    assert_eq!(list_clients(&config, true), vec![(0, vec![0, 1], vec![0, 1]), (1, vec![0, 1], vec![0, 1, 2, 3])]);
}
