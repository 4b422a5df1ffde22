use sqldap::config::{resolve_server, set_alias, ConfigError, Property, Section};
use sqldap::query::Alias;
use sqldap::script::Macro;

fn section(name: &str, properties: &[(&str, &str)]) -> Section {
    Section {
        name: name.to_string(),
        properties: properties
            .iter()
            .map(|(k, v)| Property { key: k.to_string(), value: v.to_string() })
            .collect(),
    }
}

fn alias(name: &str, location: &str) -> Alias {
    Alias { name: name.to_string(), location: location.to_string() }
}

fn sample() -> Vec<Section> {
    vec![
        section("", &[("connection", "ldap://general")]),
        section(
            "dirserver1",
            &[
                ("connection", "ldap://ldap.example.com:389"),
                ("binddn", "uid=admin,ou=Admins,dc=example,dc=com"),
                ("bindpassword", "hunter2"),
            ],
        ),
        section(
            "dirserver1.tables",
            &[
                ("people", "ou=people,dc=example,dc=com"),
                ("group", "ou=Group,dc=example,dc=com"),
                ("people", "ou=staff,dc=example,dc=com"),
            ],
        ),
        section("dirserver2", &[("connection", "ldap://ad.example.com:389")]),
        section("dirserver1.queries", &[("locked", "SELECT uid FROM @people"), ("all", "SHOW TABLES")]),
        section("dirserver2.tables", &[("people", "cn=users,dc=ad")]),
    ]
}

#[test]
fn first_named_server_is_taken_where_none_is_asked_for() {
    let server = resolve_server(&sample(), "").unwrap();
    assert_eq!(server.name, "dirserver1");
    assert_eq!(server.connection, "ldap://ldap.example.com:389");
    assert_eq!(server.binddn, Some("uid=admin,ou=Admins,dc=example,dc=com".to_string()));
    assert_eq!(server.bindpassword, Some("hunter2".to_string()));
    assert_eq!(
        server.tables,
        vec![
            alias("people", "ou=staff,dc=example,dc=com"),
            alias("group", "ou=Group,dc=example,dc=com"),
        ]
    );
    assert_eq!(
        server.queries,
        vec![
            Macro { name: "locked".to_string(), text: "SELECT uid FROM @people".to_string() },
            Macro { name: "all".to_string(), text: "SHOW TABLES".to_string() },
        ]
    );
}

#[test]
fn requested_server_is_taken() {
    let server = resolve_server(&sample(), "dirserver2").unwrap();
    assert_eq!(server.name, "dirserver2");
    assert_eq!(server.connection, "ldap://ad.example.com:389");
    assert_eq!(server.binddn, None);
    assert_eq!(server.bindpassword, None);
    assert_eq!(server.tables, vec![alias("people", "cn=users,dc=ad")]);
    assert!(server.queries.is_empty());
}

#[test]
fn missing_connection_names_the_server() {
    assert_eq!(
        resolve_server(&sample(), "nowhere"),
        Err(ConfigError::MissingConnection("nowhere".to_string()))
    );
    assert_eq!(
        resolve_server(&sample(), "dirserver1.tables"),
        Err(ConfigError::MissingConnection("dirserver1.tables".to_string()))
    );
    assert_eq!(resolve_server(&vec![], ""), Err(ConfigError::MissingConnection("".to_string())));
    let unnamed = vec![section("", &[("connection", "ldap://general")])];
    assert_eq!(resolve_server(&unnamed, ""), Err(ConfigError::MissingConnection("".to_string())));
}

#[test]
fn last_value_of_a_key_wins() {
    let sections = vec![
        section("s", &[("connection", "one"), ("connection", "two")]),
        section("s", &[("binddn", "cn=x")]),
        section("s", &[("connection", "three")]),
    ];
    let server = resolve_server(&sections, "").unwrap();
    assert_eq!(server.connection, "three");
    assert_eq!(server.binddn, Some("cn=x".to_string()));
}

#[test]
fn alias_takes_the_place_of_one_of_the_same_name() {
    let mut list = vec![alias("a", "1"), alias("b", "2")];
    set_alias(&mut list, &"a".to_string(), &"3".to_string());
    assert_eq!(list, vec![alias("a", "3"), alias("b", "2")]);
    set_alias(&mut list, &"c".to_string(), &"4".to_string());
    assert_eq!(list, vec![alias("a", "3"), alias("b", "2"), alias("c", "4")]);
    let mut empty: Vec<Alias> = vec![];
    set_alias(&mut empty, &"x".to_string(), &"y".to_string());
    assert_eq!(empty, vec![alias("x", "y")]);
}

#[test]
fn missing_connection_is_explained() {
    let error = resolve_server(&sample(), "nowhere").unwrap_err();
    assert_eq!(error.message(), "Key 'connection' in section nowhere could not be found.");
}
