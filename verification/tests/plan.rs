use sqldap::plan::{
    execution, same_ignoring_case, show_variable, Execution, SearchRequest, ShowTarget,
};
use sqldap::query::{QueryType, SqldapQuery};

fn query(qtype: QueryType, var: &str) -> SqldapQuery {
    SqldapQuery {
        qtype,
        identifiers: vec!["uid".to_string(), "cn".to_string(), "uid".to_string()],
        wildcard: false,
        table: "ou=people,dc=example,dc=com".to_string(),
        filter: "(uid=a)".to_string(),
        var: var.to_string(),
    }
}

fn search() -> SearchRequest {
    SearchRequest {
        base: "ou=people,dc=example,dc=com".to_string(),
        filter: "(uid=a)".to_string(),
        attributes: vec!["uid".to_string(), "cn".to_string(), "uid".to_string()],
    }
}

#[test]
fn show_variables_are_matched_without_regard_to_case() {
    assert_eq!(show_variable("TABLES"), ShowTarget::Tables);
    assert_eq!(show_variable("tables"), ShowTarget::Tables);
    assert_eq!(show_variable("TaBlEs"), ShowTarget::Tables);
    assert_eq!(show_variable("DATABASES"), ShowTarget::Databases);
    assert_eq!(show_variable("databases"), ShowTarget::Databases);
}

#[test]
fn other_show_variables_are_accepted_and_unrecognized() {
    assert_eq!(show_variable(""), ShowTarget::Unrecognized);
    assert_eq!(show_variable("TABLE"), ShowTarget::Unrecognized);
    assert_eq!(show_variable("TABLES "), ShowTarget::Unrecognized);
    assert_eq!(show_variable("COLUMNS"), ShowTarget::Unrecognized);
    assert_eq!(show_variable("T\u{c4}BLES"), ShowTarget::Unrecognized);
}

#[test]
fn case_is_ignored_for_ascii_letters_only() {
    assert!(same_ignoring_case("abcXYZ09[`{", "ABCxyz09[`{"));
    assert!(!same_ignoring_case("a", "b"));
    assert!(!same_ignoring_case("a", "aa"));
    assert!(!same_ignoring_case("@", "`"));
    assert!(!same_ignoring_case("\u{e4}", "\u{c4}"));
    assert!(same_ignoring_case("", ""));
}

#[test]
fn selection_and_update_search_below_their_table() {
    assert_eq!(execution(&query(QueryType::Select, "")), Execution::Select(search()));
    assert_eq!(execution(&query(QueryType::Update, "")), Execution::Update(search()));
}

#[test]
fn show_reports_what_its_variable_names() {
    assert_eq!(execution(&query(QueryType::Show, "Tables")), Execution::Show(ShowTarget::Tables));
    assert_eq!(
        execution(&query(QueryType::Show, "databases")),
        Execution::Show(ShowTarget::Databases)
    );
    assert_eq!(
        execution(&query(QueryType::Show, "version")),
        Execution::Show(ShowTarget::Unrecognized)
    );
}
