use sqldap::config::{Property, Section};
use sqldap::query::{Alias, Directive};
use sqldap::report::{
    banner, config_candidates, databases_report, get_config_usage, plan_report,
    tables_report, CONFIG_FILE_EXAMPLE,
};
use sqldap::text::contains;
use sqldap::update::PlanEntry;

#[allow(deprecated)]
fn drawn(rows: &[&[&str]]) -> String {
    let mut table = term_table::Table::new();
    table.style = term_table::TableStyle::simple();
    for row in rows {
        let mut cells = Vec::new();
        for text in row.iter() {
            cells.push(term_table::table_cell::TableCell::new_with_alignment(
                text,
                1,
                term_table::table_cell::Alignment::Left,
            ));
        }
        table.add_row(term_table::row::Row::new(cells));
    }
    table.render()
}

fn section(name: &str, properties: &[(&str, &str)]) -> Section {
    Section {
        name: name.to_string(),
        properties: properties
            .iter()
            .map(|(k, v)| Property { key: k.to_string(), value: v.to_string() })
            .collect(),
    }
}

#[test]
fn banner_names_the_statement() {
    assert_eq!(banner("SHOW TABLES"), "Results for query 'SHOW TABLES': \n");
    assert_eq!(banner(""), "Results for query '': \n");
}

#[test]
fn tables_are_reported_under_their_heading() {
    let tables = vec![
        Alias { name: "people".to_string(), location: "ou=people,dc=example,dc=com".to_string() },
        Alias { name: "group".to_string(), location: "ou=Group,dc=example,dc=com".to_string() },
    ];
    assert_eq!(
        tables_report(&tables),
        vec![drawn(&[
            &["Table name", "Configured dn"],
            &["people", "ou=people,dc=example,dc=com"],
            &["group", "ou=Group,dc=example,dc=com"],
        ])]
    );
}

#[test]
fn missing_tables_are_explained() {
    assert_eq!(
        tables_report(&vec![]),
        vec![
            "No tables are configured in your config file.".to_string(),
            "See example config file below.\n".to_string(),
            CONFIG_FILE_EXAMPLE.to_string(),
        ]
    );
}

#[test]
fn databases_are_the_sections_that_stand_for_servers() {
    let sections = vec![
        section("", &[("connection", "ldap://general")]),
        section("one", &[("binddn", "cn=x"), ("connection", "ldap://one"), ("connection", "ldap://1")]),
        section("one.tables", &[("connection", "ldap://never")]),
        section("one.queries.old", &[]),
        section("two", &[]),
    ];
    assert_eq!(
        databases_report(&sections),
        vec![drawn(&[
            &["Database name", "Configured server"],
            &["one", "ldap://one", "ldap://1"],
            &["two"],
        ])]
    );
    assert_eq!(databases_report(&vec![]), vec![drawn(&[&["Database name", "Configured server"]])]);
}

#[test]
fn contains_finds_a_text_anywhere() {
    assert!(contains("a.tables", ".tables"));
    assert!(contains(".tables.b", ".tables"));
    assert!(contains("x", ""));
    assert!(contains("", ""));
    assert!(!contains("a.table", ".tables"));
    assert!(!contains("", "a"));
    assert!(contains("aab", "ab"));
}

#[test]
fn plan_without_conflict_is_reported_as_update() {
    let plan = PlanEntry {
        dn: "uid=a,dc=example,dc=com".to_string(),
        directives: vec![
            Directive { attribute: "cn".to_string(), values: vec!["'x'".to_string()] },
            Directive { attribute: "sn".to_string(), values: vec!["y".to_string(), "z".to_string()] },
        ],
        conflicted: false,
        conflicts: vec![],
    };
    assert_eq!(
        plan_report(&plan),
        vec![
            "updating: uid=a,dc=example,dc=com -> [Replace(\"cn\", {\"'x'\"}), Replace(\"sn\", {\"y\", \"z\"})] "
                .to_string(),
            "---------------".to_string(),
        ]
    );
}

#[test]
fn plan_with_conflict_names_each_attribute_and_skips_the_entry() {
    let plan = PlanEntry {
        dn: "uid=a,dc=example,dc=com".to_string(),
        directives: vec![],
        conflicted: true,
        conflicts: vec!["mail".to_string(), "memberOf".to_string()],
    };
    assert_eq!(
        plan_report(&plan),
        vec![
            "ERROR: attribute mail is an array, which cannot be modified. Please use delete or add."
                .to_string(),
            "ERROR: attribute memberOf is an array, which cannot be modified. Please use delete or add."
                .to_string(),
            "uid=a,dc=example,dc=com will not be updated ".to_string(),
        ]
    );
}

#[test]
fn plan_without_directives_is_reported_with_an_empty_list() {
    let plan = PlanEntry { dn: "".to_string(), directives: vec![], conflicted: false, conflicts: vec![] };
    assert_eq!(plan_report(&plan), vec!["updating:  -> [] ".to_string(), "---------------".to_string()]);
}

#[test]
fn configuration_is_looked_for_in_working_and_home_directory() {
    assert_eq!(
        config_candidates("sqldap.ini", Some("/work"), Some("/home/ann")),
        vec!["/work/sqldap.ini".to_string(), "/home/ann/.sqldap.ini".to_string()]
    );
    assert_eq!(
        config_candidates("sqldap.ini", None, Some("/home/ann")),
        vec!["/home/ann/.sqldap.ini".to_string()]
    );
    assert!(config_candidates("sqldap.ini", None, None).is_empty());
}

#[test]
fn usage_lists_the_places_and_shows_a_template() {
    let text = get_config_usage("sqldap.ini", Some("/work"), Some("/home/ann"), true);
    let want = format!(
        "\n\nsqldap searches for a config file in the following locations,\nin the folling order:\n\n - /work/sqldap.ini\n - /home/ann/.sqldap.ini\n - /etc/sqldap.ini\n{}",
        CONFIG_FILE_EXAMPLE
    );
    assert_eq!(text, want);
    let bare = get_config_usage("sqldap.ini", None, None, false);
    assert_eq!(
        bare,
        format!(
            "\n\nsqldap searches for a config file in the following locations,\nin the folling order:\n\n{}",
            CONFIG_FILE_EXAMPLE
        )
    );
}

#[test]
fn template_reads_as_expected() {
    assert!(CONFIG_FILE_EXAMPLE.contains("[dirserver1.tables]\npeople=ou=people,dc=example,dc=com\n"));
    assert!(CONFIG_FILE_EXAMPLE.ends_with("[dirserver2]\nconnection=ldap://ad.example.com:389\n"));
}

#[test]
fn plan_writes_attributes_and_values_in_debug_form() {
    let attribute = "a\"b\\c";
    let values = ["line\nfeed\ttab\r", "it's \u{e4} \u{1f600}", "\u{0}\u{7}\u{1b}\u{7f}\u{85}\u{200b}\u{301}", ""];
    let plan = PlanEntry {
        dn: "uid=\"a\"".to_string(),
        directives: vec![Directive {
            attribute: attribute.to_string(),
            values: values.iter().map(|v| v.to_string()).collect(),
        }],
        conflicted: false,
        conflicts: vec![],
    };
    let written: Vec<String> = values.iter().map(|v| format!("{:?}", v)).collect();
    let want = format!(
        "updating: uid=\"a\" -> [Replace({:?}, {{{}}})] ",
        attribute,
        written.join(", ")
    );
    assert_eq!(plan_report(&plan), vec![want, "---------------".to_string()]);
    assert!(plan_report(&plan)[0].contains("Replace(\"a\\\"b\\\\c\", {\"line\\nfeed\\ttab\\r\", \"it's "));
}
