use sqldap::render::{
    add_tall, find, fits_on_screen, merge, names, record, records, render_select, wide, Field,
};
use sqldap::update::{Attribute, Entry};

fn attribute(name: &str, values: &[&str]) -> Attribute {
    Attribute { name: name.to_string(), values: values.iter().map(|v| v.to_string()).collect() }
}

fn field(name: &str, value: &str) -> Field {
    Field { name: name.to_string(), value: value.to_string() }
}

fn texts(items: &[&str]) -> Vec<String> {
    items.iter().map(|s| s.to_string()).collect()
}

#[allow(deprecated)]
fn drawn(rows: &[&[&str]]) -> String {
    let mut table = term_table::Table::new();
    table.style = term_table::TableStyle::simple();
    for row in rows {
        let mut cells = Vec::new();
        for text in row.iter() {
            cells.push(term_table::table_cell::TableCell::new_with_alignment(
                text,
                1,
                term_table::table_cell::Alignment::Left,
            ));
        }
        table.add_row(term_table::row::Row::new(cells));
    }
    table.render()
}

fn people() -> Vec<Entry> {
    vec![
        Entry { attrs: vec![attribute("uid", &["ann"]), attribute("mail", &["a@x", "ann@x"])] },
        Entry { attrs: vec![attribute("cn", &["Bob"]), attribute("uid", &["bob"])] },
    ]
}

const HINT: &str = "\nConsider replacing * with a subset of the folling fields: \n";

#[test]
fn first_line_decides_whether_a_table_fits() {
    assert!(fits_on_screen("+---+\n| a |\n", Some(5)));
    assert!(!fits_on_screen("+---+\n| a |\n", Some(4)));
    assert!(fits_on_screen("+---+\n| a very long second line |\n", Some(5)));
    assert!(fits_on_screen("\n", Some(0)));
}

#[test]
fn table_of_one_line_or_unknown_width_fits() {
    assert!(fits_on_screen("", Some(0)));
    assert!(fits_on_screen("no line feed at all", Some(3)));
    assert!(fits_on_screen("+---------------+\n", None));
}

#[test]
fn width_is_counted_in_bytes() {
    assert!(fits_on_screen("\u{e4}\u{e4}\n", Some(4)));
    assert!(!fits_on_screen("\u{e4}\u{e4}\n", Some(3)));
}

#[test]
fn record_joins_the_values_of_each_attribute() {
    let entries = people();
    assert_eq!(record(&entries[0]), vec![field("uid", "ann"), field("mail", "a@x\nann@x")]);
    assert_eq!(record(&Entry { attrs: vec![attribute("x", &[])] }), vec![field("x", "")]);
    assert!(record(&Entry { attrs: vec![] }).is_empty());
}

#[test]
fn merge_puts_all_values_under_the_last_name() {
    assert_eq!(merge(&people()), vec![field("uid", "ann\na@x\nann@x\nBob\nbob")]);
    assert_eq!(merge(&vec![]), vec![field("", "")]);
}

#[test]
fn records_are_one_for_each_entry_or_one_for_all() {
    assert_eq!(records(&people(), false).len(), 2);
    assert_eq!(records(&people(), false)[1], vec![field("cn", "Bob"), field("uid", "bob")]);
    assert_eq!(records(&people(), true), vec![merge(&people())]);
    assert!(records(&vec![], false).is_empty());
}

#[test]
fn find_reads_the_last_field_of_a_name() {
    let r = vec![field("a", "1"), field("b", "2"), field("a", "3")];
    assert_eq!(find(&r, &"a".to_string()), Some("3".to_string()));
    assert_eq!(find(&r, &"b".to_string()), Some("2".to_string()));
    assert_eq!(find(&r, &"c".to_string()), None);
    assert_eq!(find(&vec![], &"a".to_string()), None);
}

#[test]
fn names_are_ordered_and_not_repeated() {
    let found = records(&people(), false);
    assert_eq!(names(&found), texts(&["cn", "mail", "uid"]));
    let mixed = vec![vec![field("b", ""), field("B", ""), field("a", ""), field("ab", "")]];
    assert_eq!(names(&mixed), texts(&["B", "a", "ab", "b"]));
    assert!(names(&vec![]).is_empty());
}

#[test]
fn wide_rows_are_heading_and_one_row_for_each_record() {
    let found = records(&people(), false);
    assert_eq!(
        wide(&texts(&["uid", "mail"]), &found),
        vec![texts(&["uid", "mail"]), texts(&["ann", "a@x\nann@x"]), texts(&["bob", ""])]
    );
    assert!(wide(&vec![], &found).is_empty());
    assert_eq!(wide(&texts(&["uid"]), &vec![]), vec![texts(&["uid"])]);
}

#[test]
fn tall_rows_are_name_and_value_for_each_column_with_a_value() {
    let found = records(&people(), false);
    let mut rows = vec![texts(&["kept"])];
    add_tall(&mut rows, &texts(&["uid", "mail", "cn"]), &found[1]);
    assert_eq!(rows, vec![texts(&["kept"]), texts(&["uid", "bob"]), texts(&["cn", "Bob"])]);
    let mut none: Vec<Vec<String>> = vec![];
    add_tall(&mut none, &texts(&["sn"]), &found[1]);
    assert!(none.is_empty());
}

#[test]
fn wide_table_is_shown_where_it_fits() {
    let out = render_select(&texts(&["uid", "mail"]), false, &people(), Some(200));
    let want = drawn(&[&["uid", "mail"], &["ann", "a@x\nann@x"], &["bob", ""]]);
    assert_eq!(out, vec![want.clone()]);
    assert!(want.starts_with("+-----+-------+\n| uid | mail  |\n"));
    assert_eq!(render_select(&texts(&["uid", "mail"]), false, &people(), None), vec![want]);
}

#[test]
fn each_entry_gets_its_table_where_the_wide_one_does_not_fit() {
    let out = render_select(&texts(&["uid", "mail", "sn"]), false, &people(), Some(5));
    assert_eq!(
        out,
        vec![drawn(&[&["uid", "ann"], &["mail", "a@x\nann@x"]]), drawn(&[&["uid", "bob"]])]
    );
}

#[test]
fn entry_without_a_value_in_any_column_shows_nothing_found() {
    let out = render_select(&texts(&["sn", "givenName"]), false, &people(), Some(5));
    assert_eq!(out, texts(&["Nothing found.", "Nothing found."]));
}

#[test]
fn single_attribute_shows_all_values_in_one_cell() {
    let out = render_select(&texts(&["uid"]), false, &people(), Some(200));
    assert_eq!(out, vec![drawn(&[&["uid"], &["ann\na@x\nann@x\nBob\nbob"]])]);
}

#[test]
fn single_attribute_that_does_not_fit_adds_rows_to_the_wide_table() {
    let out = render_select(&texts(&["uid"]), false, &people(), Some(3));
    assert_eq!(
        out,
        vec![drawn(&[
            &["uid"],
            &["ann\na@x\nann@x\nBob\nbob"],
            &["uid", "ann\na@x\nann@x\nBob\nbob"],
        ])]
    );
}

#[test]
fn single_attribute_without_entries_shows_an_empty_cell() {
    let out = render_select(&texts(&["uid"]), false, &vec![], Some(200));
    assert_eq!(out, vec![drawn(&[&["uid"], &[""]])]);
}

#[test]
fn wildcard_shows_all_names_in_order() {
    let out = render_select(&vec![], true, &people(), Some(200));
    assert_eq!(
        out,
        vec![drawn(&[&["cn", "mail", "uid"], &["", "a@x\nann@x", "ann"], &["Bob", "", "bob"]])]
    );
}

#[test]
fn wildcard_that_does_not_fit_gives_a_hint_below_each_table() {
    let out = render_select(&vec![], true, &people(), Some(5));
    assert_eq!(
        out,
        vec![
            drawn(&[&["mail", "a@x\nann@x"], &["uid", "ann"]]),
            HINT.to_string(),
            "cn,mail,uid".to_string(),
            drawn(&[&["cn", "Bob"], &["uid", "bob"]]),
            HINT.to_string(),
            "cn,mail,uid".to_string(),
        ]
    );
}

#[test]
fn wildcard_beside_one_name_that_does_not_fit_stacks_all_rows() {
    let out = render_select(&texts(&["uid"]), true, &people(), Some(5));
    assert_eq!(
        out,
        vec![
            drawn(&[
                &["cn", "mail", "uid"],
                &["", "a@x\nann@x", "ann"],
                &["Bob", "", "bob"],
                &["mail", "a@x\nann@x"],
                &["uid", "ann"],
                &["cn", "Bob"],
                &["uid", "bob"],
            ]),
            HINT.to_string(),
            "cn,mail,uid".to_string(),
        ]
    );
}

#[test]
fn nothing_found_without_columns() {
    assert_eq!(render_select(&vec![], true, &vec![], Some(80)), texts(&["Nothing found."]));
    assert_eq!(render_select(&vec![], false, &people(), Some(80)), texts(&["Nothing found."]));
    let empty = vec![Entry { attrs: vec![] }];
    assert_eq!(render_select(&vec![], true, &empty, Some(80)), texts(&["Nothing found."]));
}

#[test]
fn unusual_values_are_drawn_like_any_other() {
    let cases: Vec<Vec<&str>> = vec![
        vec![""],
        vec!["\n"],
        vec!["\n\n\n", "a"],
        vec!["\u{1b}[31mred\u{1b}[0m"],
        vec!["\u{1b}[31m"],
        vec!["\u{4e2d}\u{6587}", "\u{1f600}"],
        vec!["\u{0}\u{7}\t", "\u{200b}\u{301}"],
        vec!["a b c d e f g h i j k l m n o p q r s t u v w x y z"],
    ];
    for values in cases {
        let entries = vec![
            Entry { attrs: vec![attribute("uid", &values), attribute("", &values)] },
            Entry { attrs: vec![attribute(values[0], &["x"])] },
        ];
        for width in [None, Some(0), Some(1000)] {
            let some = render_select(&texts(&["uid", "", values[0]]), false, &entries, width);
            assert!(!some.is_empty());
            let one = render_select(&texts(&["uid"]), false, &entries, width);
            assert_eq!(one.len(), 1);
            let all = render_select(&vec![], true, &entries, width);
            assert!(!all.is_empty());
        }
    }
    let long = "x".repeat(5000);
    let entries = vec![Entry { attrs: vec![attribute("uid", &[long.as_str()])] }];
    let out = render_select(&texts(&["uid", "cn"]), false, &entries, Some(80));
    assert_eq!(out, vec![drawn(&[&["uid", long.as_str()]])]);
}

#[test]
fn drawing_the_same_rows_twice_gives_the_same_text() {
    let first = render_select(&vec![], true, &people(), Some(5));
    let second = render_select(&vec![], true, &people(), Some(5));
    assert_eq!(first, second);
}
