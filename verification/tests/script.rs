use sqldap::script::{
    blank, expand_macro, split_script, statements, Action, Event, Macro, Sequencer,
};

fn macros() -> Vec<Macro> {
    vec![
        Macro {
            name: "locked".to_string(),
            text: "SELECT uid FROM @people WHERE passwordretrycount>=3".to_string(),
        },
        Macro { name: "again".to_string(), text: "@locked".to_string() },
        Macro { name: "locked".to_string(), text: "SHOW TABLES".to_string() },
        Macro { name: "nothing".to_string(), text: " \n".to_string() },
    ]
}

fn run(statement: &str, banner: bool) -> Action {
    Action::Run { statement: statement.to_string(), banner }
}

#[test]
fn script_is_cut_at_every_separator() {
    assert_eq!(split_script("a;b;c"), vec!["a", "b", "c"]);
    assert_eq!(split_script("a;"), vec!["a", ""]);
    assert_eq!(split_script(";a"), vec!["", "a"]);
    assert_eq!(split_script(";;"), vec!["", "", ""]);
    assert_eq!(split_script(""), vec![""]);
    assert_eq!(split_script("no separator"), vec!["no separator"]);
}

#[test]
fn separator_at_line_end_becomes_plain_separator() {
    assert_eq!(split_script("a;\nb;\nc;\n"), vec!["a", "b", "c", ""]);
    assert_eq!(split_script("a;\n\nb"), vec!["a", "\nb"]);
    assert_eq!(split_script("a\n;b"), vec!["a\n", "b"]);
    assert_eq!(split_script("a; \nb"), vec!["a", " \nb"]);
}

#[test]
fn macro_token_is_replaced_by_first_macro_of_that_name() {
    let text = "SELECT uid FROM @people WHERE passwordretrycount>=3";
    assert_eq!(expand_macro(&"@locked".to_string(), &macros()), text);
}

#[test]
fn macro_text_is_not_expanded_again() {
    assert_eq!(expand_macro(&"@again".to_string(), &macros()), "@locked");
}

#[test]
fn only_an_exact_token_is_a_macro_reference() {
    assert_eq!(expand_macro(&" @locked".to_string(), &macros()), " @locked");
    assert_eq!(expand_macro(&"@locked ".to_string(), &macros()), "@locked ");
    assert_eq!(expand_macro(&"locked".to_string(), &macros()), "locked");
    assert_eq!(expand_macro(&"@unknown".to_string(), &macros()), "@unknown");
    assert_eq!(expand_macro(&"@locked".to_string(), &vec![]), "@locked");
    assert_eq!(expand_macro(&"@".to_string(), &macros()), "@");
}

#[test]
fn blank_texts_hold_only_white_space() {
    assert!(blank(&"".to_string()));
    assert!(blank(&"\n".to_string()));
    assert!(blank(&" \t\r\n\x0b\x0c".to_string()));
    assert!(!blank(&" a ".to_string()));
    assert!(!blank(&"\u{a0}".to_string()));
}

#[test]
fn statements_are_expanded_and_blank_ones_dropped() {
    let script = "SHOW TABLES;\n@locked;\n\n; ;@nothing;SHOW DATABASES;\n";
    assert_eq!(
        statements(script, &macros()),
        vec![
            "SHOW TABLES",
            "SELECT uid FROM @people WHERE passwordretrycount>=3",
            "SHOW DATABASES",
        ]
    );
    assert!(statements("", &macros()).is_empty());
    assert!(statements(";\n;\n", &macros()).is_empty());
}

#[test]
fn three_statements_run_once_each_in_order_with_banner() {
    let mut sequencer = Sequencer::new("a;b;c", &vec![]);
    assert_eq!(sequencer.len(), 3);
    assert_eq!(sequencer.advance(Event::Started), run("a", true));
    assert_eq!(sequencer.advance(Event::Completed), run("b", true));
    assert_eq!(sequencer.advance(Event::Completed), run("c", true));
    assert_eq!(sequencer.advance(Event::Completed), Action::Stop);
    assert_eq!(sequencer.advance(Event::Completed), Action::Stop);
}

#[test]
fn single_statement_runs_without_banner() {
    let mut sequencer = Sequencer::new("SELECT uid FROM t;\n", &vec![]);
    assert_eq!(sequencer.len(), 1);
    assert_eq!(sequencer.advance(Event::Started), run("SELECT uid FROM t", false));
    assert_eq!(sequencer.advance(Event::Completed), Action::Stop);
}

#[test]
fn empty_script_runs_nothing() {
    let mut sequencer = Sequencer::new(" ;\n", &vec![]);
    assert_eq!(sequencer.len(), 0);
    assert_eq!(sequencer.advance(Event::Started), Action::Stop);
}

#[test]
fn failure_stops_the_rest_of_the_script() {
    let mut sequencer = Sequencer::new("a;b;c", &vec![]);
    assert_eq!(sequencer.advance(Event::Started), run("a", true));
    assert_eq!(sequencer.advance(Event::Completed), run("b", true));
    assert_eq!(sequencer.advance(Event::Failed), Action::Stop);
    assert_eq!(sequencer.advance(Event::Completed), Action::Stop);
    assert_eq!(sequencer.advance(Event::Started), Action::Stop);
}

#[test]
fn sequencer_expands_macros() {
    let mut sequencer = Sequencer::new("@again;@locked", &macros());
    assert_eq!(sequencer.advance(Event::Started), run("@locked", true));
    assert_eq!(
        sequencer.advance(Event::Completed),
        run("SELECT uid FROM @people WHERE passwordretrycount>=3", true)
    );
    assert_eq!(sequencer.advance(Event::Completed), Action::Stop);
}
