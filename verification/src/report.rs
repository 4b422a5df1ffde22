//! The texts that a run shows besides the results of a selection: the
//! banner of a statement, the reports of `SHOW`, the plan of an update, and
//! where a configuration is looked for.

use vstd::prelude::*;
use vstd::string::StringExecFns;
use crate::config::{Property, Section};
use crate::query::{Alias, Directive};
use crate::render::{render_table, row_view, rows_view, simple_table};
use crate::text::{contains, holds, join, join_with, joined, joined_with};
use crate::update::PlanEntry;

verus! {

/// A template of a configuration file.
pub const CONFIG_FILE_EXAMPLE: &'static str =
    "\nTo create a config file, you can use the folling template\n\n[dirserver1]\nconnection=ldap://ldap.example.com:389\nbinddn=uid=admin,ou=Admins,dc=example,dc=com\nbindpassword=SECRETPASSWORD\n[dirserver1.tables]\npeople=ou=people,dc=example,dc=com\ngroup=ou=Group,dc=example,dc=com\n\n[dirserver2]\nconnection=ldap://ad.example.com:389\n";

/// The banner that stands above the results of a statement.
pub open spec fn banner_text(statement: Seq<char>) -> Seq<char> {
    "Results for query '"@ + statement + "': \n"@
}

/// The banner that stands above the results of a statement.
pub fn banner(statement: &str) -> (out: String)
    ensures
        out@ == banner_text(statement@),
{
    String::from_str("Results for query '").concat(statement).concat("': \n")
}

/// The rows of the report on the aliases: a heading, then a name and a
/// location for each alias.
pub open spec fn table_rows(tables: Seq<Alias>) -> Seq<Seq<Seq<char>>> {
    seq![seq!["Table name"@, "Configured dn"@]] + tables.map_values(
        |a: Alias| seq![a.name@, a.location@],
    )
}

/// What `SHOW TABLES` shows: the table of the aliases, or, where none is
/// configured, how to configure some.
pub open spec fn tables_output(tables: Seq<Alias>) -> Seq<Seq<char>> {
    if tables.len() > 0 {
        seq![simple_table(table_rows(tables))]
    } else {
        seq![
            "No tables are configured in your config file."@,
            "See example config file below.\n"@,
            CONFIG_FILE_EXAMPLE@,
        ]
    }
}

fn pair(first: String, second: String) -> (out: Vec<String>)
    ensures
        row_view(out@) == seq![first@, second@],
{
    let mut out: Vec<String> = Vec::new();
    out.push(first);
    out.push(second);
    assert(row_view(out@) =~= seq![first@, second@]);
    out
}

/// Reports on the configured aliases.
pub fn tables_report(tables: &Vec<Alias>) -> (out: Vec<String>)
    ensures
        row_view(out@) == tables_output(tables@),
{
    let mut out: Vec<String> = Vec::new();
    if tables.len() == 0 {
        out.push(String::from_str("No tables are configured in your config file."));
        out.push(String::from_str("See example config file below.\n"));
        out.push(String::from_str(CONFIG_FILE_EXAMPLE));
        assert(row_view(out@) =~= tables_output(tables@));
        return out;
    }
    let mut rows: Vec<Vec<String>> = Vec::new();
    rows.push(pair(String::from_str("Table name"), String::from_str("Configured dn")));
    let ghost data = tables@.map_values(|a: Alias| seq![a.name@, a.location@]);
    let ghost head = seq![seq!["Table name"@, "Configured dn"@]];
    assert(rows_view(rows@) =~= head + data.take(0));
    let mut i: usize = 0;
    while i < tables.len()
        invariant
            i <= tables.len(),
            data == tables@.map_values(|a: Alias| seq![a.name@, a.location@]),
            head == seq![seq!["Table name"@, "Configured dn"@]],
            rows_view(rows@) == head + data.take(i as int),
        decreases tables.len() - i,
    {
        let row = pair(tables[i].name.clone(), tables[i].location.clone());
        let ghost before = rows_view(rows@);
        rows.push(row);
        proof {
            assert(rows_view(rows@) =~= before.push(row_view(row@)));
            assert(head + data.take(i + 1) =~= (head + data.take(i as int)).push(data[i as int]));
        }
        i += 1;
    }
    assert(data.take(data.len() as int) == data);
    out.push(render_table(&rows));
    assert(row_view(out@) =~= tables_output(tables@));
    out
}

/// Whether a section stands for a server: it has a name, and the name marks
/// it neither as a list of aliases nor as a list of macros.
pub open spec fn is_server(section: Section) -> bool {
    section.name@.len() > 0 && !holds(section.name@, ".tables"@) && !holds(
        section.name@,
        ".queries"@,
    )
}

/// The values of the properties named `connection`, in order.
pub open spec fn connections(properties: Seq<Property>) -> Seq<Seq<char>>
    decreases properties.len(),
{
    if properties.len() == 0 {
        Seq::empty()
    } else if properties.last().key@ == "connection"@ {
        connections(properties.drop_last()).push(properties.last().value@)
    } else {
        connections(properties.drop_last())
    }
}

/// The rows of the servers among the sections: the name of each with its
/// connections.
pub open spec fn server_rows(sections: Seq<Section>) -> Seq<Seq<Seq<char>>>
    decreases sections.len(),
{
    if sections.len() == 0 {
        Seq::empty()
    } else if is_server(sections.last()) {
        server_rows(sections.drop_last()).push(
            seq![sections.last().name@] + connections(sections.last().properties@),
        )
    } else {
        server_rows(sections.drop_last())
    }
}

/// The rows of the report on the servers: a heading, then the servers.
pub open spec fn database_rows(sections: Seq<Section>) -> Seq<Seq<Seq<char>>> {
    seq![seq!["Database name"@, "Configured server"@]] + server_rows(sections)
}

/// Reports on the configured servers.
pub fn databases_report(sections: &Vec<Section>) -> (out: Vec<String>)
    ensures
        row_view(out@) == seq![simple_table(database_rows(sections@))],
{
    let mut rows: Vec<Vec<String>> = Vec::new();
    rows.push(pair(String::from_str("Database name"), String::from_str("Configured server")));
    let ghost head = seq![seq!["Database name"@, "Configured server"@]];
    assert(sections@.take(0) == Seq::<Section>::empty());
    assert(rows_view(rows@) =~= head + server_rows(sections@.take(0)));
    let mut i: usize = 0;
    while i < sections.len()
        invariant
            i <= sections.len(),
            head == seq![seq!["Database name"@, "Configured server"@]],
            rows_view(rows@) == head + server_rows(sections@.take(i as int)),
        decreases sections.len() - i,
    {
        let section = &sections[i];
        proof {
            assert(sections@.take(i + 1).drop_last() == sections@.take(i as int));
            assert(sections@.take(i + 1).last() == *section);
        }
        let name = section.name.as_str();
        if name.unicode_len() > 0 && !contains(name, ".tables") && !contains(name, ".queries") {
            let mut row: Vec<String> = Vec::new();
            row.push(section.name.clone());
            assert(row_view(row@) =~= seq![section.name@] + connections(
                section.properties@.take(0),
            )) by {
                assert(section.properties@.take(0) == Seq::<Property>::empty());
            }
            let mut k: usize = 0;
            while k < section.properties.len()
                invariant
                    k <= section.properties.len(),
                    row_view(row@) == seq![section.name@] + connections(
                        section.properties@.take(k as int),
                    ),
                decreases section.properties.len() - k,
            {
                let property = &section.properties[k];
                proof {
                    assert(section.properties@.take(k + 1).drop_last()
                        == section.properties@.take(k as int));
                    assert(section.properties@.take(k + 1).last() == *property);
                }
                if property.key == String::from_str("connection") {
                    let ghost before = row_view(row@);
                    row.push(property.value.clone());
                    proof {
                        assert(row_view(row@) =~= before.push(property.value@));
                        assert(seq![section.name@] + connections(
                            section.properties@.take(k as int),
                        ).push(property.value@) =~= (seq![section.name@] + connections(
                            section.properties@.take(k as int),
                        )).push(property.value@));
                    }
                }
                k += 1;
            }
            assert(section.properties@.take(section.properties@.len() as int)
                == section.properties@);
            let ghost before = rows_view(rows@);
            rows.push(row);
            proof {
                assert(rows_view(rows@) =~= before.push(row_view(row@)));
                assert(head + server_rows(sections@.take(i as int)).push(row_view(row@)) =~= (head
                    + server_rows(sections@.take(i as int))).push(row_view(row@)));
            }
        }
        i += 1;
    }
    assert(sections@.take(sections@.len() as int) == sections@);
    let mut out: Vec<String> = Vec::new();
    out.push(render_table(&rows));
    assert(row_view(out@) =~= seq![simple_table(database_rows(sections@))]);
    out
}

/// What is said of an attribute that holds more than one value.
pub open spec fn conflict_text(attribute: Seq<char>) -> Seq<char> {
    "ERROR: attribute "@ + attribute
        + " is an array, which cannot be modified. Please use delete or add."@
}

/// A text as the standard library writes a string for debugging: between
/// double quotes, with every double quote, every backslash and every
/// character that cannot be printed written as an escape.
pub uninterp spec fn quoted(text: Seq<char>) -> Seq<char>;

/// Writes a text for debugging, with `format!` and `{:?}`: the `Debug` of
/// `str` in the standard library. What it writes depends on the text alone,
/// and that is all that is claimed.
#[verifier::external_body]
fn write_quoted(text: &str) -> (out: String)
    ensures
        out@ == quoted(text@),
{
    format!("{:?}", text)
}

/// A directive as a text: the attribute, then its new values in braces.
pub open spec fn directive_text(attribute: Seq<char>, values: Seq<Seq<char>>) -> Seq<char> {
    "Replace("@ + quoted(attribute) + ", {"@ + joined_with(
        values.map_values(|v: Seq<char>| quoted(v)),
        ", "@,
    ) + "})"@
}

/// The directives as one text: a list in brackets.
pub open spec fn directives_text(directives: Seq<Directive>) -> Seq<char> {
    seq!['['] + joined_with(
        directives.map_values(
            |d: Directive| directive_text(d.attribute@, d.values@.map_values(|s: String| s@)),
        ),
        ", "@,
    ) + seq![']']
}

/// What is reported of the plan for one entry: a line for each attribute in
/// conflict, then either the change that would be made or that the entry is
/// left alone.
pub open spec fn plan_output(plan: PlanEntry) -> Seq<Seq<char>> {
    plan.conflicts@.map_values(|a: String| conflict_text(a@)) + if plan.conflicted {
        seq![plan.dn@ + " will not be updated "@]
    } else {
        seq![
            "updating: "@ + plan.dn@ + " -> "@ + directives_text(plan.directives@) + " "@,
            "---------------"@,
        ]
    }
}

/// Reports the plan for one entry.
pub fn plan_report(plan: &PlanEntry) -> (out: Vec<String>)
    ensures
        row_view(out@) == plan_output(*plan),
{
    let mut out: Vec<String> = Vec::new();
    let ghost lines = plan.conflicts@.map_values(|a: String| conflict_text(a@));
    assert(row_view(out@) =~= lines.take(0));
    let mut i: usize = 0;
    while i < plan.conflicts.len()
        invariant
            i <= plan.conflicts.len(),
            lines == plan.conflicts@.map_values(|a: String| conflict_text(a@)),
            row_view(out@) == lines.take(i as int),
        decreases plan.conflicts.len() - i,
    {
        let line = String::from_str("ERROR: attribute ").concat(plan.conflicts[i].as_str()).concat(
            " is an array, which cannot be modified. Please use delete or add.",
        );
        let ghost before = row_view(out@);
        out.push(line);
        proof {
            assert(row_view(out@) =~= before.push(line@));
            assert(lines.take(i + 1) =~= lines.take(i as int).push(lines[i as int]));
        }
        i += 1;
    }
    assert(lines.take(lines.len() as int) == lines);
    if plan.conflicted {
        let line = plan.dn.clone().concat(" will not be updated ");
        let ghost before = row_view(out@);
        out.push(line);
        assert(row_view(out@) =~= before + seq![line@]);
    } else {
        let mut texts: Vec<String> = Vec::new();
        let ghost all = plan.directives@.map_values(
            |d: Directive| directive_text(d.attribute@, d.values@.map_values(|s: String| s@)),
        );
        assert(row_view(texts@) =~= all.take(0));
        let mut k: usize = 0;
        while k < plan.directives.len()
            invariant
                k <= plan.directives.len(),
                all == plan.directives@.map_values(
                    |d: Directive|
                        directive_text(d.attribute@, d.values@.map_values(|s: String| s@)),
                ),
                row_view(texts@) == all.take(k as int),
            decreases plan.directives.len() - k,
        {
            let d = &plan.directives[k];
            let mut values: Vec<String> = Vec::new();
            let ghost marked = d.values@.map_values(|s: String| s@).map_values(
                |v: Seq<char>| quoted(v),
            );
            assert(row_view(values@) =~= marked.take(0));
            let mut v: usize = 0;
            while v < d.values.len()
                invariant
                    v <= d.values.len(),
                    marked == d.values@.map_values(|s: String| s@).map_values(
                        |v: Seq<char>| quoted(v),
                    ),
                    row_view(values@) == marked.take(v as int),
                decreases d.values.len() - v,
            {
                let value = write_quoted(d.values[v].as_str());
                let ghost done = row_view(values@);
                values.push(value);
                proof {
                    assert(row_view(values@) =~= done.push(value@));
                    assert(marked.take(v + 1) =~= marked.take(v as int).push(marked[v as int]));
                }
                v += 1;
            }
            assert(marked.take(marked.len() as int) == marked);
            let name = write_quoted(d.attribute.as_str());
            let text = String::from_str("Replace(").concat(name.as_str()).concat(", {").concat(
                join_with(&values, ", ").as_str(),
            ).concat("})");
            let ghost before = row_view(texts@);
            texts.push(text);
            proof {
                assert(row_view(texts@) =~= before.push(text@));
                assert(all.take(k + 1) =~= all.take(k as int).push(all[k as int]));
            }
            k += 1;
        }
        assert(all.take(all.len() as int) == all);
        let mut list = String::new();
        list.push('[');
        list.append(join_with(&texts, ", ").as_str());
        list.push(']');
        assert(list@ =~= directives_text(plan.directives@));
        let line = String::from_str("updating: ").concat(plan.dn.as_str()).concat(" -> ").concat(
            list.as_str(),
        ).concat(" ");
        let ghost before = row_view(out@);
        out.push(line);
        out.push(String::from_str("---------------"));
        assert(row_view(out@) =~= before + seq![line@, "---------------"@]);
    }
    out
}

/// Where a configuration file of the given name is looked for: in the
/// working directory, then as a hidden file in the home directory.
pub open spec fn candidate_paths(
    filename: Seq<char>,
    cwd: Option<Seq<char>>,
    home: Option<Seq<char>>,
) -> Seq<Seq<char>> {
    (match cwd {
        Some(dir) => seq![dir + "/"@ + filename],
        None => Seq::empty(),
    }) + (match home {
        Some(dir) => seq![dir + "/."@ + filename],
        None => Seq::empty(),
    })
}

/// The paths that are named to the operator: those that are looked at, and
/// the system-wide one where the system has a place for it.
pub open spec fn named_paths(
    filename: Seq<char>,
    cwd: Option<Seq<char>>,
    home: Option<Seq<char>>,
    etc: bool,
) -> Seq<Seq<char>> {
    candidate_paths(filename, cwd, home) + if etc {
        seq!["/etc/"@ + filename]
    } else {
        Seq::empty()
    }
}

/// What the operator is told where no configuration was found.
pub open spec fn usage_text(paths: Seq<Seq<char>>) -> Seq<char> {
    joined(
        seq![
            Seq::empty(),
            Seq::empty(),
            "sqldap searches for a config file in the following locations,"@,
            "in the folling order:"@,
            Seq::empty(),
        ] + paths.map_values(|p: Seq<char>| " - "@ + p) + seq![CONFIG_FILE_EXAMPLE@],
        '\n',
    )
}

/// The view of a directory that may be unknown.
pub open spec fn directory(dir: Option<&str>) -> Option<Seq<char>> {
    match dir {
        Some(s) => Some(s@),
        None => None,
    }
}

/// The paths at which a configuration file is looked for, in order.
pub fn config_candidates(filename: &str, cwd: Option<&str>, home: Option<&str>) -> (out: Vec<
    String,
>)
    ensures
        row_view(out@) == candidate_paths(filename@, directory(cwd), directory(home)),
{
    let mut out: Vec<String> = Vec::new();
    match cwd {
        Some(dir) => {
            out.push(String::from_str(dir).concat("/").concat(filename));
        },
        None => {},
    }
    match home {
        Some(dir) => {
            out.push(String::from_str(dir).concat("/.").concat(filename));
        },
        None => {},
    }
    assert(row_view(out@) =~= candidate_paths(filename@, directory(cwd), directory(home)));
    out
}

/// Tells the operator where a configuration file is looked for, and what
/// one looks like.
pub fn get_config_usage(filename: &str, cwd: Option<&str>, home: Option<&str>, etc: bool) -> (out:
    String)
    ensures
        out@ == usage_text(named_paths(filename@, directory(cwd), directory(home), etc)),
{
    let mut paths = config_candidates(filename, cwd, home);
    let ghost looked = row_view(paths@);
    if etc {
        paths.push(String::from_str("/etc/").concat(filename));
    }
    let ghost named = row_view(paths@);
    proof {
        assert(named =~= looked + if etc {
            seq!["/etc/"@ + filename@]
        } else {
            Seq::empty()
        });
    }
    let mut lines: Vec<String> = Vec::new();
    lines.push(String::new());
    lines.push(String::new());
    lines.push(String::from_str("sqldap searches for a config file in the following locations,"));
    lines.push(String::from_str("in the folling order:"));
    lines.push(String::new());
    let ghost head = seq![
        Seq::<char>::empty(),
        Seq::<char>::empty(),
        "sqldap searches for a config file in the following locations,"@,
        "in the folling order:"@,
        Seq::<char>::empty(),
    ];
    let ghost items = named.map_values(|p: Seq<char>| " - "@ + p);
    assert(row_view(lines@) =~= head + items.take(0));
    let mut i: usize = 0;
    while i < paths.len()
        invariant
            i <= paths.len(),
            named == row_view(paths@),
            items == named.map_values(|p: Seq<char>| " - "@ + p),
            row_view(lines@) == head + items.take(i as int),
        decreases paths.len() - i,
    {
        let line = String::from_str(" - ").concat(paths[i].as_str());
        let ghost before = row_view(lines@);
        lines.push(line);
        proof {
            assert(row_view(lines@) =~= before.push(line@));
            assert(head + items.take(i + 1) =~= (head + items.take(i as int)).push(
                items[i as int],
            ));
        }
        i += 1;
    }
    assert(items.take(items.len() as int) == items);
    let ghost before = row_view(lines@);
    lines.push(String::from_str(CONFIG_FILE_EXAMPLE));
    assert(row_view(lines@) =~= before + seq![CONFIG_FILE_EXAMPLE@]);
    join(&lines, '\n')
}

} // verus!
