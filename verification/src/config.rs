//! The configuration, once it was read: which server a run talks to, how to
//! reach it, and the aliases and macros that are set up for it.
//!
//! A configuration is a list of sections. The section named after a server
//! says how to connect to it; the section of that name followed by
//! `.tables` lists its aliases, and the one followed by `.queries` its
//! macros.

use vstd::prelude::*;
use vstd::string::StringExecFns;
use crate::query::{Alias, AliasView};
use crate::script::{Macro, MacroView};

verus! {

/// A key with its value.
#[derive(Clone, Debug, PartialEq, Eq)]
pub struct Property {
    pub key: String,
    pub value: String,
}

/// A section with its properties, in the order of the file. The properties
/// that stand before the first section header form a section without a
/// name: its name is empty.
#[derive(Clone, Debug, PartialEq, Eq)]
pub struct Section {
    pub name: String,
    pub properties: Vec<Property>,
}

/// What is known of the server that a run talks to.
#[derive(Clone, Debug, PartialEq, Eq)]
pub struct Server {
    pub name: String,
    pub connection: String,
    pub binddn: Option<String>,
    pub bindpassword: Option<String>,
    pub tables: Vec<Alias>,
    pub queries: Vec<Macro>,
}

/// Why a configuration cannot be used.
#[derive(Clone, Debug, PartialEq, Eq)]
pub enum ConfigError {
    /// The section of the named server holds no `connection`.
    MissingConnection(String),
}

impl ConfigError {
    /// The text shown to the operator for this failure.
    pub open spec fn message_text(self) -> Seq<char> {
        match self {
            ConfigError::MissingConnection(name) => "Key 'connection' in section "@ + name@
                + " could not be found."@,
        }
    }

    /// The text shown to the operator for this failure.
    pub fn message(&self) -> (out: String)
        ensures
            out@ == self.message_text(),
    {
        match self {
            ConfigError::MissingConnection(name) => String::from_str(
                "Key 'connection' in section ",
            ).concat(name.as_str()).concat(" could not be found."),
        }
    }
}

/// A server as a mathematical value.
pub struct ServerView {
    pub name: Seq<char>,
    pub connection: Seq<char>,
    pub binddn: Option<Seq<char>>,
    pub bindpassword: Option<Seq<char>>,
    pub tables: Seq<AliasView>,
    pub queries: Seq<MacroView>,
}

impl View for Server {
    type V = ServerView;

    open spec fn view(&self) -> ServerView {
        ServerView {
            name: self.name@,
            connection: self.connection@,
            binddn: match self.binddn {
                Some(s) => Some(s@),
                None => None,
            },
            bindpassword: match self.bindpassword {
                Some(s) => Some(s@),
                None => None,
            },
            tables: self.tables@.map_values(|a: Alias| a@),
            queries: self.queries@.map_values(|m: Macro| m@),
        }
    }
}

/// The name of the first section that has one, or the empty text.
pub open spec fn first_named(sections: Seq<Section>) -> Seq<char>
    decreases sections.len(),
{
    if sections.len() == 0 {
        Seq::empty()
    } else if sections[0].name@.len() > 0 {
        sections[0].name@
    } else {
        first_named(sections.skip(1))
    }
}

/// The server of a run: the one that was asked for, or else the first of
/// the configuration.
pub open spec fn server_name(sections: Seq<Section>, requested: Seq<char>) -> Seq<char> {
    if requested.len() > 0 {
        requested
    } else {
        first_named(sections)
    }
}

/// The value that the properties give `key`: the last one, where there are
/// several.
pub open spec fn property_value(properties: Seq<Property>, key: Seq<char>) -> Option<Seq<char>>
    decreases properties.len(),
{
    if properties.len() == 0 {
        None
    } else if properties.last().key@ == key {
        Some(properties.last().value@)
    } else {
        property_value(properties.drop_last(), key)
    }
}

/// Whether a section has the given name. A section without a name has
/// none, not even the empty one.
pub open spec fn is_named(section: Section, name: Seq<char>) -> bool {
    section.name@.len() > 0 && section.name@ == name
}

/// The value that the sections named `name` give `key`: the last one, where
/// there are several.
pub open spec fn setting(sections: Seq<Section>, name: Seq<char>, key: Seq<char>) -> Option<
    Seq<char>,
>
    decreases sections.len(),
{
    if sections.len() == 0 {
        None
    } else if is_named(sections.last(), name) && property_value(
        sections.last().properties@,
        key,
    ) is Some {
        property_value(sections.last().properties@, key)
    } else {
        setting(sections.drop_last(), name, key)
    }
}

/// The list with `name` standing for `location`: in the place where the
/// name stood before, or else at the end.
pub open spec fn with_alias(list: Seq<AliasView>, name: Seq<char>, location: Seq<char>) -> Seq<
    AliasView,
>
    decreases list.len(),
{
    if list.len() == 0 {
        seq![AliasView { name, location }]
    } else if list[0].name == name {
        seq![AliasView { name, location }] + list.skip(1)
    } else {
        seq![list[0]] + with_alias(list.skip(1), name, location)
    }
}

/// The list with every property added as an alias, in order.
pub open spec fn with_aliases(list: Seq<AliasView>, properties: Seq<Property>) -> Seq<AliasView>
    decreases properties.len(),
{
    if properties.len() == 0 {
        list
    } else {
        with_alias(
            with_aliases(list, properties.drop_last()),
            properties.last().key@,
            properties.last().value@,
        )
    }
}

/// The aliases that the sections named `name` list. Each name occurs once,
/// with the location that was given last.
pub open spec fn aliases_of(sections: Seq<Section>, name: Seq<char>) -> Seq<AliasView>
    decreases sections.len(),
{
    if sections.len() == 0 {
        Seq::empty()
    } else if is_named(sections.last(), name) {
        with_aliases(aliases_of(sections.drop_last(), name), sections.last().properties@)
    } else {
        aliases_of(sections.drop_last(), name)
    }
}

/// The properties as macros, in order.
pub open spec fn as_macros(properties: Seq<Property>) -> Seq<MacroView> {
    properties.map_values(|p: Property| MacroView { name: p.key@, text: p.value@ })
}

/// The macros that the sections named `name` list, in order.
pub open spec fn macros_of(sections: Seq<Section>, name: Seq<char>) -> Seq<MacroView>
    decreases sections.len(),
{
    if sections.len() == 0 {
        Seq::empty()
    } else if is_named(sections.last(), name) {
        macros_of(sections.drop_last(), name) + as_macros(sections.last().properties@)
    } else {
        macros_of(sections.drop_last(), name)
    }
}

/// The server that a configuration gives for a request, or the reason why
/// it gives none: a server must have a `connection`.
pub open spec fn resolved(sections: Seq<Section>, requested: Seq<char>) -> Result<
    ServerView,
    Seq<char>,
> {
    let name = server_name(sections, requested);
    match setting(sections, name, "connection"@) {
        None => Err(name),
        Some(connection) => Ok(
            ServerView {
                name,
                connection,
                binddn: setting(sections, name, "binddn"@),
                bindpassword: setting(sections, name, "bindpassword"@),
                tables: aliases_of(sections, name + ".tables"@),
                queries: macros_of(sections, name + ".queries"@),
            },
        ),
    }
}

fn named(section: &Section, name: &String) -> (yes: bool)
    ensures
        yes == is_named(*section, name@),
{
    section.name.as_str().unicode_len() > 0 && section.name == *name
}

fn find_server_name(sections: &Vec<Section>, requested: &str) -> (out: String)
    ensures
        out@ == server_name(sections@, requested@),
{
    if requested.unicode_len() > 0 {
        return String::from_str(requested);
    }
    let mut i: usize = 0;
    assert(sections@.skip(0) == sections@);
    while i < sections.len()
        invariant
            i <= sections.len(),
            requested@.len() == 0,
            first_named(sections@) == first_named(sections@.skip(i as int)),
        decreases sections.len() - i,
    {
        assert(sections@.skip(i as int)[0] == sections@[i as int]);
        if sections[i].name.as_str().unicode_len() > 0 {
            return sections[i].name.clone();
        }
        assert(sections@.skip(i as int).skip(1) == sections@.skip(i + 1));
        i += 1;
    }
    String::new()
}

fn find_property(properties: &Vec<Property>, key: &str) -> (out: Option<String>)
    ensures
        match out {
            Some(v) => property_value(properties@, key@) == Some(v@),
            None => property_value(properties@, key@) is None,
        },
{
    let mut i: usize = properties.len();
    assert(properties@.take(i as int) == properties@);
    while i > 0
        invariant
            i <= properties.len(),
            property_value(properties@, key@) == property_value(properties@.take(i as int), key@),
        decreases i,
    {
        let property = &properties[i - 1];
        assert(properties@.take(i as int).last() == *property);
        if property.key == String::from_str(key) {
            return Some(property.value.clone());
        }
        assert(properties@.take(i as int).drop_last() == properties@.take(i - 1));
        i -= 1;
    }
    None
}

fn find_setting(sections: &Vec<Section>, name: &String, key: &str) -> (out: Option<String>)
    ensures
        match out {
            Some(v) => setting(sections@, name@, key@) == Some(v@),
            None => setting(sections@, name@, key@) is None,
        },
{
    let mut i: usize = sections.len();
    assert(sections@.take(i as int) == sections@);
    while i > 0
        invariant
            i <= sections.len(),
            setting(sections@, name@, key@) == setting(sections@.take(i as int), name@, key@),
        decreases i,
    {
        let section = &sections[i - 1];
        assert(sections@.take(i as int).last() == *section);
        if named(section, name) {
            match find_property(&section.properties, key) {
                Some(v) => {
                    return Some(v);
                },
                None => {},
            }
        }
        assert(sections@.take(i as int).drop_last() == sections@.take(i - 1));
        i -= 1;
    }
    None
}

/// Lets `name` stand for `location` in the list.
pub fn set_alias(list: &mut Vec<Alias>, name: &String, location: &String)
    ensures
        final(list)@.map_values(|a: Alias| a@) == with_alias(
            old(list)@.map_values(|a: Alias| a@),
            name@,
            location@,
        ),
{
    let ghost before = list@.map_values(|a: Alias| a@);
    let mut i: usize = 0;
    assert(before.take(0) + with_alias(before.skip(0), name@, location@) == with_alias(
        before,
        name@,
        location@,
    )) by {
        assert(before.skip(0) == before);
        assert(before.take(0) + with_alias(before, name@, location@) =~= with_alias(
            before,
            name@,
            location@,
        ));
    }
    while i < list.len()
        invariant
            i <= list.len(),
            list@ == old(list)@,
            before == list@.map_values(|a: Alias| a@),
            with_alias(before, name@, location@) == before.take(i as int) + with_alias(
                before.skip(i as int),
                name@,
                location@,
            ),
        decreases list.len() - i,
    {
        let ghost rest = before.skip(i as int);
        assert(rest[0] == list@[i as int]@);
        if list[i].name == *name {
            list.set(i, Alias { name: name.clone(), location: location.clone() });
            proof {
                let entry = AliasView { name: name@, location: location@ };
                assert(list@.map_values(|a: Alias| a@) =~= before.take(i as int) + (seq![entry]
                    + rest.skip(1)));
            }
            return ;
        }
        proof {
            assert(rest.skip(1) == before.skip(i + 1));
            assert(before.take(i as int) + (seq![rest[0]] + with_alias(
                rest.skip(1),
                name@,
                location@,
            )) =~= before.take(i + 1) + with_alias(before.skip(i + 1), name@, location@));
        }
        i += 1;
    }
    list.push(Alias { name: name.clone(), location: location.clone() });
    proof {
        let entry = AliasView { name: name@, location: location@ };
        assert(before.skip(before.len() as int).len() == 0);
        assert(list@.map_values(|a: Alias| a@) =~= before.take(before.len() as int) + seq![entry]);
    }
}

fn find_aliases(sections: &Vec<Section>, name: &String) -> (out: Vec<Alias>)
    ensures
        out@.map_values(|a: Alias| a@) == aliases_of(sections@, name@),
{
    let mut out: Vec<Alias> = Vec::new();
    let mut i: usize = 0;
    assert(sections@.take(0) == Seq::<Section>::empty());
    assert(out@.map_values(|a: Alias| a@) == Seq::<AliasView>::empty());
    while i < sections.len()
        invariant
            i <= sections.len(),
            out@.map_values(|a: Alias| a@) == aliases_of(sections@.take(i as int), name@),
        decreases sections.len() - i,
    {
        let section = &sections[i];
        proof {
            assert(sections@.take(i + 1).drop_last() == sections@.take(i as int));
            assert(sections@.take(i + 1).last() == *section);
        }
        if named(section, name) {
            let ghost start = out@.map_values(|a: Alias| a@);
            let mut k: usize = 0;
            assert(section.properties@.take(0) == Seq::<Property>::empty());
            while k < section.properties.len()
                invariant
                    k <= section.properties.len(),
                    out@.map_values(|a: Alias| a@) == with_aliases(
                        start,
                        section.properties@.take(k as int),
                    ),
                decreases section.properties.len() - k,
            {
                let property = &section.properties[k];
                proof {
                    assert(section.properties@.take(k + 1).drop_last()
                        == section.properties@.take(k as int));
                    assert(section.properties@.take(k + 1).last() == *property);
                }
                set_alias(&mut out, &property.key, &property.value);
                k += 1;
            }
            assert(section.properties@.take(section.properties@.len() as int)
                == section.properties@);
        }
        i += 1;
    }
    assert(sections@.take(sections@.len() as int) == sections@);
    out
}

fn find_macros(sections: &Vec<Section>, name: &String) -> (out: Vec<Macro>)
    ensures
        out@.map_values(|m: Macro| m@) == macros_of(sections@, name@),
{
    let mut out: Vec<Macro> = Vec::new();
    let mut i: usize = 0;
    assert(sections@.take(0) == Seq::<Section>::empty());
    assert(out@.map_values(|m: Macro| m@) == Seq::<MacroView>::empty());
    while i < sections.len()
        invariant
            i <= sections.len(),
            out@.map_values(|m: Macro| m@) == macros_of(sections@.take(i as int), name@),
        decreases sections.len() - i,
    {
        let section = &sections[i];
        proof {
            assert(sections@.take(i + 1).drop_last() == sections@.take(i as int));
            assert(sections@.take(i + 1).last() == *section);
        }
        if named(section, name) {
            let ghost start = out@.map_values(|m: Macro| m@);
            let mut k: usize = 0;
            assert(start + as_macros(section.properties@.take(0)) == start);
            while k < section.properties.len()
                invariant
                    k <= section.properties.len(),
                    out@.map_values(|m: Macro| m@) == start + as_macros(
                        section.properties@.take(k as int),
                    ),
                decreases section.properties.len() - k,
            {
                let property = &section.properties[k];
                let ghost done = out@.map_values(|m: Macro| m@);
                out.push(Macro { name: property.key.clone(), text: property.value.clone() });
                proof {
                    let entry = MacroView { name: property.key@, text: property.value@ };
                    assert(out@.map_values(|m: Macro| m@) =~= done.push(entry));
                    assert(as_macros(section.properties@.take(k + 1)) =~= as_macros(
                        section.properties@.take(k as int),
                    ).push(entry));
                    assert(start + as_macros(section.properties@.take(k as int)).push(entry)
                        =~= (start + as_macros(section.properties@.take(k as int))).push(entry));
                }
                k += 1;
            }
            assert(section.properties@.take(section.properties@.len() as int)
                == section.properties@);
        }
        i += 1;
    }
    assert(sections@.take(sections@.len() as int) == sections@);
    out
}

/// Finds the server of a run in a configuration.
///
/// The server is the one asked for, or else the first that the
/// configuration names. It is found exactly when its section gives a
/// `connection`; the error names the server otherwise.
pub fn resolve_server(sections: &Vec<Section>, requested: &str) -> (out: Result<
    Server,
    ConfigError,
>)
    ensures
        match out {
            Ok(server) => resolved(sections@, requested@) == Ok::<ServerView, Seq<char>>(server@),
            Err(ConfigError::MissingConnection(name)) => resolved(sections@, requested@) == Err::<
                ServerView,
                Seq<char>,
            >(name@),
        },
{
    let name = find_server_name(sections, requested);
    let connection = match find_setting(sections, &name, "connection") {
        Some(connection) => connection,
        None => {
            return Err(ConfigError::MissingConnection(name));
        },
    };
    let binddn = find_setting(sections, &name, "binddn");
    let bindpassword = find_setting(sections, &name, "bindpassword");
    let tables = find_aliases(sections, &name.clone().concat(".tables"));
    let queries = find_macros(sections, &name.clone().concat(".queries"));
    Ok(Server { name, connection, binddn, bindpassword, tables, queries })
}

/// No two aliases of the list have the same name.
pub open spec fn distinct_names(list: Seq<AliasView>) -> bool {
    forall|i: int, j: int|
        0 <= i < list.len() && 0 <= j < list.len() && i != j ==> (#[trigger] list[i]).name != (
        #[trigger] list[j]).name
}

/// Whether the list holds an alias of the given name.
pub open spec fn has_name(list: Seq<AliasView>, name: Seq<char>) -> bool {
    exists|i: int| 0 <= i < list.len() && (#[trigger] list[i]).name == name
}

/// Letting a name stand for a location keeps the names of a list distinct,
/// and adds no name but that one.
proof fn lemma_with_alias(list: Seq<AliasView>, name: Seq<char>, location: Seq<char>)
    requires
        distinct_names(list),
    ensures
        distinct_names(with_alias(list, name, location)),
        forall|i: int|
            0 <= i < with_alias(list, name, location).len() ==> (#[trigger] with_alias(
                list,
                name,
                location,
            )[i]).name == name || has_name(list, with_alias(list, name, location)[i].name),
    decreases list.len(),
{
    let out = with_alias(list, name, location);
    if list.len() == 0 {
    } else if list[0].name == name {
        assert forall|i: int| 0 <= i < out.len() implies (#[trigger] out[i]).name == name
            || has_name(list, out[i].name) by {
            if i > 0 {
                assert(out[i] == list[i]);
            }
        }
        assert forall|i: int, j: int|
            0 <= i < out.len() && 0 <= j < out.len() && i != j implies (#[trigger] out[i]).name != (
        #[trigger] out[j]).name by {
            assert(out[i].name == list[i].name);
            assert(out[j].name == list[j].name);
        }
    } else {
        let rest = list.skip(1);
        assert(distinct_names(rest)) by {
            assert forall|i: int, j: int|
                0 <= i < rest.len() && 0 <= j < rest.len() && i != j implies (
            #[trigger] rest[i]).name != (#[trigger] rest[j]).name by {
                assert(rest[i] == list[i + 1]);
                assert(rest[j] == list[j + 1]);
            }
        }
        lemma_with_alias(rest, name, location);
        let tail = with_alias(rest, name, location);
        assert(out == seq![list[0]] + tail);
        assert forall|i: int| 0 <= i < out.len() implies (#[trigger] out[i]).name == name
            || has_name(list, out[i].name) by {
            if i == 0 {
                assert(list[0].name == out[0].name);
            } else {
                assert(out[i] == tail[i - 1]);
                if tail[i - 1].name != name {
                    assert(has_name(rest, tail[i - 1].name));
                    let k = choose|k: int| 0 <= k < rest.len() && (#[trigger] rest[k]).name
                        == tail[i - 1].name;
                    assert(list[k + 1].name == out[i].name);
                }
            }
        }
        assert forall|i: int, j: int|
            0 <= i < out.len() && 0 <= j < out.len() && i != j implies (#[trigger] out[i]).name != (
        #[trigger] out[j]).name by {
            if i > 0 && j > 0 {
                assert(out[i] == tail[i - 1]);
                assert(out[j] == tail[j - 1]);
            } else {
                let other = if i == 0 {
                    j
                } else {
                    i
                };
                assert(out[other] == tail[other - 1]);
                if tail[other - 1].name == list[0].name {
                    assert(has_name(rest, tail[other - 1].name));
                    let k = choose|k: int| 0 <= k < rest.len() && (#[trigger] rest[k]).name
                        == tail[other - 1].name;
                    assert(list[k + 1] == rest[k]);
                    assert(list[k + 1].name == list[0].name);
                }
            }
        }
    }
}

proof fn lemma_with_aliases(list: Seq<AliasView>, properties: Seq<Property>)
    requires
        distinct_names(list),
    ensures
        distinct_names(with_aliases(list, properties)),
    decreases properties.len(),
{
    if properties.len() > 0 {
        lemma_with_aliases(list, properties.drop_last());
        lemma_with_alias(
            with_aliases(list, properties.drop_last()),
            properties.last().key@,
            properties.last().value@,
        );
    }
}

/// The aliases of a server are a mapping: no name occurs twice among them,
/// however often the configuration gives it.
pub proof fn lemma_aliases_distinct(sections: Seq<Section>, name: Seq<char>)
    ensures
        distinct_names(aliases_of(sections, name)),
    decreases sections.len(),
{
    if sections.len() > 0 {
        lemma_aliases_distinct(sections.drop_last(), name);
        if is_named(sections.last(), name) {
            lemma_with_aliases(aliases_of(sections.drop_last(), name), sections.last().properties@);
        }
    }
}

} // verus!
