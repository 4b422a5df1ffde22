//! What running a classified query comes to: a directory search, a report
//! on the configuration, or nothing at all.

use vstd::prelude::*;
use crate::query::{QueryType, SqldapQuery};
use crate::text::{ascii_upper, eq_ignore_case, to_chars};

verus! {

/// What a `SHOW` asks for.
#[derive(Clone, Copy, Debug, PartialEq, Eq, Structural)]
pub enum ShowTarget {
    /// The configured aliases.
    Tables,
    /// The configured servers.
    Databases,
    /// Nothing that is known: such a `SHOW` is accepted and reports nothing.
    Unrecognized,
}

/// A directory search over the whole subtree below `base`.
#[derive(Clone, Debug, PartialEq, Eq)]
pub struct SearchRequest {
    pub base: String,
    pub filter: String,
    pub attributes: Vec<String>,
}

/// What is to be done for a query.
#[derive(Clone, Debug, PartialEq, Eq)]
pub enum Execution {
    /// Search the directory and show what is found.
    Select(SearchRequest),
    /// Search the directory and plan the changes of the update from what
    /// is found. Nothing is changed.
    Update(SearchRequest),
    /// Report on the configuration.
    Show(ShowTarget),
}

/// A search request as a mathematical value.
pub struct SearchView {
    pub base: Seq<char>,
    pub filter: Seq<char>,
    pub attributes: Seq<Seq<char>>,
}

/// An execution as a mathematical value.
pub enum ExecutionView {
    Select(SearchView),
    Update(SearchView),
    Show(ShowTarget),
}

impl View for SearchRequest {
    type V = SearchView;

    open spec fn view(&self) -> SearchView {
        SearchView {
            base: self.base@,
            filter: self.filter@,
            attributes: self.attributes@.map_values(|s: String| s@),
        }
    }
}

impl View for Execution {
    type V = ExecutionView;

    open spec fn view(&self) -> ExecutionView {
        match self {
            Execution::Select(request) => ExecutionView::Select(request@),
            Execution::Update(request) => ExecutionView::Update(request@),
            Execution::Show(target) => ExecutionView::Show(*target),
        }
    }
}

/// What the variable `var` of a `SHOW` asks for. The case of its letters
/// does not matter.
pub open spec fn show_target(var: Seq<char>) -> ShowTarget {
    if eq_ignore_case(var, "TABLES"@) {
        ShowTarget::Tables
    } else if eq_ignore_case(var, "DATABASES"@) {
        ShowTarget::Databases
    } else {
        ShowTarget::Unrecognized
    }
}

/// The search that the query `q` calls for: below its table, with its
/// filter and for its attributes.
pub open spec fn search_of(q: SqldapQuery) -> SearchView {
    SearchView {
        base: q.table@,
        filter: q.filter@,
        attributes: q.identifiers@.map_values(|s: String| s@),
    }
}

/// What is to be done for the query `q`: its search, whose results are
/// shown for a selection and planned with for an update, or the report that
/// its variable asks for.
pub open spec fn execution_of(q: SqldapQuery) -> ExecutionView {
    match q.qtype {
        QueryType::Show => ExecutionView::Show(show_target(q.var@)),
        QueryType::Select => ExecutionView::Select(search_of(q)),
        QueryType::Update => ExecutionView::Update(search_of(q)),
    }
}

fn upper(c: char) -> (out: char)
    ensures
        out == ascii_upper(c),
{
    if 'a' <= c && c <= 'z' {
        ((c as u8) - 32) as char
    } else {
        c
    }
}

/// Whether two texts are equal up to the case of their ASCII letters.
pub fn same_ignoring_case(a: &str, b: &str) -> (same: bool)
    ensures
        same == eq_ignore_case(a@, b@),
{
    let x = to_chars(a);
    let y = to_chars(b);
    if x.len() != y.len() {
        return false;
    }
    let mut i: usize = 0;
    while i < x.len()
        invariant
            i <= x.len(),
            x.len() == y.len(),
            x@ == a@,
            y@ == b@,
            forall|j: int| 0 <= j < i ==> ascii_upper(#[trigger] x@[j]) == ascii_upper(y@[j]),
        decreases x.len() - i,
    {
        if upper(x[i]) != upper(y[i]) {
            return false;
        }
        i += 1;
    }
    true
}

/// Reads what the variable of a `SHOW` asks for.
pub fn show_variable(var: &str) -> (out: ShowTarget)
    ensures
        out == show_target(var@),
{
    if same_ignoring_case(var, "TABLES") {
        ShowTarget::Tables
    } else if same_ignoring_case(var, "DATABASES") {
        ShowTarget::Databases
    } else {
        ShowTarget::Unrecognized
    }
}

/// Says what is to be done for a query.
pub fn execution(query: &SqldapQuery) -> (out: Execution)
    ensures
        out@ == execution_of(*query),
{
    match query.qtype {
        QueryType::Show => Execution::Show(show_variable(query.var.as_str())),
        _ => {
            let mut attributes: Vec<String> = Vec::new();
            let mut i: usize = 0;
            while i < query.identifiers.len()
                invariant
                    i <= query.identifiers.len(),
                    attributes@.map_values(|s: String| s@) == query.identifiers@.take(
                        i as int,
                    ).map_values(|s: String| s@),
                decreases query.identifiers.len() - i,
            {
                let ghost before = attributes@.map_values(|s: String| s@);
                attributes.push(query.identifiers[i].clone());
                proof {
                    let name = query.identifiers@[i as int];
                    assert(attributes@.map_values(|s: String| s@) =~= before.push(name@));
                    assert(query.identifiers@.take(i + 1).map_values(|s: String| s@)
                        =~= query.identifiers@.take(i as int).map_values(|s: String| s@).push(
                        name@,
                    ));
                }
                i += 1;
            }
            assert(query.identifiers@.take(query.identifiers@.len() as int) == query.identifiers@);
            let request = SearchRequest {
                base: query.table.clone(),
                filter: query.filter.clone(),
                attributes,
            };
            match query.qtype {
                QueryType::Update => Execution::Update(request),
                _ => Execution::Select(request),
            }
        },
    }
}

} // verus!
