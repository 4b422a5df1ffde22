//! The query classifier: from a parsed statement and the configured aliases
//! to the normalized query that a directory search or a planned update is
//! made from.

use vstd::prelude::*;
use vstd::string::StringExecFns;
use crate::error::QueryError;
use crate::filter::{compile, lemma_wrap_once, parse_selection, wrap, Expression};
use crate::text::{from_chars, replace_all, replaced, strip_quotes, to_chars, unquote};

verus! {

/// One item of a projection.
#[derive(Debug)]
pub enum Column {
    /// An expression without an alias.
    Expression(Expression),
    /// The wildcard `*`: all attributes.
    Wildcard,
    /// Anything else: an aliased expression, a qualified wildcard.
    Other,
}

/// One source of a selection.
#[derive(Debug)]
pub enum Source {
    /// A plainly named location. The name is spelled as in the statement,
    /// with the quotes of a quoted name.
    Table(String),
    /// Anything else: a join, a derived table, a table function.
    Other,
}

/// A selection: what to show, from where, and under which condition.
#[derive(Debug)]
pub struct SelectStmt {
    pub projection: Vec<Column>,
    pub from: Vec<Source>,
    pub selection: Option<Expression>,
}

/// One assignment of an update.
#[derive(Debug)]
pub struct Assign {
    /// The attribute that is assigned to.
    pub id: String,
    /// The value that it is to hold.
    pub value: Expression,
}

/// An update: which entries to change, and how.
#[derive(Debug)]
pub struct UpdateStmt {
    /// The parts of the target's name, each without its quotes.
    pub table: Vec<String>,
    pub assignments: Vec<Assign>,
    pub selection: Option<Expression>,
}

/// A statement, as a parser hands it over.
#[derive(Debug)]
pub enum Stmt {
    Select(SelectStmt),
    Update(UpdateStmt),
    /// `SHOW` and the name of a variable.
    Show(String),
    /// Any other statement.
    Other,
}

/// A short name for a base location, from the configuration.
#[derive(Clone, Debug, PartialEq, Eq)]
pub struct Alias {
    pub name: String,
    pub location: String,
}

/// An alias as a mathematical value.
pub struct AliasView {
    pub name: Seq<char>,
    pub location: Seq<char>,
}

impl View for Alias {
    type V = AliasView;

    open spec fn view(&self) -> AliasView {
        AliasView { name: self.name@, location: self.location@ }
    }
}

/// The kind of a query.
#[derive(Clone, Copy, Debug, PartialEq, Eq, Structural)]
pub enum QueryType {
    Select,
    Show,
    Update,
}

/// A classified statement.
#[derive(Clone, Debug, PartialEq, Eq)]
pub struct SqldapQuery {
    pub qtype: QueryType,
    /// The attribute names, in the order of the statement. A name may occur
    /// more than once.
    pub identifiers: Vec<String>,
    /// Whether the projection asks for all attributes.
    pub wildcard: bool,
    /// The base location. A selection has every alias resolved in it; an
    /// update names its target as it is written.
    pub table: String,
    /// The search filter.
    pub filter: String,
    /// The variable of a `SHOW`, as it was written.
    pub var: String,
}

/// A replacement of all the values of an attribute.
#[derive(Clone, Debug, PartialEq, Eq)]
pub struct Directive {
    pub attribute: String,
    pub values: Vec<String>,
}

/// What classification yields: the query, the directives of an update, and
/// what the operator should be told.
#[derive(Clone, Debug, PartialEq, Eq)]
pub struct Classification {
    pub query: SqldapQuery,
    pub directives: Vec<Directive>,
    pub notices: Vec<String>,
}

/// A query as a mathematical value.
pub struct QueryView {
    pub qtype: QueryType,
    pub identifiers: Seq<Seq<char>>,
    pub wildcard: bool,
    pub table: Seq<char>,
    pub filter: Seq<char>,
    pub var: Seq<char>,
}

/// A directive as a mathematical value.
pub struct DirectiveView {
    pub attribute: Seq<char>,
    pub values: Seq<Seq<char>>,
}

/// A classification as a mathematical value.
pub struct ClassificationView {
    pub query: QueryView,
    pub directives: Seq<DirectiveView>,
    pub notices: Seq<Seq<char>>,
}

impl View for SqldapQuery {
    type V = QueryView;

    open spec fn view(&self) -> QueryView {
        QueryView {
            qtype: self.qtype,
            identifiers: self.identifiers@.map_values(|s: String| s@),
            wildcard: self.wildcard,
            table: self.table@,
            filter: self.filter@,
            var: self.var@,
        }
    }
}

impl View for Directive {
    type V = DirectiveView;

    open spec fn view(&self) -> DirectiveView {
        DirectiveView {
            attribute: self.attribute@,
            values: self.values@.map_values(|s: String| s@),
        }
    }
}

impl View for Classification {
    type V = ClassificationView;

    open spec fn view(&self) -> ClassificationView {
        ClassificationView {
            query: self.query@,
            directives: self.directives@.map_values(|d: Directive| d@),
            notices: self.notices@.map_values(|s: String| s@),
        }
    }
}

/// The filter that matches every entry.
pub open spec fn match_all_filter() -> Seq<char> {
    "(objectClass=*)"@
}

/// What the operator is told when the match-all filter was put in.
pub open spec fn default_filter_notice() -> Seq<char> {
    "'WHERE attr=val' was not supplied, added (objectClass=*) as search filter.\n"@
}

/// The attribute by which an entry's distinguished name is read back.
pub open spec fn dn_attribute() -> Seq<char> {
    "entrydn"@
}

/// The token that stands for the alias `name` in a location.
pub open spec fn marker(name: Seq<char>) -> Seq<char> {
    seq!['@'] + name
}

/// `location` after the aliases were substituted one after the other, each
/// in every place where its token stands at that time.
pub open spec fn resolve(location: Seq<char>, aliases: Seq<Alias>) -> Seq<char>
    decreases aliases.len(),
{
    if aliases.len() == 0 {
        location
    } else {
        replace_all(
            resolve(location, aliases.drop_last()),
            marker(aliases.last().name@),
            aliases.last().location@,
        )
    }
}

/// `s` holds no alias marker.
pub open spec fn marker_free(s: Seq<char>) -> bool {
    forall|i: int| 0 <= i < s.len() ==> #[trigger] s[i] != '@'
}

/// The text behind position `at` of `s` starts with the name of one of the
/// aliases from index `from` on.
pub open spec fn names_alias(s: Seq<char>, at: int, aliases: Seq<Alias>, from: int) -> bool {
    exists|j: int|
        from <= j < aliases.len() && #[trigger] aliases[j].name@.is_prefix_of(s.skip(at + 1))
}

/// Every marker in `s` is followed by the name of one of the aliases from
/// index `from` on.
pub open spec fn markers_named(s: Seq<char>, aliases: Seq<Alias>, from: int) -> bool {
    forall|i: int|
        0 <= i < s.len() && s[i] == '@' ==> #[trigger] names_alias(s, i, aliases, from)
}

/// Neither the names nor the locations of the aliases hold a marker.
pub open spec fn aliases_plain(aliases: Seq<Alias>) -> bool {
    forall|j: int|
        0 <= j < aliases.len() ==> marker_free((#[trigger] aliases[j]).name@) && marker_free(
            aliases[j].location@,
        )
}

/// A text without markers that starts `t` still starts `t` after a token was
/// replaced in it.
proof fn lemma_replace_keeps_prefix(m: Seq<char>, t: Seq<char>, pat: Seq<char>, to: Seq<char>)
    requires
        marker_free(m),
        pat.len() > 0,
        pat[0] == '@',
        m.is_prefix_of(t),
    ensures
        m.is_prefix_of(replace_all(t, pat, to)),
    decreases m.len(),
{
    if m.len() > 0 && t.len() >= pat.len() {
        assert(t[0] == m[0]);
        assert(!pat.is_prefix_of(t)) by {
            if pat.is_prefix_of(t) {
                assert(t.subrange(0, pat.len() as int)[0] == pat[0]);
            }
        }
        let rest = replace_all(t.skip(1), pat, to);
        assert(m.skip(1).is_prefix_of(t.skip(1))) by {
            assert(m.skip(1) =~= t.skip(1).subrange(0, m.len() - 1));
        }
        lemma_replace_keeps_prefix(m.skip(1), t.skip(1), pat, to);
        let whole = seq![t[0]] + rest;
        assert(m =~= whole.subrange(0, m.len() as int)) by {
            assert forall|i: int| 0 <= i < m.len() implies m[i] == whole[i] by {
                if i > 0 {
                    assert(m.skip(1)[i - 1] == rest.subrange(0, m.len() - 1)[i - 1]);
                }
            }
        }
    }
}

/// Substituting the alias at index `k` leaves only markers that one of the
/// later aliases names.
proof fn lemma_substitution_step(s: Seq<char>, aliases: Seq<Alias>, k: int)
    requires
        0 <= k < aliases.len(),
        aliases_plain(aliases),
        markers_named(s, aliases, k),
    ensures
        markers_named(
            replace_all(s, marker(aliases[k].name@), aliases[k].location@),
            aliases,
            k + 1,
        ),
    decreases s.len(),
{
    let name = aliases[k].name@;
    let pat = marker(name);
    let to = aliases[k].location@;
    let out = replace_all(s, pat, to);
    assert(pat.len() == name.len() + 1);
    assert(pat[0] == '@');
    if s.len() < pat.len() {
        assert forall|i: int| 0 <= i < out.len() && out[i] == '@' implies #[trigger] names_alias(
            out,
            i,
            aliases,
            k + 1,
        ) by {
            assert(names_alias(s, i, aliases, k));
            let j = choose|j: int|
                k <= j < aliases.len() && #[trigger] aliases[j].name@.is_prefix_of(s.skip(i + 1));
            assert(j != k);
        }
    } else if pat.is_prefix_of(s) {
        let rest = s.skip(pat.len() as int);
        assert forall|i: int| 0 <= i < rest.len() && rest[i] == '@' implies #[trigger] names_alias(
            rest,
            i,
            aliases,
            k,
        ) by {
            assert(s[i + pat.len()] == '@');
            assert(names_alias(s, i + pat.len(), aliases, k));
            assert(s.skip(i + pat.len() + 1) == rest.skip(i + 1));
        }
        lemma_substitution_step(rest, aliases, k);
        let tail = replace_all(rest, pat, to);
        assert(out == to + tail);
        assert forall|i: int| 0 <= i < out.len() && out[i] == '@' implies #[trigger] names_alias(
            out,
            i,
            aliases,
            k + 1,
        ) by {
            assert(i >= to.len()) by {
                if i < to.len() {
                    assert(out[i] == to[i]);
                }
            }
            assert(tail[i - to.len()] == '@');
            assert(names_alias(tail, i - to.len(), aliases, k + 1));
            assert(out.skip(i + 1) == tail.skip(i - to.len() + 1));
        }
    } else {
        let rest = s.skip(1);
        assert forall|i: int| 0 <= i < rest.len() && rest[i] == '@' implies #[trigger] names_alias(
            rest,
            i,
            aliases,
            k,
        ) by {
            assert(s[i + 1] == '@');
            assert(names_alias(s, i + 1, aliases, k));
            assert(s.skip(i + 2) == rest.skip(i + 1));
        }
        lemma_substitution_step(rest, aliases, k);
        let tail = replace_all(rest, pat, to);
        assert(out == seq![s[0]] + tail);
        assert forall|i: int| 0 <= i < out.len() && out[i] == '@' implies #[trigger] names_alias(
            out,
            i,
            aliases,
            k + 1,
        ) by {
            if i == 0 {
                assert(s[0] == '@');
                assert(names_alias(s, 0, aliases, k));
                let j = choose|j: int|
                    k <= j < aliases.len() && #[trigger] aliases[j].name@.is_prefix_of(s.skip(1));
                assert(j != k) by {
                    if j == k {
                        assert(pat =~= s.subrange(0, pat.len() as int)) by {
                            assert forall|x: int| 0 <= x < pat.len() implies pat[x] == s[x] by {
                                if x > 0 {
                                    assert(name[x - 1] == rest.subrange(
                                        0,
                                        name.len() as int,
                                    )[x - 1]);
                                }
                            }
                        }
                    }
                }
                lemma_replace_keeps_prefix(aliases[j].name@, rest, pat, to);
                assert(out.skip(1) == tail);
            } else {
                assert(tail[i - 1] == '@');
                assert(names_alias(tail, i - 1, aliases, k + 1));
                assert(out.skip(i + 1) == tail.skip(i));
            }
        }
    }
}

/// Substituting the first `k` aliases leaves only markers that one of the
/// others names.
proof fn lemma_resolve_prefix(location: Seq<char>, aliases: Seq<Alias>, k: int)
    requires
        0 <= k <= aliases.len(),
        aliases_plain(aliases),
        markers_named(location, aliases, 0),
    ensures
        markers_named(resolve(location, aliases.take(k)), aliases, k),
    decreases k,
{
    if k > 0 {
        lemma_resolve_prefix(location, aliases, k - 1);
        assert(aliases.take(k).drop_last() == aliases.take(k - 1));
        assert(aliases.take(k).last() == aliases[k - 1]);
        lemma_substitution_step(resolve(location, aliases.take(k - 1)), aliases, k - 1);
    }
}

/// Where every marker of a location is followed by the name of an alias,
/// and no alias holds a marker in its name or in what it stands for, the
/// resolved location holds no marker, however many aliases the location
/// mentions and in whatever order they are listed.
pub proof fn lemma_resolved_holds_no_marker(location: Seq<char>, aliases: Seq<Alias>)
    requires
        aliases_plain(aliases),
        markers_named(location, aliases, 0),
    ensures
        marker_free(resolve(location, aliases)),
{
    lemma_resolve_prefix(location, aliases, aliases.len() as int);
    assert(aliases.take(aliases.len() as int) == aliases);
    let out = resolve(location, aliases);
    assert forall|i: int| 0 <= i < out.len() implies #[trigger] out[i] != '@' by {
        if out[i] == '@' {
            assert(names_alias(out, i, aliases, aliases.len() as int));
        }
    }
}

/// Whether a projection item is an attribute name or the wildcard.
pub open spec fn item_supported(item: Column) -> bool {
    match item {
        Column::Expression(Expression::Identifier(_)) => true,
        Column::Wildcard => true,
        _ => false,
    }
}

/// The attribute names of a projection, in order.
pub open spec fn projection_names(items: Seq<Column>) -> Seq<Seq<char>>
    decreases items.len(),
{
    if items.len() == 0 {
        Seq::empty()
    } else {
        let rest = projection_names(items.drop_last());
        match items.last() {
            Column::Expression(Expression::Identifier(name)) => rest.push(name@),
            _ => rest,
        }
    }
}

/// Whether a projection holds the wildcard.
pub open spec fn projection_wildcard(items: Seq<Column>) -> bool {
    exists|i: int| 0 <= i < items.len() && #[trigger] items[i] is Wildcard
}

/// The filter of a condition: the compiled text inside one pair of
/// parentheses.
pub open spec fn condition_filter(condition: Expression) -> Result<Seq<char>, QueryError> {
    match compile(condition) {
        Ok(text) => Ok(wrap(text)),
        Err(e) => Err(e),
    }
}

/// The classification of a selection.
///
/// The projection is looked at first, then the source, then the condition;
/// the first of them that is not supported decides the error.
pub open spec fn select_classification(s: SelectStmt, aliases: Seq<Alias>) -> Result<
    ClassificationView,
    QueryError,
> {
    if !(forall|i: int| 0 <= i < s.projection@.len() ==> item_supported(#[trigger] s.projection@[i])) {
        Err(QueryError::UnsupportedProjection)
    } else if !(s.from@.len() == 1 && s.from@[0] is Table) {
        Err(QueryError::UnsupportedTableExpression)
    } else {
        let table = resolve(strip_quotes(s.from@[0]->Table_0@), aliases);
        let identifiers = projection_names(s.projection@);
        let wildcard = projection_wildcard(s.projection@);
        match s.selection {
            None => Ok(
                ClassificationView {
                    query: QueryView {
                        qtype: QueryType::Select,
                        identifiers,
                        wildcard,
                        table,
                        filter: match_all_filter(),
                        var: Seq::empty(),
                    },
                    directives: Seq::empty(),
                    notices: seq![default_filter_notice()],
                },
            ),
            Some(condition) => match condition_filter(condition) {
                Err(e) => Err(e),
                Ok(filter) => Ok(
                    ClassificationView {
                        query: QueryView {
                            qtype: QueryType::Select,
                            identifiers,
                            wildcard,
                            table,
                            filter,
                            var: Seq::empty(),
                        },
                        directives: Seq::empty(),
                        notices: Seq::empty(),
                    },
                ),
            },
        }
    }
}

/// The filter of a classified selection is never empty: it is a wrapped
/// condition, or the filter that matches every entry.
pub proof fn lemma_select_filter_not_empty(s: SelectStmt, aliases: Seq<Alias>)
    requires
        select_classification(s, aliases) is Ok,
    ensures
        select_classification(s, aliases)->Ok_0.query.filter.len() > 0,
        select_classification(s, aliases)->Ok_0.query.filter[0] == '(',
{
    reveal_strlit("(objectClass=*)");
    match s.selection {
        Some(condition) => {
            lemma_wrap_once(compile(condition)->Ok_0);
        },
        None => {},
    }
}

/// A selection without a condition gets the filter that matches every
/// entry, and the operator is told so in one line. A selection with a
/// condition gives the operator nothing to read.
pub proof fn lemma_select_default_filter(s: SelectStmt, aliases: Seq<Alias>)
    requires
        select_classification(s, aliases) is Ok,
    ensures
        s.selection is None ==> select_classification(s, aliases)->Ok_0.query.filter
            == match_all_filter() && select_classification(s, aliases)->Ok_0.notices == seq![
            default_filter_notice(),
        ],
        s.selection is Some ==> select_classification(s, aliases)->Ok_0.notices.len() == 0,
{
}

/// Whether an assignment binds a literal or an identifier.
pub open spec fn assignment_supported(a: Assign) -> bool {
    a.value is Literal || a.value is Identifier
}

/// The text of the value that a supported assignment binds.
pub open spec fn assigned_text(a: Assign) -> Seq<char> {
    match a.value {
        Expression::Literal(t) => t@,
        Expression::Identifier(t) => t@,
        _ => Seq::empty(),
    }
}

/// The directive that a supported assignment stands for: the attribute is
/// to hold the assigned value and no other.
pub open spec fn directive_of(a: Assign) -> DirectiveView {
    DirectiveView { attribute: a.id@, values: seq![assigned_text(a)] }
}

/// What the operator is told of a part of the name of the target of an
/// update.
pub open spec fn target_notice(part: Seq<char>) -> Seq<char> {
    "table_name: "@ + part
}

/// The classification of an update.
///
/// The target is the last part of its name, taken as it is: no alias is
/// substituted in it. Without a condition the filter stays empty. The
/// operator is told each part of the name of the target.
pub open spec fn update_classification(u: UpdateStmt) -> Result<ClassificationView, QueryError> {
    if !(forall|i: int| 0 <= i < u.assignments@.len() ==> assignment_supported(#[trigger] u.assignments@[i])) {
        Err(QueryError::UnsupportedAssignment)
    } else {
        let filter = match u.selection {
            None => Ok(Seq::empty()),
            Some(condition) => condition_filter(condition),
        };
        match filter {
            Err(e) => Err(e),
            Ok(filter) => Ok(
                ClassificationView {
                    query: QueryView {
                        qtype: QueryType::Update,
                        identifiers: u.assignments@.map_values(|a: Assign| a.id@).push(
                            dn_attribute(),
                        ),
                        wildcard: false,
                        table: if u.table@.len() == 0 {
                            Seq::empty()
                        } else {
                            u.table@.last()@
                        },
                        filter,
                        var: Seq::empty(),
                    },
                    directives: u.assignments@.map_values(|a: Assign| directive_of(a)),
                    notices: u.table@.map_values(|part: String| target_notice(part@)),
                },
            ),
        }
    }
}

/// The classification of a statement.
pub open spec fn classification(statement: Stmt, aliases: Seq<Alias>) -> Result<
    ClassificationView,
    QueryError,
> {
    match statement {
        Stmt::Select(s) => select_classification(s, aliases),
        Stmt::Update(u) => update_classification(u),
        Stmt::Show(var) => Ok(
            ClassificationView {
                query: QueryView {
                    qtype: QueryType::Show,
                    identifiers: Seq::empty(),
                    wildcard: false,
                    table: Seq::empty(),
                    filter: Seq::empty(),
                    var: var@,
                },
                directives: Seq::empty(),
                notices: Seq::empty(),
            },
        ),
        Stmt::Other => Err(QueryError::UnsupportedStatement),
    }
}

/// Whether `out` is the classification or the error that `want` holds.
pub open spec fn classified(
    out: Result<Classification, QueryError>,
    want: Result<ClassificationView, QueryError>,
) -> bool {
    match out {
        Ok(c) => want == Ok::<ClassificationView, QueryError>(c@),
        Err(e) => want == Err::<ClassificationView, QueryError>(e),
    }
}

/// Substitutes the aliases in a location.
pub fn resolve_table(location: &str, aliases: &Vec<Alias>) -> (out: String)
    ensures
        out@ == resolve(location@, aliases@),
{
    let mut current = to_chars(location);
    let mut i: usize = 0;
    while i < aliases.len()
        invariant
            i <= aliases.len(),
            current@ == resolve(location@, aliases@.take(i as int)),
        decreases aliases.len() - i,
    {
        let alias = &aliases[i];
        let mut token: Vec<char> = Vec::new();
        token.push('@');
        let mut name = to_chars(alias.name.as_str());
        token.append(&mut name);
        let value = to_chars(alias.location.as_str());
        assert(token@ == marker(alias.name@));
        assert(aliases@.take(i + 1).drop_last() == aliases@.take(i as int));
        current = replaced(&current, &token, &value);
        i += 1;
    }
    assert(aliases@.take(aliases@.len() as int) == aliases@);
    from_chars(&current)
}

/// Puts a compiled filter text inside one pair of parentheses, unless it
/// opens with one already.
pub fn wrap_filter(text: String) -> (out: String)
    ensures
        out@ == wrap(text@),
{
    let chars = to_chars(text.as_str());
    if chars.len() > 0 && chars[0] == '(' {
        text
    } else {
        let mut out = String::new();
        out.push('(');
        let mut i: usize = 0;
        while i < chars.len()
            invariant
                i <= chars.len(),
                out@ == seq!['('] + chars@.take(i as int),
            decreases chars.len() - i,
        {
            out.push(chars[i]);
            i += 1;
        }
        assert(chars@.take(chars@.len() as int) == chars@);
        out.push(')');
        out
    }
}

/// Compiles a condition into the filter of a query.
fn filter_of(condition: &Expression) -> (out: Result<String, QueryError>)
    ensures
        match out {
            Ok(s) => condition_filter(*condition) == Ok::<Seq<char>, QueryError>(s@),
            Err(e) => condition_filter(*condition) == Err::<Seq<char>, QueryError>(e),
        },
{
    match parse_selection(condition) {
        Ok(text) => Ok(wrap_filter(text)),
        Err(e) => Err(e),
    }
}

fn classify_select(s: &SelectStmt, aliases: &Vec<Alias>) -> (out: Result<Classification, QueryError>)
    ensures
        classified(out, select_classification(*s, aliases@)),
{
    let mut identifiers: Vec<String> = Vec::new();
    let mut wildcard = false;
    let mut i: usize = 0;
    while i < s.projection.len()
        invariant
            i <= s.projection.len(),
            forall|j: int| 0 <= j < i ==> item_supported(#[trigger] s.projection@[j]),
            identifiers@.map_values(|t: String| t@) == projection_names(
                s.projection@.take(i as int),
            ),
            wildcard == projection_wildcard(s.projection@.take(i as int)),
        decreases s.projection.len() - i,
    {
        let ghost before = s.projection@.take(i as int);
        let ghost after = s.projection@.take(i + 1);
        assert(after.drop_last() == before);
        match &s.projection[i] {
            Column::Expression(Expression::Identifier(name)) => {
                let ghost old_names = identifiers@;
                identifiers.push(name.clone());
                assert(identifiers@.map_values(|t: String| t@) == old_names.map_values(
                    |t: String| t@,
                ).push(name@));
                assert(wildcard == projection_wildcard(after)) by {
                    if projection_wildcard(after) {
                        let k = choose|k: int| 0 <= k < after.len() && #[trigger] after[k] is Wildcard;
                        assert(before[k] is Wildcard);
                    }
                    if projection_wildcard(before) {
                        let k = choose|k: int| 0 <= k < before.len() && #[trigger] before[k] is Wildcard;
                        assert(after[k] is Wildcard);
                    }
                }
            },
            Column::Wildcard => {
                wildcard = true;
                assert(after[i as int] is Wildcard);
            },
            _ => {
                return Err(QueryError::UnsupportedProjection);
            },
        }
        i += 1;
    }
    assert(s.projection@.take(s.projection@.len() as int) == s.projection@);
    if s.from.len() != 1 {
        return Err(QueryError::UnsupportedTableExpression);
    }
    let table = match &s.from[0] {
        Source::Table(name) => {
            let bare = from_chars(&unquote(&to_chars(name.as_str())));
            resolve_table(bare.as_str(), aliases)
        },
        Source::Other => {
            return Err(QueryError::UnsupportedTableExpression);
        },
    };
    let mut notices: Vec<String> = Vec::new();
    let filter = match &s.selection {
        None => {
            notices.push(
                String::from_str(
                    "'WHERE attr=val' was not supplied, added (objectClass=*) as search filter.\n",
                ),
            );
            String::from_str("(objectClass=*)")
        },
        Some(condition) => match filter_of(condition) {
            Ok(filter) => filter,
            Err(e) => {
                return Err(e);
            },
        },
    };
    let out = Classification {
        query: SqldapQuery {
            qtype: QueryType::Select,
            identifiers,
            wildcard,
            table,
            filter,
            var: String::new(),
        },
        directives: Vec::new(),
        notices,
    };
    proof {
        let want = select_classification(*s, aliases@)->Ok_0;
        assert(out@.directives =~= want.directives);
        assert(out@.notices =~= want.notices);
    }
    Ok(out)
}

fn classify_update(u: &UpdateStmt) -> (out: Result<Classification, QueryError>)
    ensures
        classified(out, update_classification(*u)),
{
    let mut identifiers: Vec<String> = Vec::new();
    let mut directives: Vec<Directive> = Vec::new();
    let mut i: usize = 0;
    while i < u.assignments.len()
        invariant
            i <= u.assignments.len(),
            forall|j: int| 0 <= j < i ==> assignment_supported(#[trigger] u.assignments@[j]),
            identifiers@.map_values(|t: String| t@) == u.assignments@.take(i as int).map_values(
                |a: Assign| a.id@,
            ),
            directives@.map_values(|d: Directive| d@) == u.assignments@.take(
                i as int,
            ).map_values(|a: Assign| directive_of(a)),
        decreases u.assignments.len() - i,
    {
        let assignment = &u.assignments[i];
        let text = match &assignment.value {
            Expression::Literal(t) => t.clone(),
            Expression::Identifier(t) => t.clone(),
            _ => {
                return Err(QueryError::UnsupportedAssignment);
            },
        };
        let mut values: Vec<String> = Vec::new();
        values.push(text);
        let directive = Directive { attribute: assignment.id.clone(), values };
        assert(directive@.values =~= seq![assigned_text(*assignment)]);
        assert(directive@ == directive_of(*assignment));
        let ghost old_identifiers = identifiers@;
        let ghost old_directives = directives@;
        let ghost before = u.assignments@.take(i as int);
        let ghost after = u.assignments@.take(i + 1);
        identifiers.push(assignment.id.clone());
        directives.push(directive);
        proof {
            assert(after == before.push(*assignment));
            assert(identifiers@ == old_identifiers.push(identifiers@.last()));
            assert(directives@ == old_directives.push(directive));
            assert(identifiers@.map_values(|t: String| t@) =~= old_identifiers.map_values(
                |t: String| t@,
            ).push(assignment.id@));
            assert(after.map_values(|a: Assign| a.id@) =~= before.map_values(
                |a: Assign| a.id@,
            ).push(assignment.id@));
            assert(directives@.map_values(|d: Directive| d@) =~= old_directives.map_values(
                |d: Directive| d@,
            ).push(directive@));
            assert(after.map_values(|a: Assign| directive_of(a)) =~= before.map_values(
                |a: Assign| directive_of(a),
            ).push(directive_of(*assignment)));
        }
        i += 1;
    }
    assert(u.assignments@.take(u.assignments@.len() as int) == u.assignments@);
    identifiers.push(String::from_str("entrydn"));
    let filter = match &u.selection {
        None => String::new(),
        Some(condition) => match filter_of(condition) {
            Ok(filter) => filter,
            Err(e) => {
                return Err(e);
            },
        },
    };
    let table = if u.table.len() == 0 {
        String::new()
    } else {
        u.table[u.table.len() - 1].clone()
    };
    let mut notices: Vec<String> = Vec::new();
    let ghost told = u.table@.map_values(|part: String| target_notice(part@));
    let mut k: usize = 0;
    assert(notices@.map_values(|s: String| s@) =~= told.take(0));
    while k < u.table.len()
        invariant
            k <= u.table.len(),
            told == u.table@.map_values(|part: String| target_notice(part@)),
            notices@.map_values(|s: String| s@) == told.take(k as int),
        decreases u.table.len() - k,
    {
        let notice = String::from_str("table_name: ").concat(u.table[k].as_str());
        let ghost before = notices@.map_values(|s: String| s@);
        notices.push(notice);
        proof {
            assert(notices@.map_values(|s: String| s@) =~= before.push(notice@));
            assert(told.take(k + 1) =~= told.take(k as int).push(told[k as int]));
        }
        k += 1;
    }
    assert(told.take(told.len() as int) == told);
    let out = Classification {
        query: SqldapQuery {
            qtype: QueryType::Update,
            identifiers,
            wildcard: false,
            table,
            filter,
            var: String::new(),
        },
        directives,
        notices,
    };
    proof {
        let want = update_classification(*u)->Ok_0;
        assert(out@.query.identifiers =~= want.query.identifiers);
        assert(out@.notices =~= want.notices);
    }
    Ok(out)
}

/// Classifies a parsed statement.
///
/// Succeeds exactly on the statements for which [`classification`] gives a
/// classification, and then returns it; otherwise returns the error that
/// [`classification`] gives.
pub fn classify(statement: &Stmt, aliases: &Vec<Alias>) -> (out: Result<
    Classification,
    QueryError,
>)
    ensures
        classified(out, classification(*statement, aliases@)),
{
    match statement {
        Stmt::Select(s) => classify_select(s, aliases),
        Stmt::Update(u) => classify_update(u),
        Stmt::Show(var) => {
            let out = Classification {
                query: SqldapQuery {
                    qtype: QueryType::Show,
                    identifiers: Vec::new(),
                    wildcard: false,
                    table: String::new(),
                    filter: String::new(),
                    var: var.clone(),
                },
                directives: Vec::new(),
                notices: Vec::new(),
            };
            proof {
                let want = classification(*statement, aliases@)->Ok_0;
                assert(out@.query.identifiers =~= want.query.identifiers);
                assert(out@.directives =~= want.directives);
                assert(out@.notices =~= want.notices);
            }
            Ok(out)
        },
        Stmt::Other => Err(QueryError::UnsupportedStatement),
    }
}

} // verus!
