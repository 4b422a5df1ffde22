//! What a selection shows: the entries that a search returned, laid out as
//! one wide table, or, where that table is wider than the screen, as one
//! table of names and values for each entry.
//!
//! The tables themselves are drawn by `term_table`. What is decided here is
//! which rows go into which table, and which tables are shown.

use vstd::prelude::*;
use vstd::string::StringExecFns;
use vstd::string::StringSliceAdditionalSpecFns;
use crate::order::{increasing, insert_name, lemma_with_name, with_name};
use crate::text::{join, joined};
use crate::update::{Attribute, Entry};

verus! {

/// The name of an attribute with all its values as one text.
#[derive(Clone, Debug, PartialEq, Eq)]
pub struct Field {
    pub name: String,
    pub value: String,
}

/// A field as a mathematical value.
pub struct FieldView {
    pub name: Seq<char>,
    pub value: Seq<char>,
}

impl View for Field {
    type V = FieldView;

    open spec fn view(&self) -> FieldView {
        FieldView { name: self.name@, value: self.value@ }
    }
}

/// The views of the fields of a record.
pub open spec fn fields_view(record: Seq<Field>) -> Seq<FieldView> {
    record.map_values(|f: Field| f@)
}

/// The views of records.
pub open spec fn records_view(records: Seq<Vec<Field>>) -> Seq<Seq<FieldView>> {
    records.map_values(|r: Vec<Field>| fields_view(r@))
}

/// The views of the cells of a row.
pub open spec fn row_view(row: Seq<String>) -> Seq<Seq<char>> {
    row.map_values(|s: String| s@)
}

/// The views of rows.
pub open spec fn rows_view(rows: Seq<Vec<String>>) -> Seq<Seq<Seq<char>>> {
    rows.map_values(|r: Vec<String>| row_view(r@))
}

/// The text that `term_table` draws for a table of the given rows in its
/// simple style, every cell aligned to the left and one column wide.
pub uninterp spec fn simple_table(rows: Seq<Seq<Seq<char>>>) -> Seq<char>;

/// Draws a table with `term_table`: a `Table` in `TableStyle::simple()`,
/// one `Row` for each row, one `TableCell` for each cell, aligned to the
/// left and one column wide, then `Table::render`. The text depends on the
/// rows alone, and that text is what the contract names.
#[verifier::external_body]
#[allow(deprecated)]
pub(crate) fn render_table(rows: &Vec<Vec<String>>) -> (out: String)
    ensures
        out@ == simple_table(rows_view(rows@)),
{
    let mut table = term_table::Table::new();
    table.style = term_table::TableStyle::simple();
    for row in rows {
        let cells = row.iter().map(
            |text|
                term_table::table_cell::TableCell::new_with_alignment(
                    text,
                    1,
                    term_table::table_cell::Alignment::Left,
                ),
        );
        table.add_row(term_table::row::Row::new(cells));
    }
    table.render()
}

/// The values of an attribute as one text, one value on each line.
pub open spec fn attribute_text(a: Attribute) -> Seq<char> {
    joined(a.values@.map_values(|s: String| s@), '\n')
}

/// The field of an attribute.
pub open spec fn field_of(a: Attribute) -> FieldView {
    FieldView { name: a.name@, value: attribute_text(a) }
}

/// The record of an entry: one field for each of its attributes.
pub open spec fn record_of(entry: Entry) -> Seq<FieldView> {
    entry.attrs@.map_values(|a: Attribute| field_of(a))
}

/// The fields of all the entries, in order.
pub open spec fn all_fields(entries: Seq<Entry>) -> Seq<FieldView>
    decreases entries.len(),
{
    if entries.len() == 0 {
        Seq::empty()
    } else {
        all_fields(entries.drop_last()) + record_of(entries.last())
    }
}

/// All the entries as one record of one field: the values of all the fields,
/// one on each line, under the name of the last.
pub open spec fn merged(entries: Seq<Entry>) -> Seq<FieldView> {
    let fields = all_fields(entries);
    seq![
        FieldView {
            name: if fields.len() == 0 {
                Seq::empty()
            } else {
                fields.last().name
            },
            value: joined(fields.map_values(|f: FieldView| f.value), '\n'),
        },
    ]
}

/// The records to show: one for each entry, or, where a single attribute
/// was asked for, one for all the entries together.
pub open spec fn records_of(entries: Seq<Entry>, single: bool) -> Seq<Seq<FieldView>> {
    if single {
        seq![merged(entries)]
    } else {
        entries.map_values(|e: Entry| record_of(e))
    }
}

/// The value that a record holds under `name`: that of the last field of
/// that name.
pub open spec fn lookup(record: Seq<FieldView>, name: Seq<char>) -> Option<Seq<char>>
    decreases record.len(),
{
    if record.len() == 0 {
        None
    } else if record.last().name == name {
        Some(record.last().value)
    } else {
        lookup(record.drop_last(), name)
    }
}

/// The cell of a record in the column `name`: its value, or nothing.
pub open spec fn cell(record: Seq<FieldView>, name: Seq<char>) -> Seq<char> {
    match lookup(record, name) {
        Some(value) => value,
        None => Seq::empty(),
    }
}

/// The row of a record in a wide table.
pub open spec fn wide_row(columns: Seq<Seq<char>>, record: Seq<FieldView>) -> Seq<Seq<char>> {
    columns.map_values(|name: Seq<char>| cell(record, name))
}

/// The rows of the wide table: the column names, then one row for each
/// record. Without columns there are no rows.
pub open spec fn wide_rows(columns: Seq<Seq<char>>, records: Seq<Seq<FieldView>>) -> Seq<
    Seq<Seq<char>>,
> {
    if columns.len() == 0 {
        Seq::empty()
    } else {
        seq![columns] + records.map_values(|r: Seq<FieldView>| wide_row(columns, r))
    }
}

/// The rows of the table of one record: a name and a value for each column
/// that the record has a value in.
pub open spec fn tall_rows(columns: Seq<Seq<char>>, record: Seq<FieldView>) -> Seq<
    Seq<Seq<char>>,
>
    decreases columns.len(),
{
    if columns.len() == 0 {
        Seq::empty()
    } else {
        let rest = tall_rows(columns.drop_last(), record);
        match lookup(record, columns.last()) {
            Some(value) => rest.push(seq![columns.last(), value]),
            None => rest,
        }
    }
}

/// The ordered list `names` with the names of the fields of a record.
pub open spec fn with_names(names: Seq<Seq<char>>, record: Seq<FieldView>) -> Seq<Seq<char>>
    decreases record.len(),
{
    if record.len() == 0 {
        names
    } else {
        with_name(with_names(names, record.drop_last()), record.last().name)
    }
}

/// The names of the fields of all the records, in order and without
/// repetition.
pub open spec fn all_names(records: Seq<Seq<FieldView>>) -> Seq<Seq<char>>
    decreases records.len(),
{
    if records.len() == 0 {
        Seq::empty()
    } else {
        with_names(all_names(records.drop_last()), records.last())
    }
}

/// The names of all the records stand in the order of the dictionary, each
/// of them once.
pub proof fn lemma_all_names_increasing(records: Seq<Seq<FieldView>>)
    ensures
        increasing(all_names(records)),
    decreases records.len(),
{
    if records.len() > 0 {
        lemma_all_names_increasing(records.drop_last());
        lemma_with_names_increasing(all_names(records.drop_last()), records.last());
    }
}

proof fn lemma_with_names_increasing(names: Seq<Seq<char>>, record: Seq<FieldView>)
    requires
        increasing(names),
    ensures
        increasing(with_names(names, record)),
    decreases record.len(),
{
    if record.len() > 0 {
        lemma_with_names_increasing(names, record.drop_last());
        lemma_with_name(with_names(names, record.drop_last()), record.last().name);
    }
}

/// The position of the first line feed among the bytes, if there is one.
pub open spec fn first_line_feed(bytes: Seq<u8>) -> Option<int>
    decreases bytes.len(),
{
    if bytes.len() == 0 {
        None
    } else if bytes[0] == 10 {
        Some(0)
    } else {
        match first_line_feed(bytes.skip(1)) {
            Some(n) => Some(n + 1),
            None => None,
        }
    }
}

/// Whether a drawn table fits on a screen of the given width: its first
/// line is no longer, in bytes, than the screen is wide. A table of a
/// single line fits, and so does any table on a screen of unknown width.
pub open spec fn fits(bytes: Seq<u8>, width: Option<usize>) -> bool {
    match (first_line_feed(bytes), width) {
        (Some(n), Some(w)) => n <= w,
        _ => true,
    }
}

/// What is shown where nothing was found.
pub open spec fn nothing_found() -> Seq<char> {
    "Nothing found."@
}

/// What is said below a table that was asked for with `*` and did not fit.
pub open spec fn hint_text() -> Seq<char> {
    "\nConsider replacing * with a subset of the folling fields: \n"@
}

/// What is shown for a table of the given rows: the drawn table and what
/// follows it, or that nothing was found.
pub open spec fn block(rows: Seq<Seq<Seq<char>>>, extra: Seq<Seq<char>>) -> Seq<Seq<char>> {
    if rows.len() > 0 {
        seq![simple_table(rows)] + extra
    } else {
        seq![nothing_found()]
    }
}

/// What is shown for the records one by one.
pub open spec fn tall_blocks(
    columns: Seq<Seq<char>>,
    records: Seq<Seq<FieldView>>,
    extra: Seq<Seq<char>>,
) -> Seq<Seq<char>>
    decreases records.len(),
{
    if records.len() == 0 {
        Seq::empty()
    } else {
        tall_blocks(columns, records.drop_last(), extra) + block(
            tall_rows(columns, records.last()),
            extra,
        )
    }
}

/// The rows of names and values of all the records, one record after the
/// other.
pub open spec fn stacked_rows(columns: Seq<Seq<char>>, records: Seq<Seq<FieldView>>) -> Seq<
    Seq<Seq<char>>,
>
    decreases records.len(),
{
    if records.len() == 0 {
        Seq::empty()
    } else {
        stacked_rows(columns, records.drop_last()) + tall_rows(columns, records.last())
    }
}

/// What is shown for the entries that a selection found.
///
/// The columns are the attributes that were asked for, or, where all were
/// asked for, the names of all the attributes found, in order. The wide
/// table is shown where it fits on the screen. Where it does not, each
/// record gets a table of its own; where a single attribute was asked for,
/// the rows of names and values are added to the wide table instead.
pub open spec fn select_output(
    identifiers: Seq<Seq<char>>,
    wildcard: bool,
    entries: Seq<Entry>,
    width: Option<usize>,
) -> Seq<Seq<char>> {
    let single = identifiers.len() == 1;
    let records = records_of(entries, single && !wildcard);
    let columns = if wildcard {
        all_names(records)
    } else {
        identifiers
    };
    let wide = wide_rows(columns, records);
    let extra = if wildcard {
        seq![hint_text(), joined(columns, ',')]
    } else {
        Seq::empty()
    };
    if fits(vstd::utf8::encode_utf8(simple_table(wide)), width) {
        block(wide, Seq::empty())
    } else if single {
        block(wide + stacked_rows(columns, records), extra)
    } else {
        tall_blocks(columns, records, extra)
    }
}

/// Whether a drawn table fits on a screen of the given width.
pub fn fits_on_screen(table_data: &str, width: Option<usize>) -> (yes: bool)
    ensures
        yes == fits(table_data.spec_bytes(), width),
{
    let bytes = table_data.as_bytes();
    let mut i: usize = 0;
    assert(bytes@.skip(0) == bytes@);
    while i < bytes.len()
        invariant
            i <= bytes.len(),
            bytes@ == table_data.spec_bytes(),
            match first_line_feed(bytes@.skip(i as int)) {
                Some(n) => first_line_feed(bytes@) == Some(n + i),
                None => first_line_feed(bytes@) is None,
            },
        decreases bytes.len() - i,
    {
        assert(bytes@.skip(i as int)[0] == bytes@[i as int]);
        if bytes[i] == 10 {
            return match width {
                Some(w) => i <= w,
                None => true,
            };
        }
        assert(bytes@.skip(i as int).skip(1) == bytes@.skip(i + 1));
        i += 1;
    }
    true
}

/// Reads the value that a record holds under `name`.
pub fn find(record: &Vec<Field>, name: &String) -> (out: Option<String>)
    ensures
        match out {
            Some(v) => lookup(fields_view(record@), name@) == Some(v@),
            None => lookup(fields_view(record@), name@) is None,
        },
{
    let ghost fields = fields_view(record@);
    let mut i: usize = record.len();
    assert(fields.take(i as int) == fields);
    while i > 0
        invariant
            i <= record.len(),
            fields == fields_view(record@),
            lookup(fields, name@) == lookup(fields.take(i as int), name@),
        decreases i,
    {
        let field = &record[i - 1];
        assert(fields.take(i as int).last() == field@);
        if field.name == *name {
            return Some(field.value.clone());
        }
        assert(fields.take(i as int).drop_last() == fields.take(i - 1));
        i -= 1;
    }
    None
}

/// The record of an entry.
pub fn record(entry: &Entry) -> (out: Vec<Field>)
    ensures
        fields_view(out@) == record_of(*entry),
{
    let mut out: Vec<Field> = Vec::new();
    let mut i: usize = 0;
    while i < entry.attrs.len()
        invariant
            i <= entry.attrs.len(),
            fields_view(out@) == record_of(*entry).take(i as int),
        decreases entry.attrs.len() - i,
    {
        let attribute = &entry.attrs[i];
        let field = Field { name: attribute.name.clone(), value: join(&attribute.values, '\n') };
        assert(field@ == field_of(*attribute));
        let ghost before = fields_view(out@);
        out.push(field);
        assert(fields_view(out@) =~= before.push(field@));
        i += 1;
    }
    assert(record_of(*entry).take(entry.attrs@.len() as int) == record_of(*entry));
    out
}

/// All the entries as one record of one field.
pub fn merge(entries: &Vec<Entry>) -> (out: Vec<Field>)
    ensures
        fields_view(out@) == merged(entries@),
{
    let mut name = String::new();
    let mut values: Vec<String> = Vec::new();
    let mut i: usize = 0;
    assert(entries@.take(0) == Seq::<Entry>::empty());
    assert(values@.map_values(|s: String| s@) =~= all_fields(entries@.take(0)).map_values(
        |f: FieldView| f.value,
    ));
    while i < entries.len()
        invariant
            i <= entries.len(),
            values@.map_values(|s: String| s@) == all_fields(
                entries@.take(i as int),
            ).map_values(|f: FieldView| f.value),
            name@ == if all_fields(entries@.take(i as int)).len() == 0 {
                Seq::<char>::empty()
            } else {
                all_fields(entries@.take(i as int)).last().name
            },
        decreases entries.len() - i,
    {
        let entry = &entries[i];
        let ghost done = all_fields(entries@.take(i as int));
        proof {
            assert(entries@.take(i + 1).drop_last() == entries@.take(i as int));
            assert(entries@.take(i + 1).last() == *entry);
        }
        let mut k: usize = 0;
        assert(done + record_of(*entry).take(0) == done);
        while k < entry.attrs.len()
            invariant
                k <= entry.attrs.len(),
                values@.map_values(|s: String| s@) == (done + record_of(*entry).take(
                    k as int,
                )).map_values(|f: FieldView| f.value),
                name@ == if (done + record_of(*entry).take(k as int)).len() == 0 {
                    Seq::<char>::empty()
                } else {
                    (done + record_of(*entry).take(k as int)).last().name
                },
            decreases entry.attrs.len() - k,
        {
            let attribute = &entry.attrs[k];
            let ghost before = values@.map_values(|s: String| s@);
            let ghost so_far = done + record_of(*entry).take(k as int);
            name = attribute.name.clone();
            let text = join(&attribute.values, '\n');
            values.push(text);
            proof {
                let next = done + record_of(*entry).take(k + 1);
                assert(next =~= so_far.push(field_of(*attribute)));
                assert(values@.map_values(|s: String| s@) =~= before.push(text@));
                assert(next.map_values(|f: FieldView| f.value) =~= so_far.map_values(
                    |f: FieldView| f.value,
                ).push(attribute_text(*attribute)));
            }
            k += 1;
        }
        assert(record_of(*entry).take(entry.attrs@.len() as int) == record_of(*entry));
        i += 1;
    }
    assert(entries@.take(entries@.len() as int) == entries@);
    let mut out: Vec<Field> = Vec::new();
    let field = Field { name, value: join(&values, '\n') };
    out.push(field);
    assert(fields_view(out@) =~= seq![field@]);
    out
}

/// The records to show for the entries.
pub fn records(entries: &Vec<Entry>, single: bool) -> (out: Vec<Vec<Field>>)
    ensures
        records_view(out@) == records_of(entries@, single),
{
    let mut out: Vec<Vec<Field>> = Vec::new();
    if single {
        let one = merge(entries);
        out.push(one);
        assert(records_view(out@) =~= seq![merged(entries@)]);
        return out;
    }
    let mut i: usize = 0;
    while i < entries.len()
        invariant
            i <= entries.len(),
            records_view(out@) == entries@.map_values(|e: Entry| record_of(e)).take(i as int),
        decreases entries.len() - i,
    {
        let one = record(&entries[i]);
        let ghost before = records_view(out@);
        out.push(one);
        assert(records_view(out@) =~= before.push(fields_view(one@)));
        i += 1;
    }
    assert(entries@.map_values(|e: Entry| record_of(e)).take(entries@.len() as int)
        == entries@.map_values(|e: Entry| record_of(e)));
    out
}

/// The names of the fields of all the records, in order and without
/// repetition.
pub fn names(records: &Vec<Vec<Field>>) -> (out: Vec<String>)
    ensures
        row_view(out@) == all_names(records_view(records@)),
{
    let mut out: Vec<String> = Vec::new();
    let ghost views = records_view(records@);
    let mut i: usize = 0;
    assert(views.take(0) == Seq::<Seq<FieldView>>::empty());
    assert(row_view(out@) == Seq::<Seq<char>>::empty());
    while i < records.len()
        invariant
            i <= records.len(),
            views == records_view(records@),
            row_view(out@) == all_names(views.take(i as int)),
        decreases records.len() - i,
    {
        let one = &records[i];
        let ghost fields = fields_view(one@);
        let ghost start = row_view(out@);
        proof {
            assert(views.take(i + 1).drop_last() == views.take(i as int));
            assert(views.take(i + 1).last() == fields);
        }
        let mut k: usize = 0;
        assert(fields.take(0) == Seq::<FieldView>::empty());
        while k < one.len()
            invariant
                k <= one.len(),
                fields == fields_view(one@),
                row_view(out@) == with_names(start, fields.take(k as int)),
            decreases one.len() - k,
        {
            proof {
                assert(fields.take(k + 1).drop_last() == fields.take(k as int));
                assert(fields.take(k + 1).last() == one@[k as int]@);
            }
            insert_name(&mut out, &one[k].name);
            k += 1;
        }
        assert(fields.take(fields.len() as int) == fields);
        i += 1;
    }
    assert(views.take(views.len() as int) == views);
    out
}

fn copy_row(row: &Vec<String>) -> (out: Vec<String>)
    ensures
        row_view(out@) == row_view(row@),
{
    let mut out: Vec<String> = Vec::new();
    let mut i: usize = 0;
    while i < row.len()
        invariant
            i <= row.len(),
            row_view(out@) == row_view(row@).take(i as int),
        decreases row.len() - i,
    {
        let ghost before = row_view(out@);
        out.push(row[i].clone());
        assert(row_view(out@) =~= before.push(row@[i as int]@));
        i += 1;
    }
    assert(row_view(row@).take(row@.len() as int) == row_view(row@));
    out
}

/// The rows of the wide table.
pub fn wide(columns: &Vec<String>, records: &Vec<Vec<Field>>) -> (out: Vec<Vec<String>>)
    ensures
        rows_view(out@) == wide_rows(row_view(columns@), records_view(records@)),
{
    let mut out: Vec<Vec<String>> = Vec::new();
    if columns.len() == 0 {
        assert(rows_view(out@) == Seq::<Seq<Seq<char>>>::empty());
        return out;
    }
    let ghost names = row_view(columns@);
    let ghost views = records_view(records@);
    let ghost data = views.map_values(|r: Seq<FieldView>| wide_row(names, r));
    out.push(copy_row(columns));
    assert(rows_view(out@) =~= seq![names] + data.take(0));
    let mut i: usize = 0;
    while i < records.len()
        invariant
            i <= records.len(),
            names == row_view(columns@),
            views == records_view(records@),
            data == views.map_values(|r: Seq<FieldView>| wide_row(names, r)),
            rows_view(out@) == seq![names] + data.take(i as int),
        decreases records.len() - i,
    {
        let one = &records[i];
        let mut row: Vec<String> = Vec::new();
        let mut k: usize = 0;
        while k < columns.len()
            invariant
                k <= columns.len(),
                names == row_view(columns@),
                row_view(row@) == wide_row(names, fields_view(one@)).take(k as int),
            decreases columns.len() - k,
        {
            let text = match find(one, &columns[k]) {
                Some(value) => value,
                None => String::new(),
            };
            let ghost before = row_view(row@);
            row.push(text);
            assert(row_view(row@) =~= before.push(text@));
            k += 1;
        }
        assert(wide_row(names, fields_view(one@)).take(columns@.len() as int) == wide_row(
            names,
            fields_view(one@),
        ));
        let ghost before = rows_view(out@);
        out.push(row);
        proof {
            assert(rows_view(out@) =~= before.push(row_view(row@)));
            assert(data.take(i + 1) =~= data.take(i as int).push(data[i as int]));
            assert(seq![names] + data.take(i as int).push(data[i as int]) =~= (seq![names]
                + data.take(i as int)).push(data[i as int]));
        }
        i += 1;
    }
    assert(data.take(data.len() as int) == data);
    out
}

/// Adds the rows of names and values of a record to `out`.
pub fn add_tall(out: &mut Vec<Vec<String>>, columns: &Vec<String>, record: &Vec<Field>)
    ensures
        rows_view(final(out)@) == rows_view(old(out)@) + tall_rows(
            row_view(columns@),
            fields_view(record@),
        ),
{
    let ghost start = rows_view(out@);
    let ghost names = row_view(columns@);
    let ghost fields = fields_view(record@);
    let mut k: usize = 0;
    assert(names.take(0) == Seq::<Seq<char>>::empty());
    assert(start + tall_rows(names.take(0), fields) == start);
    while k < columns.len()
        invariant
            k <= columns.len(),
            names == row_view(columns@),
            fields == fields_view(record@),
            rows_view(out@) == start + tall_rows(names.take(k as int), fields),
        decreases columns.len() - k,
    {
        proof {
            assert(names.take(k + 1).drop_last() == names.take(k as int));
            assert(names.take(k + 1).last() == columns@[k as int]@);
        }
        match find(record, &columns[k]) {
            Some(value) => {
                let mut row: Vec<String> = Vec::new();
                row.push(columns[k].clone());
                row.push(value);
                let ghost before = rows_view(out@);
                out.push(row);
                proof {
                    assert(row_view(row@) =~= seq![columns@[k as int]@, value@]);
                    assert(rows_view(out@) =~= before.push(row_view(row@)));
                    assert(start + tall_rows(names.take(k as int), fields).push(row_view(row@))
                        =~= (start + tall_rows(names.take(k as int), fields)).push(
                        row_view(row@),
                    ));
                }
            },
            None => {},
        }
        k += 1;
    }
    assert(names.take(names.len() as int) == names);
}

fn add_block(out: &mut Vec<String>, rows: &Vec<Vec<String>>, extra: &Vec<String>)
    ensures
        row_view(final(out)@) == row_view(old(out)@) + block(rows_view(rows@), row_view(extra@)),
{
    let ghost start = row_view(out@);
    if rows.len() > 0 {
        let table = render_table(rows);
        out.push(table);
        assert(row_view(out@) =~= start + seq![simple_table(rows_view(rows@))]);
        let mut i: usize = 0;
        assert(row_view(extra@).take(0) == Seq::<Seq<char>>::empty());
        while i < extra.len()
            invariant
                i <= extra.len(),
                row_view(out@) == start + seq![simple_table(rows_view(rows@))] + row_view(
                    extra@,
                ).take(i as int),
            decreases extra.len() - i,
        {
            let ghost before = row_view(out@);
            out.push(extra[i].clone());
            proof {
                assert(row_view(out@) =~= before.push(extra@[i as int]@));
                assert(row_view(extra@).take(i + 1) =~= row_view(extra@).take(i as int).push(
                    extra@[i as int]@,
                ));
            }
            i += 1;
        }
        proof {
            assert(row_view(extra@).take(extra@.len() as int) == row_view(extra@));
            assert(start + seq![simple_table(rows_view(rows@))] + row_view(extra@) =~= start + (
            seq![simple_table(rows_view(rows@))] + row_view(extra@)));
        }
    } else {
        out.push(String::from_str("Nothing found."));
        assert(row_view(out@) =~= start + seq![nothing_found()]);
    }
}

/// Lays out what a selection found.
///
/// Returns the texts to show, in order: what [`select_output`] gives for
/// the attributes asked for, the entries found and the width of the screen.
pub fn render_select(
    identifiers: &Vec<String>,
    wildcard: bool,
    entries: &Vec<Entry>,
    width: Option<usize>,
) -> (out: Vec<String>)
    ensures
        row_view(out@) == select_output(row_view(identifiers@), wildcard, entries@, width),
{
    let single = identifiers.len() == 1;
    let found = records(entries, single && !wildcard);
    let columns = if wildcard {
        names(&found)
    } else {
        copy_row(identifiers)
    };
    let mut rows = wide(&columns, &found);
    let mut extra: Vec<String> = Vec::new();
    if wildcard {
        extra.push(
            String::from_str("\nConsider replacing * with a subset of the folling fields: \n"),
        );
        extra.push(join(&columns, ','));
        assert(row_view(extra@) =~= seq![hint_text(), joined(row_view(columns@), ',')]);
    } else {
        assert(row_view(extra@) =~= Seq::<Seq<char>>::empty());
    }
    let mut out: Vec<String> = Vec::new();
    assert(row_view(out@) =~= Seq::<Seq<char>>::empty());
    let ghost names = row_view(columns@);
    let ghost views = records_view(found@);
    let table = render_table(&rows);
    if fits_on_screen(table.as_str(), width) {
        let none: Vec<String> = Vec::new();
        assert(row_view(none@) =~= Seq::<Seq<char>>::empty());
        add_block(&mut out, &rows, &none);
        assert(row_view(out@) =~= block(rows_view(rows@), Seq::empty()));
    } else if single {
        let ghost first = rows_view(rows@);
        let mut i: usize = 0;
        assert(views.take(0) == Seq::<Seq<FieldView>>::empty());
        assert(first + stacked_rows(names, views.take(0)) == first);
        while i < found.len()
            invariant
                i <= found.len(),
                names == row_view(columns@),
                views == records_view(found@),
                rows_view(rows@) == first + stacked_rows(names, views.take(i as int)),
            decreases found.len() - i,
        {
            proof {
                assert(views.take(i + 1).drop_last() == views.take(i as int));
                assert(views.take(i + 1).last() == fields_view(found@[i as int]@));
                assert(first + (stacked_rows(names, views.take(i as int)) + tall_rows(
                    names,
                    fields_view(found@[i as int]@),
                )) =~= first + stacked_rows(names, views.take(i as int)) + tall_rows(
                    names,
                    fields_view(found@[i as int]@),
                ));
            }
            add_tall(&mut rows, &columns, &found[i]);
            i += 1;
        }
        assert(views.take(views.len() as int) == views);
        add_block(&mut out, &rows, &extra);
        assert(row_view(out@) =~= block(rows_view(rows@), row_view(extra@)));
    } else {
        let mut i: usize = 0;
        assert(views.take(0) == Seq::<Seq<FieldView>>::empty());
        while i < found.len()
            invariant
                i <= found.len(),
                names == row_view(columns@),
                views == records_view(found@),
                row_view(out@) == tall_blocks(names, views.take(i as int), row_view(extra@)),
            decreases found.len() - i,
        {
            proof {
                assert(views.take(i + 1).drop_last() == views.take(i as int));
                assert(views.take(i + 1).last() == fields_view(found@[i as int]@));
            }
            let mut tall: Vec<Vec<String>> = Vec::new();
            assert(rows_view(tall@) =~= Seq::<Seq<Seq<char>>>::empty());
            add_tall(&mut tall, &columns, &found[i]);
            assert(rows_view(tall@) =~= tall_rows(names, fields_view(found@[i as int]@)));
            add_block(&mut out, &tall, &extra);
            i += 1;
        }
        assert(views.take(views.len() as int) == views);
    }
    out
}

} // verus!
