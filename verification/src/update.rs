//! The update planner: which of the entries that a search returned would be
//! changed, and which are left alone because the change would lose data.
//!
//! Nothing here changes a directory. The plan only says what would be done.

use vstd::prelude::*;
use vstd::string::StringExecFns;
use crate::query::{dn_attribute, Directive, DirectiveView};

verus! {

/// One attribute of an entry with the values stored for it, in order.
#[derive(Clone, Debug, PartialEq, Eq)]
pub struct Attribute {
    pub name: String,
    pub values: Vec<String>,
}

/// An entry, as a search returned it: the attributes that were asked for.
#[derive(Clone, Debug, PartialEq, Eq)]
pub struct Entry {
    pub attrs: Vec<Attribute>,
}

/// What is planned for one entry.
#[derive(Clone, Debug, PartialEq, Eq)]
pub struct PlanEntry {
    /// The distinguished name of the entry; empty where the search returned
    /// none.
    pub dn: String,
    /// The replacements to apply; none for an entry in conflict.
    pub directives: Vec<Directive>,
    /// Whether a targeted attribute holds more than one value.
    pub conflicted: bool,
    /// The attributes that hold more than one value, in the order of the
    /// entry.
    pub conflicts: Vec<String>,
}

/// A plan entry as a mathematical value.
pub struct PlanView {
    pub dn: Seq<char>,
    pub directives: Seq<DirectiveView>,
    pub conflicted: bool,
    pub conflicts: Seq<Seq<char>>,
}

impl View for PlanEntry {
    type V = PlanView;

    open spec fn view(&self) -> PlanView {
        PlanView {
            dn: self.dn@,
            directives: self.directives@.map_values(|d: Directive| d@),
            conflicted: self.conflicted,
            conflicts: self.conflicts@.map_values(|s: String| s@),
        }
    }
}

/// Whether an attribute holds more than one value.
pub open spec fn multi_valued(a: Attribute) -> bool {
    a.values@.len() > 1
}

/// Whether one of the attributes holds more than one value.
pub open spec fn in_conflict(attrs: Seq<Attribute>) -> bool {
    exists|i: int| 0 <= i < attrs.len() && multi_valued(#[trigger] attrs[i])
}

/// The names of the attributes that hold more than one value, in order.
pub open spec fn conflicting(attrs: Seq<Attribute>) -> Seq<Seq<char>>
    decreases attrs.len(),
{
    if attrs.len() == 0 {
        Seq::empty()
    } else if multi_valued(attrs.last()) {
        conflicting(attrs.drop_last()).push(attrs.last().name@)
    } else {
        conflicting(attrs.drop_last())
    }
}

/// Whether an attribute gives the entry's distinguished name: it is the
/// attribute that names are read back by, and holds exactly one value.
pub open spec fn gives_dn(a: Attribute) -> bool {
    a.values@.len() == 1 && a.name@ == dn_attribute()
}

/// The distinguished name that the attributes give: the value of the last
/// attribute that gives one, or the empty text.
pub open spec fn entry_dn(attrs: Seq<Attribute>) -> Seq<char>
    decreases attrs.len(),
{
    if attrs.len() == 0 {
        Seq::empty()
    } else if gives_dn(attrs.last()) {
        attrs.last().values@[0]@
    } else {
        entry_dn(attrs.drop_last())
    }
}

/// What is planned for `entry` under `directives`: all of the directives
/// where no attribute of the entry holds more than one value, none where one
/// does.
pub open spec fn planned(entry: Entry, directives: Seq<Directive>) -> PlanView {
    let conflicted = in_conflict(entry.attrs@);
    PlanView {
        dn: entry_dn(entry.attrs@),
        directives: if conflicted {
            Seq::empty()
        } else {
            directives.map_values(|d: Directive| d@)
        },
        conflicted,
        conflicts: conflicting(entry.attrs@),
    }
}

/// A copy of `directives`.
fn copy_directives(directives: &Vec<Directive>) -> (out: Vec<Directive>)
    ensures
        out@.map_values(|d: Directive| d@) == directives@.map_values(|d: Directive| d@),
{
    let mut out: Vec<Directive> = Vec::new();
    let mut i: usize = 0;
    while i < directives.len()
        invariant
            i <= directives.len(),
            out@.map_values(|d: Directive| d@) == directives@.take(i as int).map_values(
                |d: Directive| d@,
            ),
        decreases directives.len() - i,
    {
        let d = &directives[i];
        let mut values: Vec<String> = Vec::new();
        let mut k: usize = 0;
        while k < d.values.len()
            invariant
                k <= d.values.len(),
                values@.map_values(|s: String| s@) == d.values@.take(k as int).map_values(
                    |s: String| s@,
                ),
            decreases d.values.len() - k,
        {
            let ghost old_values = values@;
            values.push(d.values[k].clone());
            proof {
                assert(d.values@.take(k + 1) == d.values@.take(k as int).push(d.values@[k as int]));
                assert(values@.map_values(|s: String| s@) =~= old_values.map_values(
                    |s: String| s@,
                ).push(d.values@[k as int]@));
                assert(d.values@.take(k + 1).map_values(|s: String| s@) =~= d.values@.take(
                    k as int,
                ).map_values(|s: String| s@).push(d.values@[k as int]@));
            }
            k += 1;
        }
        assert(d.values@.take(d.values@.len() as int) == d.values@);
        let copy = Directive { attribute: d.attribute.clone(), values };
        assert(copy@ == d@);
        let ghost old_out = out@;
        out.push(copy);
        proof {
            assert(directives@.take(i + 1) == directives@.take(i as int).push(*d));
            assert(out@.map_values(|d: Directive| d@) =~= old_out.map_values(
                |d: Directive| d@,
            ).push(d@));
            assert(directives@.take(i + 1).map_values(|d: Directive| d@) =~= directives@.take(
                i as int,
            ).map_values(|d: Directive| d@).push(d@));
        }
        i += 1;
    }
    assert(directives@.take(directives@.len() as int) == directives@);
    out
}

/// Plans the update of one entry.
///
/// The entry is in conflict exactly when one of its attributes holds more
/// than one value: replacing those by one value would drop the others. An
/// entry in conflict gets no directive; any other entry gets them all.
pub fn plan_entry(entry: &Entry, directives: &Vec<Directive>) -> (out: PlanEntry)
    ensures
        out@ == planned(*entry, directives@),
{
    let mut dn = String::new();
    let mut conflicted = false;
    let mut conflicts: Vec<String> = Vec::new();
    let mut i: usize = 0;
    while i < entry.attrs.len()
        invariant
            i <= entry.attrs.len(),
            dn@ == entry_dn(entry.attrs@.take(i as int)),
            conflicted == in_conflict(entry.attrs@.take(i as int)),
            conflicts@.map_values(|s: String| s@) == conflicting(entry.attrs@.take(i as int)),
        decreases entry.attrs.len() - i,
    {
        let attribute = &entry.attrs[i];
        let ghost before = entry.attrs@.take(i as int);
        let ghost after = entry.attrs@.take(i + 1);
        proof {
            assert(after.drop_last() == before);
            assert(after.last() == *attribute);
            if in_conflict(before) {
                let k = choose|k: int| 0 <= k < before.len() && multi_valued(#[trigger] before[k]);
                assert(multi_valued(after[k]));
            }
            if in_conflict(after) && !multi_valued(*attribute) {
                let k = choose|k: int| 0 <= k < after.len() && multi_valued(#[trigger] after[k]);
                assert(multi_valued(before[k]));
            }
            if multi_valued(*attribute) {
                assert(multi_valued(after[i as int]));
            }
        }
        if attribute.values.len() > 1 {
            let ghost old_conflicts = conflicts@;
            conflicts.push(attribute.name.clone());
            assert(conflicts@.map_values(|s: String| s@) =~= old_conflicts.map_values(
                |s: String| s@,
            ).push(attribute.name@));
            conflicted = true;
        } else if attribute.values.len() == 1 && attribute.name == String::from_str("entrydn") {
            dn = attribute.values[0].clone();
        }
        i += 1;
    }
    assert(entry.attrs@.take(entry.attrs@.len() as int) == entry.attrs@);
    let planned_directives = if conflicted {
        Vec::new()
    } else {
        copy_directives(directives)
    };
    let out = PlanEntry { dn, directives: planned_directives, conflicted, conflicts };
    assert(out@.directives =~= planned(*entry, directives@).directives);
    out
}

/// Plans an update: one plan entry for each entry that the search returned,
/// in the same order.
pub fn plan_update(entries: &Vec<Entry>, directives: &Vec<Directive>) -> (out: Vec<PlanEntry>)
    ensures
        out@.map_values(|p: PlanEntry| p@) == entries@.map_values(
            |e: Entry| planned(e, directives@),
        ),
{
    let mut out: Vec<PlanEntry> = Vec::new();
    let mut i: usize = 0;
    while i < entries.len()
        invariant
            i <= entries.len(),
            out@.map_values(|p: PlanEntry| p@) == entries@.take(i as int).map_values(
                |e: Entry| planned(e, directives@),
            ),
        decreases entries.len() - i,
    {
        let plan = plan_entry(&entries[i], directives);
        let ghost old_out = out@;
        out.push(plan);
        proof {
            assert(entries@.take(i + 1) == entries@.take(i as int).push(entries@[i as int]));
            assert(out@.map_values(|p: PlanEntry| p@) =~= old_out.map_values(
                |p: PlanEntry| p@,
            ).push(plan@));
            assert(entries@.take(i + 1).map_values(|e: Entry| planned(e, directives@))
                =~= entries@.take(i as int).map_values(|e: Entry| planned(e, directives@)).push(
                planned(entries@[i as int], directives@),
            ));
        }
        i += 1;
    }
    assert(entries@.take(entries@.len() as int) == entries@);
    out
}

/// No plan holds a directive for an entry in conflict, and every entry
/// without a conflict is planned with all the directives.
pub proof fn lemma_plan_spares_conflicts(entry: Entry, directives: Seq<Directive>)
    ensures
        in_conflict(entry.attrs@) ==> planned(entry, directives).conflicted && planned(
            entry,
            directives,
        ).directives.len() == 0,
        !in_conflict(entry.attrs@) ==> !planned(entry, directives).conflicted && planned(
            entry,
            directives,
        ).directives == directives.map_values(|d: Directive| d@),
        planned(entry, directives).conflicted <==> planned(entry, directives).conflicts.len() > 0,
{
    lemma_conflicts_listed(entry.attrs@);
}

/// Attributes are in conflict exactly when the list of conflicting names is
/// not empty.
proof fn lemma_conflicts_listed(attrs: Seq<Attribute>)
    ensures
        in_conflict(attrs) <==> conflicting(attrs).len() > 0,
    decreases attrs.len(),
{
    if attrs.len() > 0 {
        let rest = attrs.drop_last();
        lemma_conflicts_listed(rest);
        if in_conflict(rest) {
            let k = choose|k: int| 0 <= k < rest.len() && multi_valued(#[trigger] rest[k]);
            assert(multi_valued(attrs[k]));
        }
        if multi_valued(attrs.last()) {
            assert(multi_valued(attrs[attrs.len() - 1]));
        }
        if in_conflict(attrs) && !multi_valued(attrs.last()) {
            let k = choose|k: int| 0 <= k < attrs.len() && multi_valued(#[trigger] attrs[k]);
            assert(multi_valued(rest[k]));
        }
    }
}

} // verus!
