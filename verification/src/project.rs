//! Row projection: resolving the mapped fields of one row.
//!
//! Each mapping entry names a destination field, a column index and an
//! optional type tag. For a given row, a mapping entry resolves only
//! when its column index lies within the row; out-of-range entries are
//! silently skipped. Several entries naming the same destination field
//! overwrite one another, the later entry winning, so the projected
//! payload holds each field name at most once.

use vstd::prelude::*;
use vstd::string::*;

use crate::classify::{classify, spec_classify, SemanticType};

verus! {

/// A mapping from one column of the tabular input to one database field.
pub struct FieldMapping {
    /// Name of the destination database field.
    pub db_field: String,
    /// Index of the source column inside each row.
    pub csv_index: usize,
    /// Optional free-text type tag, classified by substring containment.
    pub field_type: Option<String>,
}

/// The mathematical content of a [`FieldMapping`].
pub struct MappingModel {
    pub field: Seq<char>,
    pub index: int,
    pub ty: Option<Seq<char>>,
}

impl View for FieldMapping {
    type V = MappingModel;

    open spec fn view(&self) -> MappingModel {
        MappingModel {
            field: self.db_field@,
            index: self.csv_index as int,
            ty: match self.field_type {
                Option::None => Option::None,
                Option::Some(t) => Option::Some(t@),
            },
        }
    }
}

/// One resolved field of a row: destination field name, raw cell text
/// and classified semantic type.
pub struct ProjectedField {
    pub field: String,
    pub value: String,
    pub ty: SemanticType,
}

/// The mathematical content of a [`ProjectedField`].
pub struct EntryModel {
    pub field: Seq<char>,
    pub value: Seq<char>,
    pub ty: SemanticType,
}

impl View for ProjectedField {
    type V = EntryModel;

    open spec fn view(&self) -> EntryModel {
        EntryModel { field: self.field@, value: self.value@, ty: self.ty }
    }
}

/// The models of a mapping list.
pub open spec fn mappings_view(ms: Seq<FieldMapping>) -> Seq<MappingModel> {
    ms.map_values(|m: FieldMapping| m@)
}

/// The cell texts of a row.
pub open spec fn row_view(r: Seq<String>) -> Seq<Seq<char>> {
    r.map_values(|s: String| s@)
}

/// The texts of a name list.
pub open spec fn names_view(ns: Seq<String>) -> Seq<Seq<char>> {
    ns.map_values(|s: String| s@)
}

/// The models of a projected payload.
pub open spec fn entries_view(es: Seq<ProjectedField>) -> Seq<EntryModel> {
    es.map_values(|e: ProjectedField| e@)
}

/// `f` occurs in the name list `ts`.
pub open spec fn contains_name(ts: Seq<Seq<char>>, f: Seq<char>) -> bool {
    exists|i: int| 0 <= i < ts.len() && ts[i] == f
}

/// A field passes the target filter: always, when no filter is given.
pub open spec fn passes(filter: Option<Seq<Seq<char>>>, f: Seq<char>) -> bool {
    match filter {
        Option::None => true,
        Option::Some(ts) => contains_name(ts, f),
    }
}

/// The view of an optional target-field filter.
pub open spec fn filter_view(targets: Option<&Vec<String>>) -> Option<Seq<Seq<char>>> {
    match targets {
        Option::None => Option::None,
        Option::Some(v) => Option::Some(names_view(v@)),
    }
}

/// Decides membership in a name list.
fn name_in_list(names: &Vec<String>, f: &String) -> (r: bool)
    ensures
        r == contains_name(names_view(names@), f@),
{
    let mut i: usize = 0;
    while i < names.len()
        invariant
            i <= names@.len(),
            forall|k: int| 0 <= k < i ==> names_view(names@)[k] != f@,
        decreases names@.len() - i,
    {
        if names[i] == *f {
            proof {
                assert(names_view(names@)[i as int] == f@);
            }
            return true;
        }
        i += 1;
    }
    false
}

/// The entry a mapping resolves to against one row.
pub open spec fn spec_resolve(m: MappingModel, row: Seq<Seq<char>>) -> EntryModel {
    EntryModel { field: m.field, value: row[m.index], ty: spec_classify(m.ty) }
}

/// `s` with entry `e` written over the first entry of the same field
/// name, or appended when no entry has that name.
pub open spec fn upsert(s: Seq<EntryModel>, e: EntryModel) -> Seq<EntryModel>
    decreases s.len(),
{
    if s.len() == 0 {
        seq![e]
    } else if s[0].field == e.field {
        seq![e] + s.drop_first()
    } else {
        seq![s[0]] + upsert(s.drop_first(), e)
    }
}

/// When `k` is the first position holding `e`'s field name, upserting
/// `e` updates position `k` and nothing else.
pub proof fn lemma_upsert_found(s: Seq<EntryModel>, e: EntryModel, k: int)
    requires
        0 <= k < s.len(),
        s[k].field == e.field,
        forall|t: int| 0 <= t < k ==> s[t].field != e.field,
    ensures
        upsert(s, e) == s.update(k, e),
    decreases k,
{
    if k == 0 {
        assert(upsert(s, e) =~= s.update(0, e));
    } else {
        lemma_upsert_found(s.drop_first(), e, k - 1);
        assert(upsert(s, e) =~= s.update(k, e));
    }
}

/// When no entry holds `e`'s field name, upserting `e` appends it.
pub proof fn lemma_upsert_absent(s: Seq<EntryModel>, e: EntryModel)
    requires
        forall|t: int| 0 <= t < s.len() ==> s[t].field != e.field,
    ensures
        upsert(s, e) == s.push(e),
    decreases s.len(),
{
    if s.len() == 0 {
        assert(upsert(s, e) =~= s.push(e));
    } else {
        lemma_upsert_absent(s.drop_first(), e);
        assert(upsert(s, e) =~= s.push(e));
    }
}

/// Writes `e` into the payload, overwriting the entry of the same
/// field name when one exists.
fn upsert_field(entries: &mut Vec<ProjectedField>, e: ProjectedField)
    ensures
        entries_view(final(entries)@) == upsert(entries_view(old(entries)@), e@),
{
    let n = entries.len();
    let mut k: usize = 0;
    while k < n
        invariant
            n == entries@.len(),
            k <= n,
            *entries == *old(entries),
            forall|t: int| 0 <= t < k ==> entries_view(entries@)[t].field != e@.field,
        decreases n - k,
    {
        if entries[k].field == e.field {
            proof {
                assert(entries_view(entries@)[k as int].field == e@.field);
                lemma_upsert_found(entries_view(entries@), e@, k as int);
            }
            entries[k] = e;
            proof {
                assert(entries_view(final(entries)@) =~= entries_view(old(entries)@).update(
                    k as int,
                    e@,
                ));
            }
            return ;
        }
        k += 1;
    }
    proof {
        lemma_upsert_absent(entries_view(entries@), e@);
    }
    entries.push(e);
    proof {
        assert(entries_view(final(entries)@) =~= entries_view(old(entries)@).push(e@));
    }
}

/// The payload one row projects to: every mapping entry whose column
/// index is in range and whose field passes the filter, resolved in
/// order, later entries of a field name overwriting earlier ones.
pub open spec fn spec_project_payload(
    ms: Seq<MappingModel>,
    row: Seq<Seq<char>>,
    filter: Option<Seq<Seq<char>>>,
) -> Seq<EntryModel>
    decreases ms.len(),
{
    if ms.len() == 0 {
        Seq::empty()
    } else {
        let prev = spec_project_payload(ms.drop_last(), row, filter);
        let m = ms.last();
        if 0 <= m.index < row.len() && passes(filter, m.field) {
            upsert(prev, spec_resolve(m, row))
        } else {
            prev
        }
    }
}

/// The condition pair one row projects to: the cell text and semantic
/// type of the last in-range mapping entry naming the condition field,
/// or nothing when no such entry exists.
pub open spec fn spec_project_condition(
    ms: Seq<MappingModel>,
    row: Seq<Seq<char>>,
    cond: Seq<char>,
) -> Option<(Seq<char>, SemanticType)>
    decreases ms.len(),
{
    if ms.len() == 0 {
        Option::None
    } else {
        let m = ms.last();
        if 0 <= m.index < row.len() && m.field == cond {
            Option::Some((row[m.index], spec_classify(m.ty)))
        } else {
            spec_project_condition(ms.drop_last(), row, cond)
        }
    }
}

/// Projects the payload of one row.
pub fn project_payload(
    mappings: &Vec<FieldMapping>,
    row: &Vec<String>,
    targets: Option<&Vec<String>>,
) -> (entries: Vec<ProjectedField>)
    ensures
        entries_view(entries@) == spec_project_payload(
            mappings_view(mappings@),
            row_view(row@),
            filter_view(targets),
        ),
{
    let ghost ms = mappings_view(mappings@);
    let ghost rv = row_view(row@);
    let ghost fv = filter_view(targets);
    let mut entries: Vec<ProjectedField> = Vec::new();
    proof {
        assert(entries_view(entries@) =~= spec_project_payload(ms.subrange(0, 0), rv, fv));
    }
    let mut j: usize = 0;
    while j < mappings.len()
        invariant
            ms == mappings_view(mappings@),
            rv == row_view(row@),
            fv == filter_view(targets),
            j <= mappings@.len(),
            ms.len() == mappings@.len(),
            entries_view(entries@) == spec_project_payload(ms.subrange(0, j as int), rv, fv),
        decreases mappings@.len() - j,
    {
        let m = &mappings[j];
        proof {
            assert(ms.subrange(0, j + 1).drop_last() =~= ms.subrange(0, j as int));
            assert(ms.subrange(0, j + 1).last() == ms[j as int]);
            assert(ms[j as int] == mappings@[j as int]@);
        }
        let in_range = m.csv_index < row.len();
        let selected = in_range && match targets {
            Option::None => true,
            Option::Some(ts) => name_in_list(ts, &m.db_field),
        };
        if selected {
            let e = ProjectedField {
                field: m.db_field.clone(),
                value: row[m.csv_index].clone(),
                ty: classify(m.field_type.as_ref()),
            };
            proof {
                assert(rv[m@.index] == row@[m@.index]@);
                assert(e@ =~= spec_resolve(ms[j as int], rv));
            }
            upsert_field(&mut entries, e);
        }
        j += 1;
    }
    proof {
        assert(ms.subrange(0, ms.len() as int) =~= ms);
    }
    entries
}

/// Projects the condition pair of one row.
pub fn project_condition(
    mappings: &Vec<FieldMapping>,
    row: &Vec<String>,
    condition_field: &String,
) -> (r: Option<(String, SemanticType)>)
    ensures
        match r {
            Option::None => spec_project_condition(
                mappings_view(mappings@),
                row_view(row@),
                condition_field@,
            ) is None,
            Option::Some(p) => spec_project_condition(
                mappings_view(mappings@),
                row_view(row@),
                condition_field@,
            ) == Option::Some((p.0@, p.1)),
        },
{
    let ghost ms = mappings_view(mappings@);
    let ghost rv = row_view(row@);
    let mut r: Option<(String, SemanticType)> = Option::None;
    let mut j: usize = 0;
    while j < mappings.len()
        invariant
            ms == mappings_view(mappings@),
            rv == row_view(row@),
            j <= mappings@.len(),
            ms.len() == mappings@.len(),
            match r {
                Option::None => spec_project_condition(
                    ms.subrange(0, j as int),
                    rv,
                    condition_field@,
                ) is None,
                Option::Some(p) => spec_project_condition(ms.subrange(0, j as int), rv, condition_field@)
                    == Option::Some((p.0@, p.1)),
            },
        decreases mappings@.len() - j,
    {
        let m = &mappings[j];
        proof {
            assert(ms.subrange(0, j + 1).drop_last() =~= ms.subrange(0, j as int));
            assert(ms.subrange(0, j + 1).last() == ms[j as int]);
            assert(ms[j as int] == mappings@[j as int]@);
        }
        if m.csv_index < row.len() && m.db_field == *condition_field {
            let value = row[m.csv_index].clone();
            let ty = classify(m.field_type.as_ref());
            proof {
                assert(rv[m@.index] == row@[m@.index]@);
            }
            r = Option::Some((value, ty));
        }
        j += 1;
    }
    proof {
        assert(ms.subrange(0, ms.len() as int) =~= ms);
    }
    r
}

} // verus!
