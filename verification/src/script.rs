//! Statement assembly: one complete statement per data row.
//!
//! Six generators cover update, insert and delete in each of the two
//! dialects. Every generator short-circuits to an empty script when
//! the input holds at most one row (the first row is the header and is
//! never processed), and otherwise emits, for each data row that
//! satisfies the kind's precondition, exactly one newline-terminated
//! statement, concatenated in row order. An update row needs a
//! non-empty condition value and a non-empty payload, an insert row a
//! non-empty payload, a delete row a non-empty condition value; a row
//! failing its precondition is skipped silently.

use vstd::prelude::*;
use vstd::string::*;

use crate::classify::SemanticType;
use crate::encode::{
    encode_document, encode_relational, spec_encode_document, spec_encode_document_value,
    spec_encode_relational,
};
use crate::project::{
    entries_view, mappings_view, names_view, project_condition, project_payload, row_view,
    spec_project_condition, spec_project_payload, EntryModel, FieldMapping, ProjectedField,
};
use crate::text::join_with;

verus! {

/// The cell texts of every row.
pub open spec fn rows_view(csv: Seq<Vec<String>>) -> Seq<Seq<Seq<char>>> {
    csv.map_values(|r: Vec<String>| row_view(r@))
}

/// The `field = literal` assignments of a relational statement.
pub open spec fn rel_assign_parts(p: Seq<EntryModel>) -> Seq<Seq<char>> {
    p.map_values(|e: EntryModel| e.field + " = "@ + spec_encode_relational(e.ty, e.value))
}

/// The `"field": literal` pairs of a document statement.
pub open spec fn doc_pair_parts(p: Seq<EntryModel>) -> Seq<Seq<char>> {
    p.map_values(
        |e: EntryModel| "\""@ + e.field + "\": "@ + spec_encode_document_value(e.ty, e.value),
    )
}

/// The bare field names of a payload.
pub open spec fn field_name_parts(p: Seq<EntryModel>) -> Seq<Seq<char>> {
    p.map_values(|e: EntryModel| e.field)
}

/// The bare encoded values of a payload, for the relational dialect.
pub open spec fn rel_value_parts(p: Seq<EntryModel>) -> Seq<Seq<char>> {
    p.map_values(|e: EntryModel| spec_encode_relational(e.ty, e.value))
}

/// The relational update statement of one row, or empty when the row's
/// condition value is empty or its payload is empty.
pub open spec fn spec_rel_update_row(
    ms: Seq<crate::project::MappingModel>,
    row: Seq<Seq<char>>,
    cond: Seq<char>,
    targets: Seq<Seq<char>>,
    table: Seq<char>,
) -> Seq<char> {
    let c = spec_project_condition(ms, row, cond);
    let p = spec_project_payload(ms, row, Option::Some(targets));
    match c {
        Option::Some(cp) => if cp.0.len() > 0 && p.len() > 0 {
            "UPDATE "@ + table + " SET "@ + join_with(rel_assign_parts(p), ", "@) + " WHERE "@
                + cond + " = "@ + spec_encode_relational(cp.1, cp.0) + ";\n"@
        } else {
            Seq::empty()
        },
        Option::None => Seq::empty(),
    }
}

/// The relational insert statement of one row, or empty when no
/// mapping entry resolves.
pub open spec fn spec_rel_insert_row(
    ms: Seq<crate::project::MappingModel>,
    row: Seq<Seq<char>>,
    table: Seq<char>,
) -> Seq<char> {
    let p = spec_project_payload(ms, row, Option::None);
    if p.len() > 0 {
        "INSERT INTO "@ + table + " ("@ + join_with(field_name_parts(p), ", "@) + ") VALUES ("@
            + join_with(rel_value_parts(p), ", "@) + ");\n"@
    } else {
        Seq::empty()
    }
}

/// The relational delete statement of one row, or empty when the row's
/// condition value is empty.
pub open spec fn spec_rel_delete_row(
    ms: Seq<crate::project::MappingModel>,
    row: Seq<Seq<char>>,
    cond: Seq<char>,
    table: Seq<char>,
) -> Seq<char> {
    match spec_project_condition(ms, row, cond) {
        Option::Some(cp) => if cp.0.len() > 0 {
            "DELETE FROM "@ + table + " WHERE "@ + cond + " = "@ + spec_encode_relational(
                cp.1,
                cp.0,
            ) + ";\n"@
        } else {
            Seq::empty()
        },
        Option::None => Seq::empty(),
    }
}

/// The document update statement of one row, or empty when the row's
/// condition value is empty or its payload is empty.
pub open spec fn spec_doc_update_row(
    ms: Seq<crate::project::MappingModel>,
    row: Seq<Seq<char>>,
    cond: Seq<char>,
    targets: Seq<Seq<char>>,
    table: Seq<char>,
) -> Seq<char> {
    let c = spec_project_condition(ms, row, cond);
    let p = spec_project_payload(ms, row, Option::Some(targets));
    match c {
        Option::Some(cp) => if cp.0.len() > 0 && p.len() > 0 {
            "db."@ + table + ".updateOne({ "@ + cond + ": "@ + spec_encode_document(
                cp.1,
                cp.0,
                true,
            ) + " }, { $set: { "@ + join_with(doc_pair_parts(p), ", "@) + " } });\n"@
        } else {
            Seq::empty()
        },
        Option::None => Seq::empty(),
    }
}

/// The document insert statement of one row, or empty when no mapping
/// entry resolves.
pub open spec fn spec_doc_insert_row(
    ms: Seq<crate::project::MappingModel>,
    row: Seq<Seq<char>>,
    table: Seq<char>,
) -> Seq<char> {
    let p = spec_project_payload(ms, row, Option::None);
    if p.len() > 0 {
        "db."@ + table + ".insertOne({ "@ + join_with(doc_pair_parts(p), ", "@) + " });\n"@
    } else {
        Seq::empty()
    }
}

/// The document delete statement of one row, or empty when the row's
/// condition value is empty.
pub open spec fn spec_doc_delete_row(
    ms: Seq<crate::project::MappingModel>,
    row: Seq<Seq<char>>,
    cond: Seq<char>,
    table: Seq<char>,
) -> Seq<char> {
    match spec_project_condition(ms, row, cond) {
        Option::Some(cp) => if cp.0.len() > 0 {
            "db."@ + table + ".deleteOne({ "@ + cond + ": "@ + spec_encode_document(
                cp.1,
                cp.0,
                true,
            ) + " });\n"@
        } else {
            Seq::empty()
        },
        Option::None => Seq::empty(),
    }
}

/// The statements of the given data rows, concatenated in row order.
pub open spec fn spec_rel_update_rows(
    rows: Seq<Seq<Seq<char>>>,
    ms: Seq<crate::project::MappingModel>,
    cond: Seq<char>,
    targets: Seq<Seq<char>>,
    table: Seq<char>,
) -> Seq<char>
    decreases rows.len(),
{
    if rows.len() == 0 {
        Seq::empty()
    } else {
        spec_rel_update_rows(rows.drop_last(), ms, cond, targets, table) + spec_rel_update_row(
            ms,
            rows.last(),
            cond,
            targets,
            table,
        )
    }
}

/// The statements of the given data rows, concatenated in row order.
pub open spec fn spec_rel_insert_rows(
    rows: Seq<Seq<Seq<char>>>,
    ms: Seq<crate::project::MappingModel>,
    table: Seq<char>,
) -> Seq<char>
    decreases rows.len(),
{
    if rows.len() == 0 {
        Seq::empty()
    } else {
        spec_rel_insert_rows(rows.drop_last(), ms, table) + spec_rel_insert_row(
            ms,
            rows.last(),
            table,
        )
    }
}

/// The statements of the given data rows, concatenated in row order.
pub open spec fn spec_rel_delete_rows(
    rows: Seq<Seq<Seq<char>>>,
    ms: Seq<crate::project::MappingModel>,
    cond: Seq<char>,
    table: Seq<char>,
) -> Seq<char>
    decreases rows.len(),
{
    if rows.len() == 0 {
        Seq::empty()
    } else {
        spec_rel_delete_rows(rows.drop_last(), ms, cond, table) + spec_rel_delete_row(
            ms,
            rows.last(),
            cond,
            table,
        )
    }
}

/// The statements of the given data rows, concatenated in row order.
pub open spec fn spec_doc_update_rows(
    rows: Seq<Seq<Seq<char>>>,
    ms: Seq<crate::project::MappingModel>,
    cond: Seq<char>,
    targets: Seq<Seq<char>>,
    table: Seq<char>,
) -> Seq<char>
    decreases rows.len(),
{
    if rows.len() == 0 {
        Seq::empty()
    } else {
        spec_doc_update_rows(rows.drop_last(), ms, cond, targets, table) + spec_doc_update_row(
            ms,
            rows.last(),
            cond,
            targets,
            table,
        )
    }
}

/// The statements of the given data rows, concatenated in row order.
pub open spec fn spec_doc_insert_rows(
    rows: Seq<Seq<Seq<char>>>,
    ms: Seq<crate::project::MappingModel>,
    table: Seq<char>,
) -> Seq<char>
    decreases rows.len(),
{
    if rows.len() == 0 {
        Seq::empty()
    } else {
        spec_doc_insert_rows(rows.drop_last(), ms, table) + spec_doc_insert_row(
            ms,
            rows.last(),
            table,
        )
    }
}

/// The statements of the given data rows, concatenated in row order.
pub open spec fn spec_doc_delete_rows(
    rows: Seq<Seq<Seq<char>>>,
    ms: Seq<crate::project::MappingModel>,
    cond: Seq<char>,
    table: Seq<char>,
) -> Seq<char>
    decreases rows.len(),
{
    if rows.len() == 0 {
        Seq::empty()
    } else {
        spec_doc_delete_rows(rows.drop_last(), ms, cond, table) + spec_doc_delete_row(
            ms,
            rows.last(),
            cond,
            table,
        )
    }
}

/// The whole relational update script: empty unless at least one data
/// row follows the header row.
pub open spec fn spec_rel_update_script(
    rows: Seq<Seq<Seq<char>>>,
    ms: Seq<crate::project::MappingModel>,
    cond: Seq<char>,
    targets: Seq<Seq<char>>,
    table: Seq<char>,
) -> Seq<char> {
    if rows.len() <= 1 {
        Seq::empty()
    } else {
        spec_rel_update_rows(rows.subrange(1, rows.len() as int), ms, cond, targets, table)
    }
}

/// The whole relational insert script: empty unless at least one data
/// row follows the header row.
pub open spec fn spec_rel_insert_script(
    rows: Seq<Seq<Seq<char>>>,
    ms: Seq<crate::project::MappingModel>,
    table: Seq<char>,
) -> Seq<char> {
    if rows.len() <= 1 {
        Seq::empty()
    } else {
        spec_rel_insert_rows(rows.subrange(1, rows.len() as int), ms, table)
    }
}

/// The whole relational delete script: empty unless at least one data
/// row follows the header row.
pub open spec fn spec_rel_delete_script(
    rows: Seq<Seq<Seq<char>>>,
    ms: Seq<crate::project::MappingModel>,
    cond: Seq<char>,
    table: Seq<char>,
) -> Seq<char> {
    if rows.len() <= 1 {
        Seq::empty()
    } else {
        spec_rel_delete_rows(rows.subrange(1, rows.len() as int), ms, cond, table)
    }
}

/// The whole document update script: empty unless at least one data
/// row follows the header row.
pub open spec fn spec_doc_update_script(
    rows: Seq<Seq<Seq<char>>>,
    ms: Seq<crate::project::MappingModel>,
    cond: Seq<char>,
    targets: Seq<Seq<char>>,
    table: Seq<char>,
) -> Seq<char> {
    if rows.len() <= 1 {
        Seq::empty()
    } else {
        spec_doc_update_rows(rows.subrange(1, rows.len() as int), ms, cond, targets, table)
    }
}

/// The whole document insert script: empty unless at least one data
/// row follows the header row.
pub open spec fn spec_doc_insert_script(
    rows: Seq<Seq<Seq<char>>>,
    ms: Seq<crate::project::MappingModel>,
    table: Seq<char>,
) -> Seq<char> {
    if rows.len() <= 1 {
        Seq::empty()
    } else {
        spec_doc_insert_rows(rows.subrange(1, rows.len() as int), ms, table)
    }
}

/// The whole document delete script: empty unless at least one data
/// row follows the header row.
pub open spec fn spec_doc_delete_script(
    rows: Seq<Seq<Seq<char>>>,
    ms: Seq<crate::project::MappingModel>,
    cond: Seq<char>,
    table: Seq<char>,
) -> Seq<char> {
    if rows.len() <= 1 {
        Seq::empty()
    } else {
        spec_doc_delete_rows(rows.subrange(1, rows.len() as int), ms, cond, table)
    }
}

/// Joins the `field = literal` assignments of a payload.
fn rel_assignments(p: &Vec<ProjectedField>) -> (r: String)
    ensures
        r@ == join_with(rel_assign_parts(entries_view(p@)), ", "@),
{
    let ghost parts = rel_assign_parts(entries_view(p@));
    let mut out = String::new();
    let mut k: usize = 0;
    while k < p.len()
        invariant
            parts == rel_assign_parts(entries_view(p@)),
            parts.len() == p@.len(),
            k <= p@.len(),
            out@ == join_with(parts.subrange(0, k as int), ", "@),
        decreases p@.len() - k,
    {
        if k > 0 {
            out.append(", ");
        }
        let e = &p[k];
        out.append(e.field.as_str());
        out.append(" = ");
        let lit = encode_relational(e.ty, e.value.as_str());
        out.append(lit.as_str());
        proof {
            assert(parts[k as int] == entries_view(p@)[k as int].field + " = "@
                + spec_encode_relational(
                entries_view(p@)[k as int].ty,
                entries_view(p@)[k as int].value,
            ));
            assert(parts.subrange(0, k + 1).drop_last() =~= parts.subrange(0, k as int));
            assert(parts.subrange(0, k + 1).last() == parts[k as int]);
            assert(out@ =~= join_with(parts.subrange(0, k + 1), ", "@));
        }
        k += 1;
    }
    proof {
        assert(parts.subrange(0, parts.len() as int) =~= parts);
    }
    out
}

/// Joins the `"field": literal` pairs of a payload.
fn doc_pairs(p: &Vec<ProjectedField>) -> (r: String)
    ensures
        r@ == join_with(doc_pair_parts(entries_view(p@)), ", "@),
{
    let ghost parts = doc_pair_parts(entries_view(p@));
    let mut out = String::new();
    let mut k: usize = 0;
    while k < p.len()
        invariant
            parts == doc_pair_parts(entries_view(p@)),
            parts.len() == p@.len(),
            k <= p@.len(),
            out@ == join_with(parts.subrange(0, k as int), ", "@),
        decreases p@.len() - k,
    {
        if k > 0 {
            out.append(", ");
        }
        let e = &p[k];
        out.append("\"");
        out.append(e.field.as_str());
        out.append("\": ");
        let lit = encode_document(e.ty, e.value.as_str(), false);
        out.append(lit.as_str());
        proof {
            assert(parts[k as int] == "\""@ + entries_view(p@)[k as int].field + "\": "@
                + spec_encode_document_value(
                entries_view(p@)[k as int].ty,
                entries_view(p@)[k as int].value,
            ));
            assert(parts.subrange(0, k + 1).drop_last() =~= parts.subrange(0, k as int));
            assert(parts.subrange(0, k + 1).last() == parts[k as int]);
            assert(out@ =~= join_with(parts.subrange(0, k + 1), ", "@));
        }
        k += 1;
    }
    proof {
        assert(parts.subrange(0, parts.len() as int) =~= parts);
    }
    out
}

/// Joins the bare field names of a payload.
fn field_names(p: &Vec<ProjectedField>) -> (r: String)
    ensures
        r@ == join_with(field_name_parts(entries_view(p@)), ", "@),
{
    let ghost parts = field_name_parts(entries_view(p@));
    let mut out = String::new();
    let mut k: usize = 0;
    while k < p.len()
        invariant
            parts == field_name_parts(entries_view(p@)),
            parts.len() == p@.len(),
            k <= p@.len(),
            out@ == join_with(parts.subrange(0, k as int), ", "@),
        decreases p@.len() - k,
    {
        if k > 0 {
            out.append(", ");
        }
        out.append(p[k].field.as_str());
        proof {
            assert(parts[k as int] == entries_view(p@)[k as int].field);
            assert(parts.subrange(0, k + 1).drop_last() =~= parts.subrange(0, k as int));
            assert(parts.subrange(0, k + 1).last() == parts[k as int]);
            assert(out@ =~= join_with(parts.subrange(0, k + 1), ", "@));
        }
        k += 1;
    }
    proof {
        assert(parts.subrange(0, parts.len() as int) =~= parts);
    }
    out
}

/// Joins the encoded relational values of a payload.
fn rel_values(p: &Vec<ProjectedField>) -> (r: String)
    ensures
        r@ == join_with(rel_value_parts(entries_view(p@)), ", "@),
{
    let ghost parts = rel_value_parts(entries_view(p@));
    let mut out = String::new();
    let mut k: usize = 0;
    while k < p.len()
        invariant
            parts == rel_value_parts(entries_view(p@)),
            parts.len() == p@.len(),
            k <= p@.len(),
            out@ == join_with(parts.subrange(0, k as int), ", "@),
        decreases p@.len() - k,
    {
        if k > 0 {
            out.append(", ");
        }
        let e = &p[k];
        let lit = encode_relational(e.ty, e.value.as_str());
        out.append(lit.as_str());
        proof {
            assert(parts[k as int] == spec_encode_relational(
                entries_view(p@)[k as int].ty,
                entries_view(p@)[k as int].value,
            ));
            assert(parts.subrange(0, k + 1).drop_last() =~= parts.subrange(0, k as int));
            assert(parts.subrange(0, k + 1).last() == parts[k as int]);
            assert(out@ =~= join_with(parts.subrange(0, k + 1), ", "@));
        }
        k += 1;
    }
    proof {
        assert(parts.subrange(0, parts.len() as int) =~= parts);
    }
    out
}

/// Builds the relational update statement of one row.
fn rel_update_row(
    mappings: &Vec<FieldMapping>,
    row: &Vec<String>,
    condition_field: &String,
    update_fields: &Vec<String>,
    table_name: &String,
) -> (r: String)
    ensures
        r@ == spec_rel_update_row(
            mappings_view(mappings@),
            row_view(row@),
            condition_field@,
            names_view(update_fields@),
            table_name@,
        ),
{
    match project_condition(mappings, row, condition_field) {
        Option::None => String::new(),
        Option::Some((cv, cty)) => {
            let payload = project_payload(mappings, row, Option::Some(update_fields));
            if !cv.as_str().is_empty() && payload.len() > 0 {
                let assigns = rel_assignments(&payload);
                let enc = encode_relational(cty, cv.as_str());
                let mut out = String::from_str("UPDATE ");
                out.append(table_name.as_str());
                out.append(" SET ");
                out.append(assigns.as_str());
                out.append(" WHERE ");
                out.append(condition_field.as_str());
                out.append(" = ");
                out.append(enc.as_str());
                out.append(";\n");
                proof {
                    assert(out@ =~= spec_rel_update_row(
                        mappings_view(mappings@),
                        row_view(row@),
                        condition_field@,
                        names_view(update_fields@),
                        table_name@,
                    ));
                }
                out
            } else {
                String::new()
            }
        },
    }
}

/// Builds the relational insert statement of one row.
fn rel_insert_row(mappings: &Vec<FieldMapping>, row: &Vec<String>, table_name: &String) -> (r:
    String)
    ensures
        r@ == spec_rel_insert_row(mappings_view(mappings@), row_view(row@), table_name@),
{
    let payload = project_payload(mappings, row, Option::None);
    if payload.len() > 0 {
        let names = field_names(&payload);
        let values = rel_values(&payload);
        let mut out = String::from_str("INSERT INTO ");
        out.append(table_name.as_str());
        out.append(" (");
        out.append(names.as_str());
        out.append(") VALUES (");
        out.append(values.as_str());
        out.append(");\n");
        proof {
            assert(out@ =~= spec_rel_insert_row(
                mappings_view(mappings@),
                row_view(row@),
                table_name@,
            ));
        }
        out
    } else {
        String::new()
    }
}

/// Builds the relational delete statement of one row.
fn rel_delete_row(
    mappings: &Vec<FieldMapping>,
    row: &Vec<String>,
    condition_field: &String,
    table_name: &String,
) -> (r: String)
    ensures
        r@ == spec_rel_delete_row(
            mappings_view(mappings@),
            row_view(row@),
            condition_field@,
            table_name@,
        ),
{
    match project_condition(mappings, row, condition_field) {
        Option::None => String::new(),
        Option::Some((cv, cty)) => {
            if !cv.as_str().is_empty() {
                let enc = encode_relational(cty, cv.as_str());
                let mut out = String::from_str("DELETE FROM ");
                out.append(table_name.as_str());
                out.append(" WHERE ");
                out.append(condition_field.as_str());
                out.append(" = ");
                out.append(enc.as_str());
                out.append(";\n");
                proof {
                    assert(out@ =~= spec_rel_delete_row(
                        mappings_view(mappings@),
                        row_view(row@),
                        condition_field@,
                        table_name@,
                    ));
                }
                out
            } else {
                String::new()
            }
        },
    }
}

/// Builds the document update statement of one row.
fn doc_update_row(
    mappings: &Vec<FieldMapping>,
    row: &Vec<String>,
    condition_field: &String,
    update_fields: &Vec<String>,
    table_name: &String,
) -> (r: String)
    ensures
        r@ == spec_doc_update_row(
            mappings_view(mappings@),
            row_view(row@),
            condition_field@,
            names_view(update_fields@),
            table_name@,
        ),
{
    match project_condition(mappings, row, condition_field) {
        Option::None => String::new(),
        Option::Some((cv, cty)) => {
            let payload = project_payload(mappings, row, Option::Some(update_fields));
            if !cv.as_str().is_empty() && payload.len() > 0 {
                let pairs = doc_pairs(&payload);
                let enc = encode_document(cty, cv.as_str(), true);
                let mut out = String::from_str("db.");
                out.append(table_name.as_str());
                out.append(".updateOne({ ");
                out.append(condition_field.as_str());
                out.append(": ");
                out.append(enc.as_str());
                out.append(" }, { $set: { ");
                out.append(pairs.as_str());
                out.append(" } });\n");
                proof {
                    assert(out@ =~= spec_doc_update_row(
                        mappings_view(mappings@),
                        row_view(row@),
                        condition_field@,
                        names_view(update_fields@),
                        table_name@,
                    ));
                }
                out
            } else {
                String::new()
            }
        },
    }
}

/// Builds the document insert statement of one row.
fn doc_insert_row(mappings: &Vec<FieldMapping>, row: &Vec<String>, table_name: &String) -> (r:
    String)
    ensures
        r@ == spec_doc_insert_row(mappings_view(mappings@), row_view(row@), table_name@),
{
    let payload = project_payload(mappings, row, Option::None);
    if payload.len() > 0 {
        let pairs = doc_pairs(&payload);
        let mut out = String::from_str("db.");
        out.append(table_name.as_str());
        out.append(".insertOne({ ");
        out.append(pairs.as_str());
        out.append(" });\n");
        proof {
            assert(out@ =~= spec_doc_insert_row(
                mappings_view(mappings@),
                row_view(row@),
                table_name@,
            ));
        }
        out
    } else {
        String::new()
    }
}

/// Builds the document delete statement of one row.
fn doc_delete_row(
    mappings: &Vec<FieldMapping>,
    row: &Vec<String>,
    condition_field: &String,
    table_name: &String,
) -> (r: String)
    ensures
        r@ == spec_doc_delete_row(
            mappings_view(mappings@),
            row_view(row@),
            condition_field@,
            table_name@,
        ),
{
    match project_condition(mappings, row, condition_field) {
        Option::None => String::new(),
        Option::Some((cv, cty)) => {
            if !cv.as_str().is_empty() {
                let enc = encode_document(cty, cv.as_str(), true);
                let mut out = String::from_str("db.");
                out.append(table_name.as_str());
                out.append(".deleteOne({ ");
                out.append(condition_field.as_str());
                out.append(": ");
                out.append(enc.as_str());
                out.append(" });\n");
                proof {
                    assert(out@ =~= spec_doc_delete_row(
                        mappings_view(mappings@),
                        row_view(row@),
                        condition_field@,
                        table_name@,
                    ));
                }
                out
            } else {
                String::new()
            }
        },
    }
}

/// Generates the relational update script: one `UPDATE` statement per
/// data row whose condition value and payload both resolve non-empty.
pub fn generate_mysql_script(
    csv_data: &Vec<Vec<String>>,
    field_mappings: &Vec<FieldMapping>,
    condition_field: &String,
    update_fields: &Vec<String>,
    table_name: &String,
) -> (script: String)
    ensures
        script@ == spec_rel_update_script(
            rows_view(csv_data@),
            mappings_view(field_mappings@),
            condition_field@,
            names_view(update_fields@),
            table_name@,
        ),
{
    let ghost rows = rows_view(csv_data@);
    let mut script = String::new();
    if csv_data.len() <= 1 {
        return script;
    }
    let ghost ms = mappings_view(field_mappings@);
    let mut i: usize = 1;
    while i < csv_data.len()
        invariant
            rows == rows_view(csv_data@),
            ms == mappings_view(field_mappings@),
            rows.len() == csv_data@.len(),
            1 <= i <= csv_data@.len(),
            script@ == spec_rel_update_rows(
                rows.subrange(1, i as int),
                ms,
                condition_field@,
                names_view(update_fields@),
                table_name@,
            ),
        decreases csv_data@.len() - i,
    {
        proof {
            assert(rows.subrange(1, i + 1).drop_last() =~= rows.subrange(1, i as int));
            assert(rows.subrange(1, i + 1).last() == rows[i as int]);
            assert(rows[i as int] == row_view(csv_data@[i as int]@));
        }
        let stmt = rel_update_row(
            field_mappings,
            &csv_data[i],
            condition_field,
            update_fields,
            table_name,
        );
        script.append(stmt.as_str());
        i += 1;
    }
    proof {
        assert(rows.subrange(1, csv_data@.len() as int) =~= rows.subrange(1, rows.len() as int));
    }
    script
}

/// Generates the relational insert script: one `INSERT` statement per
/// data row with a non-empty payload, naming every resolved field.
pub fn generate_mysql_insert_script(
    csv_data: &Vec<Vec<String>>,
    field_mappings: &Vec<FieldMapping>,
    table_name: &String,
) -> (script: String)
    ensures
        script@ == spec_rel_insert_script(
            rows_view(csv_data@),
            mappings_view(field_mappings@),
            table_name@,
        ),
{
    let ghost rows = rows_view(csv_data@);
    let mut script = String::new();
    if csv_data.len() <= 1 {
        return script;
    }
    let ghost ms = mappings_view(field_mappings@);
    let mut i: usize = 1;
    while i < csv_data.len()
        invariant
            rows == rows_view(csv_data@),
            ms == mappings_view(field_mappings@),
            rows.len() == csv_data@.len(),
            1 <= i <= csv_data@.len(),
            script@ == spec_rel_insert_rows(rows.subrange(1, i as int), ms, table_name@),
        decreases csv_data@.len() - i,
    {
        proof {
            assert(rows.subrange(1, i + 1).drop_last() =~= rows.subrange(1, i as int));
            assert(rows.subrange(1, i + 1).last() == rows[i as int]);
            assert(rows[i as int] == row_view(csv_data@[i as int]@));
        }
        let stmt = rel_insert_row(field_mappings, &csv_data[i], table_name);
        script.append(stmt.as_str());
        i += 1;
    }
    proof {
        assert(rows.subrange(1, csv_data@.len() as int) =~= rows.subrange(1, rows.len() as int));
    }
    script
}

/// Generates the relational delete script: one `DELETE` statement per
/// data row whose condition value resolves non-empty.
pub fn generate_mysql_delete_script(
    csv_data: &Vec<Vec<String>>,
    field_mappings: &Vec<FieldMapping>,
    condition_field: &String,
    table_name: &String,
) -> (script: String)
    ensures
        script@ == spec_rel_delete_script(
            rows_view(csv_data@),
            mappings_view(field_mappings@),
            condition_field@,
            table_name@,
        ),
{
    let ghost rows = rows_view(csv_data@);
    let mut script = String::new();
    if csv_data.len() <= 1 {
        return script;
    }
    let ghost ms = mappings_view(field_mappings@);
    let mut i: usize = 1;
    while i < csv_data.len()
        invariant
            rows == rows_view(csv_data@),
            ms == mappings_view(field_mappings@),
            rows.len() == csv_data@.len(),
            1 <= i <= csv_data@.len(),
            script@ == spec_rel_delete_rows(
                rows.subrange(1, i as int),
                ms,
                condition_field@,
                table_name@,
            ),
        decreases csv_data@.len() - i,
    {
        proof {
            assert(rows.subrange(1, i + 1).drop_last() =~= rows.subrange(1, i as int));
            assert(rows.subrange(1, i + 1).last() == rows[i as int]);
            assert(rows[i as int] == row_view(csv_data@[i as int]@));
        }
        let stmt = rel_delete_row(field_mappings, &csv_data[i], condition_field, table_name);
        script.append(stmt.as_str());
        i += 1;
    }
    proof {
        assert(rows.subrange(1, csv_data@.len() as int) =~= rows.subrange(1, rows.len() as int));
    }
    script
}

/// Generates the document update script: one `updateOne` call per data
/// row whose condition value and payload both resolve non-empty.
pub fn generate_mongodb_script(
    csv_data: &Vec<Vec<String>>,
    field_mappings: &Vec<FieldMapping>,
    condition_field: &String,
    update_fields: &Vec<String>,
    table_name: &String,
) -> (script: String)
    ensures
        script@ == spec_doc_update_script(
            rows_view(csv_data@),
            mappings_view(field_mappings@),
            condition_field@,
            names_view(update_fields@),
            table_name@,
        ),
{
    let ghost rows = rows_view(csv_data@);
    let mut script = String::new();
    if csv_data.len() <= 1 {
        return script;
    }
    let ghost ms = mappings_view(field_mappings@);
    let mut i: usize = 1;
    while i < csv_data.len()
        invariant
            rows == rows_view(csv_data@),
            ms == mappings_view(field_mappings@),
            rows.len() == csv_data@.len(),
            1 <= i <= csv_data@.len(),
            script@ == spec_doc_update_rows(
                rows.subrange(1, i as int),
                ms,
                condition_field@,
                names_view(update_fields@),
                table_name@,
            ),
        decreases csv_data@.len() - i,
    {
        proof {
            assert(rows.subrange(1, i + 1).drop_last() =~= rows.subrange(1, i as int));
            assert(rows.subrange(1, i + 1).last() == rows[i as int]);
            assert(rows[i as int] == row_view(csv_data@[i as int]@));
        }
        let stmt = doc_update_row(
            field_mappings,
            &csv_data[i],
            condition_field,
            update_fields,
            table_name,
        );
        script.append(stmt.as_str());
        i += 1;
    }
    proof {
        assert(rows.subrange(1, csv_data@.len() as int) =~= rows.subrange(1, rows.len() as int));
    }
    script
}

/// Generates the document insert script: one `insertOne` call per data
/// row with a non-empty payload.
pub fn generate_mongodb_insert_script(
    csv_data: &Vec<Vec<String>>,
    field_mappings: &Vec<FieldMapping>,
    table_name: &String,
) -> (script: String)
    ensures
        script@ == spec_doc_insert_script(
            rows_view(csv_data@),
            mappings_view(field_mappings@),
            table_name@,
        ),
{
    let ghost rows = rows_view(csv_data@);
    let mut script = String::new();
    if csv_data.len() <= 1 {
        return script;
    }
    let ghost ms = mappings_view(field_mappings@);
    let mut i: usize = 1;
    while i < csv_data.len()
        invariant
            rows == rows_view(csv_data@),
            ms == mappings_view(field_mappings@),
            rows.len() == csv_data@.len(),
            1 <= i <= csv_data@.len(),
            script@ == spec_doc_insert_rows(rows.subrange(1, i as int), ms, table_name@),
        decreases csv_data@.len() - i,
    {
        proof {
            assert(rows.subrange(1, i + 1).drop_last() =~= rows.subrange(1, i as int));
            assert(rows.subrange(1, i + 1).last() == rows[i as int]);
            assert(rows[i as int] == row_view(csv_data@[i as int]@));
        }
        let stmt = doc_insert_row(field_mappings, &csv_data[i], table_name);
        script.append(stmt.as_str());
        i += 1;
    }
    proof {
        assert(rows.subrange(1, csv_data@.len() as int) =~= rows.subrange(1, rows.len() as int));
    }
    script
}

/// Generates the document delete script: one `deleteOne` call per data
/// row whose condition value resolves non-empty.
pub fn generate_mongodb_delete_script(
    csv_data: &Vec<Vec<String>>,
    field_mappings: &Vec<FieldMapping>,
    condition_field: &String,
    table_name: &String,
) -> (script: String)
    ensures
        script@ == spec_doc_delete_script(
            rows_view(csv_data@),
            mappings_view(field_mappings@),
            condition_field@,
            table_name@,
        ),
{
    let ghost rows = rows_view(csv_data@);
    let mut script = String::new();
    if csv_data.len() <= 1 {
        return script;
    }
    let ghost ms = mappings_view(field_mappings@);
    let mut i: usize = 1;
    while i < csv_data.len()
        invariant
            rows == rows_view(csv_data@),
            ms == mappings_view(field_mappings@),
            rows.len() == csv_data@.len(),
            1 <= i <= csv_data@.len(),
            script@ == spec_doc_delete_rows(
                rows.subrange(1, i as int),
                ms,
                condition_field@,
                table_name@,
            ),
        decreases csv_data@.len() - i,
    {
        proof {
            assert(rows.subrange(1, i + 1).drop_last() =~= rows.subrange(1, i as int));
            assert(rows.subrange(1, i + 1).last() == rows[i as int]);
            assert(rows[i as int] == row_view(csv_data@[i as int]@));
        }
        let stmt = doc_delete_row(field_mappings, &csv_data[i], condition_field, table_name);
        script.append(stmt.as_str());
        i += 1;
    }
    proof {
        assert(rows.subrange(1, csv_data@.len() as int) =~= rows.subrange(1, rows.len() as int));
    }
    script
}

} // verus!


