//! Library-wide laws, stated over the specification functions and
//! proved once and for all: when a row emits a statement, that the
//! emitted pairs are exactly the resolved payload, numeric
//! passthrough, boolean case-insensitivity, escaping, and the
//! short-circuit on inputs without data rows.

use vstd::prelude::*;

use crate::classify::{spec_classify, SemanticType};
use crate::encode::{
    spec_encode_document_condition, spec_encode_document_value, spec_encode_relational,
};
use crate::project::{
    lemma_upsert_absent, lemma_upsert_found, passes, spec_project_condition,
    spec_project_payload, spec_resolve, upsert, EntryModel, MappingModel,
};
use crate::script::{
    doc_pair_parts, rel_assign_parts,
    spec_doc_delete_row, spec_doc_delete_script, spec_doc_insert_row, spec_doc_insert_script,
    spec_doc_update_row, spec_doc_update_script, spec_rel_delete_row, spec_rel_delete_script,
    spec_rel_insert_row, spec_rel_insert_script, spec_rel_update_row, spec_rel_update_script,
};
use crate::text::{char_ci_eq, dq_escaped, eq_ci, escape_seq, is_falsy, is_truthy, sq_escaped};

verus! {

/// No two payload entries name the same field.
pub open spec fn unique_fields(p: Seq<EntryModel>) -> bool {
    forall|i: int, j: int| 0 <= i < j < p.len() ==> p[i].field != p[j].field
}

/// The field/value/type pairs of a payload, as a map over field names;
/// later entries win, mirroring overwrite on projection.
pub open spec fn payload_map(p: Seq<EntryModel>) -> Map<Seq<char>, (Seq<char>, SemanticType)>
    decreases p.len(),
{
    if p.len() == 0 {
        Map::empty()
    } else {
        payload_map(p.drop_last()).insert(p.last().field, (p.last().value, p.last().ty))
    }
}

/// The pairs the mapping list resolves to against one row: for every
/// in-range entry passing the filter, its field bound to the cell text
/// and classified type, later entries of a field overwriting earlier
/// ones.
pub open spec fn resolved_map(
    ms: Seq<MappingModel>,
    row: Seq<Seq<char>>,
    filter: Option<Seq<Seq<char>>>,
) -> Map<Seq<char>, (Seq<char>, SemanticType)>
    decreases ms.len(),
{
    if ms.len() == 0 {
        Map::empty()
    } else {
        let prev = resolved_map(ms.drop_last(), row, filter);
        let m = ms.last();
        if 0 <= m.index < row.len() && passes(filter, m.field) {
            prev.insert(m.field, (row[m.index], spec_classify(m.ty)))
        } else {
            prev
        }
    }
}

/// The first position of `f` in the payload, or -1.
spec fn index_of_field(p: Seq<EntryModel>, f: Seq<char>) -> int
    decreases p.len(),
{
    if p.len() == 0 {
        -1
    } else if p[0].field == f {
        0
    } else if index_of_field(p.drop_first(), f) == -1 {
        -1
    } else {
        index_of_field(p.drop_first(), f) + 1
    }
}

proof fn lemma_index_of_field(p: Seq<EntryModel>, f: Seq<char>)
    ensures
        index_of_field(p, f) == -1 ==> forall|t: int| 0 <= t < p.len() ==> p[t].field != f,
        index_of_field(p, f) != -1 ==> {
            &&& 0 <= index_of_field(p, f) < p.len()
            &&& p[index_of_field(p, f)].field == f
        },
    decreases p.len(),
{
    if p.len() == 0 {
    } else if p[0].field == f {
    } else {
        lemma_index_of_field(p.drop_first(), f);
        if index_of_field(p, f) == -1 {
            assert forall|t: int| 0 <= t < p.len() implies p[t].field != f by {
                if t > 0 {
                    assert(p.drop_first()[t - 1] == p[t]);
                }
            }
        } else {
            assert(p.drop_first()[index_of_field(p.drop_first(), f)] == p[index_of_field(p, f)]);
        }
    }
}

proof fn lemma_update_map(p: Seq<EntryModel>, k: int, e: EntryModel)
    requires
        unique_fields(p),
        0 <= k < p.len(),
        p[k].field == e.field,
    ensures
        payload_map(p.update(k, e)) == payload_map(p).insert(e.field, (e.value, e.ty)),
    decreases p.len(),
{
    if k == p.len() - 1 {
        assert(p.update(k, e).drop_last() =~= p.drop_last());
        assert(p.update(k, e).last() == e);
        assert(payload_map(p.drop_last()).insert(p.last().field, (p.last().value, p.last().ty))
            .insert(e.field, (e.value, e.ty)) =~= payload_map(p.drop_last()).insert(
            e.field,
            (e.value, e.ty),
        ));
    } else {
        assert(p.update(k, e).drop_last() =~= p.drop_last().update(k, e));
        assert(p.update(k, e).last() == p.last());
        assert(unique_fields(p.drop_last()));
        lemma_update_map(p.drop_last(), k, e);
        assert(p.last().field != e.field);
        assert(payload_map(p.drop_last()).insert(e.field, (e.value, e.ty)).insert(
            p.last().field,
            (p.last().value, p.last().ty),
        ) =~= payload_map(p.drop_last()).insert(p.last().field, (p.last().value, p.last().ty))
            .insert(e.field, (e.value, e.ty)));
    }
}

/// Writing one entry into a payload with pairwise-distinct field names
/// keeps the names distinct and inserts exactly that entry's pair into
/// the payload's map.
pub proof fn lemma_upsert_map(p: Seq<EntryModel>, e: EntryModel)
    requires
        unique_fields(p),
    ensures
        unique_fields(upsert(p, e)),
        payload_map(upsert(p, e)) == payload_map(p).insert(e.field, (e.value, e.ty)),
{
    lemma_index_of_field(p, e.field);
    let k = index_of_field(p, e.field);
    if k == -1 {
        lemma_upsert_absent(p, e);
        assert(p.push(e).drop_last() =~= p);
    } else {
        lemma_upsert_found(p, e, k);
        lemma_update_map(p, k, e);
        assert forall|i: int, j: int| 0 <= i < j < p.update(k, e).len() implies p.update(
            k,
            e,
        )[i].field != p.update(k, e)[j].field by {
            assert(p[i].field != p[j].field);
        }
    }
}

/// The projected payload of a row holds pairwise-distinct field names,
/// and its field/value/type pairs are exactly the pairs the mapping
/// list resolves to against that row: the statement built from the
/// payload binds the same set of fields, no more, no fewer.
pub proof fn lemma_payload_matches_mappings(
    ms: Seq<MappingModel>,
    row: Seq<Seq<char>>,
    filter: Option<Seq<Seq<char>>>,
)
    ensures
        unique_fields(spec_project_payload(ms, row, filter)),
        payload_map(spec_project_payload(ms, row, filter)) == resolved_map(ms, row, filter),
    decreases ms.len(),
{
    if ms.len() == 0 {
    } else {
        lemma_payload_matches_mappings(ms.drop_last(), row, filter);
        let prev = spec_project_payload(ms.drop_last(), row, filter);
        let m = ms.last();
        if 0 <= m.index < row.len() && passes(filter, m.field) {
            lemma_upsert_map(prev, spec_resolve(m, row));
        }
    }
}

/// The parts joined into a statement's payload section correspond one
/// to one, in order, to the payload's entries: part `i` binds entry
/// `i`'s field to entry `i`'s encoded value, in either dialect. With
/// [`lemma_payload_matches_mappings`], the field/value pairs a
/// statement binds are exactly the pairs its row resolves to.
pub proof fn lemma_statement_pairs(p: Seq<EntryModel>)
    ensures
        rel_assign_parts(p).len() == p.len(),
        doc_pair_parts(p).len() == p.len(),
        forall|i: int|
            0 <= i < p.len() ==> rel_assign_parts(p)[i] == p[i].field + " = "@
                + spec_encode_relational(p[i].ty, p[i].value),
        forall|i: int|
            0 <= i < p.len() ==> doc_pair_parts(p)[i] == "\""@ + p[i].field + "\": "@
                + spec_encode_document_value(p[i].ty, p[i].value),
{
}

/// An update row emits a statement exactly when its condition value
/// resolves non-empty and at least one target field resolves; the
/// emitted statement is the single one given by the row specification.
pub proof fn lemma_update_row_emitted(
    ms: Seq<MappingModel>,
    row: Seq<Seq<char>>,
    cond: Seq<char>,
    targets: Seq<Seq<char>>,
    table: Seq<char>,
)
    ensures
        ({
            let c = spec_project_condition(ms, row, cond);
            let p = spec_project_payload(ms, row, Option::Some(targets));
            let rel = spec_rel_update_row(ms, row, cond, targets, table);
            let doc = spec_doc_update_row(ms, row, cond, targets, table);
            let emit = c matches Option::Some(cp) && cp.0.len() > 0 && p.len() > 0;
            &&& (rel.len() > 0 <==> emit)
            &&& (doc.len() > 0 <==> emit)
            &&& (!emit ==> rel == Seq::<char>::empty() && doc == Seq::<char>::empty())
        }),
{
    reveal_strlit("UPDATE ");
    reveal_strlit("db.");
}

/// An insert row emits a statement exactly when at least one mapping
/// entry resolves against the row.
pub proof fn lemma_insert_row_emitted(
    ms: Seq<MappingModel>,
    row: Seq<Seq<char>>,
    table: Seq<char>,
)
    ensures
        ({
            let p = spec_project_payload(ms, row, Option::None);
            let rel = spec_rel_insert_row(ms, row, table);
            let doc = spec_doc_insert_row(ms, row, table);
            &&& (rel.len() > 0 <==> p.len() > 0)
            &&& (doc.len() > 0 <==> p.len() > 0)
            &&& (p.len() == 0 ==> rel == Seq::<char>::empty() && doc == Seq::<char>::empty())
        }),
{
    reveal_strlit("INSERT INTO ");
    reveal_strlit("db.");
}

/// A delete row emits a statement exactly when its condition value
/// resolves non-empty.
pub proof fn lemma_delete_row_emitted(
    ms: Seq<MappingModel>,
    row: Seq<Seq<char>>,
    cond: Seq<char>,
    table: Seq<char>,
)
    ensures
        ({
            let c = spec_project_condition(ms, row, cond);
            let rel = spec_rel_delete_row(ms, row, cond, table);
            let doc = spec_doc_delete_row(ms, row, cond, table);
            let emit = c matches Option::Some(cp) && cp.0.len() > 0;
            &&& (rel.len() > 0 <==> emit)
            &&& (doc.len() > 0 <==> emit)
            &&& (!emit ==> rel == Seq::<char>::empty() && doc == Seq::<char>::empty())
        }),
{
    reveal_strlit("DELETE FROM ");
    reveal_strlit("db.");
}

/// Non-empty numeric text passes through the encoders unchanged
/// wherever the dialect renders numbers bare, so re-reading the
/// emitted literal as a number recovers the value whenever the raw
/// text was a well-formed number.
pub proof fn lemma_numeric_passthrough(ty: SemanticType, v: Seq<char>)
    requires
        v.len() > 0,
        ty == SemanticType::Integer || ty == SemanticType::Long || ty == SemanticType::Double,
    ensures
        spec_encode_relational(ty, v) == v,
        spec_encode_document_condition(ty, v) == v,
        ty == SemanticType::Double ==> spec_encode_document_value(ty, v) == v,
        ty == SemanticType::Integer ==> spec_encode_document_value(ty, v) == "NumberInt("@ + v
            + ")"@,
        ty == SemanticType::Long ==> spec_encode_document_value(ty, v) == "NumberLong("@ + v
            + ")"@,
{
}

/// Any two truthy boolean texts encode identically, as do any two
/// falsy ones, in every dialect and position; other non-empty boolean
/// text falls back to a quoted string literal.
proof fn lemma_falsy_not_truthy(s: Seq<char>)
    requires
        is_falsy(s),
    ensures
        !is_truthy(s),
        s.len() > 0,
{
    reveal_strlit("true");
    reveal_strlit("false");
    reveal_strlit("1");
    reveal_strlit("0");
    if eq_ci(s, "false"@) {
        assert(s.len() == 5);
    } else {
        assert(eq_ci(s, "0"@));
        assert(s.len() == 1);
        assert(char_ci_eq(s[0], '0'));
        assert(s[0] == '0');
        if eq_ci(s, "1"@) {
            assert(char_ci_eq(s[0], '1'));
            assert(false);
        }
    }
}

pub proof fn lemma_boolean_case_insensitive(a: Seq<char>, b: Seq<char>)
    requires
        (is_truthy(a) && is_truthy(b)) || (is_falsy(a) && is_falsy(b)),
    ensures
        spec_encode_relational(SemanticType::Boolean, a) == spec_encode_relational(
            SemanticType::Boolean,
            b,
        ),
        spec_encode_document_value(SemanticType::Boolean, a) == spec_encode_document_value(
            SemanticType::Boolean,
            b,
        ),
        spec_encode_document_condition(SemanticType::Boolean, a)
            == spec_encode_document_condition(SemanticType::Boolean, b),
{
    reveal_strlit("true");
    reveal_strlit("false");
    reveal_strlit("1");
    reveal_strlit("0");
    if is_falsy(a) && is_falsy(b) {
        lemma_falsy_not_truthy(a);
        lemma_falsy_not_truthy(b);
    }
}

/// Escaping distributes over an embedded metacharacter: every
/// occurrence of `q` becomes `rep`, and all other characters are kept.
pub proof fn lemma_escape_distributes(a: Seq<char>, b: Seq<char>, q: char, rep: Seq<char>)
    ensures
        escape_seq(a + seq![q] + b, q, rep) == escape_seq(a, q, rep) + rep + escape_seq(
            b,
            q,
            rep,
        ),
    decreases a.len(),
{
    if a.len() == 0 {
        let s = a + seq![q] + b;
        assert(s.len() == b.len() + 1);
        assert(s[0] == q);
        assert(s.drop_first() =~= b);
        assert(escape_seq(s, q, rep) =~= escape_seq(a, q, rep) + rep + escape_seq(b, q, rep));
    } else {
        let s = a + seq![q] + b;
        assert(s[0] == a[0]);
        assert(s.drop_first() =~= a.drop_first() + seq![q] + b);
        lemma_escape_distributes(a.drop_first(), b, q, rep);
        assert(escape_seq(s, q, rep) =~= escape_seq(a, q, rep) + rep + escape_seq(b, q, rep));
    }
}

/// Text without the metacharacter is unchanged by escaping.
pub proof fn lemma_escape_unchanged(s: Seq<char>, q: char, rep: Seq<char>)
    requires
        forall|i: int| 0 <= i < s.len() ==> s[i] != q,
    ensures
        escape_seq(s, q, rep) == s,
    decreases s.len(),
{
    if s.len() > 0 {
        lemma_escape_unchanged(s.drop_first(), q, rep);
        assert(escape_seq(s, q, rep) =~= s);
    }
}

/// Relational escaping doubles every single quote.
pub proof fn lemma_relational_escaping(a: Seq<char>, b: Seq<char>)
    ensures
        sq_escaped(a + seq!['\''] + b) == sq_escaped(a) + "''"@ + sq_escaped(b),
{
    lemma_escape_distributes(a, b, '\'', "''"@);
}

/// Document escaping backslash-escapes every double quote.
pub proof fn lemma_document_escaping(a: Seq<char>, b: Seq<char>)
    ensures
        dq_escaped(a + seq!['"'] + b) == dq_escaped(a) + "\\\""@ + dq_escaped(b),
{
    lemma_escape_distributes(a, b, '"', "\\\""@);
}

/// With no data row after the header, every generation operation
/// yields the empty script.
pub proof fn lemma_short_circuit(
    rows: Seq<Seq<Seq<char>>>,
    ms: Seq<MappingModel>,
    cond: Seq<char>,
    targets: Seq<Seq<char>>,
    table: Seq<char>,
)
    requires
        rows.len() <= 1,
    ensures
        spec_rel_update_script(rows, ms, cond, targets, table) == Seq::<char>::empty(),
        spec_rel_insert_script(rows, ms, table) == Seq::<char>::empty(),
        spec_rel_delete_script(rows, ms, cond, table) == Seq::<char>::empty(),
        spec_doc_update_script(rows, ms, cond, targets, table) == Seq::<char>::empty(),
        spec_doc_insert_script(rows, ms, table) == Seq::<char>::empty(),
        spec_doc_delete_script(rows, ms, cond, table) == Seq::<char>::empty(),
{
}

} // verus!
