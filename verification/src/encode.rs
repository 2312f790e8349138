//! Type-directed literal encoding.
//!
//! Given a semantic type and the raw text of one cell, these functions
//! produce the literal that stands for the value in one of the two
//! target dialects: relational (SQL-like) or document (shell-command
//! like). Empty raw text encodes to the dialect's null marker, boolean
//! text is matched case-insensitively, numeric text passes through
//! unquoted and unvalidated, and string-like text is quoted with the
//! dialect's metacharacter escaped (single quotes doubled for the
//! relational dialect, double quotes backslash-escaped for the
//! document dialect). Construction forms such as dates, object ids or
//! arrays exist only in the document dialect; the relational dialect
//! falls back to plain quoted or unquoted rendering for them.

use vstd::prelude::*;
use vstd::string::*;

use crate::classify::SemanticType;
use crate::text::{
    all_hex, braced, dq_escaped, dq_quoted, escape_str, falsy, hex_digit_char, is_falsy,
    is_truthy, join_with, split_commas, split_commas_str, sq_escaped, sq_plain, sq_quoted,
    trim_seq, trim_str, truthy,
};

verus! {

/// The literal for one value in the relational dialect. Condition and
/// payload positions render alike in this dialect, so there is no
/// context flag: empty text is `NULL`, dates become `STR_TO_DATE`
/// constructions, numbers pass through bare, booleans become `TRUE` or
/// `FALSE` (or fall back to a quoted string), and everything else is
/// single-quoted with inner single quotes doubled.
pub open spec fn spec_encode_relational(ty: SemanticType, v: Seq<char>) -> Seq<char> {
    if v.len() == 0 {
        "NULL"@
    } else {
        match ty {
            SemanticType::LocalDateTime => "STR_TO_DATE('"@ + v + "', '%Y-%m-%dT%H:%i:%s')"@,
            SemanticType::LocalDate => "STR_TO_DATE('"@ + v + "', '%Y-%m-%d')"@,
            SemanticType::Integer => v,
            SemanticType::Long => v,
            SemanticType::Double => v,
            SemanticType::Boolean => if is_truthy(v) {
                "TRUE"@
            } else if is_falsy(v) {
                "FALSE"@
            } else {
                sq_quoted(v)
            },
            _ => sq_quoted(v),
        }
    }
}

/// The items of a document-dialect array literal built from
/// comma-separated text: each piece trimmed, escaped and double-quoted.
pub open spec fn spec_array_items(v: Seq<char>) -> Seq<Seq<char>> {
    split_commas(v).map_values(|p: Seq<char>| dq_quoted(trim_seq(p)))
}

/// The literal for one value in a document-dialect payload position.
/// Min/max sentinels ignore the raw text entirely; otherwise empty
/// text is `null`, and each semantic type has its construction form.
pub open spec fn spec_encode_document_value(ty: SemanticType, v: Seq<char>) -> Seq<char> {
    if ty == SemanticType::MinKey {
        "MinKey()"@
    } else if ty == SemanticType::MaxKey {
        "MaxKey()"@
    } else if v.len() == 0 {
        "null"@
    } else {
        match ty {
            SemanticType::Integer => "NumberInt("@ + v + ")"@,
            SemanticType::Long => "NumberLong("@ + v + ")"@,
            SemanticType::Double => v,
            SemanticType::Boolean => if is_truthy(v) {
                "true"@
            } else if is_falsy(v) {
                "false"@
            } else {
                dq_quoted(v)
            },
            SemanticType::LocalDateTime => "new Date(\""@ + v + "\")"@,
            SemanticType::LocalDate => "new Date(\""@ + v + "\")"@,
            SemanticType::Timestamp => "new Timestamp()"@,
            SemanticType::ObjectId => if v.len() == 24 && all_hex(v) {
                "ObjectId(\""@ + v + "\")"@
            } else {
                dq_quoted(v)
            },
            SemanticType::Decimal => "NumberDecimal(\""@ + v + "\")"@,
            SemanticType::Binary => "BinData(0, \""@ + v + "\")"@,
            SemanticType::RegExp => "RegExp(\""@ + v + "\")"@,
            SemanticType::Code => "Code(\""@ + v + "\")"@,
            SemanticType::Object => if braced(v, '{', '}') {
                v
            } else {
                dq_quoted(v)
            },
            SemanticType::Array => if braced(v, '[', ']') {
                v
            } else {
                "["@ + join_with(spec_array_items(v), ", "@) + "]"@
            },
            _ => dq_quoted(v),
        }
    }
}

/// The literal for one value in a document-dialect condition (filter)
/// position: numbers bare, booleans as keywords, everything else
/// single-quoted verbatim.
pub open spec fn spec_encode_document_condition(ty: SemanticType, v: Seq<char>) -> Seq<char> {
    if v.len() == 0 {
        "null"@
    } else {
        match ty {
            SemanticType::Integer => v,
            SemanticType::Long => v,
            SemanticType::Double => v,
            SemanticType::Boolean => if is_truthy(v) {
                "true"@
            } else if is_falsy(v) {
                "false"@
            } else {
                sq_plain(v)
            },
            _ => sq_plain(v),
        }
    }
}

/// The document-dialect literal, in either position.
pub open spec fn spec_encode_document(ty: SemanticType, v: Seq<char>, is_condition: bool) -> Seq<
    char,
> {
    if is_condition {
        spec_encode_document_condition(ty, v)
    } else {
        spec_encode_document_value(ty, v)
    }
}

/// Concatenates three parts.
fn wrap(prefix: &str, middle: &str, suffix: &str) -> (r: String)
    ensures
        r@ == prefix@ + middle@ + suffix@,
{
    let mut out = String::from_str(prefix);
    out.append(middle);
    out.append(suffix);
    out
}

/// Single-quotes `v`, doubling every inner single quote.
fn sq_quote(v: &str) -> (r: String)
    ensures
        r@ == sq_quoted(v@),
{
    let e = escape_str(v, '\'', "''");
    wrap("'", e.as_str(), "'")
}

/// Double-quotes `v`, backslash-escaping every inner double quote.
fn dq_quote(v: &str) -> (r: String)
    ensures
        r@ == dq_quoted(v@),
{
    let e = escape_str(v, '"', "\\\"");
    wrap("\"", e.as_str(), "\"")
}

/// Single-quotes `v` verbatim.
fn sq_wrap(v: &str) -> (r: String)
    ensures
        r@ == sq_plain(v@),
{
    wrap("'", v, "'")
}

/// Decides whether every character of `s` is a hexadecimal digit.
fn all_hex_digits(s: &str) -> (r: bool)
    ensures
        r == all_hex(s@),
{
    let len = s.unicode_len();
    let mut i: usize = 0;
    while i < len
        invariant
            len == s@.len(),
            i <= len,
            forall|k: int| 0 <= k < i ==> crate::text::is_hex_digit(s@[k]),
        decreases len - i,
    {
        if !hex_digit_char(s.get_char(i)) {
            return false;
        }
        i += 1;
    }
    true
}

/// Decides whether `s` starts with `open` and ends with `close`.
fn is_braced(s: &str, open: char, close: char) -> (r: bool)
    ensures
        r == braced(s@, open, close),
{
    let len = s.unicode_len();
    if len == 0 {
        return false;
    }
    s.get_char(0) == open && s.get_char(len - 1) == close
}

/// Builds the document-dialect array literal from comma-separated text.
fn document_array_literal(v: &str) -> (r: String)
    ensures
        r@ == "["@ + join_with(spec_array_items(v@), ", "@) + "]"@,
{
    let pieces = split_commas_str(v);
    let ghost parts = spec_array_items(v@);
    let mut out = String::from_str("[");
    proof {
        assert(out@ =~= "["@ + join_with(parts.subrange(0, 0), ", "@));
    }
    let mut k: usize = 0;
    while k < pieces.len()
        invariant
            pieces@.map_values(|p: String| p@) == split_commas(v@),
            parts == spec_array_items(v@),
            parts.len() == pieces@.len(),
            k <= pieces.len(),
            out@ == "["@ + join_with(parts.subrange(0, k as int), ", "@),
        decreases pieces.len() - k,
    {
        if k > 0 {
            out.append(", ");
        }
        let t = trim_str(pieces[k].as_str());
        let q = dq_quote(t);
        out.append(q.as_str());
        proof {
            assert(split_commas(v@)[k as int] == pieces@.map_values(|p: String| p@)[k as int]);
            assert(parts[k as int] == dq_quoted(trim_seq(split_commas(v@)[k as int])));
            assert(parts.subrange(0, k + 1).drop_last() =~= parts.subrange(0, k as int));
            assert(parts.subrange(0, k + 1).last() == parts[k as int]);
            if k == 0 {
                assert(out@ =~= "["@ + join_with(parts.subrange(0, 1), ", "@));
            } else {
                assert(out@ =~= "["@ + join_with(parts.subrange(0, k + 1), ", "@));
            }
        }
        k += 1;
    }
    out.append("]");
    proof {
        assert(parts.subrange(0, parts.len() as int) =~= parts);
    }
    out
}

/// Encodes one raw cell value for the relational dialect.
pub fn encode_relational(ty: SemanticType, v: &str) -> (r: String)
    ensures
        r@ == spec_encode_relational(ty, v@),
{
    if v.is_empty() {
        return String::from_str("NULL");
    }
    match ty {
        SemanticType::LocalDateTime => wrap("STR_TO_DATE('", v, "', '%Y-%m-%dT%H:%i:%s')"),
        SemanticType::LocalDate => wrap("STR_TO_DATE('", v, "', '%Y-%m-%d')"),
        SemanticType::Integer => String::from_str(v),
        SemanticType::Long => String::from_str(v),
        SemanticType::Double => String::from_str(v),
        SemanticType::Boolean => {
            if truthy(v) {
                String::from_str("TRUE")
            } else if falsy(v) {
                String::from_str("FALSE")
            } else {
                sq_quote(v)
            }
        },
        _ => sq_quote(v),
    }
}

/// Encodes one raw cell value for the document dialect; a condition
/// (filter) position uses the reduced rule set of
/// [`spec_encode_document_condition`].
pub fn encode_document(ty: SemanticType, v: &str, is_condition: bool) -> (r: String)
    ensures
        r@ == spec_encode_document(ty, v@, is_condition),
{
    if is_condition {
        if v.is_empty() {
            return String::from_str("null");
        }
        match ty {
            SemanticType::Integer => String::from_str(v),
            SemanticType::Long => String::from_str(v),
            SemanticType::Double => String::from_str(v),
            SemanticType::Boolean => {
                if truthy(v) {
                    String::from_str("true")
                } else if falsy(v) {
                    String::from_str("false")
                } else {
                    sq_wrap(v)
                }
            },
            _ => sq_wrap(v),
        }
    } else {
        match ty {
            SemanticType::MinKey => String::from_str("MinKey()"),
            SemanticType::MaxKey => String::from_str("MaxKey()"),
            _ => {
                if v.is_empty() {
                    return String::from_str("null");
                }
                match ty {
                    SemanticType::Integer => wrap("NumberInt(", v, ")"),
                    SemanticType::Long => wrap("NumberLong(", v, ")"),
                    SemanticType::Double => String::from_str(v),
                    SemanticType::Boolean => {
                        if truthy(v) {
                            String::from_str("true")
                        } else if falsy(v) {
                            String::from_str("false")
                        } else {
                            dq_quote(v)
                        }
                    },
                    SemanticType::LocalDateTime => wrap("new Date(\"", v, "\")"),
                    SemanticType::LocalDate => wrap("new Date(\"", v, "\")"),
                    SemanticType::Timestamp => String::from_str("new Timestamp()"),
                    SemanticType::ObjectId => {
                        if v.unicode_len() == 24 && all_hex_digits(v) {
                            wrap("ObjectId(\"", v, "\")")
                        } else {
                            dq_quote(v)
                        }
                    },
                    SemanticType::Decimal => wrap("NumberDecimal(\"", v, "\")"),
                    SemanticType::Binary => wrap("BinData(0, \"", v, "\")"),
                    SemanticType::RegExp => wrap("RegExp(\"", v, "\")"),
                    SemanticType::Code => wrap("Code(\"", v, "\")"),
                    SemanticType::Object => {
                        if is_braced(v, '{', '}') {
                            String::from_str(v)
                        } else {
                            dq_quote(v)
                        }
                    },
                    SemanticType::Array => {
                        if is_braced(v, '[', ']') {
                            String::from_str(v)
                        } else {
                            document_array_literal(v)
                        }
                    },
                    _ => dq_quote(v),
                }
            },
        }
    }
}

} // verus!
