//! Classification of free-text type tags into semantic types.
//!
//! A tag is matched by substring containment against a fixed, ordered
//! rule list; the first rule whose substring occurs in the tag wins, so
//! a tag containing several recognized substrings resolves by rule
//! order. For example, any tag containing `LocalDateTime` also
//! contains `LocalDate` and `Date`, and classifies as a date-time only
//! because that rule stands earlier in the list.

use vstd::prelude::*;

use crate::text::{contains_seq, str_contains};

verus! {

/// The semantic category of a field, driving how its raw cell text is
/// rendered as a literal.
///
/// `Double` also covers `Float` tags, and `LocalDate` also covers plain
/// `Date` tags, since the two members of each pair encode identically
/// in both dialects. `Untyped` stands for an absent tag and `Other` for
/// a tag matching no rule; both fall back to quoted-string rendering.
#[derive(Clone, Copy, Debug, PartialEq, Eq, Structural)]
pub enum SemanticType {
    Integer,
    Long,
    Double,
    Boolean,
    LocalDateTime,
    LocalDate,
    Timestamp,
    ObjectId,
    Decimal,
    Binary,
    RegExp,
    MinKey,
    MaxKey,
    Code,
    Object,
    Array,
    Text,
    Other,
    Untyped,
}

/// The ordered rule list, applied to a present tag: the first substring
/// found in the tag decides the type; no match yields `Other`.
pub open spec fn spec_classify_tag(tag: Seq<char>) -> SemanticType {
    if contains_seq(tag, "Integer"@) {
        SemanticType::Integer
    } else if contains_seq(tag, "Long"@) {
        SemanticType::Long
    } else if contains_seq(tag, "Double"@) {
        SemanticType::Double
    } else if contains_seq(tag, "Float"@) {
        SemanticType::Double
    } else if contains_seq(tag, "Boolean"@) {
        SemanticType::Boolean
    } else if contains_seq(tag, "LocalDateTime"@) {
        SemanticType::LocalDateTime
    } else if contains_seq(tag, "LocalDate"@) {
        SemanticType::LocalDate
    } else if contains_seq(tag, "Date"@) {
        SemanticType::LocalDate
    } else if contains_seq(tag, "Timestamp"@) {
        SemanticType::Timestamp
    } else if contains_seq(tag, "ObjectId"@) {
        SemanticType::ObjectId
    } else if contains_seq(tag, "Decimal"@) {
        SemanticType::Decimal
    } else if contains_seq(tag, "Binary"@) {
        SemanticType::Binary
    } else if contains_seq(tag, "RegExp"@) {
        SemanticType::RegExp
    } else if contains_seq(tag, "MinKey"@) {
        SemanticType::MinKey
    } else if contains_seq(tag, "MaxKey"@) {
        SemanticType::MaxKey
    } else if contains_seq(tag, "Code"@) {
        SemanticType::Code
    } else if contains_seq(tag, "Object"@) {
        SemanticType::Object
    } else if contains_seq(tag, "Array"@) {
        SemanticType::Array
    } else if contains_seq(tag, "String"@) {
        SemanticType::Text
    } else {
        SemanticType::Other
    }
}

/// Classification of an optional tag: an absent tag is `Untyped`.
pub open spec fn spec_classify(tag: Option<Seq<char>>) -> SemanticType {
    match tag {
        Option::None => SemanticType::Untyped,
        Option::Some(t) => spec_classify_tag(t),
    }
}

/// Classifies a present type tag by the ordered substring rules.
pub fn classify_tag(tag: &str) -> (t: SemanticType)
    ensures
        t == spec_classify_tag(tag@),
{
    if str_contains(tag, "Integer") {
        SemanticType::Integer
    } else if str_contains(tag, "Long") {
        SemanticType::Long
    } else if str_contains(tag, "Double") {
        SemanticType::Double
    } else if str_contains(tag, "Float") {
        SemanticType::Double
    } else if str_contains(tag, "Boolean") {
        SemanticType::Boolean
    } else if str_contains(tag, "LocalDateTime") {
        SemanticType::LocalDateTime
    } else if str_contains(tag, "LocalDate") {
        SemanticType::LocalDate
    } else if str_contains(tag, "Date") {
        SemanticType::LocalDate
    } else if str_contains(tag, "Timestamp") {
        SemanticType::Timestamp
    } else if str_contains(tag, "ObjectId") {
        SemanticType::ObjectId
    } else if str_contains(tag, "Decimal") {
        SemanticType::Decimal
    } else if str_contains(tag, "Binary") {
        SemanticType::Binary
    } else if str_contains(tag, "RegExp") {
        SemanticType::RegExp
    } else if str_contains(tag, "MinKey") {
        SemanticType::MinKey
    } else if str_contains(tag, "MaxKey") {
        SemanticType::MaxKey
    } else if str_contains(tag, "Code") {
        SemanticType::Code
    } else if str_contains(tag, "Object") {
        SemanticType::Object
    } else if str_contains(tag, "Array") {
        SemanticType::Array
    } else if str_contains(tag, "String") {
        SemanticType::Text
    } else {
        SemanticType::Other
    }
}

/// Classifies an optional type tag; absent tags are `Untyped`.
pub fn classify(tag: Option<&String>) -> (t: SemanticType)
    ensures
        t == spec_classify(match tag {
            Option::None => None,
            Option::Some(s) => Some(s@),
        }),
{
    match tag {
        Option::None => SemanticType::Untyped,
        Option::Some(s) => classify_tag(s.as_str()),
    }
}

} // verus!
