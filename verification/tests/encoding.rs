use dbscriptgen::classify::{classify, classify_tag, SemanticType};
use dbscriptgen::encode::{encode_document, encode_relational};

#[test]
fn classify_absent_tag_is_untyped() {
    assert_eq!(classify(None), SemanticType::Untyped);
}

#[test]
fn classify_unknown_tag_is_other() {
    assert_eq!(classify_tag("com.example.Widget"), SemanticType::Other);
}

#[test]
fn classify_by_substring_containment() {
    assert_eq!(classify_tag("java.lang.Integer"), SemanticType::Integer);
    assert_eq!(classify_tag("java.lang.Long"), SemanticType::Long);
    assert_eq!(classify_tag("java.lang.Double"), SemanticType::Double);
    assert_eq!(classify_tag("java.lang.Float"), SemanticType::Double);
    assert_eq!(classify_tag("java.lang.Boolean"), SemanticType::Boolean);
    assert_eq!(classify_tag("java.lang.String"), SemanticType::Text);
    assert_eq!(classify_tag("java.time.LocalDate"), SemanticType::LocalDate);
    assert_eq!(classify_tag("java.util.Date"), SemanticType::LocalDate);
    assert_eq!(classify_tag("org.bson.types.ObjectId"), SemanticType::ObjectId);
    assert_eq!(classify_tag("java.math.BigDecimal"), SemanticType::Decimal);
}

#[test]
fn classify_first_match_order_wins() {
    // LocalDateTime contains LocalDate and Date, but the longer rule
    // stands earlier in the rule list.
    assert_eq!(classify_tag("java.time.LocalDateTime"), SemanticType::LocalDateTime);
    // A tag containing two recognized substrings resolves to the
    // earlier rule: Integer stands before Date.
    assert_eq!(classify_tag("IntegerDate"), SemanticType::Integer);
}

#[test]
fn relational_empty_value_is_null() {
    assert_eq!(encode_relational(SemanticType::Integer, ""), "NULL");
    assert_eq!(encode_relational(SemanticType::Text, ""), "NULL");
    assert_eq!(encode_relational(SemanticType::LocalDate, ""), "NULL");
}

#[test]
fn document_empty_value_is_null() {
    assert_eq!(encode_document(SemanticType::Integer, "", false), "null");
    assert_eq!(encode_document(SemanticType::Text, "", false), "null");
    assert_eq!(encode_document(SemanticType::Text, "", true), "null");
}

#[test]
fn numeric_round_trip_relational() {
    let lit = encode_relational(SemanticType::Integer, "42");
    assert_eq!(lit, "42");
    assert_eq!(lit.parse::<i64>().unwrap(), 42);
    let lit = encode_relational(SemanticType::Long, "-9007199254740993");
    assert_eq!(lit.parse::<i64>().unwrap(), -9007199254740993);
    let lit = encode_relational(SemanticType::Double, "3.5");
    assert_eq!(lit.parse::<f64>().unwrap(), 3.5);
}

#[test]
fn numeric_round_trip_document() {
    assert_eq!(encode_document(SemanticType::Double, "2.25", false), "2.25");
    assert_eq!("2.25".parse::<f64>().unwrap(), 2.25);
    assert_eq!(encode_document(SemanticType::Integer, "7", false), "NumberInt(7)");
    assert_eq!(encode_document(SemanticType::Long, "7", false), "NumberLong(7)");
    assert_eq!(encode_document(SemanticType::Integer, "7", true), "7");
}

#[test]
fn malformed_numeric_text_passes_through() {
    assert_eq!(encode_relational(SemanticType::Integer, "not-a-number"), "not-a-number");
}

#[test]
fn boolean_case_insensitive() {
    let a = encode_relational(SemanticType::Boolean, "TRUE");
    let b = encode_relational(SemanticType::Boolean, "1");
    let c = encode_relational(SemanticType::Boolean, "true");
    assert_eq!(a, "TRUE");
    assert_eq!(a, b);
    assert_eq!(b, c);
    let d = encode_relational(SemanticType::Boolean, "False");
    let e = encode_relational(SemanticType::Boolean, "0");
    assert_eq!(d, "FALSE");
    assert_eq!(d, e);
    assert_eq!(encode_document(SemanticType::Boolean, "tRuE", false), "true");
    assert_eq!(encode_document(SemanticType::Boolean, "0", false), "false");
}

#[test]
fn boolean_other_text_falls_back_to_string() {
    assert_eq!(encode_relational(SemanticType::Boolean, "yes"), "'yes'");
    assert_eq!(encode_document(SemanticType::Boolean, "yes", false), "\"yes\"");
}

#[test]
fn relational_escaping_doubles_single_quotes() {
    assert_eq!(encode_relational(SemanticType::Text, "O'Brien"), "'O''Brien'");
    assert_eq!(encode_relational(SemanticType::Untyped, "a'b'c"), "'a''b''c'");
}

#[test]
fn document_escaping_escapes_double_quotes() {
    assert_eq!(
        encode_document(SemanticType::Text, "say \"hi\"", false),
        "\"say \\\"hi\\\"\""
    );
}

#[test]
fn date_encodings() {
    assert_eq!(
        encode_relational(SemanticType::LocalDate, "2024-01-01"),
        "STR_TO_DATE('2024-01-01', '%Y-%m-%d')"
    );
    assert_eq!(
        encode_relational(SemanticType::LocalDateTime, "2024-01-01T10:30:00"),
        "STR_TO_DATE('2024-01-01T10:30:00', '%Y-%m-%dT%H:%i:%s')"
    );
    assert_eq!(
        encode_document(SemanticType::LocalDate, "2024-01-01", false),
        "new Date(\"2024-01-01\")"
    );
    assert_eq!(
        encode_document(SemanticType::LocalDateTime, "2024-01-01T10:30:00", false),
        "new Date(\"2024-01-01T10:30:00\")"
    );
}

#[test]
fn relational_construction_types_fall_back_to_quoted_string() {
    assert_eq!(encode_relational(SemanticType::ObjectId, "507f1f77bcf86cd799439011"),
        "'507f1f77bcf86cd799439011'");
    assert_eq!(encode_relational(SemanticType::Timestamp, "12345"), "'12345'");
    assert_eq!(encode_relational(SemanticType::Decimal, "1.23"), "'1.23'");
}

#[test]
fn document_object_id() {
    assert_eq!(
        encode_document(SemanticType::ObjectId, "507f1f77bcf86cd799439011", false),
        "ObjectId(\"507f1f77bcf86cd799439011\")"
    );
    // Not 24 hexadecimal characters: rendered as a plain string.
    assert_eq!(encode_document(SemanticType::ObjectId, "abc", false), "\"abc\"");
    assert_eq!(
        encode_document(SemanticType::ObjectId, "507f1f77bcf86cd79943901z", false),
        "\"507f1f77bcf86cd79943901z\""
    );
}

#[test]
fn document_construction_forms() {
    assert_eq!(encode_document(SemanticType::Decimal, "1.23", false), "NumberDecimal(\"1.23\")");
    assert_eq!(encode_document(SemanticType::Binary, "SGVsbG8=", false), "BinData(0, \"SGVsbG8=\")");
    assert_eq!(encode_document(SemanticType::RegExp, "^a.*$", false), "RegExp(\"^a.*$\")");
    assert_eq!(encode_document(SemanticType::Code, "function(){}", false), "Code(\"function(){}\")");
    // The timestamp construction ignores the raw text.
    assert_eq!(encode_document(SemanticType::Timestamp, "12345", false), "new Timestamp()");
}

#[test]
fn document_min_max_sentinels_ignore_value() {
    assert_eq!(encode_document(SemanticType::MinKey, "", false), "MinKey()");
    assert_eq!(encode_document(SemanticType::MinKey, "anything", false), "MinKey()");
    assert_eq!(encode_document(SemanticType::MaxKey, "", false), "MaxKey()");
}

#[test]
fn document_object_passthrough_or_quoted() {
    assert_eq!(encode_document(SemanticType::Object, "{\"x\": 1}", false), "{\"x\": 1}");
    assert_eq!(encode_document(SemanticType::Object, "plain", false), "\"plain\"");
}

#[test]
fn document_array_passthrough_or_split() {
    assert_eq!(encode_document(SemanticType::Array, "[1, 2]", false), "[1, 2]");
    assert_eq!(
        encode_document(SemanticType::Array, "a, b,c", false),
        "[\"a\", \"b\", \"c\"]"
    );
    assert_eq!(encode_document(SemanticType::Array, "solo", false), "[\"solo\"]");
}

#[test]
fn document_condition_strings_are_single_quoted() {
    assert_eq!(encode_document(SemanticType::Text, "Alice", true), "'Alice'");
    assert_eq!(encode_document(SemanticType::Untyped, "x", true), "'x'");
    assert_eq!(encode_document(SemanticType::Boolean, "TRUE", true), "true");
    assert_eq!(encode_document(SemanticType::Double, "2.5", true), "2.5");
}

#[test]
fn untyped_values_are_quoted_strings() {
    assert_eq!(encode_relational(SemanticType::Untyped, "x"), "'x'");
    assert_eq!(encode_document(SemanticType::Untyped, "x", false), "\"x\"");
    assert_eq!(encode_relational(SemanticType::Other, "x"), "'x'");
    assert_eq!(encode_document(SemanticType::Other, "x", false), "\"x\"");
}
