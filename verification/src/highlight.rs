//! Syntax highlighting with tree-sitter: classifying syntax nodes, walking a
//! parse tree into per-line spans, and caching the result per pane.

use std::collections::HashMap;
use std::hash::DefaultHasher;
use std::hash::Hasher;

use vstd::prelude::*;
use vstd::std_specs::hash::DefaultHasherAdditionalSpecFns;
use vstd::string::StringSliceAdditionalSpecFns;

use crate::diff::{join_lines, strings_view};
use crate::syntax::{
    augment_with_brackets, bracket_spans, compute_line_starts, emit_spans, is_lit,
    lemma_brackets_same_mask, lemma_computed_starts_ok, line_starts_spec, masked_at, range_span,
    sorted_by_start, starts_ok, Lang,
    LineSpan, SyntaxKind,
};
use crate::text::{chars_of, push_char, push_str, string_of_str};

verus! {

broadcast use vstd::seq_lib::group_seq_properties;

// ---------------------------------------------------------------------------
// Node classification
// ---------------------------------------------------------------------------

pub open spec fn is_word_char(c: char) -> bool {
    ('a' <= c && c <= 'z') || ('A' <= c && c <= 'Z') || ('0' <= c && c <= '9') || c == '_'
}

pub open spec fn is_ascii_letter(c: char) -> bool {
    ('a' <= c && c <= 'z') || ('A' <= c && c <= 'Z')
}

/// An anonymous token that reads as a keyword: at least two characters, all
/// ASCII letters, digits or `_`, starting with a letter.
pub open spec fn keyword_like(k: Seq<char>) -> bool {
    &&& k.len() >= 2
    &&& is_ascii_letter(k[0])
    &&& forall|i: int| 0 <= i < k.len() ==> is_word_char(#[trigger] k[i])
}

pub open spec fn is_comment_kind(k: Seq<char>) -> bool {
    k == "comment"@ || k == "line_comment"@ || k == "block_comment"@
}

pub open spec fn is_string_kind(k: Seq<char>) -> bool {
    k == "string_literal"@ || k == "raw_string_literal"@ || k == "char_literal"@ || k
        == "character_literal"@ || k == "verbatim_string_literal"@ || k
        == "interpolated_string_text"@ || k == "string_content"@ || k == "system_lib_string"@
}

pub open spec fn is_number_kind(k: Seq<char>) -> bool {
    k == "number_literal"@ || k == "integer_literal"@ || k == "real_literal"@ || k
        == "float_literal"@
}

pub open spec fn is_type_kind(k: Seq<char>) -> bool {
    k == "primitive_type"@ || k == "type_identifier"@ || k == "sized_type_specifier"@ || k
        == "predefined_type"@ || k == "implicit_type"@
}

pub open spec fn is_constant_kind(k: Seq<char>) -> bool {
    k == "true"@ || k == "false"@ || k == "null_literal"@ || k == "boolean_literal"@ || k
        == "this_expression"@
}

/// How a syntax node of kind `k` is colored, and whether its children are
/// skipped (`true` for tokens whose insides must not be recolored, such as
/// an escape inside a string). Anonymous nodes are token literals: keyword
/// shaped ones are keywords, the rest (operators, punctuation) uncolored.
pub open spec fn classify_spec(k: Seq<char>, named: bool) -> Option<(SyntaxKind, bool)> {
    if !named {
        if keyword_like(k) {
            Some((SyntaxKind::Keyword, false))
        } else {
            None
        }
    } else if is_comment_kind(k) {
        Some((SyntaxKind::Comment, true))
    } else if is_string_kind(k) {
        Some((SyntaxKind::String, true))
    } else if is_number_kind(k) {
        Some((SyntaxKind::Number, true))
    } else if is_type_kind(k) {
        Some((SyntaxKind::Type, true))
    } else if is_constant_kind(k) {
        Some((SyntaxKind::Constant, true))
    } else {
        None
    }
}

/// The node kind names of different classes are different texts.
proof fn lemma_kind_names_differ()
    ensures
        "string_literal"@ != "comment"@,
        "string_literal"@ != "line_comment"@,
        "string_literal"@ != "block_comment"@,
        "raw_string_literal"@ != "comment"@,
        "raw_string_literal"@ != "line_comment"@,
        "raw_string_literal"@ != "block_comment"@,
        "char_literal"@ != "comment"@,
        "char_literal"@ != "line_comment"@,
        "char_literal"@ != "block_comment"@,
        "character_literal"@ != "comment"@,
        "character_literal"@ != "line_comment"@,
        "character_literal"@ != "block_comment"@,
        "verbatim_string_literal"@ != "comment"@,
        "verbatim_string_literal"@ != "line_comment"@,
        "verbatim_string_literal"@ != "block_comment"@,
        "interpolated_string_text"@ != "comment"@,
        "interpolated_string_text"@ != "line_comment"@,
        "interpolated_string_text"@ != "block_comment"@,
        "string_content"@ != "comment"@,
        "string_content"@ != "line_comment"@,
        "string_content"@ != "block_comment"@,
        "system_lib_string"@ != "comment"@,
        "system_lib_string"@ != "line_comment"@,
        "system_lib_string"@ != "block_comment"@,
        "number_literal"@ != "comment"@,
        "number_literal"@ != "line_comment"@,
        "number_literal"@ != "block_comment"@,
        "number_literal"@ != "string_literal"@,
        "number_literal"@ != "raw_string_literal"@,
        "number_literal"@ != "char_literal"@,
        "number_literal"@ != "character_literal"@,
        "number_literal"@ != "verbatim_string_literal"@,
        "number_literal"@ != "interpolated_string_text"@,
        "number_literal"@ != "string_content"@,
        "number_literal"@ != "system_lib_string"@,
        "integer_literal"@ != "comment"@,
        "integer_literal"@ != "line_comment"@,
        "integer_literal"@ != "block_comment"@,
        "integer_literal"@ != "string_literal"@,
        "integer_literal"@ != "raw_string_literal"@,
        "integer_literal"@ != "char_literal"@,
        "integer_literal"@ != "character_literal"@,
        "integer_literal"@ != "verbatim_string_literal"@,
        "integer_literal"@ != "interpolated_string_text"@,
        "integer_literal"@ != "string_content"@,
        "integer_literal"@ != "system_lib_string"@,
        "real_literal"@ != "comment"@,
        "real_literal"@ != "line_comment"@,
        "real_literal"@ != "block_comment"@,
        "real_literal"@ != "string_literal"@,
        "real_literal"@ != "raw_string_literal"@,
        "real_literal"@ != "char_literal"@,
        "real_literal"@ != "character_literal"@,
        "real_literal"@ != "verbatim_string_literal"@,
        "real_literal"@ != "interpolated_string_text"@,
        "real_literal"@ != "string_content"@,
        "real_literal"@ != "system_lib_string"@,
        "float_literal"@ != "comment"@,
        "float_literal"@ != "line_comment"@,
        "float_literal"@ != "block_comment"@,
        "float_literal"@ != "string_literal"@,
        "float_literal"@ != "raw_string_literal"@,
        "float_literal"@ != "char_literal"@,
        "float_literal"@ != "character_literal"@,
        "float_literal"@ != "verbatim_string_literal"@,
        "float_literal"@ != "interpolated_string_text"@,
        "float_literal"@ != "string_content"@,
        "float_literal"@ != "system_lib_string"@,
        "primitive_type"@ != "comment"@,
        "primitive_type"@ != "line_comment"@,
        "primitive_type"@ != "block_comment"@,
        "primitive_type"@ != "string_literal"@,
        "primitive_type"@ != "raw_string_literal"@,
        "primitive_type"@ != "char_literal"@,
        "primitive_type"@ != "character_literal"@,
        "primitive_type"@ != "verbatim_string_literal"@,
        "primitive_type"@ != "interpolated_string_text"@,
        "primitive_type"@ != "string_content"@,
        "primitive_type"@ != "system_lib_string"@,
        "primitive_type"@ != "number_literal"@,
        "primitive_type"@ != "integer_literal"@,
        "primitive_type"@ != "real_literal"@,
        "primitive_type"@ != "float_literal"@,
        "type_identifier"@ != "comment"@,
        "type_identifier"@ != "line_comment"@,
        "type_identifier"@ != "block_comment"@,
        "type_identifier"@ != "string_literal"@,
        "type_identifier"@ != "raw_string_literal"@,
        "type_identifier"@ != "char_literal"@,
        "type_identifier"@ != "character_literal"@,
        "type_identifier"@ != "verbatim_string_literal"@,
        "type_identifier"@ != "interpolated_string_text"@,
        "type_identifier"@ != "string_content"@,
        "type_identifier"@ != "system_lib_string"@,
        "type_identifier"@ != "number_literal"@,
        "type_identifier"@ != "integer_literal"@,
        "type_identifier"@ != "real_literal"@,
        "type_identifier"@ != "float_literal"@,
        "sized_type_specifier"@ != "comment"@,
        "sized_type_specifier"@ != "line_comment"@,
        "sized_type_specifier"@ != "block_comment"@,
        "sized_type_specifier"@ != "string_literal"@,
        "sized_type_specifier"@ != "raw_string_literal"@,
        "sized_type_specifier"@ != "char_literal"@,
        "sized_type_specifier"@ != "character_literal"@,
        "sized_type_specifier"@ != "verbatim_string_literal"@,
        "sized_type_specifier"@ != "interpolated_string_text"@,
        "sized_type_specifier"@ != "string_content"@,
        "sized_type_specifier"@ != "system_lib_string"@,
        "sized_type_specifier"@ != "number_literal"@,
        "sized_type_specifier"@ != "integer_literal"@,
        "sized_type_specifier"@ != "real_literal"@,
        "sized_type_specifier"@ != "float_literal"@,
        "predefined_type"@ != "comment"@,
        "predefined_type"@ != "line_comment"@,
        "predefined_type"@ != "block_comment"@,
        "predefined_type"@ != "string_literal"@,
        "predefined_type"@ != "raw_string_literal"@,
        "predefined_type"@ != "char_literal"@,
        "predefined_type"@ != "character_literal"@,
        "predefined_type"@ != "verbatim_string_literal"@,
        "predefined_type"@ != "interpolated_string_text"@,
        "predefined_type"@ != "string_content"@,
        "predefined_type"@ != "system_lib_string"@,
        "predefined_type"@ != "number_literal"@,
        "predefined_type"@ != "integer_literal"@,
        "predefined_type"@ != "real_literal"@,
        "predefined_type"@ != "float_literal"@,
        "implicit_type"@ != "comment"@,
        "implicit_type"@ != "line_comment"@,
        "implicit_type"@ != "block_comment"@,
        "implicit_type"@ != "string_literal"@,
        "implicit_type"@ != "raw_string_literal"@,
        "implicit_type"@ != "char_literal"@,
        "implicit_type"@ != "character_literal"@,
        "implicit_type"@ != "verbatim_string_literal"@,
        "implicit_type"@ != "interpolated_string_text"@,
        "implicit_type"@ != "string_content"@,
        "implicit_type"@ != "system_lib_string"@,
        "implicit_type"@ != "number_literal"@,
        "implicit_type"@ != "integer_literal"@,
        "implicit_type"@ != "real_literal"@,
        "implicit_type"@ != "float_literal"@,
        "true"@ != "comment"@,
        "true"@ != "line_comment"@,
        "true"@ != "block_comment"@,
        "true"@ != "string_literal"@,
        "true"@ != "raw_string_literal"@,
        "true"@ != "char_literal"@,
        "true"@ != "character_literal"@,
        "true"@ != "verbatim_string_literal"@,
        "true"@ != "interpolated_string_text"@,
        "true"@ != "string_content"@,
        "true"@ != "system_lib_string"@,
        "true"@ != "number_literal"@,
        "true"@ != "integer_literal"@,
        "true"@ != "real_literal"@,
        "true"@ != "float_literal"@,
        "true"@ != "primitive_type"@,
        "true"@ != "type_identifier"@,
        "true"@ != "sized_type_specifier"@,
        "true"@ != "predefined_type"@,
        "true"@ != "implicit_type"@,
        "false"@ != "comment"@,
        "false"@ != "line_comment"@,
        "false"@ != "block_comment"@,
        "false"@ != "string_literal"@,
        "false"@ != "raw_string_literal"@,
        "false"@ != "char_literal"@,
        "false"@ != "character_literal"@,
        "false"@ != "verbatim_string_literal"@,
        "false"@ != "interpolated_string_text"@,
        "false"@ != "string_content"@,
        "false"@ != "system_lib_string"@,
        "false"@ != "number_literal"@,
        "false"@ != "integer_literal"@,
        "false"@ != "real_literal"@,
        "false"@ != "float_literal"@,
        "false"@ != "primitive_type"@,
        "false"@ != "type_identifier"@,
        "false"@ != "sized_type_specifier"@,
        "false"@ != "predefined_type"@,
        "false"@ != "implicit_type"@,
        "null_literal"@ != "comment"@,
        "null_literal"@ != "line_comment"@,
        "null_literal"@ != "block_comment"@,
        "null_literal"@ != "string_literal"@,
        "null_literal"@ != "raw_string_literal"@,
        "null_literal"@ != "char_literal"@,
        "null_literal"@ != "character_literal"@,
        "null_literal"@ != "verbatim_string_literal"@,
        "null_literal"@ != "interpolated_string_text"@,
        "null_literal"@ != "string_content"@,
        "null_literal"@ != "system_lib_string"@,
        "null_literal"@ != "number_literal"@,
        "null_literal"@ != "integer_literal"@,
        "null_literal"@ != "real_literal"@,
        "null_literal"@ != "float_literal"@,
        "null_literal"@ != "primitive_type"@,
        "null_literal"@ != "type_identifier"@,
        "null_literal"@ != "sized_type_specifier"@,
        "null_literal"@ != "predefined_type"@,
        "null_literal"@ != "implicit_type"@,
        "boolean_literal"@ != "comment"@,
        "boolean_literal"@ != "line_comment"@,
        "boolean_literal"@ != "block_comment"@,
        "boolean_literal"@ != "string_literal"@,
        "boolean_literal"@ != "raw_string_literal"@,
        "boolean_literal"@ != "char_literal"@,
        "boolean_literal"@ != "character_literal"@,
        "boolean_literal"@ != "verbatim_string_literal"@,
        "boolean_literal"@ != "interpolated_string_text"@,
        "boolean_literal"@ != "string_content"@,
        "boolean_literal"@ != "system_lib_string"@,
        "boolean_literal"@ != "number_literal"@,
        "boolean_literal"@ != "integer_literal"@,
        "boolean_literal"@ != "real_literal"@,
        "boolean_literal"@ != "float_literal"@,
        "boolean_literal"@ != "primitive_type"@,
        "boolean_literal"@ != "type_identifier"@,
        "boolean_literal"@ != "sized_type_specifier"@,
        "boolean_literal"@ != "predefined_type"@,
        "boolean_literal"@ != "implicit_type"@,
        "this_expression"@ != "comment"@,
        "this_expression"@ != "line_comment"@,
        "this_expression"@ != "block_comment"@,
        "this_expression"@ != "string_literal"@,
        "this_expression"@ != "raw_string_literal"@,
        "this_expression"@ != "char_literal"@,
        "this_expression"@ != "character_literal"@,
        "this_expression"@ != "verbatim_string_literal"@,
        "this_expression"@ != "interpolated_string_text"@,
        "this_expression"@ != "string_content"@,
        "this_expression"@ != "system_lib_string"@,
        "this_expression"@ != "number_literal"@,
        "this_expression"@ != "integer_literal"@,
        "this_expression"@ != "real_literal"@,
        "this_expression"@ != "float_literal"@,
        "this_expression"@ != "primitive_type"@,
        "this_expression"@ != "type_identifier"@,
        "this_expression"@ != "sized_type_specifier"@,
        "this_expression"@ != "predefined_type"@,
        "this_expression"@ != "implicit_type"@,
{
    reveal_strlit("comment");
    reveal_strlit("line_comment");
    reveal_strlit("block_comment");
    reveal_strlit("string_literal");
    reveal_strlit("raw_string_literal");
    reveal_strlit("char_literal");
    reveal_strlit("character_literal");
    reveal_strlit("verbatim_string_literal");
    reveal_strlit("interpolated_string_text");
    reveal_strlit("string_content");
    reveal_strlit("system_lib_string");
    reveal_strlit("number_literal");
    reveal_strlit("integer_literal");
    reveal_strlit("real_literal");
    reveal_strlit("float_literal");
    reveal_strlit("primitive_type");
    reveal_strlit("type_identifier");
    reveal_strlit("sized_type_specifier");
    reveal_strlit("predefined_type");
    reveal_strlit("implicit_type");
    reveal_strlit("true");
    reveal_strlit("false");
    reveal_strlit("null_literal");
    reveal_strlit("boolean_literal");
    reveal_strlit("this_expression");
    assert("string_literal"@.len() != "comment"@.len());
    assert("string_literal"@.len() != "line_comment"@.len());
    assert("string_literal"@.len() != "block_comment"@.len());
    assert("raw_string_literal"@.len() != "comment"@.len());
    assert("raw_string_literal"@.len() != "line_comment"@.len());
    assert("raw_string_literal"@.len() != "block_comment"@.len());
    assert("char_literal"@.len() != "comment"@.len());
    assert("char_literal"@[0] != "line_comment"@[0]);
    assert("char_literal"@.len() != "block_comment"@.len());
    assert("character_literal"@.len() != "comment"@.len());
    assert("character_literal"@.len() != "line_comment"@.len());
    assert("character_literal"@.len() != "block_comment"@.len());
    assert("verbatim_string_literal"@.len() != "comment"@.len());
    assert("verbatim_string_literal"@.len() != "line_comment"@.len());
    assert("verbatim_string_literal"@.len() != "block_comment"@.len());
    assert("interpolated_string_text"@.len() != "comment"@.len());
    assert("interpolated_string_text"@.len() != "line_comment"@.len());
    assert("interpolated_string_text"@.len() != "block_comment"@.len());
    assert("string_content"@.len() != "comment"@.len());
    assert("string_content"@.len() != "line_comment"@.len());
    assert("string_content"@.len() != "block_comment"@.len());
    assert("system_lib_string"@.len() != "comment"@.len());
    assert("system_lib_string"@.len() != "line_comment"@.len());
    assert("system_lib_string"@.len() != "block_comment"@.len());
    assert("number_literal"@.len() != "comment"@.len());
    assert("number_literal"@.len() != "line_comment"@.len());
    assert("number_literal"@.len() != "block_comment"@.len());
    assert("number_literal"@[0] != "string_literal"@[0]);
    assert("number_literal"@.len() != "raw_string_literal"@.len());
    assert("number_literal"@.len() != "char_literal"@.len());
    assert("number_literal"@.len() != "character_literal"@.len());
    assert("number_literal"@.len() != "verbatim_string_literal"@.len());
    assert("number_literal"@.len() != "interpolated_string_text"@.len());
    assert("number_literal"@[0] != "string_content"@[0]);
    assert("number_literal"@.len() != "system_lib_string"@.len());
    assert("integer_literal"@.len() != "comment"@.len());
    assert("integer_literal"@.len() != "line_comment"@.len());
    assert("integer_literal"@.len() != "block_comment"@.len());
    assert("integer_literal"@.len() != "string_literal"@.len());
    assert("integer_literal"@.len() != "raw_string_literal"@.len());
    assert("integer_literal"@.len() != "char_literal"@.len());
    assert("integer_literal"@.len() != "character_literal"@.len());
    assert("integer_literal"@.len() != "verbatim_string_literal"@.len());
    assert("integer_literal"@.len() != "interpolated_string_text"@.len());
    assert("integer_literal"@.len() != "string_content"@.len());
    assert("integer_literal"@.len() != "system_lib_string"@.len());
    assert("real_literal"@.len() != "comment"@.len());
    assert("real_literal"@[0] != "line_comment"@[0]);
    assert("real_literal"@.len() != "block_comment"@.len());
    assert("real_literal"@.len() != "string_literal"@.len());
    assert("real_literal"@.len() != "raw_string_literal"@.len());
    assert("real_literal"@[0] != "char_literal"@[0]);
    assert("real_literal"@.len() != "character_literal"@.len());
    assert("real_literal"@.len() != "verbatim_string_literal"@.len());
    assert("real_literal"@.len() != "interpolated_string_text"@.len());
    assert("real_literal"@.len() != "string_content"@.len());
    assert("real_literal"@.len() != "system_lib_string"@.len());
    assert("float_literal"@.len() != "comment"@.len());
    assert("float_literal"@.len() != "line_comment"@.len());
    assert("float_literal"@[0] != "block_comment"@[0]);
    assert("float_literal"@.len() != "string_literal"@.len());
    assert("float_literal"@.len() != "raw_string_literal"@.len());
    assert("float_literal"@.len() != "char_literal"@.len());
    assert("float_literal"@.len() != "character_literal"@.len());
    assert("float_literal"@.len() != "verbatim_string_literal"@.len());
    assert("float_literal"@.len() != "interpolated_string_text"@.len());
    assert("float_literal"@.len() != "string_content"@.len());
    assert("float_literal"@.len() != "system_lib_string"@.len());
    assert("primitive_type"@.len() != "comment"@.len());
    assert("primitive_type"@.len() != "line_comment"@.len());
    assert("primitive_type"@.len() != "block_comment"@.len());
    assert("primitive_type"@[0] != "string_literal"@[0]);
    assert("primitive_type"@.len() != "raw_string_literal"@.len());
    assert("primitive_type"@.len() != "char_literal"@.len());
    assert("primitive_type"@.len() != "character_literal"@.len());
    assert("primitive_type"@.len() != "verbatim_string_literal"@.len());
    assert("primitive_type"@.len() != "interpolated_string_text"@.len());
    assert("primitive_type"@[0] != "string_content"@[0]);
    assert("primitive_type"@.len() != "system_lib_string"@.len());
    assert("primitive_type"@[0] != "number_literal"@[0]);
    assert("primitive_type"@.len() != "integer_literal"@.len());
    assert("primitive_type"@.len() != "real_literal"@.len());
    assert("primitive_type"@.len() != "float_literal"@.len());
    assert("type_identifier"@.len() != "comment"@.len());
    assert("type_identifier"@.len() != "line_comment"@.len());
    assert("type_identifier"@.len() != "block_comment"@.len());
    assert("type_identifier"@.len() != "string_literal"@.len());
    assert("type_identifier"@.len() != "raw_string_literal"@.len());
    assert("type_identifier"@.len() != "char_literal"@.len());
    assert("type_identifier"@.len() != "character_literal"@.len());
    assert("type_identifier"@.len() != "verbatim_string_literal"@.len());
    assert("type_identifier"@.len() != "interpolated_string_text"@.len());
    assert("type_identifier"@.len() != "string_content"@.len());
    assert("type_identifier"@.len() != "system_lib_string"@.len());
    assert("type_identifier"@.len() != "number_literal"@.len());
    assert("type_identifier"@[0] != "integer_literal"@[0]);
    assert("type_identifier"@.len() != "real_literal"@.len());
    assert("type_identifier"@.len() != "float_literal"@.len());
    assert("sized_type_specifier"@.len() != "comment"@.len());
    assert("sized_type_specifier"@.len() != "line_comment"@.len());
    assert("sized_type_specifier"@.len() != "block_comment"@.len());
    assert("sized_type_specifier"@.len() != "string_literal"@.len());
    assert("sized_type_specifier"@.len() != "raw_string_literal"@.len());
    assert("sized_type_specifier"@.len() != "char_literal"@.len());
    assert("sized_type_specifier"@.len() != "character_literal"@.len());
    assert("sized_type_specifier"@.len() != "verbatim_string_literal"@.len());
    assert("sized_type_specifier"@.len() != "interpolated_string_text"@.len());
    assert("sized_type_specifier"@.len() != "string_content"@.len());
    assert("sized_type_specifier"@.len() != "system_lib_string"@.len());
    assert("sized_type_specifier"@.len() != "number_literal"@.len());
    assert("sized_type_specifier"@.len() != "integer_literal"@.len());
    assert("sized_type_specifier"@.len() != "real_literal"@.len());
    assert("sized_type_specifier"@.len() != "float_literal"@.len());
    assert("predefined_type"@.len() != "comment"@.len());
    assert("predefined_type"@.len() != "line_comment"@.len());
    assert("predefined_type"@.len() != "block_comment"@.len());
    assert("predefined_type"@.len() != "string_literal"@.len());
    assert("predefined_type"@.len() != "raw_string_literal"@.len());
    assert("predefined_type"@.len() != "char_literal"@.len());
    assert("predefined_type"@.len() != "character_literal"@.len());
    assert("predefined_type"@.len() != "verbatim_string_literal"@.len());
    assert("predefined_type"@.len() != "interpolated_string_text"@.len());
    assert("predefined_type"@.len() != "string_content"@.len());
    assert("predefined_type"@.len() != "system_lib_string"@.len());
    assert("predefined_type"@.len() != "number_literal"@.len());
    assert("predefined_type"@[0] != "integer_literal"@[0]);
    assert("predefined_type"@.len() != "real_literal"@.len());
    assert("predefined_type"@.len() != "float_literal"@.len());
    assert("implicit_type"@.len() != "comment"@.len());
    assert("implicit_type"@.len() != "line_comment"@.len());
    assert("implicit_type"@[0] != "block_comment"@[0]);
    assert("implicit_type"@.len() != "string_literal"@.len());
    assert("implicit_type"@.len() != "raw_string_literal"@.len());
    assert("implicit_type"@.len() != "char_literal"@.len());
    assert("implicit_type"@.len() != "character_literal"@.len());
    assert("implicit_type"@.len() != "verbatim_string_literal"@.len());
    assert("implicit_type"@.len() != "interpolated_string_text"@.len());
    assert("implicit_type"@.len() != "string_content"@.len());
    assert("implicit_type"@.len() != "system_lib_string"@.len());
    assert("implicit_type"@.len() != "number_literal"@.len());
    assert("implicit_type"@.len() != "integer_literal"@.len());
    assert("implicit_type"@.len() != "real_literal"@.len());
    assert("implicit_type"@[0] != "float_literal"@[0]);
    assert("true"@.len() != "comment"@.len());
    assert("true"@.len() != "line_comment"@.len());
    assert("true"@.len() != "block_comment"@.len());
    assert("true"@.len() != "string_literal"@.len());
    assert("true"@.len() != "raw_string_literal"@.len());
    assert("true"@.len() != "char_literal"@.len());
    assert("true"@.len() != "character_literal"@.len());
    assert("true"@.len() != "verbatim_string_literal"@.len());
    assert("true"@.len() != "interpolated_string_text"@.len());
    assert("true"@.len() != "string_content"@.len());
    assert("true"@.len() != "system_lib_string"@.len());
    assert("true"@.len() != "number_literal"@.len());
    assert("true"@.len() != "integer_literal"@.len());
    assert("true"@.len() != "real_literal"@.len());
    assert("true"@.len() != "float_literal"@.len());
    assert("true"@.len() != "primitive_type"@.len());
    assert("true"@.len() != "type_identifier"@.len());
    assert("true"@.len() != "sized_type_specifier"@.len());
    assert("true"@.len() != "predefined_type"@.len());
    assert("true"@.len() != "implicit_type"@.len());
    assert("false"@.len() != "comment"@.len());
    assert("false"@.len() != "line_comment"@.len());
    assert("false"@.len() != "block_comment"@.len());
    assert("false"@.len() != "string_literal"@.len());
    assert("false"@.len() != "raw_string_literal"@.len());
    assert("false"@.len() != "char_literal"@.len());
    assert("false"@.len() != "character_literal"@.len());
    assert("false"@.len() != "verbatim_string_literal"@.len());
    assert("false"@.len() != "interpolated_string_text"@.len());
    assert("false"@.len() != "string_content"@.len());
    assert("false"@.len() != "system_lib_string"@.len());
    assert("false"@.len() != "number_literal"@.len());
    assert("false"@.len() != "integer_literal"@.len());
    assert("false"@.len() != "real_literal"@.len());
    assert("false"@.len() != "float_literal"@.len());
    assert("false"@.len() != "primitive_type"@.len());
    assert("false"@.len() != "type_identifier"@.len());
    assert("false"@.len() != "sized_type_specifier"@.len());
    assert("false"@.len() != "predefined_type"@.len());
    assert("false"@.len() != "implicit_type"@.len());
    assert("null_literal"@.len() != "comment"@.len());
    assert("null_literal"@[0] != "line_comment"@[0]);
    assert("null_literal"@.len() != "block_comment"@.len());
    assert("null_literal"@.len() != "string_literal"@.len());
    assert("null_literal"@.len() != "raw_string_literal"@.len());
    assert("null_literal"@[0] != "char_literal"@[0]);
    assert("null_literal"@.len() != "character_literal"@.len());
    assert("null_literal"@.len() != "verbatim_string_literal"@.len());
    assert("null_literal"@.len() != "interpolated_string_text"@.len());
    assert("null_literal"@.len() != "string_content"@.len());
    assert("null_literal"@.len() != "system_lib_string"@.len());
    assert("null_literal"@.len() != "number_literal"@.len());
    assert("null_literal"@.len() != "integer_literal"@.len());
    assert("null_literal"@[0] != "real_literal"@[0]);
    assert("null_literal"@.len() != "float_literal"@.len());
    assert("null_literal"@.len() != "primitive_type"@.len());
    assert("null_literal"@.len() != "type_identifier"@.len());
    assert("null_literal"@.len() != "sized_type_specifier"@.len());
    assert("null_literal"@.len() != "predefined_type"@.len());
    assert("null_literal"@.len() != "implicit_type"@.len());
    assert("boolean_literal"@.len() != "comment"@.len());
    assert("boolean_literal"@.len() != "line_comment"@.len());
    assert("boolean_literal"@.len() != "block_comment"@.len());
    assert("boolean_literal"@.len() != "string_literal"@.len());
    assert("boolean_literal"@.len() != "raw_string_literal"@.len());
    assert("boolean_literal"@.len() != "char_literal"@.len());
    assert("boolean_literal"@.len() != "character_literal"@.len());
    assert("boolean_literal"@.len() != "verbatim_string_literal"@.len());
    assert("boolean_literal"@.len() != "interpolated_string_text"@.len());
    assert("boolean_literal"@.len() != "string_content"@.len());
    assert("boolean_literal"@.len() != "system_lib_string"@.len());
    assert("boolean_literal"@.len() != "number_literal"@.len());
    assert("boolean_literal"@[0] != "integer_literal"@[0]);
    assert("boolean_literal"@.len() != "real_literal"@.len());
    assert("boolean_literal"@.len() != "float_literal"@.len());
    assert("boolean_literal"@.len() != "primitive_type"@.len());
    assert("boolean_literal"@[0] != "type_identifier"@[0]);
    assert("boolean_literal"@.len() != "sized_type_specifier"@.len());
    assert("boolean_literal"@[0] != "predefined_type"@[0]);
    assert("boolean_literal"@.len() != "implicit_type"@.len());
    assert("this_expression"@.len() != "comment"@.len());
    assert("this_expression"@.len() != "line_comment"@.len());
    assert("this_expression"@.len() != "block_comment"@.len());
    assert("this_expression"@.len() != "string_literal"@.len());
    assert("this_expression"@.len() != "raw_string_literal"@.len());
    assert("this_expression"@.len() != "char_literal"@.len());
    assert("this_expression"@.len() != "character_literal"@.len());
    assert("this_expression"@.len() != "verbatim_string_literal"@.len());
    assert("this_expression"@.len() != "interpolated_string_text"@.len());
    assert("this_expression"@.len() != "string_content"@.len());
    assert("this_expression"@.len() != "system_lib_string"@.len());
    assert("this_expression"@.len() != "number_literal"@.len());
    assert("this_expression"@[0] != "integer_literal"@[0]);
    assert("this_expression"@.len() != "real_literal"@.len());
    assert("this_expression"@.len() != "float_literal"@.len());
    assert("this_expression"@.len() != "primitive_type"@.len());
    assert("this_expression"@[1] != "type_identifier"@[1]);
    assert("this_expression"@.len() != "sized_type_specifier"@.len());
    assert("this_expression"@[0] != "predefined_type"@[0]);
    assert("this_expression"@.len() != "implicit_type"@.len());
}

/// How node kinds are colored. Named nodes: the comment kinds (`comment`,
/// `line_comment`, `block_comment`) are comments; the string and character
/// literal kinds strings; the numeric literal kinds numbers; the primitive,
/// predefined and type-name kinds types; `true`, `false`, the null and
/// boolean literals and `this` constants; each of these is atomic, and every
/// other named node is left uncolored. Anonymous tokens are keywords, not
/// atomic, exactly when they have at least two characters, start with an
/// ASCII letter and hold only ASCII letters, digits and `_`; other tokens
/// are left uncolored.
pub proof fn lemma_node_colors(k: Seq<char>)
    ensures
        (k == "comment"@ || k == "line_comment"@ || k == "block_comment"@) ==> classify_spec(k, true) == Some((SyntaxKind::Comment, true)),
        (k == "string_literal"@ || k == "raw_string_literal"@ || k == "char_literal"@ || k == "character_literal"@ || k == "verbatim_string_literal"@ || k == "interpolated_string_text"@ || k == "string_content"@ || k == "system_lib_string"@) ==> classify_spec(k, true) == Some((SyntaxKind::String, true)),
        (k == "number_literal"@ || k == "integer_literal"@ || k == "real_literal"@ || k == "float_literal"@) ==> classify_spec(k, true) == Some((SyntaxKind::Number, true)),
        (k == "primitive_type"@ || k == "type_identifier"@ || k == "sized_type_specifier"@ || k == "predefined_type"@ || k == "implicit_type"@) ==> classify_spec(k, true) == Some((SyntaxKind::Type, true)),
        (k == "true"@ || k == "false"@ || k == "null_literal"@ || k == "boolean_literal"@ || k == "this_expression"@) ==> classify_spec(k, true) == Some((SyntaxKind::Constant, true)),
        !(k == "comment"@ || k == "line_comment"@ || k == "block_comment"@ || k == "string_literal"@ || k == "raw_string_literal"@ || k == "char_literal"@ || k == "character_literal"@ || k == "verbatim_string_literal"@ || k == "interpolated_string_text"@ || k == "string_content"@ || k == "system_lib_string"@ || k == "number_literal"@ || k == "integer_literal"@ || k == "real_literal"@ || k == "float_literal"@ || k == "primitive_type"@ || k == "type_identifier"@ || k == "sized_type_specifier"@ || k == "predefined_type"@ || k == "implicit_type"@ || k == "true"@ || k == "false"@ || k == "null_literal"@ || k == "boolean_literal"@ || k == "this_expression"@) ==> classify_spec(k, true) is None,
        classify_spec(k, false) == if k.len() >= 2 && ('a' <= k[0] <= 'z' || 'A' <= k[0] <= 'Z')
            && forall|i: int|
            0 <= i < k.len() ==> ('a' <= #[trigger] k[i] <= 'z' || 'A' <= k[i] <= 'Z' || '0' <= k[i]
                <= '9' || k[i] == '_') {
            Some((SyntaxKind::Keyword, false))
        } else {
            None
        },
{
    lemma_kind_names_differ();
}

fn keyword_shaped(k: &Vec<char>) -> (r: bool)
    ensures
        r == keyword_like(k@),
{
    if k.len() < 2 {
        return false;
    }
    let c0 = k[0];
    if !(('a' <= c0 && c0 <= 'z') || ('A' <= c0 && c0 <= 'Z')) {
        return false;
    }
    let mut i: usize = 0;
    while i < k.len()
        invariant
            i <= k.len(),
            forall|j: int| 0 <= j < i ==> is_word_char(#[trigger] k@[j]),
        decreases k.len() - i,
    {
        let c = k[i];
        if !(('a' <= c && c <= 'z') || ('A' <= c && c <= 'Z') || ('0' <= c && c <= '9') || c
            == '_') {
            return false;
        }
        i += 1;
    }
    true
}

/// Classify a syntax node by its kind name and whether it is named.
pub fn classify_kind(kind: &str, named: bool) -> (r: Option<(SyntaxKind, bool)>)
    ensures
        r == classify_spec(kind@, named),
{
    let k = chars_of(kind);
    if !named {
        if keyword_shaped(&k) {
            return Some((SyntaxKind::Keyword, false));
        }
        return None;
    }
    if is_lit(&k, "comment") || is_lit(&k, "line_comment") || is_lit(&k, "block_comment") {
        Some((SyntaxKind::Comment, true))
    } else if is_lit(&k, "string_literal") || is_lit(&k, "raw_string_literal") || is_lit(
        &k,
        "char_literal",
    ) || is_lit(&k, "character_literal") || is_lit(&k, "verbatim_string_literal") || is_lit(
        &k,
        "interpolated_string_text",
    ) || is_lit(&k, "string_content") || is_lit(&k, "system_lib_string") {
        Some((SyntaxKind::String, true))
    } else if is_lit(&k, "number_literal") || is_lit(&k, "integer_literal") || is_lit(
        &k,
        "real_literal",
    ) || is_lit(&k, "float_literal") {
        Some((SyntaxKind::Number, true))
    } else if is_lit(&k, "primitive_type") || is_lit(&k, "type_identifier") || is_lit(
        &k,
        "sized_type_specifier",
    ) || is_lit(&k, "predefined_type") || is_lit(&k, "implicit_type") {
        Some((SyntaxKind::Type, true))
    } else if is_lit(&k, "true") || is_lit(&k, "false") || is_lit(&k, "null_literal") || is_lit(
        &k,
        "boolean_literal",
    ) || is_lit(&k, "this_expression") {
        Some((SyntaxKind::Constant, true))
    } else {
        None
    }
}

// ---------------------------------------------------------------------------
// Ordering ranges and spans
// ---------------------------------------------------------------------------

/// Order byte ranges by their start (stable).
pub fn sort_ranges_by_start(v: Vec<(usize, usize)>) -> (r: Vec<(usize, usize)>)
    ensures
        sorted_by_start(r@),
        r@.to_multiset() == v@.to_multiset(),
{
    let mut r: Vec<(usize, usize)> = Vec::new();
    let mut i: usize = 0;
    while i < v.len()
        invariant
            i <= v.len(),
            sorted_by_start(r@),
            r@.to_multiset() == v@.take(i as int).to_multiset(),
        decreases v.len() - i,
    {
        let x = v[i];
        let mut p: usize = r.len();
        while p > 0 && r[p - 1].0 > x.0
            invariant
                p <= r.len(),
                forall|j: int| p <= j < r.len() ==> r@[j].0 > x.0,
            decreases p,
        {
            p -= 1;
        }
        let ghost before = r@;
        r.insert(p, x);
        proof {
            assert forall|a: int, b: int| 0 <= a <= b < r@.len() implies r@[a].0 <= r@[b].0 by {
                if a < p && b > p {
                    assert(r@[a] == before[a] && r@[b] == before[b - 1]);
                } else if a < p && b == p {
                    assert(r@[a] == before[a]);
                    if p > 0 {
                        assert(before[p - 1].0 <= x.0);
                    }
                } else if a == p && b > p {
                    assert(r@[b] == before[b - 1]);
                } else if a > p {
                    assert(r@[a] == before[a - 1] && r@[b] == before[b - 1]);
                }
            }
            vstd::seq_lib::to_multiset_insert(before, p as int, x);
            assert(v@.take(i + 1) =~= v@.take(i as int).push(x));
            vstd::seq_lib::to_multiset_build(v@.take(i as int), x);
        }
        i += 1;
    }
    proof {
        assert(v@.take(v.len() as int) =~= v@);
    }
    r
}

// ---------------------------------------------------------------------------
// Source text
// ---------------------------------------------------------------------------

/// The lines joined with `'\n'` between them.
pub fn join_with_newlines(lines: &[String]) -> (s: String)
    ensures
        s@ == join_lines(strings_view(lines@)),
{
    let mut s = String::new();
    let mut i: usize = 0;
    while i < lines.len()
        invariant
            i <= lines.len(),
            s@ == join_lines(strings_view(lines@.take(i as int))),
        decreases lines.len() - i,
    {
        let ghost before = s@;
        proof {
            assert(strings_view(lines@.take(i + 1)).drop_last() =~= strings_view(
                lines@.take(i as int),
            ));
            assert(strings_view(lines@.take(i + 1)).last() == lines@[i as int]@);
        }
        if i > 0 {
            push_char(&mut s, '\n');
        }
        push_str(&mut s, lines[i].as_str());
        proof {
            if i == 0 {
                assert(strings_view(lines@.take(1)) =~= seq![lines@[0]@]);
                assert(s@ =~= lines@[0]@);
            } else {
                assert(s@ =~= before + seq!['\n'] + lines@[i as int]@);
            }
        }
        i += 1;
    }
    proof {
        assert(lines@.take(lines.len() as int) =~= lines@);
    }
    s
}


/// A line's spans ordered by start column.
pub open spec fn spans_sorted(s: Seq<LineSpan>) -> bool {
    forall|a: int, b: int| 0 <= a <= b < s.len() ==> s[a].start_col <= s[b].start_col
}

/// `r` with `x` put after every span that starts no later than it, as an
/// insertion into sorted spans places it.
pub open spec fn insert_by_start(r: Seq<LineSpan>, x: LineSpan) -> Seq<LineSpan>
    decreases r.len(),
{
    if r.len() == 0 {
        seq![x]
    } else if r.last().start_col > x.start_col {
        insert_by_start(r.drop_last(), x).push(r.last())
    } else {
        r.push(x)
    }
}

/// `v` ordered by start column, spans that start together kept in the
/// order they come in.
pub open spec fn sort_by_start(v: Seq<LineSpan>) -> Seq<LineSpan>
    decreases v.len(),
{
    if v.len() == 0 {
        Seq::empty()
    } else {
        insert_by_start(sort_by_start(v.drop_last()), v.last())
    }
}

proof fn lemma_insert_at(r: Seq<LineSpan>, x: LineSpan, p: int)
    requires
        0 <= p <= r.len(),
        forall|j: int| p <= j < r.len() ==> (#[trigger] r[j]).start_col > x.start_col,
        p > 0 ==> r[p - 1].start_col <= x.start_col,
    ensures
        insert_by_start(r, x) == r.insert(p, x),
    decreases r.len(),
{
    if r.len() == 0 {
        assert(r.insert(p, x) =~= seq![x]);
    } else if r.last().start_col > x.start_col {
        lemma_insert_at(r.drop_last(), x, p);
        assert(r.drop_last().insert(p, x).push(r.last()) =~= r.insert(p, x));
    } else {
        assert(p == r.len());
        assert(r.push(x) =~= r.insert(p, x));
    }
}

/// Order a line's spans by their start column (stable).
pub fn sort_spans_by_start(v: Vec<LineSpan>) -> (r: Vec<LineSpan>)
    ensures
        r@ == sort_by_start(v@),
        spans_sorted(r@),
        r@.to_multiset() == v@.to_multiset(),
{
    let mut r: Vec<LineSpan> = Vec::new();
    let mut i: usize = 0;
    while i < v.len()
        invariant
            i <= v.len(),
            forall|a: int, b: int| 0 <= a <= b < r@.len() ==> r@[a].start_col <= r@[b].start_col,
            r@.to_multiset() == v@.take(i as int).to_multiset(),
            r@ == sort_by_start(v@.take(i as int)),
        decreases v.len() - i,
    {
        let x = v[i];
        let mut p: usize = r.len();
        while p > 0 && r[p - 1].start_col > x.start_col
            invariant
                p <= r.len(),
                forall|j: int| p <= j < r.len() ==> r@[j].start_col > x.start_col,
            decreases p,
        {
            p -= 1;
        }
        let ghost before = r@;
        r.insert(p, x);
        proof {
            lemma_insert_at(before, x, p as int);
            assert(v@.take(i + 1).drop_last() =~= v@.take(i as int));
            assert(v@.take(i + 1).last() == x);
            assert forall|a: int, b: int| 0 <= a <= b < r@.len() implies r@[a].start_col
                <= r@[b].start_col by {
                if a < p && b > p {
                    assert(r@[a] == before[a] && r@[b] == before[b - 1]);
                } else if a < p && b == p {
                    assert(r@[a] == before[a]);
                    if p > 0 {
                        assert(before[p - 1].start_col <= x.start_col);
                    }
                } else if a == p && b > p {
                    assert(r@[b] == before[b - 1]);
                } else if a > p {
                    assert(r@[a] == before[a - 1] && r@[b] == before[b - 1]);
                }
            }
            vstd::seq_lib::to_multiset_insert(before, p as int, x);
            assert(v@.take(i + 1) =~= v@.take(i as int).push(x));
            vstd::seq_lib::to_multiset_build(v@.take(i as int), x);
        }
        i += 1;
    }
    proof {
        assert(v@.take(v.len() as int) =~= v@);
    }
    r
}

// ---------------------------------------------------------------------------
// tree-sitter
// ---------------------------------------------------------------------------

#[verifier::external_type_specification]
#[verifier::external_body]
pub struct ExParser(tree_sitter::Parser);

#[verifier::external_type_specification]
#[verifier::external_body]
pub struct ExTree(tree_sitter::Tree);

#[verifier::external_type_specification]
#[verifier::external_body]
pub struct ExNode<'a>(tree_sitter::Node<'a>);

/// A syntax tree as tree-sitter's `Node` API shows it: each node's kind
/// name, whether it is named, its byte range, and its children in the
/// order `Node::children` yields them.
pub struct SyntaxNode {
    pub kind: Seq<char>,
    pub named: bool,
    pub start: usize,
    pub end: usize,
    pub children: Seq<SyntaxNode>,
}

/// The tree tree-sitter parses `source` into under the grammar of `lang`,
/// or `None` when the grammar is refused or the parse gives no tree. It
/// depends on the grammar and the text alone.
pub uninterp spec fn parsed_tree(lang: Lang, source: Seq<char>) -> Option<SyntaxNode>;

/// The tree a `tree_sitter::Tree` holds, from its root.
pub uninterp spec fn tree_root(tree: tree_sitter::Tree) -> SyntaxNode;

/// The subtree a `tree_sitter::Node` is the root of.
pub uninterp spec fn node_tree(node: tree_sitter::Node) -> SyntaxNode;

/// Calls `tree_sitter::Parser::new`.
#[verifier::external_body]
fn new_parser() -> tree_sitter::Parser {
    tree_sitter::Parser::new()
}

/// Gives `parser` the grammar of `lang` (`tree_sitter_cpp::LANGUAGE`,
/// `tree_sitter_c_sharp::LANGUAGE`, `tree_sitter_hlsl::LANGUAGE_HLSL` or
/// `tree_sitter_rust::LANGUAGE`) with `Parser::set_language`, and parses
/// `source` with `Parser::parse`, with no earlier tree. `None` when the
/// grammar is refused; otherwise the tree, which is the one `parsed_tree`
/// names (no timeout or cancellation flag is set, so the parse runs to its
/// end).
#[verifier::external_body]
fn parse_text(parser: &mut tree_sitter::Parser, lang: Lang, source: &str) -> (r: Option<
    tree_sitter::Tree,
>)
    ensures
        r is Some <==> parsed_tree(lang, source@) is Some,
        r matches Some(t) ==> tree_root(t) == parsed_tree(lang, source@).unwrap(),
{
    let grammar: tree_sitter::Language = match lang {
        Lang::Cpp => tree_sitter_cpp::LANGUAGE.into(),
        Lang::CSharp => tree_sitter_c_sharp::LANGUAGE.into(),
        Lang::Hlsl => tree_sitter_hlsl::LANGUAGE_HLSL.into(),
        Lang::Rust => tree_sitter_rust::LANGUAGE.into(),
    };
    match parser.set_language(&grammar) {
        Ok(()) => parser.parse(source, None),
        Err(_) => None,
    }
}

/// Calls `tree_sitter::Tree::root_node`.
#[verifier::external_body]
fn root_node<'t>(tree: &'t tree_sitter::Tree) -> (r: tree_sitter::Node<'t>)
    ensures
        node_tree(r) == tree_root(*tree),
{
    tree.root_node()
}

/// Calls `tree_sitter::Node::kind`: the node's grammar name.
#[verifier::external_body]
fn node_kind<'t>(node: &tree_sitter::Node<'t>) -> (r: &'t str)
    ensures
        r@ == node_tree(*node).kind,
{
    node.kind()
}

/// Calls `tree_sitter::Node::is_named`.
#[verifier::external_body]
fn node_is_named(node: &tree_sitter::Node) -> (r: bool)
    ensures
        r == node_tree(*node).named,
{
    node.is_named()
}

/// Calls `tree_sitter::Node::start_byte`.
#[verifier::external_body]
fn node_start_byte(node: &tree_sitter::Node) -> (r: usize)
    ensures
        r == node_tree(*node).start,
{
    node.start_byte()
}

/// Calls `tree_sitter::Node::end_byte`.
#[verifier::external_body]
fn node_end_byte(node: &tree_sitter::Node) -> (r: usize)
    ensures
        r == node_tree(*node).end,
{
    node.end_byte()
}

/// Calls `tree_sitter::Node::children` with a cursor of its own and collects
/// the children, in order.
#[verifier::external_body]
fn node_children<'t>(node: &tree_sitter::Node<'t>) -> (r: Vec<tree_sitter::Node<'t>>)
    ensures
        r@.len() == node_tree(*node).children.len(),
        forall|i: int| 0 <= i < r@.len() ==> node_tree(#[trigger] r@[i]) == node_tree(*node).children[i],
{
    let mut cursor = node.walk();
    node.children(&mut cursor).collect()
}

/// A syntax node as the walk reads it: its kind name, whether it is named,
/// and its byte range in the source.
pub type NodeRec = (Seq<char>, bool, usize, usize);

/// The spans node `r` puts on line `l`: those of its byte range when it is
/// classified, none otherwise.
pub open spec fn node_spans(ls: Seq<usize>, bytes: Seq<u8>, r: NodeRec, l: int) -> Seq<LineSpan> {
    match classify_spec(r.0, r.1) {
        Some((k, _)) => range_span(ls, bytes, r.2 as int, r.3 as int, k, l),
        None => Seq::empty(),
    }
}

/// The spans a list of nodes puts on line `l`, node by node.
pub open spec fn nodes_spans(ls: Seq<usize>, bytes: Seq<u8>, rs: Seq<NodeRec>, l: int) -> Seq<
    LineSpan,
>
    decreases rs.len(),
{
    if rs.len() == 0 {
        Seq::empty()
    } else {
        nodes_spans(ls, bytes, rs.drop_last(), l) + node_spans(ls, bytes, rs.last(), l)
    }
}

/// The byte range node `r` masks from bracket coloring: its range when it
/// is a string or a comment.
pub open spec fn node_masked(r: NodeRec) -> Seq<(usize, usize)> {
    match classify_spec(r.0, r.1) {
        Some((k, _)) => if k == SyntaxKind::String || k == SyntaxKind::Comment {
            seq![(r.2, r.3)]
        } else {
            Seq::empty()
        },
        None => Seq::empty(),
    }
}

/// The masked ranges of a list of nodes, node by node.
pub open spec fn nodes_masked(rs: Seq<NodeRec>) -> Seq<(usize, usize)>
    decreases rs.len(),
{
    if rs.len() == 0 {
        Seq::empty()
    } else {
        nodes_masked(rs.drop_last()) + node_masked(rs.last())
    }
}

/// Each line of `after` is that of `before` followed by the spans `rs`
/// puts on it.
pub open spec fn extended_by(
    before: Seq<Vec<LineSpan>>,
    after: Seq<Vec<LineSpan>>,
    ls: Seq<usize>,
    bytes: Seq<u8>,
    rs: Seq<NodeRec>,
) -> bool {
    &&& after.len() == before.len()
    &&& forall|l: int|
        0 <= l < before.len() ==> (#[trigger] after[l])@ == before[l]@ + nodes_spans(
            ls,
            bytes,
            rs,
            l,
        )
}

proof fn lemma_nodes_concat(ls: Seq<usize>, bytes: Seq<u8>, a: Seq<NodeRec>, b: Seq<NodeRec>)
    ensures
        forall|l: int|
            #[trigger] nodes_spans(ls, bytes, a + b, l) == nodes_spans(ls, bytes, a, l)
                + nodes_spans(ls, bytes, b, l),
        nodes_masked(a + b) == nodes_masked(a) + nodes_masked(b),
    decreases b.len(),
{
    if b.len() == 0 {
        assert(a + b =~= a);
        assert forall|l: int|
            #[trigger] nodes_spans(ls, bytes, a + b, l) == nodes_spans(ls, bytes, a, l)
                + nodes_spans(ls, bytes, b, l) by {
            assert(nodes_spans(ls, bytes, a, l) + Seq::<LineSpan>::empty() =~= nodes_spans(
                ls,
                bytes,
                a,
                l,
            ));
        }
        assert(nodes_masked(a) + Seq::<(usize, usize)>::empty() =~= nodes_masked(a));
    } else {
        lemma_nodes_concat(ls, bytes, a, b.drop_last());
        assert((a + b).drop_last() =~= a + b.drop_last());
        assert((a + b).last() == b.last());
        assert forall|l: int|
            #[trigger] nodes_spans(ls, bytes, a + b, l) == nodes_spans(ls, bytes, a, l)
                + nodes_spans(ls, bytes, b, l) by {
            assert(nodes_spans(ls, bytes, a + b.drop_last(), l) == nodes_spans(ls, bytes, a, l)
                + nodes_spans(ls, bytes, b.drop_last(), l));
            assert(nodes_spans(ls, bytes, a + b, l) =~= nodes_spans(ls, bytes, a, l) + (
            nodes_spans(ls, bytes, b.drop_last(), l) + node_spans(ls, bytes, b.last(), l)));
        }
        assert(nodes_masked(a + b) =~= nodes_masked(a) + (nodes_masked(b.drop_last())
            + node_masked(b.last())));
    }
}

proof fn lemma_extended_trans(
    a: Seq<Vec<LineSpan>>,
    b: Seq<Vec<LineSpan>>,
    c: Seq<Vec<LineSpan>>,
    ls: Seq<usize>,
    bytes: Seq<u8>,
    r1: Seq<NodeRec>,
    r2: Seq<NodeRec>,
)
    requires
        extended_by(a, b, ls, bytes, r1),
        extended_by(b, c, ls, bytes, r2),
    ensures
        extended_by(a, c, ls, bytes, r1 + r2),
{
    lemma_nodes_concat(ls, bytes, r1, r2);
    assert forall|l: int| 0 <= l < a.len() implies (#[trigger] c[l])@ == a[l]@ + nodes_spans(
        ls,
        bytes,
        r1 + r2,
        l,
    ) by {
        assert(b[l]@ == a[l]@ + nodes_spans(ls, bytes, r1, l));
        assert(c[l]@ == b[l]@ + nodes_spans(ls, bytes, r2, l));
        assert(nodes_spans(ls, bytes, r1 + r2, l) == nodes_spans(ls, bytes, r1, l) + nodes_spans(
            ls,
            bytes,
            r2,
            l,
        ));
        assert(c[l]@ =~= a[l]@ + nodes_spans(ls, bytes, r1 + r2, l));
    }
}

proof fn lemma_extended_none(a: Seq<Vec<LineSpan>>, ls: Seq<usize>, bytes: Seq<u8>)
    ensures
        extended_by(a, a, ls, bytes, Seq::empty()),
{
    assert forall|l: int| 0 <= l < a.len() implies (#[trigger] a[l])@ == a[l]@ + nodes_spans(
        ls,
        bytes,
        Seq::empty(),
        l,
    ) by {
        assert(a[l]@ + Seq::<LineSpan>::empty() =~= a[l]@);
    }
}

proof fn lemma_one_node(r: NodeRec, ls: Seq<usize>, bytes: Seq<u8>)
    ensures
        forall|l: int| #[trigger] nodes_spans(ls, bytes, seq![r], l) == node_spans(ls, bytes, r, l),
        nodes_masked(seq![r]) == node_masked(r),
{
    let one = seq![r];
    let none = Seq::<NodeRec>::empty();
    assert(one.drop_last() =~= none);
    assert(one.last() == r);
    assert(nodes_masked(none) == Seq::<(usize, usize)>::empty());
    assert(nodes_masked(one) == nodes_masked(one.drop_last()) + node_masked(one.last()));
    assert(Seq::<(usize, usize)>::empty() + node_masked(r) =~= node_masked(r));
    assert forall|l: int| #[trigger] nodes_spans(ls, bytes, one, l) == node_spans(ls, bytes, r, l) by {
        assert(nodes_spans(ls, bytes, none, l) == Seq::<LineSpan>::empty());
        assert(nodes_spans(ls, bytes, one, l) == nodes_spans(ls, bytes, one.drop_last(), l)
            + node_spans(ls, bytes, one.last(), l));
        assert(Seq::<LineSpan>::empty() + node_spans(ls, bytes, r, l) =~= node_spans(ls, bytes, r, l));
    }
}

/// The record the walk reads of a node.
pub open spec fn rec_of(t: SyntaxNode) -> NodeRec {
    (t.kind, t.named, t.start, t.end)
}

/// Whether the walk stops at `t`: it is classified as atomic.
pub open spec fn stops_at(t: SyntaxNode) -> bool {
    match classify_spec(t.kind, t.named) {
        Some((_, atomic)) => atomic,
        None => false,
    }
}

/// The nodes a preorder walk from `t` visits, in order: `t`, then, unless
/// `t` is atomic, the nodes under each of its children in turn.
pub open spec fn visited(t: SyntaxNode) -> Seq<NodeRec>
    decreases t,
{
    if stops_at(t) {
        seq![rec_of(t)]
    } else {
        seq![rec_of(t)] + visited_all(t.children, t.children.len() as int)
    }
}

/// The nodes visited under the first `k` trees of `ts`, tree by tree.
pub open spec fn visited_all(ts: Seq<SyntaxNode>, k: int) -> Seq<NodeRec>
    decreases ts, k,
{
    if k <= 0 || k > ts.len() {
        Seq::empty()
    } else {
        visited_all(ts, k - 1) + visited(ts[k - 1])
    }
}

/// A node as a walk of the tree visits it: its kind name, whether it is
/// named, and its byte range in the source.
pub struct VisitedNode {
    pub kind: String,
    pub named: bool,
    pub start: usize,
    pub end: usize,
}

/// The record of a visited node.
pub open spec fn visit_rec(v: VisitedNode) -> NodeRec {
    (v.kind@, v.named, v.start, v.end)
}

/// The records of a list of visited nodes.
pub open spec fn visits_view(vs: Seq<VisitedNode>) -> Seq<NodeRec> {
    vs.map_values(|v: VisitedNode| visit_rec(v))
}

/// Append to `acc` the nodes a preorder walk of the tree under `node`
/// visits: each node, and, unless it is atomic, the nodes under each of its
/// children in turn.
fn collect_visits(node: &tree_sitter::Node, acc: &mut Vec<VisitedNode>)
    ensures
        visits_view(final(acc)@) == visits_view(old(acc)@) + visited(node_tree(*node)),
    decreases node_tree(*node),
{
    let ghost t = node_tree(*node);
    let kind = node_kind(node);
    let named = node_is_named(node);
    let start = node_start_byte(node);
    let end = node_end_byte(node);
    let atomic = match classify_kind(kind, named) {
        Some((_, a)) => a,
        None => false,
    };
    acc.push(VisitedNode { kind: string_of_str(kind), named, start, end });
    proof {
        assert(visits_view(acc@) =~= visits_view(old(acc)@) + seq![rec_of(t)]);
    }
    if atomic {
        proof {
            assert(stops_at(t));
        }
        return;
    }
    proof {
        assert(!stops_at(t));
    }
    let children = node_children(node);
    let ghost kids = t.children;
    let ghost base = visits_view(old(acc)@) + seq![rec_of(t)];
    let mut i: usize = 0;
    while i < children.len()
        invariant
            i <= children.len(),
            children@.len() == kids.len(),
            forall|j: int| 0 <= j < children@.len() ==> node_tree(#[trigger] children@[j]) == kids[j],
            kids == t.children,
            t == node_tree(*node),
            visits_view(acc@) == base + visited_all(kids, i as int),
        decreases children.len() - i,
    {
        proof {
            assert(node_tree(children@[i as int]) == kids[i as int]);
            assert(decreases_to!(t => t.children));
            assert(decreases_to!(t.children => t.children[i as int]));
        }
        collect_visits(&children[i], acc);
        proof {
            assert(visited_all(kids, i + 1) == visited_all(kids, i as int) + visited(kids[i as int]));
            assert(visits_view(acc@) =~= base + visited_all(kids, i + 1));
        }
        i += 1;
    }
    proof {
        assert(visited(t) == seq![rec_of(t)] + visited_all(kids, kids.len() as int));
        assert(visits_view(acc@) =~= visits_view(old(acc)@) + visited(t));
    }
}

/// For each visited node in turn, record the spans of its byte range when it
/// is classified, and its range when it is a string or a comment.
fn emit_visits(
    visits: &[VisitedNode],
    out: &mut [Vec<LineSpan>],
    masked: &mut Vec<(usize, usize)>,
    line_starts: &[usize],
    bytes: &[u8],
)
    requires
        starts_ok(line_starts@, bytes@.len() as int),
    ensures
        extended_by(old(out)@, final(out)@, line_starts@, bytes@, visits_view(visits@)),
        final(masked)@ == old(masked)@ + nodes_masked(visits_view(visits@)),
{
    let ghost rs = visits_view(visits@);
    let mut i: usize = 0;
    proof {
        lemma_extended_none(out@, line_starts@, bytes@);
        assert(rs.take(0) =~= Seq::<NodeRec>::empty());
        assert(masked@ =~= old(masked)@ + nodes_masked(Seq::<NodeRec>::empty()));
    }
    while i < visits.len()
        invariant
            i <= visits.len(),
            rs == visits_view(visits@),
            starts_ok(line_starts@, bytes@.len() as int),
            extended_by(old(out)@, out@, line_starts@, bytes@, rs.take(i as int)),
            masked@ == old(masked)@ + nodes_masked(rs.take(i as int)),
        decreases visits.len() - i,
    {
        let v = &visits[i];
        let ghost rec = visit_rec(*v);
        let ghost out_before = out@;
        let ghost masked_before = masked@;
        proof {
            lemma_one_node(rec, line_starts@, bytes@);
            assert(rs[i as int] == rec);
        }
        match classify_kind(v.kind.as_str(), v.named) {
            Some((k, _)) => {
                emit_spans(v.start, v.end, k, out, line_starts, bytes);
                if k == SyntaxKind::String || k == SyntaxKind::Comment {
                    masked.push((v.start, v.end));
                }
            },
            None => {
                proof {
                    lemma_extended_none(out@, line_starts@, bytes@);
                }
            },
        }
        proof {
            assert(extended_by(out_before, out@, line_starts@, bytes@, seq![rec]));
            lemma_extended_trans(old(out)@, out_before, out@, line_starts@, bytes@, rs.take(i as int), seq![rec]);
            lemma_nodes_concat(line_starts@, bytes@, rs.take(i as int), seq![rec]);
            assert(rs.take(i + 1) =~= rs.take(i as int) + seq![rec]);
            assert(masked@ =~= old(masked)@ + nodes_masked(rs.take(i + 1)));
        }
        i += 1;
    }
    proof {
        assert(rs.take(visits.len() as int) =~= rs);
    }
}

/// `n` empty span lists.
fn empty_lines(n: usize) -> (v: Vec<Vec<LineSpan>>)
    ensures
        v@.len() == n,
        forall|i: int| 0 <= i < n ==> (#[trigger] v@[i])@.len() == 0,
{
    let mut v: Vec<Vec<LineSpan>> = Vec::new();
    let mut i: usize = 0;
    while i < n
        invariant
            i <= n,
            v@.len() == i,
            forall|j: int| 0 <= j < i ==> (#[trigger] v@[j])@.len() == 0,
        decreases n - i,
    {
        v.push(Vec::new());
        i += 1;
    }
    v
}

/// The UTF-8 bytes of the source the highlighter parses: the lines joined
/// with `'\n'`.
pub open spec fn source_bytes(lines: Seq<String>) -> Seq<u8> {
    vstd::utf8::encode_utf8(join_lines(strings_view(lines)))
}

/// The spans of line `l` from the visited nodes `rs`, followed by the
/// bracket spans outside the masked ranges `ms` (bracket coloring is skipped
/// for a source whose length reaches `i64::MAX` or `usize::MAX`, more than
/// a slice can hold).
pub open spec fn line_highlights(bytes: Seq<u8>, rs: Seq<NodeRec>, ms: Seq<(usize, usize)>, l: int) -> Seq<
    LineSpan,
> {
    let ls = line_starts_spec(bytes);
    nodes_spans(ls, bytes, rs, l) + if bytes.len() < i64::MAX && bytes.len() < usize::MAX {
        bracket_spans(ls, bytes, ms, l, bytes.len() as int)
    } else {
        Seq::empty()
    }
}

/// The text the highlighter parses: the lines joined with `'\n'`.
pub open spec fn source_text(lines: Seq<String>) -> Seq<char> {
    join_lines(strings_view(lines))
}

/// The spans of line `l` of `lines` highlighted from the syntax tree `t`:
/// those of the nodes a walk of `t` visits, then the bracket spans outside
/// its strings and comments, ordered by start column (spans that start
/// together keep that order).
pub open spec fn highlight_line(lines: Seq<String>, t: SyntaxNode, l: int) -> Seq<LineSpan> {
    visits_line(lines, visited(t), l)
}

/// `r` holds, line by line, the highlights of `lines` from the syntax tree
/// `t`.
pub open spec fn highlighted_by(lines: Seq<String>, t: SyntaxNode, r: Seq<Vec<LineSpan>>) -> bool {
    &&& r.len() == lines.len()
    &&& forall|l: int| 0 <= l < r.len() ==> (#[trigger] r[l])@ == highlight_line(lines, t, l)
}

/// The spans of line `l` of `lines` from the visited nodes `rs`: those of
/// each classified node, then the bracket spans outside the strings and
/// comments among `rs`, ordered by start column (spans that start together
/// keep that order).
pub open spec fn visits_line(lines: Seq<String>, rs: Seq<NodeRec>, l: int) -> Seq<LineSpan> {
    sort_by_start(line_highlights(source_bytes(lines), rs, nodes_masked(rs), l))
}

/// The spans of every line of `lines`, given the nodes a walk of their
/// parse tree visits, in order: the spans of each classified node's byte
/// range, and the bracket spans outside strings and comments, each line's
/// spans ordered by start column.
pub fn spans_from_visits(visits: &[VisitedNode], lines: &[String]) -> (r: Vec<Vec<LineSpan>>)
    ensures
        r@.len() == lines@.len(),
        forall|l: int| 0 <= l < r@.len() ==> (#[trigger] r@[l])@ == visits_line(lines@, visits_view(visits@), l),
        forall|l: int| 0 <= l < r@.len() ==> spans_sorted(#[trigger] r@[l]@),
{
    let source = join_with_newlines(lines);
    let bytes = source.as_str().as_bytes();
    let line_starts = compute_line_starts(bytes);
    let n_bytes = bytes.len();
    proof {
        lemma_computed_starts_ok(bytes@);
    }
    let mut out = empty_lines(lines.len());
    let ghost out0 = out@;
    let mut masked: Vec<(usize, usize)> = Vec::new();
    let ghost rs = visits_view(visits@);
    emit_visits(visits, out.as_mut_slice(), &mut masked, line_starts.as_slice(), bytes);
    let ghost out1 = out@;
    let masked_nodes = masked;
    let masked = sort_ranges_by_start(masked_nodes);
    proof {
        assert(masked_nodes@ =~= nodes_masked(rs));
    }
    if n_bytes < usize::MAX && (n_bytes as u64) < 0x7fff_ffff_ffff_ffffu64 {
        augment_with_brackets(bytes, masked.as_slice(), line_starts.as_slice(), out.as_mut_slice());
    }
    let ghost ms = masked@;
    let ghost nm = nodes_masked(rs);
    proof {
        assert forall|x: int| #[trigger] masked_at(ms, x) == masked_at(nm, x) by {
            if masked_at(ms, x) {
                let k = choose|k: int| 0 <= k < ms.len() && ms[k].0 <= x < (#[trigger] ms[k]).1;
                assert(ms.contains(ms[k]));
                assert(ms.to_multiset().count(ms[k]) > 0);
                assert(nm.contains(ms[k]));
                let k2 = choose|k2: int| 0 <= k2 < nm.len() && nm[k2] == ms[k];
                assert(nm[k2].0 <= x < nm[k2].1);
            }
            if masked_at(nm, x) {
                let k = choose|k: int| 0 <= k < nm.len() && nm[k].0 <= x < (#[trigger] nm[k]).1;
                assert(nm.contains(nm[k]));
                assert(nm.to_multiset().count(nm[k]) > 0);
                assert(ms.contains(nm[k]));
                let k2 = choose|k2: int| 0 <= k2 < ms.len() && ms[k2] == nm[k];
                assert(ms[k2].0 <= x < ms[k2].1);
            }
        }
        assert forall|l: int| 0 <= l < out@.len() implies (#[trigger] out@[l])@ == line_highlights(
            bytes@,
            rs,
            nm,
            l,
        ) by {
            assert(out0[l]@.len() == 0);
            assert(out1[l]@ =~= nodes_spans(line_starts@, bytes@, rs, l));
            lemma_brackets_same_mask(line_starts@, bytes@, ms, nm, l, bytes@.len() as int);
            if n_bytes < usize::MAX && (n_bytes as u64) < 0x7fff_ffff_ffff_ffffu64 {
                assert(out@[l]@ =~= line_highlights(bytes@, rs, nm, l));
            } else {
                assert(out@[l]@ =~= line_highlights(bytes@, rs, nm, l));
            }
        }
        assert(bytes@ == source_bytes(lines@));
    }
    let mut sorted: Vec<Vec<LineSpan>> = Vec::new();
    let mut i: usize = 0;
    while i < out.len()
        invariant
            i <= out.len(),
            sorted@.len() == i,
            out@.len() == lines@.len(),
            rs == visits_view(visits@),
            nm == nodes_masked(rs),
            bytes@ == source_bytes(lines@),
            forall|l: int| 0 <= l < out@.len() ==> (#[trigger] out@[l])@ == line_highlights(
                bytes@,
                rs,
                nm,
                l,
            ),
            forall|j: int| 0 <= j < sorted@.len() ==> (#[trigger] sorted@[j])@ == visits_line(lines@, rs, j),
            forall|j: int| 0 <= j < sorted@.len() ==> spans_sorted(#[trigger] sorted@[j]@),
        decreases out.len() - i,
    {
        let line = out[i].clone();
        proof {
            assert(line@ =~= out@[i as int]@);
        }
        sorted.push(sort_spans_by_start(line));
        i += 1;
    }
    sorted
}

/// The spans of every line of `lines` under `lang`: those of every
/// classified node a walk of the parse tree visits, and the bracket spans
/// outside strings and comments, each line's spans ordered by start column.
/// `None` when the grammar is refused or the text is not parsed. `parser`
/// is created on first use and kept.
fn compute_spans(parser: &mut Option<tree_sitter::Parser>, lang: Lang, lines: &[String]) -> (r: Option<
    Vec<Vec<LineSpan>>,
>)
    ensures
        r is Some <==> parsed_tree(lang, source_text(lines@)) is Some,
        r matches Some(v) ==> highlighted_by(lines@, parsed_tree(lang, source_text(lines@)).unwrap(), v@)
            && forall|l: int| 0 <= l < v@.len() ==> spans_sorted(#[trigger] v@[l]@),
{
    let source = join_with_newlines(lines);
    let mut p = match parser.take() {
        Some(p) => p,
        None => new_parser(),
    };
    let parsed = parse_text(&mut p, lang, source.as_str());
    *parser = Some(p);
    let tree = match parsed {
        Some(t) => t,
        None => {
            return None;
        },
    };
    let root = root_node(&tree);
    let mut visits: Vec<VisitedNode> = Vec::new();
    collect_visits(&root, &mut visits);
    proof {
        assert(visits_view(Seq::<VisitedNode>::empty()) =~= Seq::<NodeRec>::empty());
        assert(visits_view(visits@) =~= visited(node_tree(root)));
    }
    let spans = spans_from_visits(visits.as_slice(), lines);
    Some(spans)
}

// ---------------------------------------------------------------------------
// Per-pane cache
// ---------------------------------------------------------------------------

/// The `k` low bytes of `n`, least significant first.
pub open spec fn le_bytes(n: nat, k: nat) -> Seq<u8>
    decreases k,
{
    if k == 0 {
        Seq::empty()
    } else {
        seq![(n % 256) as u8] + le_bytes(n / 256, (k - 1) as nat)
    }
}

/// What the hasher is fed for each line: its UTF-8 bytes, the byte `0xff`
/// (which never occurs in UTF-8) and a `'\n'`.
pub open spec fn line_chunks(lines: Seq<Seq<char>>) -> Seq<Seq<u8>>
    decreases lines.len(),
{
    if lines.len() == 0 {
        Seq::empty()
    } else {
        line_chunks(lines.drop_last()).push(vstd::utf8::encode_utf8(lines.last())).push(
            seq![0xffu8],
        ).push(seq![0x0au8])
    }
}

/// What the hasher is fed for a list of lines: the number of lines as eight
/// little-endian bytes, then each line's chunks.
pub open spec fn hash_chunks(lines: Seq<Seq<char>>) -> Seq<Seq<u8>> {
    seq![le_bytes(lines.len(), 8)] + line_chunks(lines)
}

fn count_bytes(n: u64) -> (v: Vec<u8>)
    ensures
        v@ == le_bytes(n as nat, 8),
{
    let mut v: Vec<u8> = Vec::new();
    let mut rest: u64 = n;
    let mut k: usize = 0;
    while k < 8
        invariant
            k <= 8,
            v@ + le_bytes(rest as nat, (8 - k) as nat) == le_bytes(n as nat, 8),
        decreases 8 - k,
    {
        proof {
            assert(le_bytes(rest as nat, (8 - k) as nat) == seq![(rest % 256) as u8] + le_bytes(
                (rest / 256) as nat,
                (8 - k - 1) as nat,
            ));
            assert(v@.push((rest % 256) as u8) + le_bytes((rest / 256) as nat, (8 - k - 1) as nat)
                =~= v@ + (seq![(rest % 256) as u8] + le_bytes((rest / 256) as nat, (8 - k - 1) as nat)));
        }
        v.push((rest % 256) as u8);
        rest = rest / 256;
        k += 1;
    }
    proof {
        assert(le_bytes(rest as nat, 0) =~= Seq::<u8>::empty());
        assert(v@ + Seq::<u8>::empty() =~= v@);
    }
    v
}

/// The content hash of a list of lines.
pub open spec fn lines_hash(lines: Seq<Seq<char>>) -> u64 {
    DefaultHasher::spec_finish(hash_chunks(lines))
}

/// Hash the lines' content with `DefaultHasher`.
pub fn hash_lines(lines: &[String]) -> (h: u64)
    ensures
        h == lines_hash(strings_view(lines@)),
{
    let mut hasher = DefaultHasher::new();
    let count = count_bytes(lines.len() as u64);
    hasher.write(count.as_slice());
    let sep: [u8; 1] = [0xffu8];
    let newline: [u8; 1] = [0x0au8];
    let mut i: usize = 0;
    proof {
        assert(strings_view(lines@).len() == lines@.len());
        assert(strings_view(lines@.take(0)) =~= Seq::<Seq<char>>::empty());
        assert(hasher@ =~= seq![le_bytes(lines@.len(), 8)] + line_chunks(
            strings_view(lines@.take(0)),
        ));
    }
    while i < lines.len()
        invariant
            i <= lines.len(),
            sep@ == seq![0xffu8],
            newline@ == seq![0x0au8],
            hasher@ == seq![le_bytes(lines@.len(), 8)] + line_chunks(
                strings_view(lines@.take(i as int)),
            ),
        decreases lines.len() - i,
    {
        proof {
            assert(strings_view(lines@.take(i + 1)).drop_last() =~= strings_view(
                lines@.take(i as int),
            ));
            assert(strings_view(lines@.take(i + 1)).last() == lines@[i as int]@);
        }
        hasher.write(lines[i].as_str().as_bytes());
        hasher.write(sep.as_slice());
        hasher.write(newline.as_slice());
        i += 1;
    }
    proof {
        assert(lines@.take(lines.len() as int) =~= lines@);
        assert(strings_view(lines@).len() == lines@.len());
    }
    hasher.finish()
}

/// The cache's identity of a language (0 for none).
pub open spec fn lang_id(lang: Option<Lang>) -> u64 {
    match lang {
        Some(Lang::Cpp) => 1,
        Some(Lang::CSharp) => 2,
        Some(Lang::Hlsl) => 3,
        Some(Lang::Rust) => 4,
        None => 0,
    }
}

fn lang_id_of(lang: Option<Lang>) -> (id: u64)
    ensures
        id == lang_id(lang),
{
    match lang {
        Some(Lang::Cpp) => 1,
        Some(Lang::CSharp) => 2,
        Some(Lang::Hlsl) => 3,
        Some(Lang::Rust) => 4,
        None => 0,
    }
}

/// Spans computed for one pane, with what they were computed from.
pub struct Cached {
    pub content_hash: u64,
    pub language_id: u64,
    pub lines: Vec<Vec<LineSpan>>,
}

/// Per-pane highlight results, keyed by pane, recomputed only when the
/// pane's text or language changes.
pub struct HighlightCache {
    pub entries: HashMap<u64, Cached>,
    pub parser: Option<tree_sitter::Parser>,
}

/// Whether the entry cached under `key` was computed from `lines` under a
/// language with identity `id`.
pub open spec fn entry_fresh(entries: Map<u64, Cached>, key: u64, lines: Seq<String>, id: u64) -> bool {
    &&& entries.contains_key(key)
    &&& entries[key].content_hash == lines_hash(strings_view(lines))
    &&& entries[key].language_id == id
}

impl HighlightCache {
    /// An empty cache.
    pub fn new() -> (c: Self)
        ensures
            c.entries@ == Map::<u64, Cached>::empty(),
            c.parser is None,
    {
        HighlightCache { entries: HashMap::new(), parser: None }
    }

    /// The per-line spans of `lines` under `lang` for pane `key`. A cached
    /// result computed from the same content and language is returned as
    /// it is; otherwise the spans are computed (none without a language),
    /// cached under `key` and returned. Other panes' entries stay as they
    /// are.
    pub fn highlights<'a>(&'a mut self, key: u64, lang: Option<Lang>, lines: &[String]) -> (r: &'a [Vec<LineSpan>])
        ensures
            entry_fresh(final(self).entries@, key, lines@, lang_id(lang)),
            r@ == final(self).entries@[key].lines@,
            entry_fresh(old(self).entries@, key, lines@, lang_id(lang)) ==> final(self).entries@
                == old(self).entries@,
            !entry_fresh(old(self).entries@, key, lines@, lang_id(lang)) ==> {
                &&& final(self).entries@ == old(self).entries@.insert(key, final(self).entries@[key])
                &&& lang is None ==> final(self).entries@[key].lines@.len() == 0
                &&& lang is Some ==> final(self).entries@[key].lines@.len() == lines@.len()
                &&& lang matches Some(l) ==> match parsed_tree(l, source_text(lines@)) {
                    Some(t) => highlighted_by(lines@, t, final(self).entries@[key].lines@),
                    None => forall|i: int|
                        0 <= i < lines@.len() ==> (#[trigger] final(self).entries@[key].lines@[i])@.len()
                            == 0,
                }
                &&& forall|i: int|
                    0 <= i < final(self).entries@[key].lines@.len() ==> spans_sorted(
                        #[trigger] final(self).entries@[key].lines@[i]@,
                    )
            },
    {
        broadcast use vstd::std_specs::hash::group_hash_axioms;

        let id = lang_id_of(lang);
        let content_hash = hash_lines(lines);
        let needs_refresh = match self.entries.get(&key) {
            Some(c) => c.content_hash != content_hash || c.language_id != id,
            None => true,
        };
        if needs_refresh {
            let computed = match lang {
                Some(l) => match compute_spans(&mut self.parser, l, lines) {
                    Some(v) => v,
                    None => empty_lines(lines.len()),
                },
                None => Vec::new(),
            };
            self.entries.insert(key, Cached { content_hash, language_id: id, lines: computed });
        }
        match self.entries.get(&key) {
            Some(c) => c.lines.as_slice(),
            None => {
                proof {
                    assert(false);
                }
                &[]
            },
        }
    }

    /// Drop the entry for pane `key`, when its session closes.
    pub fn forget(&mut self, key: u64)
        ensures
            final(self).entries@ == old(self).entries@.remove(key),
    {
        broadcast use vstd::std_specs::hash::group_hash_axioms;

        self.entries.remove(&key);
    }
}

} // verus!
