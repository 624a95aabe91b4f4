//! Scenarios for the discovery-metadata JSON encoders.

use disasm_core::meta::{
    agent_test_tasks_json, categories_json, example_queries_json, keywords_json, object_tags,
    result_columns_schema_json,
};

#[test]
fn keywords_are_trimmed_filtered_and_quoted() {
    assert_eq!(
        keywords_json("disassemble, capstone ,, mitre att&ck , "),
        "[\"disassemble\",\"capstone\",\"mitre att&ck\"]"
    );
}

#[test]
fn keywords_escape_backslash_and_quote() {
    assert_eq!(keywords_json("a\\b, say \"hi\""), "[\"a\\\\b\",\"say \\\"hi\\\"\"]");
}

#[test]
fn keywords_of_nothing_is_empty_array() {
    assert_eq!(keywords_json(""), "[]");
    assert_eq!(keywords_json(" , ,"), "[]");
}

#[test]
fn agent_tasks_escape_newlines() {
    let s = agent_test_tasks_json(&[("n", "line1\nline2", "SELECT \"x\"")]);
    assert_eq!(
        s,
        "[{\"name\":\"n\",\"prompt\":\"line1\\nline2\",\"reference_sql\":\"SELECT \\\"x\\\"\"}]"
    );
    assert_eq!(agent_test_tasks_json(&[]), "[]");
}

#[test]
fn result_columns_keep_newlines_raw() {
    let s = result_columns_schema_json(&[
        ("address", "UBIGINT", "Absolute address"),
        ("note", "VARCHAR", "a\nb"),
    ]);
    assert_eq!(
        s,
        "[{\"name\":\"address\",\"type\":\"UBIGINT\",\"description\":\"Absolute address\"},\
         {\"name\":\"note\",\"type\":\"VARCHAR\",\"description\":\"a\nb\"}]"
    );
}

#[test]
fn example_queries_encode_pairs() {
    let s = example_queries_json(&[("count rows", "SELECT 1;\nSELECT 2;")]);
    assert_eq!(
        s,
        "[{\"description\":\"count rows\",\"sql\":\"SELECT 1;\\nSELECT 2;\"}]"
    );
}

#[test]
fn categories_encode_in_order() {
    let s = categories_json(&[("Disassembly", "Decode bytes."), ("Utility", "Misc \\ tools")]);
    assert_eq!(
        s,
        "[{\"name\":\"Disassembly\",\"description\":\"Decode bytes.\"},\
         {\"name\":\"Utility\",\"description\":\"Misc \\\\ tools\"}]"
    );
}

#[test]
fn object_tags_are_the_five_standard_tags() {
    let tags = object_tags("Title", "llm text", "md text", &["format", " probe ", ""], "Utility");
    let keys: Vec<&str> = tags.iter().map(|(k, _)| k.as_str()).collect();
    assert_eq!(
        keys,
        ["vgi.title", "vgi.doc_llm", "vgi.doc_md", "vgi.keywords", "vgi.category"]
    );
    assert_eq!(tags[0].1, "Title");
    assert_eq!(tags[1].1, "llm text");
    assert_eq!(tags[2].1, "md text");
    assert_eq!(tags[3].1, "[\"format\",\"probe\"]");
    assert_eq!(tags[4].1, "Utility");
}
