use conversation_parser::tagged::{
    escape_md, json_to_md, make_lowercase_first, make_uppercase_first, merge_entries,
    parse_entries, to_markdown_table, Entry,
};

fn entry(speaker: &str, text: &str) -> Entry {
    Entry { speaker: speaker.to_string(), text: text.to_string() }
}

fn pairs(entries: &[Entry]) -> Vec<(String, String)> {
    entries.iter().map(|e| (e.speaker.clone(), e.text.clone())).collect()
}

fn pair(speaker: &str, text: &str) -> (String, String) {
    (speaker.to_string(), text.to_string())
}

#[test]
fn second_text_after_one_speaker_is_dropped() {
    let entries = parse_entries("speaker: \"Alice\"\ntext: \"Hi\"\ntext: \"There\"");
    assert_eq!(pairs(&entries), vec![pair("Alice", "Hi")]);
}

#[test]
fn reads_bare_and_quoted_keys() {
    let input = "{\n  \"speaker\": \"Bob\",\n  \"text\": \"Yo\",\n},\n{\n  speaker: \"Eve\",\n  text: \"Hey\"\n}";
    let entries = parse_entries(input);
    assert_eq!(pairs(&entries), vec![pair("Bob", "Yo"), pair("Eve", "Hey")]);
}

#[test]
fn passes_over_lines_without_a_key() {
    let input = "[\n// a comment\nspeakers: \"nobody\"\nname: \"x\"\nspeaker: \"A\"\n,,,\n\ntext: \"B\"\n]";
    let entries = parse_entries(input);
    assert_eq!(pairs(&entries), vec![pair("A", "B")]);
}

#[test]
fn later_speaker_replaces_the_waiting_one() {
    let entries = parse_entries("speaker: \"A\"\nspeaker: \"B\"\ntext: \"x\"");
    assert_eq!(pairs(&entries), vec![pair("B", "x")]);
}

#[test]
fn text_without_speaker_is_dropped() {
    let entries = parse_entries("text: \"lost\"\nspeaker: \"A\"\ntext: \"kept\"");
    assert_eq!(pairs(&entries), vec![pair("A", "kept")]);
}

#[test]
fn value_without_opening_quote_is_no_field() {
    let entries = parse_entries("speaker: Alice\ntext: \"Hi\"");
    assert!(entries.is_empty());
}

#[test]
fn value_without_closing_quote_is_no_field() {
    let entries = parse_entries("speaker: \"A\"\nspeaker: \"Bro\ntext: \"Hi\"");
    assert_eq!(pairs(&entries), vec![pair("A", "Hi")]);
}

#[test]
fn unclosed_text_leaves_the_speaker_waiting() {
    let entries = parse_entries("speaker: \"A\"\ntext: \"broken\ntext: \"whole\"");
    assert_eq!(pairs(&entries), vec![pair("A", "whole")]);
}

#[test]
fn whitespace_around_line_and_value_is_ignored() {
    let entries = parse_entries("  speaker:   \"A\"  ,\r\n\ttext:\"B\" \r\n");
    assert_eq!(pairs(&entries), vec![pair("A", "B")]);
}

#[test]
fn whitespace_before_the_colon_hides_the_key() {
    let entries = parse_entries("speaker : \"A\"\ntext: \"B\"");
    assert!(entries.is_empty());
}

#[test]
fn empty_input_holds_no_entries() {
    assert!(parse_entries("").is_empty());
    assert!(parse_entries("\n\n\n").is_empty());
}

#[test]
fn values_have_their_escapes_resolved() {
    let entries = parse_entries("speaker: \"A \\\"the\\\" B\"\ntext: \"one\\ntwo\\tend \\x\"");
    assert_eq!(pairs(&entries), vec![pair("A \"the\" B", "one\ntwo\tend \\x")]);
}

#[test]
fn what_follows_the_closing_quote_is_ignored() {
    let entries = parse_entries("speaker: \"A\" \"B\", junk\ntext: \"t\" // note");
    assert_eq!(pairs(&entries), vec![pair("A", "t")]);
}

#[test]
fn empty_values_are_values() {
    let entries = parse_entries("speaker: \"\"\ntext: \"\"");
    assert_eq!(pairs(&entries), vec![pair("", "")]);
}

#[test]
fn lowercase_first_changes_the_first_character_only() {
    assert_eq!(make_lowercase_first("Hello World"), "hello World");
    assert_eq!(make_lowercase_first("hello"), "hello");
    assert_eq!(make_lowercase_first("1A"), "1A");
    assert_eq!(make_lowercase_first(""), "");
    assert_eq!(make_lowercase_first("\u{c9}T\u{c9}"), "\u{e9}T\u{c9}");
}

#[test]
fn lowercase_first_keeps_an_expansion() {
    assert_eq!(make_lowercase_first("\u{130}stanbul"), "i\u{307}stanbul");
}

#[test]
fn uppercase_first_changes_the_first_character_only() {
    assert_eq!(make_uppercase_first("hello world"), "Hello world");
    assert_eq!(make_uppercase_first("Hello"), "Hello");
    assert_eq!(make_uppercase_first(" x"), " x");
    assert_eq!(make_uppercase_first(""), "");
}

#[test]
fn uppercase_first_keeps_an_expansion() {
    assert_eq!(make_uppercase_first("\u{df}a"), "SSa");
}

#[test]
fn tagged_merge_after_period_begins_in_uppercase() {
    let merged = merge_entries(vec![entry("A", "Done."), entry("A", "hello")]);
    assert_eq!(pairs(&merged), vec![pair("A", "Done. Hello")]);
}

#[test]
fn tagged_merge_without_period_begins_in_lowercase() {
    let merged = merge_entries(vec![entry("A", "Well"), entry("A", "Hello There")]);
    assert_eq!(pairs(&merged), vec![pair("A", "Well hello There")]);
}

#[test]
fn tagged_merge_looks_past_trailing_whitespace_for_the_period() {
    let merged = merge_entries(vec![entry("A", "Done. \t"), entry("A", "next")]);
    assert_eq!(pairs(&merged), vec![pair("A", "Done. \t Next")]);
}

#[test]
fn tagged_merge_adds_one_space_whatever_the_whitespace() {
    let merged = merge_entries(vec![entry("A", "a  "), entry("A", "  b")]);
    assert_eq!(pairs(&merged), vec![pair("A", "a     b")]);
    let merged = merge_entries(vec![entry("A", "a"), entry("A", "")]);
    assert_eq!(pairs(&merged), vec![pair("A", "a ")]);
    let merged = merge_entries(vec![entry("A", ""), entry("A", "b")]);
    assert_eq!(pairs(&merged), vec![pair("A", " b")]);
}

#[test]
fn tagged_merge_folds_each_run_of_one_speaker() {
    let merged = merge_entries(vec![
        entry("A", "One."),
        entry("A", "two"),
        entry("A", "Three"),
        entry("B", "Four"),
        entry("A", "Five."),
        entry("A", "six."),
    ]);
    assert_eq!(
        pairs(&merged),
        vec![pair("A", "One. Two three"), pair("B", "Four"), pair("A", "Five. Six.")]
    );
}

#[test]
fn tagged_merge_keeps_alternating_speakers_apart() {
    let merged = merge_entries(vec![entry("A", "x"), entry("B", "y"), entry("A", "z")]);
    assert_eq!(merged.len(), 3);
    assert_eq!(pairs(&merged), vec![pair("A", "x"), pair("B", "y"), pair("A", "z")]);
}

#[test]
fn tagged_merge_never_makes_more_turns_than_records() {
    let merged = merge_entries(vec![entry("A", "x"), entry("A", "y"), entry("B", "z")]);
    assert_eq!(merged.len(), 2);
    assert!(merge_entries(Vec::new()).is_empty());
}

#[test]
fn tagged_merge_keeps_the_speaker_of_the_turn() {
    let merged = merge_entries(vec![entry("Ann", "x"), entry("Ann", "y"), entry("Ann", "z")]);
    assert_eq!(merged.len(), 1);
    assert_eq!(merged[0].speaker, "Ann");
}

#[test]
fn tagged_merge_tells_speakers_apart_by_case_and_whitespace() {
    let merged = merge_entries(vec![entry("Ann", "x"), entry("ann", "y"), entry("ann ", "z")]);
    assert_eq!(merged.len(), 3);
}

#[test]
fn escape_puts_a_backslash_before_each_pipe() {
    assert_eq!(escape_md("Hi|there"), "Hi\\|there");
    assert_eq!(escape_md("||"), "\\|\\|");
    assert_eq!(escape_md("plain"), "plain");
    assert_eq!(escape_md(""), "");
}

#[test]
fn escape_replaces_each_newline_by_a_space() {
    assert_eq!(escape_md("a\nb\n\nc|d"), "a b  c\\|d");
    assert_eq!(escape_md("a\\b\tc\r"), "a\\b\tc\r");
}

#[test]
fn tagged_input_renders_with_escaped_pipe() {
    let entries = parse_entries("speaker: \"Bob\"\ntext: \"Hi|there\"");
    let table = to_markdown_table(&merge_entries(entries));
    assert_eq!(table, "| Speaker | Text |\n|---------|------|\n| Bob | Hi\\|there |\n");
}

#[test]
fn tagged_table_escapes_both_columns() {
    let table = to_markdown_table(&[entry("A|B", "x\ny"), entry("C", "z")]);
    assert_eq!(
        table,
        "| Speaker | Text |\n|---------|------|\n| A\\|B | x y |\n| C | z |\n"
    );
}

#[test]
fn tagged_table_without_entries_is_header_and_separator() {
    assert_eq!(to_markdown_table(&[]), "| Speaker | Text |\n|---------|------|\n");
}

#[test]
fn tagged_pipeline_merges_what_the_extractor_pairs() {
    let input = "speaker: \"A\"\ntext: \"First.\"\nspeaker: \"A\"\ntext: \"second\"\nspeaker: \"B\"\ntext: \"Third\"";
    let merged = merge_entries(parse_entries(input));
    assert_eq!(pairs(&merged), vec![pair("A", "First. Second"), pair("B", "Third")]);
}

#[test]
fn tagged_dump_becomes_a_table() {
    let input = "[\n  {\n    speaker: \"Ann\",\n    text: \"It works.\"\n  },\n  {\n    speaker: \"Ann\",\n    text: \"mostly\"\n  },\n  {\n    \"speaker\": \"Bob\",\n    \"text\": \"A|B\\nC\"\n  }\n]\n";
    assert_eq!(
        json_to_md(input).unwrap(),
        "| Speaker | Text |\n|---------|------|\n| Ann | It works. Mostly |\n| Bob | A\\|B C |\n"
    );
}

#[test]
fn tagged_dump_without_entries_gives_no_table() {
    assert_eq!(json_to_md(""), None);
    assert_eq!(json_to_md("[\n  {},\n  // nothing here\n]\n"), None);
    assert_eq!(json_to_md("text: \"nobody said this\"\nspeaker: \"A\""), None);
}

#[test]
fn tagged_dump_with_one_empty_entry_still_gives_a_table() {
    assert_eq!(
        json_to_md("speaker: \"\"\ntext: \"\"").unwrap(),
        "| Speaker | Text |\n|---------|------|\n|  |  |\n"
    );
}
