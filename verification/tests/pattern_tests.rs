use orm_separate::error::SplitError;
use orm_separate::listing::list_matching_files;
use orm_separate::listing::WalkEntry;
use orm_separate::pattern::compile;
use orm_separate::pattern::parse_regex_format;
use orm_separate::pattern::regex_source;

#[test]
fn delimited_pattern_splits_into_expression_and_flags() {
    assert_eq!(parse_regex_format("/orm/i"), ("orm", "i"));
    assert_eq!(parse_regex_format("/orm/"), ("orm", ""));
    assert_eq!(parse_regex_format("/_mask\\.png$/gi"), ("_mask\\.png$", "gi"));
}

#[test]
fn bare_pattern_is_all_expression() {
    assert_eq!(parse_regex_format("orm"), ("orm", ""));
    assert_eq!(parse_regex_format(""), ("", ""));
    assert_eq!(parse_regex_format("a/b/i"), ("a/b/i", ""));
}

#[test]
fn pattern_without_closing_slash_is_bare() {
    assert_eq!(parse_regex_format("/orm"), ("/orm", ""));
    assert_eq!(parse_regex_format("/"), ("/", ""));
}

#[test]
fn pattern_closes_at_the_first_later_slash() {
    assert_eq!(parse_regex_format("//"), ("", ""));
    assert_eq!(parse_regex_format("//i"), ("", "i"));
    assert_eq!(parse_regex_format("/a/b/c"), ("a", "b/c"));
    assert_eq!(parse_regex_format("/tex/orm/i"), ("tex", "orm/i"));
}

#[test]
fn pattern_with_characters_beyond_ascii_splits_by_character() {
    assert_eq!(parse_regex_format("/größe/i"), ("größe", "i"));
    assert_eq!(parse_regex_format("/日本/x"), ("日本", "x"));
}

#[test]
fn flag_i_puts_the_switch_before_the_expression() {
    assert_eq!(regex_source("/orm/i"), "(?i)orm");
    assert_eq!(regex_source("/orm/xiy"), "(?i)orm");
    assert_eq!(regex_source("/tex/orm/i"), "(?i)tex");
}

#[test]
fn other_flags_are_ignored() {
    assert_eq!(regex_source("/orm/"), "orm");
    assert_eq!(regex_source("/orm/gx"), "orm");
    assert_eq!(regex_source("/orm/I"), "orm");
    assert_eq!(regex_source("orm"), "orm");
    assert_eq!(regex_source("/orm"), "/orm");
}

#[test]
fn orm_pattern_matches_in_any_case() {
    let matcher = compile("/orm/i").unwrap();
    assert!(matcher.is_match("Texture_ORM.png"));
    assert!(matcher.is_match("orm.png"));
    assert!(matcher.is_match("MyOrmMap.tga"));
    assert!(!matcher.is_match("albedo.png"));
}

#[test]
fn pattern_without_flag_is_case_sensitive() {
    let matcher = compile("/orm/").unwrap();
    assert!(matcher.is_match("a_orm.png"));
    assert!(!matcher.is_match("a_ORM.png"));
    let bare = compile("orm").unwrap();
    assert!(bare.is_match("a_orm.png"));
    assert!(!bare.is_match("a_Orm.png"));
}

#[test]
fn pattern_is_tested_against_the_whole_path() {
    let matcher = compile("/orm/i").unwrap();
    assert!(matcher.is_match("textures/ORM/albedo.png"));
    assert!(!matcher.is_match("textures/pbr/albedo.png"));
    let anchored = compile("/^orm/").unwrap();
    assert!(anchored.is_match("orm.png"));
    assert!(!anchored.is_match("dir/orm.png"));
}

#[test]
fn match_distinguishes_haystacks() {
    let matcher = compile("/_orm\\.png$/").unwrap();
    assert!(matcher.is_match("a_orm.png"));
    assert!(!matcher.is_match("a_orm.png.bak"));
    assert!(!matcher.is_match("_orm\\.png$"));
}

#[test]
fn invalid_expression_is_reported_with_pattern_and_cause() {
    match compile("/foo(bar/i") {
        Err(SplitError::InvalidPattern { pattern, cause }) => {
            assert_eq!(pattern, "/foo(bar/i");
            assert!(!cause.is_empty());
            assert_ne!(cause, "/foo(bar/i");
            assert!(cause.contains("unclosed group"));
        }
        other => panic!("unexpected outcome: {:?}", other),
    }
}

#[test]
fn invalid_bare_expression_is_reported() {
    assert!(matches!(compile("[a-"), Err(SplitError::InvalidPattern { .. })));
    assert!(matches!(compile("*"), Err(SplitError::InvalidPattern { .. })));
}

#[test]
fn empty_pattern_matches_everything() {
    let matcher = compile("").unwrap();
    assert!(matcher.is_match(""));
    assert!(matcher.is_match("anything"));
}

fn entry(path: &str, is_file: bool) -> WalkEntry {
    WalkEntry { path: path.to_string(), is_file }
}

#[test]
fn listing_keeps_matching_files_in_walk_order() {
    let matcher = compile("/orm/i").unwrap();
    let entries = vec![
        entry("dir", false),
        entry("dir/a_orm.png", true),
        entry("dir/b_albedo.png", true),
        entry("dir/sub", false),
        entry("dir/sub/C_ORM.tga", true),
    ];
    assert_eq!(list_matching_files(&entries, &matcher), vec![1, 4]);
}

#[test]
fn listing_skips_directories_even_when_their_path_matches() {
    let matcher = compile("/orm/i").unwrap();
    let entries = vec![entry("orm", false), entry("orm/readme.txt", true), entry("x/orm_dir", false)];
    assert_eq!(list_matching_files(&entries, &matcher), vec![1]);
}

#[test]
fn listing_of_nothing_is_empty() {
    let matcher = compile("/orm/i").unwrap();
    assert_eq!(list_matching_files(&Vec::new(), &matcher), Vec::<usize>::new());
    let entries = vec![entry("a.png", true), entry("b.png", true)];
    assert_eq!(list_matching_files(&entries, &matcher), Vec::<usize>::new());
}

#[test]
fn listing_keeps_every_file_for_a_pattern_that_matches_all() {
    let matcher = compile("").unwrap();
    let entries = vec![entry("a", true), entry("b", false), entry("c", true)];
    assert_eq!(list_matching_files(&entries, &matcher), vec![0, 2]);
}
