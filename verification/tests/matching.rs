use mmv2000::error::PatternError;
use mmv2000::file_match::{Match, MoveStatus};
use mmv2000::fs_utils::{
    captures_of, compile_segment, dedup_matches, find_matches, match_path, match_segment,
};
use mmv2000::placeholder::{read_placeholder, render_path};
use mmv2000::text::{relative_path, split_segments};

fn strings(items: &[&str]) -> Vec<String> {
    items.iter().map(|s| s.to_string()).collect()
}

fn pair(old: &str, new: &str) -> Match {
    Match { old_file_path: old.to_string(), new_file_path: new.to_string() }
}

fn source_tree() -> Vec<String> {
    strings(&[
        "tests/test_source/file_1.txt",
        "tests/test_source/pics/file_1.png",
        "tests/test_source/texts/file_1.txt",
        "tests/test_source/texts/file_2.txt",
    ])
}

#[test]
fn test_match_constructor() {
    let x = Match {
        old_file_path: "".to_string(),
        new_file_path: "1/@/fdfd".to_string(),
    };
    let y = Match::new("", "#1/#3/#2", vec!["1", "fdfd", "@"]);
    assert_eq!(x, y);
}

#[test]
fn test_matches() {
    let expected = vec![Match {
        old_file_path: "tests/test_source/texts/file_2.txt".parse().unwrap(),
        new_file_path: "tests/test_source/new_texts/file_2.txt".parse().unwrap(),
    }];
    assert_eq!(
        find_matches(
            &"tests/test_source/*/*_2.txt".to_string(),
            &"tests/test_source/new_#1/#2_2.txt".to_string(),
            &source_tree(),
        ),
        Ok(expected)
    );

    let expected = vec![
        Match {
            old_file_path: "tests/test_source/texts/file_1.txt".parse().unwrap(),
            new_file_path: "tests/test_source/new_texts/file_1_updated.txt"
                .parse()
                .unwrap(),
        },
        Match {
            old_file_path: "tests/test_source/texts/file_2.txt".parse().unwrap(),
            new_file_path: "tests/test_source/new_texts/file_2_updated.txt"
                .parse()
                .unwrap(),
        },
    ];
    assert_eq!(
        find_matches(
            &"tests/test_source/*/*.txt".to_string(),
            &"tests/test_source/new_#1/#2_updated.txt".to_string(),
            &source_tree(),
        ),
        Ok(expected)
    );
}

#[test]
fn one_match_in_a_small_tree() {
    let tree = strings(&["texts/file_1.txt", "texts/file_2.txt"]);
    assert_eq!(
        find_matches("*/*_2.txt", "new_#1/#2_2.txt", &tree),
        Ok(vec![pair("texts/file_2.txt", "new_texts/file_2.txt")])
    );
}

#[test]
fn two_matches_in_a_small_tree() {
    let tree = strings(&["texts/file_1.txt", "texts/file_2.txt"]);
    assert_eq!(
        find_matches("*/*.txt", "new_#1/#2_updated.txt", &tree),
        Ok(vec![
            pair("texts/file_1.txt", "new_texts/file_1_updated.txt"),
            pair("texts/file_2.txt", "new_texts/file_2_updated.txt"),
        ])
    );
}

#[test]
fn no_candidate_gives_no_match() {
    assert_eq!(find_matches("*/*.txt", "#1/#2", &Vec::new()), Ok(Vec::new()));
    assert_eq!(find_matches("file_2.*", "file_2_new.#1", &source_tree()), Ok(Vec::new()));
}

#[test]
fn another_number_of_segments_never_matches() {
    let mask = split_segments("*/*");
    assert_eq!(match_path(&mask, "a"), Ok(None));
    assert_eq!(match_path(&mask, "a/b/c"), Ok(None));
    assert_eq!(match_path(&mask, "a/b"), Ok(Some(strings(&["a", "b"]))));
    assert_eq!(match_path(&split_segments("*"), "a/b"), Ok(None));
    assert_eq!(match_path(&split_segments("a//b"), "a/b"), Ok(None));
}

#[test]
fn captures_come_segment_by_segment() {
    let mask = split_segments("*/file_*.*");
    assert_eq!(
        match_path(&mask, "texts/file_1.txt"),
        Ok(Some(strings(&["texts", "1", "txt"])))
    );
    assert_eq!(match_path(&mask, "texts/note_1.txt"), Ok(None));
}

#[test]
fn a_wildcard_takes_as_much_as_it_can() {
    assert_eq!(match_segment("*.*", "a.b.c"), Ok(Some(strings(&["a.b", "c"]))));
    assert_eq!(match_segment("*", ""), Ok(Some(strings(&[""]))));
    assert_eq!(match_segment("a*", "b"), Ok(None));
}

#[test]
fn literal_text_is_escaped() {
    assert_eq!(compile_segment("a.b"), "^a\\.b$");
    assert_eq!(compile_segment("*_2.txt"), "^(.*)_2\\.txt$");
    assert_eq!(compile_segment("a+(b)[c]"), "^a\\+\\(b\\)\\[c\\]$");
    assert_eq!(compile_segment(""), "^$");
    assert_eq!(match_segment("a.txt", "abtxt"), Ok(None));
    assert_eq!(match_segment("a.txt", "a.txt"), Ok(Some(Vec::new())));
    assert_eq!(match_segment("a+", "aa"), Ok(None));
    assert_eq!(match_segment("(x)", "(x)"), Ok(Some(Vec::new())));
}

#[test]
fn a_wildcard_does_not_take_a_line_break() {
    assert_eq!(match_segment("*", "a\nb"), Ok(None));
}

#[test]
fn a_group_that_took_no_part_is_empty() {
    let groups = vec![Some("a.".to_string()), Some("a".to_string()), None, Some("".to_string())];
    assert_eq!(captures_of(&groups), strings(&["a", "", ""]));
    assert_eq!(captures_of(&vec![Some("whole".to_string())]), Vec::<String>::new());
    assert_eq!(captures_of(&vec![None]), Vec::<String>::new());
    assert_eq!(captures_of(&Vec::new()), Vec::<String>::new());
}

#[test]
fn segments_are_the_pieces_between_slashes() {
    assert_eq!(split_segments("a/b/c"), strings(&["a", "b", "c"]));
    assert_eq!(split_segments(""), strings(&[""]));
    assert_eq!(split_segments("a//b/"), strings(&["a", "", "b", ""]));
    assert_eq!(split_segments("/a"), strings(&["", "a"]));
}

#[test]
fn adjacent_repeats_collapse() {
    let a = pair("a", "x");
    let b = pair("b", "y");
    let input = vec![a.clone(), a.clone(), b.clone(), b.clone(), b.clone()];
    assert_eq!(dedup_matches(&input), vec![a.clone(), b.clone()]);
    assert_eq!(dedup_matches(&Vec::new()), Vec::new());
}

#[test]
fn separated_repeats_stay() {
    let a = pair("a", "x");
    let b = pair("b", "y");
    let input = vec![a.clone(), b.clone(), a.clone(), a.clone()];
    assert_eq!(dedup_matches(&input), vec![a.clone(), b.clone(), a.clone()]);
    let same_old = vec![pair("a", "x"), pair("a", "y")];
    assert_eq!(dedup_matches(&same_old), same_old);
}

#[test]
fn a_candidate_listed_twice_in_a_row_is_found_once() {
    let tree = strings(&["a.txt", "a.txt", "b.txt", "a.txt"]);
    assert_eq!(
        find_matches("*.txt", "#1.bak", &tree),
        Ok(vec![pair("a.txt", "a.bak"), pair("b.txt", "b.bak"), pair("a.txt", "a.bak")])
    );
}

#[test]
fn captures_are_put_in_as_they_are() {
    assert_eq!(render_path("#1/#3/#2", &vec!["1", "fdfd", "@"]), "1/@/fdfd");
    assert_eq!(render_path("#1-#2", &vec!["#2", "x"]), "#2-x");
    assert_eq!(render_path("#2#1", &vec!["a", "#1"]), "#1a");
    assert_eq!(render_path("plain/text.txt", &vec!["a"]), "plain/text.txt");
    assert_eq!(render_path("", &vec!["a"]), "");
    assert_eq!(render_path("#1#1", &vec!["ab"]), "abab");
}

#[test]
fn a_placeholder_is_the_longest_run_of_digits() {
    let caps: Vec<&str> = vec!["a", "b", "c", "d", "e", "f", "g", "h", "i", "j", "k", "l"];
    assert_eq!(render_path("x#12y", &caps), "xly");
    assert_eq!(render_path("x#1y2", &caps), "xay2");
    assert_eq!(render_path("#01", &caps), "a");
}

#[test]
fn what_is_no_placeholder_stays() {
    assert_eq!(render_path("a#b#", &vec!["x"]), "a#b#");
    assert_eq!(render_path("#0/#2/#1", &vec!["x"]), "#0/#2/x");
    assert_eq!(render_path("#99999999999999999999999999", &vec!["x"]), "#99999999999999999999999999");
    assert_eq!(render_path("##1", &vec!["x"]), "#x");
}

#[test]
fn reading_a_placeholder() {
    assert_eq!(read_placeholder("#12/", 0), (3, Some(12)));
    assert_eq!(read_placeholder("a#7", 1), (2, Some(7)));
    assert_eq!(read_placeholder("#x", 0), (1, Some(0)));
    assert_eq!(read_placeholder("#", 0), (1, Some(0)));
    assert_eq!(read_placeholder("#007", 0), (4, Some(7)));
    assert_eq!(read_placeholder("a12b", 0), (3, Some(12)));
    assert_eq!(read_placeholder("#99999999999999999999999999", 0), (27, None));
}

#[test]
fn the_directory_of_a_destination() {
    assert_eq!(pair("a", "x/y/z.txt").destination_directory(), Some("x/y".to_string()));
    assert_eq!(pair("a", "z.txt").destination_directory(), None);
    assert_eq!(pair("a", "/z.txt").destination_directory(), Some("".to_string()));
    assert_eq!(pair("a", "x/").destination_directory(), Some("x".to_string()));
}

#[test]
fn the_status_and_the_line_of_a_move() {
    assert_eq!(MoveStatus::after_move(true), MoveStatus::MovedOverwritten);
    assert_eq!(MoveStatus::after_move(false), MoveStatus::MovedNotOverwritten);
    let m = pair("a.txt", "b.txt");
    assert_eq!(m.report_line(MoveStatus::MovedNotOverwritten), "a.txt -> b.txt");
    assert_eq!(m.report_line(MoveStatus::MovedOverwritten), "a.txt -> b.txt - overwritten");
    assert!(m.same_as(&pair("a.txt", "b.txt")));
    assert!(!m.same_as(&pair("a.txt", "c.txt")));
}

#[test]
fn a_mask_too_large_for_the_engine_is_rejected() {
    let mask = "*".repeat(60000);
    assert_eq!(match_segment(&mask, "x"), Err(PatternError::Rejected));
    let tree = strings(&["x"]);
    assert_eq!(find_matches(&mask, "y", &tree), Err(PatternError::Rejected));
    assert_eq!(find_matches(&mask, "y", &strings(&["a/b"])), Ok(Vec::new()));
}

#[test]
fn a_listed_path_loses_its_leading_dot() {
    assert_eq!(relative_path("./texts/file_1.txt"), "texts/file_1.txt");
    assert_eq!(relative_path("./texts\\file_1.txt"), "texts/file_1.txt");
    assert_eq!(relative_path("texts/file_1.txt"), "texts/file_1.txt");
    assert_eq!(relative_path("./"), "");
    assert_eq!(relative_path("."), ".");
    assert_eq!(relative_path(""), "");
    assert_eq!(relative_path("././a"), "./a");
}
