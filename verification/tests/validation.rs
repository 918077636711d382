use mmv2000::engine::{Action, Event, Run, Stage};
use mmv2000::error::{PatternError, RunError};
use mmv2000::input_validation::{normalize_mask_slashes, scan_wildcards, validate_patterns};
use mmv2000::Cli;

fn cli(old: &str, new: &str, force: bool) -> Cli {
    Cli { old_file_mask: old.to_string(), new_file_mask: new.to_string(), force }
}

fn tree() -> Vec<String> {
    vec![
        "file_1.txt".to_string(),
        "pics/file_1.png".to_string(),
        "texts/file_1.txt".to_string(),
        "texts/file_2.txt".to_string(),
    ]
}

#[test]
fn test_2_asterisks() {
    let mut asterisks_path = "path/file_**.txt".to_string();
    let mut usual_path = "path/file_#1.txt".to_string();
    assert_eq!(
        validate_patterns(&mut asterisks_path, &mut usual_path),
        Err(PatternError::ConsecutiveWildcards)
    );
}

#[test]
fn test_zero_group_id() {
    let mut mask_from = "path/file_*.txt";
    let mut mask_to = "path/file_#0.txt";
    assert_eq!(validate_patterns(&mut mask_from, &mut mask_to), Err(PatternError::IndexTooLow));
}

#[test]
fn test_normalize_mask_slashes() {
    let mut backslash_path = "path\\to\\file".to_string();
    normalize_mask_slashes(&mut backslash_path);
    assert_eq!(backslash_path, "path/to/file");

    let mut multiple_slash_path = "path/to//file\\\\but//////////longer".to_string();
    normalize_mask_slashes(&mut multiple_slash_path);
    assert_eq!(multiple_slash_path, "path/to/file/but/longer");

    let mut backslash_path = "path\\to\\file".to_string();
    normalize_mask_slashes(&mut backslash_path);
    assert_eq!(backslash_path, "path/to/file");
}

#[test]
fn normalising_the_edges() {
    let mut empty = String::new();
    normalize_mask_slashes(&mut empty);
    assert_eq!(empty, "");
    let mut mixed = "\\/a/\\".to_string();
    normalize_mask_slashes(&mut mixed);
    assert_eq!(mixed, "/a/");
    let mut plain = "a*b#1".to_string();
    normalize_mask_slashes(&mut plain);
    assert_eq!(plain, "a*b#1");
}

#[test]
fn indices_from_one_to_the_number_of_wildcards_pass() {
    assert_eq!(validate_patterns("*/*_*.txt", "#3/#1/#2"), Ok(()));
    assert_eq!(validate_patterns("*/*", "plain"), Ok(()));
    assert_eq!(validate_patterns("plain", "plain"), Ok(()));
    assert_eq!(validate_patterns("*", "#1#1#"), Ok(()));
    assert_eq!(validate_patterns("*", "#01"), Ok(()));
    assert_eq!(validate_patterns("*/*/*/*/*/*/*/*/*/*/*/*", "#12"), Ok(()));
}

#[test]
fn an_index_above_the_number_of_wildcards_fails() {
    assert_eq!(validate_patterns("*/*", "#3"), Err(PatternError::IndexTooHigh));
    assert_eq!(validate_patterns("plain", "#1"), Err(PatternError::IndexTooHigh));
    assert_eq!(validate_patterns("*", "#12"), Err(PatternError::IndexTooHigh));
    assert_eq!(
        validate_patterns("*", "#99999999999999999999999999"),
        Err(PatternError::IndexTooHigh)
    );
}

#[test]
fn the_first_fault_is_reported() {
    assert_eq!(validate_patterns("*", "#1/#0/#5"), Err(PatternError::IndexTooLow));
    assert_eq!(validate_patterns("*", "#5/#0"), Err(PatternError::IndexTooHigh));
    assert_eq!(validate_patterns("a**", "#0"), Err(PatternError::ConsecutiveWildcards));
    assert_eq!(validate_patterns("**", ""), Err(PatternError::ConsecutiveWildcards));
    assert_eq!(validate_patterns("a*/*b", "#000"), Err(PatternError::IndexTooLow));
}

#[test]
fn counting_wildcards() {
    assert_eq!(scan_wildcards(""), (0, false));
    assert_eq!(scan_wildcards("*/*_*"), (3, false));
    assert_eq!(scan_wildcards("*a*"), (2, false));
    assert_eq!(scan_wildcards("a**b"), (2, true));
    assert_eq!(scan_wildcards("***"), (3, true));
}

#[test]
fn a_run_without_a_match_fails_before_any_move() {
    let mut run = Run::new(cli("file_2.*", "file_2_new.#1", false));
    assert_eq!(run.stage, Stage::Start);
    assert_eq!(run.step(Event::Begin), Action::List);
    assert_eq!(run.step(Event::Listed(tree())), Action::Fail(RunError::NoMatch));
    assert_eq!(run.stage, Stage::Finished);
    assert_eq!(run.moved, 0);
}

#[test]
fn a_taken_destination_stops_the_run_before_any_move() {
    let mut run = Run::new(cli("texts/*", "moved/#1", false));
    assert_eq!(run.step(Event::Begin), Action::List);
    assert_eq!(run.step(Event::Listed(tree())), Action::Probe(0));
    assert_eq!(run.step(Event::Probed(false)), Action::Probe(1));
    assert_eq!(
        run.step(Event::Probed(true)),
        Action::Fail(RunError::DestinationExists("moved/file_2.txt".to_string()))
    );
    assert_eq!(run.stage, Stage::Finished);
    assert_eq!(run.moved, 0);
}

#[test]
fn a_forced_run_moves_without_looking() {
    let mut run = Run::new(cli("texts\\\\*", "#1", true));
    assert_eq!(run.old_file_mask, "texts/*");
    assert_eq!(run.step(Event::Begin), Action::List);
    assert_eq!(run.step(Event::Listed(tree())), Action::Move(0));
    assert_eq!(run.matches.len(), 2);
    assert_eq!(run.matches[0].old_file_path, "texts/file_1.txt");
    assert_eq!(run.matches[0].new_file_path, "file_1.txt");
    assert_eq!(run.step(Event::Moved(true)), Action::Move(1));
    assert_eq!(run.step(Event::Moved(true)), Action::Report(2));
    assert_eq!(run.stage, Stage::Finished);
}

#[test]
fn a_failed_move_does_not_stop_the_run() {
    let mut run = Run::new(cli("*/file_*.*", "#1_#2.#3", false));
    assert_eq!(run.step(Event::Begin), Action::List);
    assert_eq!(run.step(Event::Listed(tree())), Action::Probe(0));
    assert_eq!(run.step(Event::Probed(false)), Action::Probe(1));
    assert_eq!(run.step(Event::Probed(false)), Action::Probe(2));
    assert_eq!(run.step(Event::Probed(false)), Action::Move(0));
    assert_eq!(run.step(Event::Moved(false)), Action::Move(1));
    assert_eq!(run.step(Event::Moved(true)), Action::Move(2));
    assert_eq!(run.step(Event::Moved(true)), Action::Report(2));
    assert_eq!(run.matches[0].new_file_path, "pics_1.png");
    assert_eq!(run.matches[2].new_file_path, "texts_2.txt");
}

#[test]
fn bad_masks_stop_the_run_at_once() {
    let mut run = Run::new(cli("a/**", "#1", true));
    assert_eq!(
        run.step(Event::Begin),
        Action::Fail(RunError::InvalidPattern(PatternError::ConsecutiveWildcards))
    );
    assert_eq!(run.stage, Stage::Finished);
    let mut run = Run::new(cli("a/*", "#2", true));
    assert_eq!(
        run.step(Event::Begin),
        Action::Fail(RunError::InvalidPattern(PatternError::IndexTooHigh))
    );
}

#[test]
fn a_run_knows_which_event_it_waits_for() {
    let mut run = Run::new(cli("*", "#1", false));
    assert!(run.is_well_formed());
    assert!(run.expects(&Event::Begin));
    assert!(!run.expects(&Event::Probed(true)));
    run.step(Event::Begin);
    assert!(run.expects(&Event::Listed(Vec::new())));
    assert!(!run.expects(&Event::Begin));
    run.step(Event::Listed(vec!["a".to_string()]));
    assert!(run.expects(&Event::Probed(false)));
    assert!(!run.expects(&Event::Moved(true)));
    run.step(Event::Probed(false));
    assert!(run.expects(&Event::Moved(true)));
    run.step(Event::Moved(true));
    assert!(!run.expects(&Event::Moved(true)));
    assert!(run.is_well_formed());
}
