use sortery::messages::{
    dry_run_line, dry_run_lines, missing_path_line, move_failed_line, moved_summary_line,
    sorted_summary_line, DryRunMessage, PathDoesNotExistError, PathMoveFailedError,
};
use sortery::structs::File;
use sortery::text::decimal_string;

#[test]
fn messages_without_colour() {
    colored::control::set_override(false);
    let message = DryRunMessage { from_file: File::new("s/a.jpg"), to_file: File::new("t/b.jpg") };
    assert_eq!(message.to_string(), "Sorting s/a.jpg to t/b.jpg.");
    let missing = File::new("no/such");
    assert_eq!(
        PathDoesNotExistError { path: &missing }.to_string(),
        "Error: no such file or directory \"no/such\". Try sortery --help for more info."
    );
    let from = File::new("s/a.jpg");
    let to = File::new("t/b.jpg");
    assert_eq!(
        PathMoveFailedError { source: &from, target: &to }.to_string(),
        "Error: failed to move s/a.jpg to t/b.jpg."
    );
}

#[test]
fn a_path_with_colour_sequences_is_shown_as_it_is() {
    colored::control::set_override(false);
    let message = DryRunMessage {
        from_file: File::new("a\u{1b}[0mb"),
        to_file: File::new("\u{1b}[31mc"),
    };
    assert_eq!(message.to_string(), "Sorting a\u{1b}[0mb to \u{1b}[31mc.");
}

#[test]
fn scenario_dry_run() {
    colored::control::set_override(false);
    let sources = vec![File::new("s/test"), File::new("s/files/test")];
    let destinations =
        vec![File::new("t/2021/02/2021 test."), File::new("t/2021/02/2021 test_2.")];
    let lines = dry_run_lines(&sources, &destinations);
    assert_eq!(
        lines,
        vec![
            "Sorting s/test to t/2021/02/2021 test..",
            "Sorting s/files/test to t/2021/02/2021 test_2..",
        ]
    );
    // The plan is as it was, and nothing was asked of the file system.
    assert_eq!(sources.len(), 2);
    assert_eq!(sources[1].to_string(), "s/files/test");
    assert_eq!(destinations[1].to_string(), "t/2021/02/2021 test_2.");
    assert!(dry_run_lines(&Vec::new(), &destinations).is_empty());
    assert_eq!(dry_run_lines(&sources, &destinations[..1].iter().map(|f| f.copy()).collect()).len(), 1);
}

#[test]
fn sentences_from_shown_parts() {
    assert_eq!(dry_run_line("a", "b"), "Sorting a to b.");
    assert_eq!(dry_run_line("", ""), "Sorting  to .");
    assert_eq!(
        missing_path_line("E", "p"),
        "E no such file or directory \"p\". Try sortery --help for more info."
    );
    assert_eq!(move_failed_line("E", "a", "b"), "E failed to move a to b.");
}

#[test]
fn summaries_count_in_decimal() {
    let target = File::new("target/dir");
    assert_eq!(
        sorted_summary_line(4, &target),
        "Successfully sorted 4 items by date into target/dir."
    );
    assert_eq!(sorted_summary_line(0, &target), "Successfully sorted 0 items by date into target/dir.");
    assert_eq!(moved_summary_line(2, &target), "Successfully moved 2 items to target/dir.");
    assert_eq!(moved_summary_line(1234567890, &target), "Successfully moved 1234567890 items to target/dir.");
}

#[test]
fn decimal_numerals() {
    assert_eq!(decimal_string(0), "0");
    assert_eq!(decimal_string(7), "7");
    assert_eq!(decimal_string(10), "10");
    assert_eq!(decimal_string(109), "109");
    assert_eq!(decimal_string(u128::MAX), u128::MAX.to_string());
    for n in 0..2000u128 {
        assert_eq!(decimal_string(n), n.to_string());
    }
}
