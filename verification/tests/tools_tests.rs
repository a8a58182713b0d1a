use sortery::executor::{Action, Execution, ExecutionReport, ItemState};
use sortery::structs::File;
use sortery::tools::get_extract_results;

#[test]
fn scenario_extract() {
    let source = File::new("source");
    let target = File::new("source/target");
    let entries = vec![File::new("source/a.txt"), File::new("source/b.txt"), File::new("source/target")];
    let (total, old, new) = get_extract_results(&entries, &source, &target);
    assert_eq!(total, 2);
    assert_eq!(old.len(), 2);
    assert_eq!(new.len(), 2);
    assert_eq!(old[0].to_string(), "source/a.txt");
    assert_eq!(new[0].to_string(), "source/target/a.txt");
    assert_eq!(old[1].to_string(), "source/b.txt");
    assert_eq!(new[1].to_string(), "source/target/b.txt");
}

#[test]
fn extract_skips_source_and_target_however_written() {
    let source = File::new("src/");
    let target = File::new("./dst/");
    let entries = vec![
        File::new("src"),
        File::new("src/one"),
        File::new("./dst"),
        File::new("src/sub/"),
        File::new("src/./"),
        File::new("dst"),
    ];
    let (total, old, new) = get_extract_results(&entries, &source, &target);
    assert_eq!(total, 3);
    let moved: Vec<String> = old.iter().map(|f| f.to_string()).collect();
    assert_eq!(moved, vec!["src/one", "src/sub/", "dst"]);
    let to: Vec<String> = new.iter().map(|f| f.to_string()).collect();
    assert_eq!(to, vec!["./dst/one", "./dst/sub", "./dst/dst"]);
}

#[test]
fn extract_of_nothing() {
    let (total, old, new) = get_extract_results(&Vec::new(), &File::new("s"), &File::new("t"));
    assert_eq!(total, 0);
    assert!(old.is_empty() && new.is_empty());
}

fn plan() -> (Vec<File>, Vec<File>) {
    (
        vec![File::new("s/a.jpg"), File::new("s/b.jpg")],
        vec![File::new("t/2021/02/a.jpg"), File::new("t/2021/03/b.jpg")],
    )
}

#[test]
fn a_run_ensures_the_directory_then_moves() {
    let (sources, destinations) = plan();
    let mut run = Execution::start(&destinations, true);
    assert_eq!(run, Execution { index: 0, state: ItemState::Pending, ensure_dirs: true });
    match run.next_action(&sources, &destinations) {
        Action::EnsureDir(dir) => assert_eq!(dir.to_string(), "t/2021/02"),
        other => panic!("unexpected {:?}", other),
    }
    run = run.step(true, &destinations);
    assert_eq!(run, Execution { index: 0, state: ItemState::DirEnsured, ensure_dirs: true });
    match run.next_action(&sources, &destinations) {
        Action::Move(from, to) => {
            assert_eq!(from.to_string(), "s/a.jpg");
            assert_eq!(to.to_string(), "t/2021/02/a.jpg");
        }
        other => panic!("unexpected {:?}", other),
    }
    run = run.step(true, &destinations);
    assert_eq!(run, Execution { index: 1, state: ItemState::Pending, ensure_dirs: true });
    assert_eq!(run.report(2), ExecutionReport { completed: 1, total: 2, failed: false });
    match run.next_action(&sources, &destinations) {
        Action::EnsureDir(dir) => assert_eq!(dir.to_string(), "t/2021/03"),
        other => panic!("unexpected {:?}", other),
    }
    run = run.step(true, &destinations);
    match run.next_action(&sources, &destinations) {
        Action::Move(from, to) => {
            assert_eq!(from.to_string(), "s/b.jpg");
            assert_eq!(to.to_string(), "t/2021/03/b.jpg");
        }
        other => panic!("unexpected {:?}", other),
    }
    run = run.step(true, &destinations);
    assert_eq!(run, Execution { index: 2, state: ItemState::Moved, ensure_dirs: true });
    assert!(matches!(run.next_action(&sources, &destinations), Action::Finish(2)));
    assert_eq!(run.report(2), ExecutionReport { completed: 2, total: 2, failed: false });
    // A run that is through stays as it is.
    assert_eq!(run.step(true, &destinations), run);
    assert_eq!(run.step(false, &destinations), run);
}

#[test]
fn a_failed_move_ends_the_run() {
    let (sources, destinations) = plan();
    let mut run = Execution::start(&destinations, true);
    run = run.step(true, &destinations);
    run = run.step(true, &destinations);
    run = run.step(true, &destinations);
    assert_eq!(run, Execution { index: 1, state: ItemState::DirEnsured, ensure_dirs: true });
    run = run.step(false, &destinations);
    assert_eq!(run, Execution { index: 1, state: ItemState::Failed, ensure_dirs: true });
    assert!(matches!(run.next_action(&sources, &destinations), Action::Abort(1)));
    assert_eq!(run.report(2), ExecutionReport { completed: 1, total: 2, failed: true });
    assert_eq!(run.step(true, &destinations), run);
}

#[test]
fn a_failed_directory_ends_the_run() {
    let (sources, destinations) = plan();
    let run = Execution::start(&destinations, true).step(false, &destinations);
    assert_eq!(run, Execution { index: 0, state: ItemState::Failed, ensure_dirs: true });
    assert!(matches!(run.next_action(&sources, &destinations), Action::Abort(0)));
    assert_eq!(run.report(2), ExecutionReport { completed: 0, total: 2, failed: true });
}

#[test]
fn a_run_without_directories_only_moves() {
    let (sources, destinations) = plan();
    let mut run = Execution::start(&destinations, false);
    assert_eq!(run, Execution { index: 0, state: ItemState::DirEnsured, ensure_dirs: false });
    assert!(matches!(run.next_action(&sources, &destinations), Action::Move(_, _)));
    run = run.step(true, &destinations);
    assert_eq!(run, Execution { index: 1, state: ItemState::DirEnsured, ensure_dirs: false });
    run = run.step(true, &destinations);
    assert_eq!(run, Execution { index: 2, state: ItemState::Moved, ensure_dirs: false });
    assert!(matches!(run.next_action(&sources, &destinations), Action::Finish(2)));
}

#[test]
fn an_empty_plan_is_through_at_once() {
    let none: Vec<File> = Vec::new();
    let run = Execution::start(&none, true);
    assert_eq!(run, Execution { index: 0, state: ItemState::Moved, ensure_dirs: true });
    assert!(matches!(run.next_action(&none, &none), Action::Finish(0)));
    assert_eq!(run.report(0), ExecutionReport { completed: 0, total: 0, failed: false });
}

#[test]
fn a_destination_without_a_directory_fails() {
    let sources = vec![File::new("s/a")];
    let destinations = vec![File::new("/")];
    let run = Execution::start(&destinations, true);
    assert_eq!(run, Execution { index: 0, state: ItemState::Failed, ensure_dirs: true });
    assert!(matches!(run.next_action(&sources, &destinations), Action::Abort(0)));
    // A bare name lies in the empty directory.
    let bare = vec![File::new("name.txt")];
    let run = Execution::start(&bare, true);
    match run.next_action(&sources, &bare) {
        Action::EnsureDir(dir) => assert_eq!(dir.to_string(), ""),
        other => panic!("unexpected {:?}", other),
    }
}
