use sortery::clock::{LocalStamp, FIRST_MOMENT, LAST_MOMENT};
use sortery::structs::{ConfigData, File};
use sortery::tools::sort::{
    destination_from_parts, get_datetime, get_new_date_path, get_sequential_name,
    get_sorting_results, get_sorting_results_from_config, is_sortable, is_type, resolve,
    stamp_of, SortError, SourceEntry, TimestampSelector,
};
use std::path::Path;

// Noon on the 15th of February 2021, UTC: in February on every clock.
const MID_FEBRUARY_2021: i64 = 1_613_390_400;

fn found(path: File, modified: i64) -> SourceEntry {
    SourceEntry { file: path, is_dir: false, created: None, modified: Some(modified), accessed: None }
}

fn directory(path: File) -> SourceEntry {
    SourceEntry { file: path, is_dir: true, created: Some(0), modified: Some(0), accessed: Some(0) }
}

#[test]
fn test_get_sequential_name() {
    let parent_dir = File::new("/home/user/sortery");
    let old_path = parent_dir.join(Path::new("testing/test.txt"));
    let existing_path = parent_dir.join(Path::new("testing/test_1.txt"));
    let new_path = parent_dir.join(Path::new("testing/test_2.txt"));
    let mut vec = Vec::new();
    vec.push(existing_path);

    assert_eq!(new_path, get_sequential_name(&old_path, &vec));
}

#[test]
fn test_get_sorting_results() {
    // The parameters for testing
    let source = File::new("/home/user/sortery");
    let source = source.join(Path::new("testing"));
    let target = source.join(Path::new("target"));
    let date_format = "%Y";
    let date_type = "m";
    let preserve_name = true;
    let exclude_type = ("txt", true);
    let only_type = ("", false);

    // What a walk through the source finds
    let entries = vec![
        directory(source.copy()),
        found(source.join(Path::new("test.jpg")), MID_FEBRUARY_2021),
        found(source.join(Path::new("test")), MID_FEBRUARY_2021),
        directory(source.join(Path::new("files"))),
        found(source.join(Path::new("files/test")), MID_FEBRUARY_2021),
        found(source.join(Path::new("files/notes.txt")), MID_FEBRUARY_2021),
        found(source.join(Path::new("test.png")), MID_FEBRUARY_2021),
        directory(target.copy()),
    ];

    // Get the sorting results
    let results = get_sorting_results(
        &entries,
        &target,
        &date_format,
        &date_type,
        &preserve_name,
        exclude_type,
        only_type,
    )
    .unwrap();
    let (old, new) = (&results.1, &results.2);

    // Print all the options in case of a test failure
    for i in 0..4 {
        println!("Old: {:?}, New: {:?}", old[i].copy(), new[i].copy());
    }

    // Check that the sorting results are correct
    assert_eq!((old[0].copy(), new[0].copy()), (source.join(Path::new("test.jpg")), source.join(Path::new("target/2021/02/2021 test.jpg"))));
    assert_eq!((old[1].copy(), new[1].copy()), (source.join(Path::new("test")), source.join(Path::new("target/2021/02/2021 test."))));
    assert_eq!((old[2].copy(), new[2].copy()), (source.join(Path::new("files/test")), source.join(Path::new("target/2021/02/2021 test_2."))));
    assert_eq!((old[3].copy(), new[3].copy()), (source.join(Path::new("test.png")), source.join(Path::new("target/2021/02/2021 test.png"))));
    assert_eq!(results.0, 4);
    assert_eq!(old.len(), 4);
    assert_eq!(new.len(), 4);
    assert_eq!(new[2].to_string(), "/home/user/sortery/testing/target/2021/02/2021 test_2.");
}

#[test]
fn test_is_sortable() {
    let path = File::new("file.txt");

    assert!(is_sortable(&path, &(&"", false), &(&"txt", true)));
    assert!(is_sortable(&path, &(&"txt", true), &(&"txt", true)));
    assert!(is_sortable(&path, &(&"", false), &(&"", false)));
    assert!(!is_sortable(&path, &(&"txt", true), &(&"", false)));
}

#[test]
fn test_is_type() {
    let path = File::new("file.txt");
    assert!(is_type(&path, &"txt"));
}

#[test]
fn is_type_splits_the_filter_on_dashes() {
    let path = File::new("photo.jpg");
    assert!(is_type(&path, "png-jpg"));
    assert!(is_type(&path, "jpg-png"));
    assert!(is_type(&path, "a-jpg-b"));
    assert!(!is_type(&path, "png-jpeg"));
    assert!(!is_type(&path, "jp-g"));
    assert!(!is_type(&path, ""));
    assert!(!is_type(&path, "JPG"));
    assert!(!is_type(&path, ".jpg"));
}

#[test]
fn empty_extension_matches_an_empty_filter_entry() {
    let path = File::new("Makefile");
    assert!(is_type(&path, ""));
    assert!(is_type(&path, "txt-"));
    assert!(is_type(&path, "-txt"));
    assert!(is_type(&path, "a--b"));
    assert!(!is_type(&path, "txt"));
}

#[test]
fn only_overrides_exclude() {
    for exclude in ["", "txt", "png-txt", "txt-txt"] {
        for enabled in [false, true] {
            assert!(is_sortable(&File::new("a.txt"), &(exclude, enabled), &("md-txt", true)));
            assert!(!is_sortable(&File::new("a.png"), &(exclude, enabled), &("md-txt", true)));
        }
    }
}

#[test]
fn without_filters_files_are_sortable() {
    for name in ["a.txt", "b.tar.gz", "dir/c.jpg", "/x/y.z"] {
        assert!(is_sortable(&File::new(name), &("", false), &("", false)));
    }
    // The empty filter lists the empty extension.
    assert!(!is_sortable(&File::new("Makefile"), &("", false), &("", false)));
    // The flag of the exclude filter is not consulted.
    assert!(!is_sortable(&File::new("a.txt"), &("txt", false), &("", false)));
}

#[test]
fn sequential_names_count_from_two() {
    let path = File::new("target/2021/02/2021 test.");
    assert_eq!(
        get_sequential_name(&path, &Vec::new()).to_string(),
        "target/2021/02/2021 test_2."
    );
    let taken = vec![
        File::new("target/2021/02/2021 test."),
        File::new("target/2021/02/2021 test_2."),
        File::new("target/2021//02/2021 test_3."),
        File::new("target/2021/02/2021 test_5."),
    ];
    assert_eq!(get_sequential_name(&path, &taken).to_string(), "target/2021/02/2021 test_4.");
    let photo = File::new("a/b.tar.gz");
    assert_eq!(get_sequential_name(&photo, &taken).to_string(), "a/b.tar_2.gz");
    let bare = File::new("name");
    assert_eq!(get_sequential_name(&bare, &taken).to_string(), "name_2.");
    let hidden = File::new("dir/.profile");
    assert_eq!(get_sequential_name(&hidden, &taken).to_string(), "dir/.profile_2.");
}

#[test]
fn sequential_names_of_paths_without_a_name() {
    assert_eq!(get_sequential_name(&File::new(".."), &Vec::new()).to_string(), "../_2.");
    assert_eq!(get_sequential_name(&File::new("/"), &Vec::new()).to_string(), "/_2.");
    assert_eq!(get_sequential_name(&File::new(""), &Vec::new()).to_string(), "_2.");
}

#[test]
fn sequential_names_pass_ten() {
    let path = File::new("d/x.jpg");
    let mut taken = vec![File::new("d/x.jpg")];
    for n in 2..12 {
        let next = get_sequential_name(&path, &taken);
        assert_eq!(next.to_string(), format!("d/x_{}.jpg", n));
        taken.push(next);
    }
}

#[test]
fn resolve_keeps_a_free_destination() {
    let taken = vec![File::new("d/x.jpg")];
    assert_eq!(resolve(File::new("d/y.jpg"), &taken).to_string(), "d/y.jpg");
    assert_eq!(resolve(File::new("d/x.jpg"), &taken).to_string(), "d/x_2.jpg");
    assert_eq!(resolve(File::new("d//x.jpg"), &taken).to_string(), "d/x_2.jpg");
    assert_eq!(resolve(File::new("d/x.jpg"), &Vec::new()).to_string(), "d/x.jpg");
}

#[test]
fn files_with_one_destination_get_distinct_names() {
    let target = File::new("target");
    let mut entries = Vec::new();
    for dir in ["a", "b", "c", "d", "e"] {
        entries.push(found(File::new(dir).join_string(&String::from("test.jpg")), MID_FEBRUARY_2021));
    }
    let (total, old, new) =
        get_sorting_results(&entries, &target, "%Y", "m", &false, ("", false), ("", false)).unwrap();
    assert_eq!(total, 5);
    assert_eq!(old.len(), 5);
    let names: Vec<String> = new.iter().map(|f| f.to_string()).collect();
    assert_eq!(
        names,
        vec![
            "target/2021/02/2021.jpg",
            "target/2021/02/2021_2.jpg",
            "target/2021/02/2021_3.jpg",
            "target/2021/02/2021_4.jpg",
            "target/2021/02/2021_5.jpg",
        ]
    );
    for i in 0..new.len() {
        for j in 0..i {
            assert_ne!(new[i], new[j]);
        }
    }
}

#[test]
fn a_suffixed_name_can_be_taken_by_a_later_file() {
    // The third file is planned for a name that the second was moved to.
    let target = File::new("t");
    let entries = vec![
        found(File::new("a/x.jpg"), MID_FEBRUARY_2021),
        found(File::new("b/x.jpg"), MID_FEBRUARY_2021),
        found(File::new("c/x_2.jpg"), MID_FEBRUARY_2021),
    ];
    let (_, _, new) =
        get_sorting_results(&entries, &target, "n", "m", &true, ("", false), ("", false)).unwrap();
    let names: Vec<String> = new.iter().map(|f| f.to_string()).collect();
    assert_eq!(names, vec!["t/2021/02/n x.jpg", "t/2021/02/n x_2.jpg", "t/2021/02/n x_2_2.jpg"]);
}

#[test]
fn scenario_basic_sort() {
    // test.jpg changed on 2021-02-01 and test.png on 2021-02-10, at noon UTC.
    let entries = vec![
        found(File::new("source/test.jpg"), 1_612_180_800),
        found(File::new("source/test.png"), 1_612_958_400),
    ];
    let target = File::new("target");
    let (total, old, new) =
        get_sorting_results(&entries, &target, "%Y", "m", &false, ("png", true), ("", false))
            .unwrap();
    assert_eq!(total, 1);
    assert_eq!(old.len(), 1);
    assert_eq!(new.len(), 1);
    assert_eq!(old[0].to_string(), "source/test.jpg");
    assert_eq!(new[0].to_string(), "target/2021/02/2021.jpg");
}

#[test]
fn scenario_name_preservation_and_collision() {
    let entries = vec![
        found(File::new("source/test"), MID_FEBRUARY_2021),
        found(File::new("source/files/test"), MID_FEBRUARY_2021),
    ];
    let target = File::new("target");
    let (total, old, new) =
        get_sorting_results(&entries, &target, "%Y", "m", &true, ("", true), ("", false))
            .unwrap_or((0, Vec::new(), Vec::new()));
    // The files have no extension, which the empty exclude filter lists.
    assert_eq!(total, 0);
    assert!(old.is_empty() && new.is_empty());
    let (total, old, new) =
        get_sorting_results(&entries, &target, "%Y", "m", &true, ("txt", true), ("", false))
            .unwrap();
    assert_eq!(total, 2);
    assert_eq!(old[0].to_string(), "source/test");
    assert_eq!(new[0].to_string(), "target/2021/02/2021 test.");
    assert_eq!(old[1].to_string(), "source/files/test");
    assert_eq!(new[1].to_string(), "target/2021/02/2021 test_2.");
}

#[test]
fn the_count_is_the_number_of_pairs() {
    let all = vec![
        directory(File::new("s")),
        found(File::new("s/a.txt"), 0),
        found(File::new("s/b.png"), 86_400 * 400),
        found(File::new("s/c"), MID_FEBRUARY_2021),
        directory(File::new("s/d")),
        found(File::new("s/d/e.txt"), MID_FEBRUARY_2021),
    ];
    let target = File::new("t");
    for exclude in [("", false), ("txt", true), ("png-txt", true)] {
        for only in [("", false), ("txt", true), ("", true), ("jpg", true)] {
            let (total, old, new) =
                get_sorting_results(&all, &target, "%d", "m", &false, exclude, only).unwrap();
            assert_eq!(total, old.len());
            assert_eq!(total, new.len());
            let expected = all
                .iter()
                .filter(|e| !e.is_dir && is_sortable(&e.file, &exclude, &only))
                .count();
            assert_eq!(total, expected);
        }
    }
}

#[test]
fn an_empty_walk_gives_an_empty_plan() {
    let (total, old, new) = get_sorting_results(
        &Vec::new(),
        &File::new("t"),
        "%Y",
        "c",
        &false,
        ("", false),
        ("", false),
    )
    .unwrap();
    assert_eq!(total, 0);
    assert!(old.is_empty());
    assert!(new.is_empty());
    // Directories alone give an empty plan too, whatever the format.
    let dirs = vec![directory(File::new("s")), directory(File::new("s/d"))];
    let planned =
        get_sorting_results(&dirs, &File::new("t"), "%Q", "c", &false, ("", false), ("", false));
    assert_eq!(planned.unwrap().0, 0);
}

#[test]
fn a_missing_timestamp_fails_the_plan() {
    let entries = vec![found(File::new("s/a.txt"), MID_FEBRUARY_2021)];
    let target = File::new("t");
    for date_type in ["c", "a", "x", "", "mm"] {
        let planned =
            get_sorting_results(&entries, &target, "%Y", date_type, &false, ("", false), ("", false));
        assert_eq!(planned.err(), Some(SortError::MetadataUnavailable), "for {:?}", date_type);
    }
    // A file that is left out is not asked for its timestamp.
    let planned =
        get_sorting_results(&entries, &target, "%Y", "c", &false, ("txt", true), ("", false));
    assert_eq!(planned.unwrap().0, 0);
}

#[test]
fn a_moment_out_of_range_fails_the_plan() {
    let entries = vec![found(File::new("s/a.txt"), i64::MAX)];
    let planned = get_sorting_results(
        &entries,
        &File::new("t"),
        "%Y",
        "m",
        &false,
        ("", false),
        ("", false),
    );
    assert_eq!(planned.err(), Some(SortError::TimeOutOfRange));
    assert_eq!(stamp_of(7, None), Err(SortError::TimeOutOfRange));
    assert_eq!(stamp_of(7, Some(-3600)), Ok(LocalStamp { secs: 7, offset: -3600 }));
}

#[test]
fn a_rejected_format_fails_the_plan() {
    let entries = vec![found(File::new("s/a.txt"), MID_FEBRUARY_2021)];
    let planned = get_sorting_results(
        &entries,
        &File::new("t"),
        "%Q",
        "m",
        &false,
        ("", false),
        ("", false),
    );
    assert_eq!(planned.err(), Some(SortError::DateFormatFailed));
    let stamp = LocalStamp { secs: 0, offset: 0 };
    let path = get_new_date_path(&File::new("t"), &File::new("a.txt"), "%", &stamp, false);
    assert_eq!(path.err(), Some(SortError::DateFormatFailed));
    // An offset of a day or more is no offset of a clock.
    let late = LocalStamp { secs: 0, offset: 86_400 };
    let path = get_new_date_path(&File::new("t"), &File::new("a.txt"), "%Y", &late, false);
    assert_eq!(path.err(), Some(SortError::DateFormatFailed));
}

#[test]
fn the_selector_follows_the_code() {
    assert_eq!(TimestampSelector::from_code("m"), TimestampSelector::Modified);
    assert_eq!(TimestampSelector::from_code("a"), TimestampSelector::Accessed);
    assert_eq!(TimestampSelector::from_code("c"), TimestampSelector::Created);
    assert_eq!(TimestampSelector::from_code(""), TimestampSelector::Created);
    assert_eq!(TimestampSelector::from_code("ma"), TimestampSelector::Created);
    assert_eq!(TimestampSelector::from_code("M"), TimestampSelector::Created);
    let entry = SourceEntry {
        file: File::new("a"),
        is_dir: false,
        created: Some(1),
        modified: Some(2),
        accessed: None,
    };
    assert_eq!(entry.timestamp(TimestampSelector::Created), Some(1));
    assert_eq!(entry.timestamp(TimestampSelector::Modified), Some(2));
    assert_eq!(entry.timestamp(TimestampSelector::Accessed), None);
}

#[test]
fn the_local_clock_keeps_the_moment() {
    let entry = found(File::new("a"), MID_FEBRUARY_2021);
    let stamp = get_datetime(&entry, "m").unwrap();
    assert_eq!(stamp.secs, MID_FEBRUARY_2021);
    assert!(-86_400 < stamp.offset && stamp.offset < 86_400);
    assert_eq!(get_datetime(&entry, "c"), Err(SortError::MetadataUnavailable));
    assert_eq!(get_datetime(&entry, "a"), Err(SortError::MetadataUnavailable));
    let never = found(File::new("a"), i64::MIN);
    assert_eq!(get_datetime(&never, "m"), Err(SortError::TimeOutOfRange));
}

#[test]
fn destinations_are_written_on_the_given_clock() {
    let target = File::new("/srv/sorted");
    let file = File::new("in/photo.jpg");
    let format = "%Y-%m-%d %Hh%Mm%Ss";
    let utc = LocalStamp { secs: 0, offset: 0 };
    assert_eq!(
        get_new_date_path(&target, &file, format, &utc, false).unwrap().to_string(),
        "/srv/sorted/1970/01/1970-01-01 00h00m00s.jpg"
    );
    let east = LocalStamp { secs: 0, offset: 3_600 };
    assert_eq!(
        get_new_date_path(&target, &file, format, &east, true).unwrap().to_string(),
        "/srv/sorted/1970/01/1970-01-01 01h00m00s photo.jpg"
    );
    let west = LocalStamp { secs: 0, offset: -3_600 };
    assert_eq!(
        get_new_date_path(&target, &file, format, &west, false).unwrap().to_string(),
        "/srv/sorted/1969/12/1969-12-31 23h00m00s.jpg"
    );
    let later = LocalStamp { secs: MID_FEBRUARY_2021, offset: 0 };
    assert_eq!(
        get_new_date_path(&target, &file, format, &later, false).unwrap().to_string(),
        "/srv/sorted/2021/02/2021-02-15 12h00m00s.jpg"
    );
}

#[test]
fn destinations_are_the_same_on_every_call() {
    let target = File::new("t");
    let stamp = LocalStamp { secs: MID_FEBRUARY_2021, offset: 7_200 };
    let first = get_new_date_path(&target, &File::new("a/x.jpg"), "%c", &stamp, true).unwrap();
    let again = get_new_date_path(&target, &File::new("a/x.jpg"), "%c", &stamp, true).unwrap();
    let other = get_new_date_path(&target, &File::new("b//x.jpg"), "%c", &stamp, true).unwrap();
    assert_eq!(first.to_string(), again.to_string());
    assert_eq!(first.to_string(), other.to_string());
}

#[test]
fn destinations_from_written_parts() {
    let target = File::new("target");
    assert_eq!(
        destination_from_parts(&target, "2021/02/", "2021", &File::new("s/test.jpg"), false)
            .to_string(),
        "target/2021/02/2021.jpg"
    );
    assert_eq!(
        destination_from_parts(&target, "2021/02/", "2021", &File::new("s/test.jpg"), true)
            .to_string(),
        "target/2021/02/2021 test.jpg"
    );
    // The dot is written even where the extension is empty.
    assert_eq!(
        destination_from_parts(&target, "2021/02/", "2021", &File::new("s/test"), true).to_string(),
        "target/2021/02/2021 test."
    );
    assert_eq!(
        destination_from_parts(&target, "2021/02/", "", &File::new("s/test"), false).to_string(),
        "target/2021/02/."
    );
    // A written date with a separator makes more directories.
    assert_eq!(
        destination_from_parts(&target, "2021/02/", "15/noon", &File::new("a.b"), false)
            .to_string(),
        "target/2021/02/15/noon.b"
    );
    // A rooted name stands for itself.
    assert_eq!(
        destination_from_parts(&target, "2021/02/", "/x", &File::new("a.b"), false).to_string(),
        "/x.b"
    );
}

#[test]
fn a_config_record_gives_the_filters() {
    let data = ConfigData {
        date_format: String::from("%Y"),
        date_type: String::from("m"),
        exclude_type: vec![String::from("png")],
        only_type: vec![String::from("json"), String::from("py")],
        preserve_name: false,
    };
    let entries = vec![
        found(File::new("s/a.png"), MID_FEBRUARY_2021),
        found(File::new("s/b.json"), MID_FEBRUARY_2021),
        found(File::new("s/c.py"), MID_FEBRUARY_2021),
        found(File::new("s/d.txt"), MID_FEBRUARY_2021),
    ];
    let (total, old, new) =
        get_sorting_results_from_config(&data, &entries, &File::new("t")).unwrap();
    assert_eq!(total, 2);
    assert_eq!(old[0].to_string(), "s/b.json");
    assert_eq!(old[1].to_string(), "s/c.py");
    assert_eq!(new[0].to_string(), "t/2021/02/2021.json");
    assert_eq!(new[1].to_string(), "t/2021/02/2021.py");
    let open = ConfigData {
        date_format: String::from("%Y"),
        date_type: String::from("m"),
        exclude_type: vec![String::from("png")],
        only_type: Vec::new(),
        preserve_name: true,
    };
    let (total, old, _) =
        get_sorting_results_from_config(&open, &entries, &File::new("t")).unwrap();
    assert_eq!(total, 3);
    assert_eq!(old[0].to_string(), "s/b.json");
}

#[test]
fn the_clock_shows_the_years_that_chrono_holds() {
    let first = get_datetime(&found(File::new("a"), FIRST_MOMENT), "m").unwrap();
    assert_eq!(first.secs, FIRST_MOMENT);
    let last = get_datetime(&found(File::new("a"), LAST_MOMENT), "m").unwrap();
    assert_eq!(last.secs, LAST_MOMENT);
    assert_eq!(
        get_datetime(&found(File::new("a"), FIRST_MOMENT - 1), "m"),
        Err(SortError::TimeOutOfRange)
    );
    assert_eq!(
        get_datetime(&found(File::new("a"), LAST_MOMENT + 1), "m"),
        Err(SortError::TimeOutOfRange)
    );
    let utc = LocalStamp { secs: FIRST_MOMENT, offset: 0 };
    let path = get_new_date_path(&File::new("t"), &File::new("a.b"), "%Y-%m-%d", &utc, false);
    assert_eq!(path.unwrap().to_string(), "t/-262143/01/-262143-01-01.b");
    let utc = LocalStamp { secs: LAST_MOMENT, offset: 0 };
    let path = get_new_date_path(&File::new("t"), &File::new("a.b"), "%Y-%m-%d", &utc, false);
    assert_eq!(path.unwrap().to_string(), "t/+262142/12/+262142-12-31.b");
}

#[test]
fn the_first_file_that_fails_names_the_error() {
    let target = File::new("t");
    let good = || found(File::new("s/good.txt"), MID_FEBRUARY_2021);
    let never = || found(File::new("s/never.txt"), i64::MAX);
    let bare = || SourceEntry {
        file: File::new("s/bare.txt"),
        is_dir: false,
        created: None,
        modified: None,
        accessed: None,
    };
    let plan = |entries: Vec<SourceEntry>, format: &str| {
        get_sorting_results(&entries, &target, format, "m", &false, ("", false), ("", false))
            .map(|r| r.0)
    };
    assert_eq!(plan(vec![good(), bare(), never()], "%Y"), Err(SortError::MetadataUnavailable));
    assert_eq!(plan(vec![good(), never(), bare()], "%Y"), Err(SortError::TimeOutOfRange));
    assert_eq!(plan(vec![bare(), never()], "%Y"), Err(SortError::MetadataUnavailable));
    assert_eq!(plan(vec![never(), bare()], "%Y"), Err(SortError::TimeOutOfRange));
    assert_eq!(plan(vec![good(), bare(), never()], "%Q"), Err(SortError::DateFormatFailed));
    assert_eq!(plan(vec![bare(), good()], "%Q"), Err(SortError::MetadataUnavailable));
    assert_eq!(plan(vec![never(), good()], "%Q"), Err(SortError::TimeOutOfRange));
    assert_eq!(plan(vec![good(), good()], "%Y"), Ok(2));
    // A directory and a file that is left out are not looked at.
    let skipped = vec![directory(File::new("s")), found(File::new("s/none"), i64::MAX), good()];
    assert_eq!(plan(skipped, "%Y"), Ok(1));
}
