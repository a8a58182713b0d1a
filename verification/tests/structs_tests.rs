use sortery::structs::{contains_file, join_text, parent_text, ConfigData, File};
use std::path::{Path, PathBuf};

#[test]
fn test_file() {
    // The variables used for testing
    let path = Path::new("my_file.txt");
    let joined_path = Path::new("my_file.txt/my_file.txt");
    let file = File::from_path(path);

    // Test the methods
    assert!(!file.exists_on_disk());
    assert_eq!(file.copy(), File { path: String::from("my_file.txt") });
    assert_eq!(File::from_path(path), File { path: String::from("my_file.txt") });
    assert_eq!(
        File::from_pathbuf(&path.to_path_buf()),
        File { path: String::from("my_file.txt") }
    );
    assert_eq!(file.extension(), String::from("txt"));
    assert_eq!(file.file_name(), String::from("my_file.txt"));
    assert_eq!(file.file_stem(), String::from("my_file"));
    assert_eq!(file.join(path), File { path: String::from("my_file.txt/my_file.txt") });
    assert_eq!(file.join(path), File::from_path(joined_path));
    assert_eq!(
        file.join_string(&String::from("my_file.txt")),
        File { path: String::from("my_file.txt/my_file.txt") }
    );
    assert_eq!(File::new("my_file.txt"), File { path: String::from("my_file.txt") });
    assert_eq!(file.to_path_buf(), path.to_path_buf());
    assert_eq!(file.to_string(), String::from("my_file.txt"));
}

fn sample_paths() -> Vec<&'static str> {
    vec![
        "",
        ".",
        "..",
        "/",
        "//",
        "./",
        ".//",
        "./.",
        "/.",
        "/..",
        "a",
        "a/",
        "a//",
        "a/.",
        "a/./",
        "a/..",
        "./a",
        "./a/b",
        "/a",
        "/a/b/",
        "a/b",
        "a//b",
        "a/./b",
        "a/b/.",
        "a/b/c.txt",
        "a//b/./c.txt",
        "/home/user/file.tar.gz",
        ".bashrc",
        "dir/.bashrc",
        ".a.b",
        "a.",
        "a.b.",
        "..a",
        "...",
        "a..b",
        "target/2021/02/2021 test.",
        "target/2021/02/2021 test_2.",
        "file.txt",
        "no_extension",
        ".hidden/file",
        "a/../b",
        "../a",
        "a/b/../..",
        "x/y.z/",
        "x/y.z/.",
        "päth/ünï.cödé",
        "././a",
        ".a/b",
        "..a/b",
    ]
}

fn or_empty(part: Option<String>) -> String {
    part.unwrap_or_default()
}

#[test]
fn names_agree_with_std_paths() {
    for text in sample_paths() {
        let file = File::new(text);
        let path = Path::new(text);
        assert_eq!(file.file_name(), or_empty(path.file_name().map(|p| p.to_string_lossy().into_owned())), "file name of {:?}", text);
        assert_eq!(file.file_stem(), or_empty(path.file_stem().map(|p| p.to_string_lossy().into_owned())), "stem of {:?}", text);
        assert_eq!(file.extension(), or_empty(path.extension().map(|p| p.to_string_lossy().into_owned())), "extension of {:?}", text);
    }
}

#[test]
fn parents_agree_with_std_paths() {
    for text in sample_paths() {
        let expected = Path::new(text).parent().map(|p| p.to_string_lossy().into_owned());
        assert_eq!(parent_text(text), expected, "parent of {:?}", text);
        let parent = File::new(text).parent().map(|p| p.to_string());
        assert_eq!(parent, expected, "parent of {:?}", text);
    }
}

#[test]
fn joins_agree_with_std_paths() {
    for base in sample_paths() {
        for rel in sample_paths() {
            let expected = Path::new(base).join(rel).to_string_lossy().into_owned();
            assert_eq!(join_text(base, rel), expected, "{:?} joined with {:?}", base, rel);
            let joined = File::new(base).join_string(&String::from(rel));
            assert_eq!(joined.to_string(), expected);
        }
    }
}

#[test]
fn equality_agrees_with_std_paths() {
    for a in sample_paths() {
        for b in sample_paths() {
            let expected = Path::new(a) == Path::new(b);
            assert_eq!(File::new(a) == File::new(b), expected, "{:?} against {:?}", a, b);
        }
    }
}

#[test]
fn new_file_names_agree_with_std_paths() {
    for text in sample_paths() {
        for name in ["new.txt", "x_2.", "_2.", "plain"] {
            let mut expected = PathBuf::from(text);
            expected.set_file_name(name);
            let renamed = File::new(text).with_file_name(name);
            assert_eq!(
                renamed.to_string(),
                expected.to_string_lossy().into_owned(),
                "{:?} renamed to {:?}",
                text,
                name
            );
        }
    }
}

#[test]
fn equal_files_ignore_how_the_path_is_written() {
    assert_eq!(File::new("a/b"), File::new("a//b"));
    assert_eq!(File::new("a/b"), File::new("a/./b/"));
    assert_eq!(File::new("src/target"), File::new("src/target/"));
    assert_ne!(File::new("a/b"), File::new("/a/b"));
    assert_ne!(File::new("a/b"), File::new("./a/b"));
    assert_ne!(File::new("a/b"), File::new("a/B"));
    assert_ne!(File::new("a/b"), File::new("a/b/c"));
    assert_ne!(File::new("a/b/.."), File::new("a"));
}

#[test]
fn extension_edge_cases() {
    assert_eq!(File::new("test").extension(), "");
    assert_eq!(File::new("test").file_stem(), "test");
    assert_eq!(File::new("2021 test.").extension(), "");
    assert_eq!(File::new("2021 test.").file_stem(), "2021 test");
    assert_eq!(File::new(".bashrc").extension(), "");
    assert_eq!(File::new(".bashrc").file_stem(), ".bashrc");
    assert_eq!(File::new("a.tar.gz").extension(), "gz");
    assert_eq!(File::new("a.tar.gz").file_stem(), "a.tar");
    assert_eq!(File::new("dir.d/").extension(), "d");
    assert_eq!(File::new("..").file_name(), "");
    assert_eq!(File::new("/").file_name(), "");
    assert_eq!(File::new("").file_name(), "");
}

#[test]
fn join_edge_cases() {
    assert_eq!(join_text("a", "b"), "a/b");
    assert_eq!(join_text("a/", "b"), "a/b");
    assert_eq!(join_text("", "b"), "b");
    assert_eq!(join_text("a", ""), "a/");
    assert_eq!(join_text("a", "/b"), "/b");
    assert_eq!(join_text("/", "b"), "/b");
}

#[test]
fn contains_file_finds_the_same_path() {
    let files = vec![File::new("a/b"), File::new("c")];
    assert!(contains_file(&files, &File::new("a//b/")));
    assert!(contains_file(&files, &File::new("c/.")));
    assert!(!contains_file(&files, &File::new("a")));
    assert!(!contains_file(&Vec::new(), &File::new("a")));
}

#[test]
fn config_filters_join_the_lists() {
    let data = ConfigData {
        date_format: String::from("%Y-%m-%d %Hh%Mm%Ss"),
        date_type: String::from("m"),
        exclude_type: vec![String::from("png")],
        only_type: vec![String::from("json"), String::from("py")],
        preserve_name: false,
    };
    assert_eq!(data.exclude_filter(), (String::from("png"), true));
    assert_eq!(data.only_filter(), (String::from("json-py"), true));
    let empty = ConfigData {
        date_format: String::new(),
        date_type: String::from("c"),
        exclude_type: Vec::new(),
        only_type: Vec::new(),
        preserve_name: true,
    };
    assert_eq!(empty.exclude_filter(), (String::new(), false));
    assert_eq!(empty.only_filter(), (String::new(), false));
}

#[test]
fn std_paths_hold_the_text_of_the_file() {
    for text in sample_paths() {
        let file = File::new(text);
        let buf = file.to_path_buf();
        assert_eq!(buf, PathBuf::from(text));
        assert_eq!(buf.to_string_lossy(), text);
        assert_eq!(File::from_pathbuf(&buf).to_string(), text);
        assert_eq!(File::from_path(buf.as_path()).to_string(), text);
        assert_eq!(File::from_path(Path::new(text)).to_string(), text);
        let joined = File::new("base").join(Path::new(text));
        assert_eq!(joined.to_string(), join_text("base", text));
    }
}
