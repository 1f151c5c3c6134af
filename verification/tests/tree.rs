use advent::fstree::{FileSystem, NavError, NodeData};
use advent::transcript::{Input, parse_line};
use advent::cleanup::{sum_sizes_at_most, smallest_sufficient_size};

fn to_lines(raw: &[&str]) -> Vec<String> {
    raw.iter().map(|s| s.to_string()).collect()
}

fn canonical_transcript() -> Vec<String> {
    to_lines(&[
        "$ cd /",
        "$ ls",
        "dir a",
        "14848514 b.txt",
        "8504156 c.dat",
        "dir d",
        "$ cd a",
        "$ ls",
        "dir e",
        "29116 f",
        "2557 g",
        "62596 h.lst",
        "$ cd e",
        "$ ls",
        "584 i",
        "$ cd ..",
        "$ cd ..",
        "$ cd d",
        "$ ls",
        "4060174 j",
        "8033020 d.log",
        "5626152 d.ext",
        "7214296 k",
    ])
}

#[test]
fn main_parse_input_works() {
    let lines = to_lines(&[
        "$ cd /",
        "$ ls",
        "dir abc",
        "123 dd",
        "$ cd abc",
        "$ ls",
        "dir bb",
        "123123 as",
    ]);

    let fs = FileSystem::build(&lines).unwrap();

    assert_eq!(fs.nodes[0].children.len(), 2);

    let subfolder = fs.get_subfolder(0, "abc").unwrap();

    assert_eq!(fs.nodes[subfolder].children.len(), 2);
}

#[test]
fn input_from_str_works() {
    match parse_line("$ cd a").unwrap() {
        Input::ChangeDirCmd { target } => assert_eq!(target, "a"),
        _ => panic!("nonono"),
    }

    match parse_line("$ ls").unwrap() {
        Input::ListCmd => {},
        _ => panic!(),
    }

    match parse_line("dir asfas").unwrap() {
        Input::DirectoryEntry { name } => assert_eq!(name, "asfas"),
        _ => panic!(),
    }

    match parse_line("3243 sfasf.dat").unwrap() {
        Input::FileEntry { name, size } => {
            assert_eq!(name, "sfasf.dat");
            assert_eq!(size, 3243);
        },
        _ => panic!(),
    }
}

#[test]
fn cd_target_is_the_last_space_separated_token() {
    match parse_line("$ cd /").unwrap() {
        Input::ChangeDirCmd { target } => assert_eq!(target, "/"),
        _ => panic!(),
    }
    match parse_line("$ cd").unwrap() {
        Input::ChangeDirCmd { target } => assert_eq!(target, "cd"),
        _ => panic!(),
    }
}

#[test]
fn dir_name_is_the_remainder_of_the_line() {
    match parse_line("dir a b").unwrap() {
        Input::DirectoryEntry { name } => assert_eq!(name, "a b"),
        _ => panic!(),
    }
}

#[test]
fn file_name_is_the_second_token() {
    match parse_line("12 name extra").unwrap() {
        Input::FileEntry { name, size } => {
            assert_eq!(name, "name");
            assert_eq!(size, 12);
        },
        _ => panic!(),
    }
}

#[test]
fn malformed_lines_are_rejected() {
    assert!(parse_line("").is_err());
    assert!(parse_line("nonsense here").is_err());
    assert!(parse_line("3243").is_err());
    assert!(parse_line("$ lsx").is_err());
}

#[test]
fn malformed_lines_are_skipped_during_build() {
    let lines = to_lines(&["$ cd /", "gibberish", "$ ls", "12 ok.txt"]);
    let fs = FileSystem::build(&lines).unwrap();
    assert_eq!(fs.nodes[0].children.len(), 1);
}

#[test]
fn canonical_example_sizes() {
    let lines = canonical_transcript();
    let fs = FileSystem::build(&lines).unwrap();
    let sizes = fs.get_dir_sizes();

    assert_eq!(*sizes.last().unwrap(), 48381165);
    assert!(sizes.contains(&94853));
    assert!(sizes.contains(&24933642));
    assert!(sizes.contains(&584));
    assert_eq!(sizes.len(), 4);

    assert_eq!(sum_sizes_at_most(&sizes, 100000), 95437);
    assert_eq!(smallest_sufficient_size(&sizes), Some(24933642));
}

#[test]
fn cd_up_at_root_fails_fatally() {
    let lines = to_lines(&["$ cd .."]);
    let err = FileSystem::build(&lines).unwrap_err();
    assert_eq!(err.kind, NavError::NoParent);
    assert_eq!(err.line, 0);

    let lines = to_lines(&["$ cd /", "$ cd .."]);
    let err = FileSystem::build(&lines).unwrap_err();
    assert_eq!(err.kind, NavError::NoParent);
    assert_eq!(err.line, 1);
}

#[test]
fn cd_to_missing_child_fails_fatally() {
    let lines = to_lines(&["$ cd /", "$ ls", "dir a", "$ cd b"]);
    let err = FileSystem::build(&lines).unwrap_err();
    assert_eq!(err.kind, NavError::MissingChild);
    assert_eq!(err.line, 3);
}

#[test]
fn duplicate_sibling_names_resolve_to_first_created() {
    let lines = to_lines(&["$ cd /", "$ ls", "dir a", "dir a", "$ cd a", "$ ls", "5 f"]);
    let fs = FileSystem::build(&lines).unwrap();

    let first = fs.get_subfolder(0, "a").unwrap();
    assert_eq!(first, 1);
    assert_eq!(fs.nodes[1].children.len(), 1);
    assert_eq!(fs.nodes[2].children.len(), 0);
}

#[test]
fn parent_lookup_walks_back_up() {
    let lines = to_lines(&["$ cd /", "$ ls", "dir a", "$ cd a", "$ ls", "7 f"]);
    let fs = FileSystem::build(&lines).unwrap();

    let a = fs.get_subfolder(0, "a").unwrap();
    assert_eq!(fs.get_parentfolder(a), Some(0));
    assert_eq!(fs.get_parentfolder(0), None);
}

#[test]
fn files_are_not_found_as_subfolders() {
    let lines = to_lines(&["$ cd /", "$ ls", "9 a"]);
    let fs = FileSystem::build(&lines).unwrap();
    assert_eq!(fs.get_subfolder(0, "a"), None);
    match &fs.nodes[1].data {
        NodeData::File { name, size } => {
            assert_eq!(name, "a");
            assert_eq!(*size, 9);
        },
        _ => panic!(),
    }
}

#[test]
fn render_shows_the_tree_indented() {
    let lines = to_lines(&["$ cd /", "$ ls", "dir a", "14 b.txt", "$ cd a", "$ ls", "3 c"]);
    let fs = FileSystem::build(&lines).unwrap();
    let text = fs.render();
    assert_eq!(text, "/\n\ta (dir)\n\t\tc (3)\n\tb.txt (14)\n");
}

#[test]
fn render_twice_yields_identical_text() {
    let lines = canonical_transcript();
    let fs = FileSystem::build(&lines).unwrap();
    let first = fs.render();
    let second = fs.render();
    assert_eq!(first, second);
}

#[test]
fn smallest_sufficient_size_fails_without_candidates() {
    assert_eq!(smallest_sufficient_size(&vec![]), None);
    assert_eq!(smallest_sufficient_size(&vec![80000000]), None);
    assert_eq!(smallest_sufficient_size(&vec![30000000]), None);
}

#[test]
fn sum_sizes_honours_the_limit_boundary() {
    assert_eq!(sum_sizes_at_most(&vec![100000, 100001, 3], 100000), 100003);
    assert_eq!(sum_sizes_at_most(&vec![], 100000), 0);
}
