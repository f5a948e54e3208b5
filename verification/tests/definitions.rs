use fantom::definitions::{definitions_dir, is_xml, require_folder, sort_by_name, DefFile, DefWalk, EntryStep};

fn some(s: &str) -> Option<String> {
    Some(s.to_string())
}

fn file(name: &str, xml: &str) -> DefFile {
    DefFile { name: name.to_string(), xml: xml.to_string() }
}

#[test]
fn the_given_folder_goes_before_the_set_one() {
    assert_eq!(definitions_dir(some(" /defs \n"), some("/env")), Ok("/defs".to_string()));
    assert_eq!(definitions_dir(some(" \t"), some(" /env ")), Ok(" /env ".to_string()));
    assert_eq!(definitions_dir(None, some("")), Ok(String::new()));
}

#[test]
fn some_folder_has_to_be_named() {
    let message = "no definitions directory: pass one or set NISDEFINITIONS_PATH".to_string();
    assert_eq!(definitions_dir(None, None), Err(message.clone()));
    assert_eq!(definitions_dir(some("  "), None), Err(message));
}

#[test]
fn the_folder_has_to_be_one() {
    assert_eq!(require_folder("/defs", true), Ok(()));
    assert_eq!(require_folder("/defs", false), Err("definitions directory not found: /defs".to_string()));
}

#[test]
fn definition_files_are_told_by_their_extension() {
    assert!(is_xml(some("xml")));
    assert!(is_xml(some("XmL")));
    assert!(!is_xml(some("xm")));
    assert!(!is_xml(some("")));
    assert!(!is_xml(None));
}

#[test]
fn a_walk_takes_the_last_folder_first() {
    let mut walk = DefWalk::new(1);
    assert_eq!(walk.next_folder(), Some(1));
    assert_eq!(walk.entry(2, true, None), EntryStep::Queued);
    assert_eq!(walk.entry(3, false, some("XML")), EntryStep::Read(3));
    assert_eq!(walk.entry(4, false, some("txt")), EntryStep::Skipped);
    assert_eq!(walk.entry(5, true, some("xml")), EntryStep::Queued);
    assert_eq!(walk.next_folder(), Some(5));
    assert_eq!(walk.next_folder(), Some(2));
    assert_eq!(walk.next_folder(), None);
    assert_eq!(walk.next_folder(), None);
}

#[test]
fn a_walk_hands_out_its_files_by_name() {
    let mut walk = DefWalk::new("root");
    walk.record(some("b.xml"), "1".to_string());
    walk.record(None, "2".to_string());
    walk.record(some("a.xml"), "3".to_string());
    walk.record(some("b.xml"), "4".to_string());
    assert_eq!(
        walk.finish(),
        vec![file("?", "2"), file("a.xml", "3"), file("b.xml", "1"), file("b.xml", "4")]
    );
}

#[test]
fn a_walk_finds_every_definition_file() {
    // Folder 0 holds folders 1 and 2 and two files; folder 1 holds folder 3.
    let folders: Vec<Vec<usize>> = vec![vec![1, 2], vec![3], vec![], vec![]];
    let files: Vec<Vec<&str>> = vec![vec!["z.xml", "n.txt"], vec!["m.XML"], vec![], vec!["a.xml", "z.xml"]];
    let mut walk = DefWalk::new((0usize, ""));
    while let Some((folder, _)) = walk.next_folder() {
        for &below in &folders[folder] {
            walk.entry((below, ""), true, None);
        }
        for &name in &files[folder] {
            let extension = name.split('.').last().map(|e| e.to_string());
            if let EntryStep::Read((at, read)) = walk.entry((folder, name), false, extension) {
                walk.record(some(read), format!("{}", at));
            }
        }
    }
    assert_eq!(
        walk.finish(),
        vec![file("a.xml", "3"), file("m.XML", "1"), file("z.xml", "0"), file("z.xml", "3")]
    );
}

#[test]
fn sorting_agrees_with_the_standard_library() {
    let names = ["b", "a", "", "B", "ab", "a", "\u{e9}", "z", "aa", "\u{1f600}", "\u{ffff}", "a", "Z"];
    let files: Vec<DefFile> = names.iter().enumerate().map(|(i, n)| file(n, &i.to_string())).collect();
    let mut expected = files.clone();
    expected.sort_by(|a, b| a.name.cmp(&b.name));
    assert_eq!(sort_by_name(files), expected);
    assert!(sort_by_name(Vec::new()).is_empty());
}
