use mofa_studio::recent_files::{RecentFile, RecentFilesManager};
use mofa_studio::transcript_parser::PlainTextParser;

fn entry(path: &str, name: &str) -> RecentFile {
    RecentFile {
        path: path.to_string(),
        name: name.to_string(),
        message_count: 1,
        speaker_count: 1,
        last_opened: 0,
    }
}

#[test]
fn entry_of_an_imported_transcript() {
    let t = PlainTextParser::new().parse("Alice: hi\nBob: hello\nAlice: bye").unwrap();
    let f = RecentFile::new("/tmp/scripts/episode.txt".to_string(), &t, 1700000000);
    assert_eq!(f.name, "episode.txt");
    assert_eq!(f.message_count, 3);
    assert_eq!(f.speaker_count, 2);
    assert_eq!(f.last_opened, 1700000000);
    assert_eq!(f.format_display(), "episode.txt • 3 msgs • 2 speakers");
    let root = RecentFile::new("/".to_string(), &t, 0);
    assert_eq!(root.name, "Unknown");
}

#[test]
fn most_recent_first_without_duplicates_and_at_most_five() {
    let mut m = RecentFilesManager::new();
    assert!(m.is_empty());
    for i in 0..7 {
        m.add(entry(&format!("/s/{}.txt", i), &format!("{}", i)));
    }
    assert_eq!(m.len(), 5);
    let names: Vec<&str> = m.get_all().iter().map(|f| f.name.as_str()).collect();
    assert_eq!(names, vec!["6", "5", "4", "3", "2"]);
    // re-adding a path moves it to the front and keeps one entry for it
    m.add(entry("/s/4.txt", "4 again"));
    let names: Vec<&str> = m.get_all().iter().map(|f| f.name.as_str()).collect();
    assert_eq!(names, vec!["4 again", "6", "5", "3", "2"]);
    // paths are compared as paths
    m.add(entry("/s//3.txt", "3 again"));
    let names: Vec<&str> = m.get_all().iter().map(|f| f.name.as_str()).collect();
    assert_eq!(names, vec!["3 again", "4 again", "6", "5", "2"]);
    m.clear();
    assert!(m.is_empty());
    assert_eq!(m.len(), 0);
}

#[test]
fn stored_lists_are_kept_as_stored() {
    let m = RecentFilesManager::from_files(vec![entry("/a", "a"), entry("/b", "b")]);
    assert_eq!(m.len(), 2);
    assert_eq!(m.get_all()[1].name, "b");
}
