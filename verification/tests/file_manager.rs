use vinx::translator::file_manager::{FileDependency, FileLoadState, FileManager};

#[test]
fn test_start_finish() {
    let mut fm = FileManager::new();
    fm._start("file1".into());
    assert_eq!(fm.filenames()[0], "file1".to_string());
    assert_eq!(fm.load_states()[0], FileLoadState::Loading);
    fm._start("file2".into());
    assert_eq!(fm.filenames()[0], "file1".to_string());
    assert_eq!(fm.load_states()[0], FileLoadState::Loading);
    assert_eq!(fm.filenames()[1], "file2".to_string());
    assert_eq!(fm.load_states()[1], FileLoadState::Loading);
    fm.finish_file();
    assert_eq!(fm.filenames()[0], "file1".to_string());
    assert_eq!(fm.load_states()[0], FileLoadState::Loading);
    assert_eq!(fm.filenames()[1], "file2".to_string());
    assert_eq!(fm.load_states()[1], FileLoadState::Finished);
    fm.finish_file();
    assert_eq!(fm.filenames()[0], "file1".to_string());
    assert_eq!(fm.load_states()[0], FileLoadState::Finished);
    assert_eq!(fm.filenames()[1], "file2".to_string());
    assert_eq!(fm.load_states()[1], FileLoadState::Finished);
}

#[test]
fn test_current_file_index() {
    let mut fm = FileManager::new();
    assert_eq!(fm.current_file_index(), None);
    fm._start("file1".into());
    assert_eq!(fm.current_file_index(), Some(0));
    fm._start("file2".into());
    assert_eq!(fm.current_file_index(), Some(1));
    fm.finish_file();
    assert_eq!(fm.current_file_index(), Some(0));
    fm.finish_file();
    assert_eq!(fm.current_file_index(), None);
}

#[test]
fn test_current_file_name() {
    let mut fm = FileManager::new();
    assert_eq!(fm.current_file(), None);
    fm._start("file1".into());
    assert_eq!(fm.current_file(), Some("file1"));
    fm._start("file2".into());
    assert_eq!(fm.current_file(), Some("file2"));
    fm.finish_file();
    assert_eq!(fm.current_file(), Some("file1"));
    fm.finish_file();
    assert_eq!(fm.current_file(), None);
}

#[test]
fn start_tells_how_a_file_depends_on_the_others() {
    let mut fm = FileManager::new();
    assert_eq!(fm.start("file1.vinx".to_string(), "one".to_string()), FileDependency::Acyclic);
    assert_eq!(fm.current_file_contents(), Some("one"));
    assert_eq!(fm.start("file2.vinx".to_string(), "two".to_string()), FileDependency::Acyclic);
    assert_eq!(fm.current_file_contents(), Some("two"));
    fm.finish_file();
    assert_eq!(fm.current_file_contents(), Some("one"));
    // file2 was loaded, file1 is being loaded
    let again = fm.start("file2.vinx".to_string(), "one".to_string());
    assert_eq!(again, FileDependency::Redundant);
    assert!(!again.is_recursive());
    let cycle = fm.start("file1.vinx".to_string(), "one".to_string());
    assert_eq!(cycle, FileDependency::Recursive);
    assert!(cycle.is_recursive());
    assert_eq!(fm.filenames().len(), 2);
    assert_eq!(fm.current_file(), Some("file1.vinx"));
    assert_eq!(fm.get_current_path(), Some(&"file1.vinx".to_string()));
    fm.finish_file();
    assert_eq!(fm.current_file_contents(), None);
    assert_eq!(fm.get_current_path(), None);
}

#[test]
fn load_file_contents_replaces_the_contents_of_the_current_file() {
    let mut fm = FileManager::new();
    fm._start("a".to_string());
    assert_eq!(fm.current_file_contents(), Some(""));
    fm.load_file_contents("text".to_string());
    assert_eq!(fm.current_file_contents(), Some("text"));
}
