use live_expectancy::paths::{default_file_path, get_tmp_file_path};
use std::path::{Path, PathBuf};

#[test]
fn cache_file_lies_below_the_home_directory() {
    let path = get_tmp_file_path(Some(PathBuf::from("/home/ada")));
    assert_eq!(path, PathBuf::from("/home/ada/.config/live_progress/.tmp_expectancy.json"));
    assert_eq!(path.parent(), Some(Path::new("/home/ada/.config/live_progress")));
    assert_eq!(path.file_name().unwrap(), ".tmp_expectancy.json");
}

#[test]
fn cache_file_without_home_lies_below_the_current_directory() {
    let path = get_tmp_file_path(None);
    assert_eq!(path, PathBuf::from("./.config/live_progress/.tmp_expectancy.json"));
    assert!(path.is_relative());
}

#[test]
fn default_data_file_lies_in_the_working_directory() {
    let path = default_file_path(&PathBuf::from("/srv/app"));
    assert_eq!(path, PathBuf::from("/srv/app/default_expectancy.json"));
}
