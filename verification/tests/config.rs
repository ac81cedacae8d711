use newbbs::config::{data_dir, default_db_path, log_dir};

#[test]
fn files_live_under_the_data_directory() {
    assert_eq!(data_dir(Some("/data"), Some("/home/a")), "/data/newbbs");
    assert_eq!(data_dir(None, Some("/home/a")), "/home/a/.local/share/newbbs");
    assert_eq!(data_dir(Some(""), Some("/home/a/")), "/home/a/.local/share/newbbs");
    assert_eq!(data_dir(None, None), "./.local/share/newbbs");
    assert_eq!(default_db_path(Some("/data"), None), "/data/newbbs/newbbs.db");
    assert_eq!(log_dir(Some("/data"), None), "/data/newbbs/logs");
}
