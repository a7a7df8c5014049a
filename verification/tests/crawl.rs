use dj_tool::backend::api::{flatten_rows, get_tracks, TrackError};
use dj_tool::backend::folder_crawler::{Crawler, FileEntry};
use dj_tool::backend::parse_path::FolderParser;

fn entries() -> Vec<FileEntry> {
    vec![
        FileEntry { path: "./music".to_string(), is_file: false },
        FileEntry { path: "./music/a.flac".to_string(), is_file: true },
        FileEntry { path: "./music/sub".to_string(), is_file: false },
        FileEntry { path: "./music/sub/b.tar.mp3".to_string(), is_file: true },
        FileEntry { path: "./music/README".to_string(), is_file: true },
    ]
}

#[test]
fn new_crawler_has_no_format() {
    let c = Crawler::new("music".to_string());
    assert_eq!(c.path, "music");
    assert_eq!(c.format, "");
}

#[test]
fn walk_root_is_relative() {
    assert_eq!(Crawler::new("music".to_string()).walk_root(), "./music");
    assert_eq!(dj_tool::folder_crawler::Crawler::new("x/y".to_string()).walk_root(), "./x/y");
}

#[test]
fn crawl_keeps_files_with_formats() {
    let mut c = Crawler::new("music".to_string());
    let found = c.crawl(entries());
    let got: Vec<(String, String)> = found.iter().map(|t| (t.path.clone(), t.format.clone())).collect();
    assert_eq!(
        got,
        vec![
            ("./music/a.flac".to_string(), "flac".to_string()),
            ("./music/sub/b.tar.mp3".to_string(), "mp3".to_string()),
            ("./music/README".to_string(), "/music/README".to_string()),
        ]
    );
    assert_eq!(c.path, "music");
}

#[test]
fn get_extension_takes_last_piece() {
    let mut c = Crawler::new(String::new());
    assert_eq!(c.get_extension(&"track.final.wav".to_string()), "wav");
    assert_eq!(c.get_extension(&"plain".to_string()), "plain");
}

#[test]
fn both_crawlers_agree() {
    let mut old = dj_tool::folder_crawler::Crawler::new("music".to_string());
    assert!(old.folders.is_empty());
    let paths = old.crawl(entries());
    let tracks = Crawler::new("music".to_string()).crawl(entries());
    let track_paths: Vec<String> = tracks.iter().map(|t| t.path.clone()).collect();
    assert_eq!(paths, track_paths);
}

#[test]
fn folder_parser_trims_input() {
    assert_eq!(FolderParser::parser("  my music \n").path, "my music");
    assert_eq!(dj_tool::parse_path::FolderParser::parser("\tfolder\r\n").path, "folder");
    assert_eq!(FolderParser::parser("\n").path, "");
}

#[test]
fn tracks_need_at_least_one_item() {
    assert_eq!(get_tracks(Vec::new()).err(), Some(TrackError::NoItemsFound));
    let items = vec![Crawler::new("a.mp3".to_string())];
    let got = get_tracks(items).ok().unwrap();
    assert_eq!(got.len(), 1);
    assert_eq!(got[0].path, "a.mp3");
}

#[test]
fn flattens_frames_row_major() {
    let frames = vec![vec![1, 2], vec![3, 4], vec![5, 6]];
    let m = flatten_rows(&frames);
    assert_eq!((m.rows, m.cols), (3, 2));
    assert_eq!(m.data, vec![1, 2, 3, 4, 5, 6]);
    assert_eq!(m.data.len(), m.rows * m.cols);
}

#[test]
fn flattens_ragged_and_empty_frames() {
    let frames = vec![vec![1], vec![2, 3, 4]];
    let m = flatten_rows(&frames);
    assert_eq!((m.rows, m.cols), (2, 1));
    assert_eq!(m.data, vec![1, 2, 3, 4]);
    let none: Vec<Vec<u8>> = Vec::new();
    let m = flatten_rows(&none);
    assert_eq!((m.rows, m.cols, m.data.len()), (0, 0, 0));
}

#[test]
fn converter_parser_accepts_paths() {
    dj_tool::converter::parser(vec!["a.mp3".to_string(), "b.flac".to_string()]);
    dj_tool::converter::parser(Vec::new());
}
