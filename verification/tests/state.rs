use pinterest_downloader::cli::Config;
use pinterest_downloader::printer::{Output, TextPrinterApp};
use pinterest_downloader::state::{DownloadStatus, TextInputState};
use pinterest_downloader::widgets::compact_path;

#[derive(Debug, Default)]
struct MemoryOutput {
    lines: Vec<String>,
}

impl Output for MemoryOutput {
    fn handle_submission(&mut self, pin_url: &str, directory_path: &str) {
        self.lines.push(pin_url.to_owned());
        self.lines.push(directory_path.to_owned());
    }
}

#[test]
fn state_state_starts_empty() {
    let state = TextInputState::new();

    assert_eq!(state.url(), "");
    assert_eq!(state.text(), "");
    assert_eq!(state.directory_path(), "");
}

#[test]
fn state_updates_url() {
    let mut state = TextInputState::new();

    state.set_text("https://br.pinterest.com/pin/123");

    assert_eq!(state.url(), "https://br.pinterest.com/pin/123");
}

#[test]
fn state_state_updates_directory_path() {
    let mut state = TextInputState::new();

    state.set_directory_path("/home/pedro/downloads");

    assert_eq!(state.directory_path(), "/home/pedro/downloads");
}

#[test]
fn state_state_updates_text() {
    let mut state = TextInputState::new();

    state.set_text("ol\u{e1} mundo");

    assert_eq!(state.text(), "ol\u{e1} mundo");
}

#[test]
fn ui_state_starts_empty() {
    let state = TextInputState::new();

    assert_eq!(state.text(), "");
    assert_eq!(state.directory_path(), "");
}

#[test]
fn ui_state_updates_text() {
    let mut state = TextInputState::new();

    state.set_text("olá mundo");

    assert_eq!(state.text(), "olá mundo");
}

#[test]
fn ui_state_updates_directory_path() {
    let mut state = TextInputState::new();

    state.set_directory_path("/home/pedro/downloads");

    assert_eq!(state.directory_path(), "/home/pedro/downloads");
}

#[test]
fn ui_submit_sends_current_text_and_directory_path_to_output() {
    let mut app = TextPrinterApp::with_output(MemoryOutput::default());
    app.state_mut().set_text("texto digitado");
    app.state_mut().set_directory_path("/home/pedro/downloads");

    app.submit();

    assert_eq!(app.state().text(), "texto digitado");
    let output = app.into_output();
    assert_eq!(output.lines, vec!["texto digitado", "/home/pedro/downloads"]);
}

#[test]
fn status_is_finished_only_when_ended() {
    assert!(!DownloadStatus::Downloading.is_finished());
    assert!(DownloadStatus::Completed.is_finished());
    assert!(DownloadStatus::Failed("e".to_owned()).is_finished());
}

#[test]
fn compact_path_keeps_short_path() {
    assert_eq!(compact_path("/tmp/downloads", 20), "/tmp/downloads");
}

#[test]
fn compact_path_truncates_long_path_from_the_left() {
    assert_eq!(
        compact_path("/home/pedro/downloads/pinterest", 12),
        "\u{2026}s/pinterest"
    );
}

#[test]
fn compact_path_edge_widths() {
    assert_eq!(compact_path("abc", 3), "abc");
    assert_eq!(compact_path("abcd", 1), "\u{2026}");
    assert_eq!(compact_path("abcd", 0), "\u{2026}");
    assert_eq!(compact_path("", 0), "");
    assert_eq!(compact_path("\u{e1}\u{e9}\u{ed}\u{f3}", 3), "\u{2026}\u{ed}\u{f3}");
}

#[test]
fn config_build_reads_link_and_directory() {
    assert_eq!(Config::build(vec![]), Err("Pin URL is required"));
    let c = Config::build(vec!["pin".to_owned()]).unwrap();
    assert_eq!(c.pin_url, "pin");
    assert_eq!(c.dest_dir, None);
    let c = Config::build(vec!["pin".to_owned(), "/d".to_owned(), "x".to_owned()]).unwrap();
    assert_eq!(c.dest_dir, Some("/d".to_owned()));
}
