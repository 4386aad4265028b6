use pinterest_downloader::app::DownloaderApp;
use pinterest_downloader::output::{
    finish_download, plan_download, DownloadEvent, DownloadEventKind, DownloadId, DownloadJob,
    DownloadPlan, DownloadWorker, Output,
};
use pinterest_downloader::state::DownloadStatus;

#[derive(Debug, Default)]
struct MemoryOutput {
    lines: Vec<String>,
    ids: Vec<DownloadId>,
    events: Vec<DownloadEvent>,
}

impl Output for MemoryOutput {
    fn handle_submission(&mut self, pin_url: &str, directory_path: &str, id: DownloadId) {
        self.lines.push(pin_url.to_owned());
        self.lines.push(directory_path.to_owned());
        self.ids.push(id);
    }

    fn drain_events(&mut self) -> Vec<DownloadEvent> {
        self.events.drain(..).collect()
    }
}

#[test]
fn destination_button_label_keeps_long_path_inside_button() {
    let mut app = DownloaderApp::with_output(MemoryOutput::default());
    app.state_mut()
        .set_directory_path("/home/pedro/downloads/pinterest/videos");

    assert_eq!(app.destination_button_label(), "\u{2026}terest/videos");
}

#[test]
fn destination_button_label_prompts_without_directory() {
    let app = DownloaderApp::with_output(MemoryOutput::default());
    assert_eq!(app.destination_button_label(), "Selecionar pasta");
}

#[test]
fn app_submit_sends_current_text_and_directory_path_to_output() {
    let mut app = DownloaderApp::with_output(MemoryOutput::default());
    app.state_mut().set_text("https://br.pinterest.com/pin/123");
    app.state_mut().set_directory_path("/home/pedro/downloads");

    app.submit();

    let output = app.into_output();
    assert_eq!(
        output.lines,
        vec!["https://br.pinterest.com/pin/123", "/home/pedro/downloads"]
    );
    assert_eq!(output.ids, vec![1]);
}

#[test]
fn submit_adds_download_card_as_downloading() {
    let mut app = DownloaderApp::with_output(MemoryOutput::default());

    app.submit();

    assert_eq!(app.downloads().len(), 1);
    assert_eq!(app.downloads()[0].id(), 1);
    assert_eq!(app.downloads()[0].filename(), "Preparando download...");
    assert_eq!(app.downloads()[0].status(), &DownloadStatus::Downloading);
}

#[test]
fn submit_gives_each_download_a_fresh_id() {
    let mut app = DownloaderApp::with_output(MemoryOutput::default());
    app.submit();
    app.submit();
    app.submit();
    let ids: Vec<_> = app.downloads().iter().map(|d| d.id()).collect();
    assert_eq!(ids, vec![1, 2, 3]);
    assert_eq!(app.next_download_id(), 4);
    assert_eq!(app.into_output().ids, vec![1, 2, 3]);
}

#[test]
fn download_events_update_card_filename_and_status() {
    let mut app = DownloaderApp::with_output(MemoryOutput {
        events: vec![
            DownloadEvent {
                id: 1,
                kind: DownloadEventKind::FileNameResolved("video.mp4".to_owned()),
            },
            DownloadEvent {
                id: 1,
                kind: DownloadEventKind::Completed,
            },
        ],
        ..Default::default()
    });
    app.submit();

    app.apply_download_events();

    assert_eq!(app.downloads()[0].filename(), "video.mp4");
    assert_eq!(app.downloads()[0].status(), &DownloadStatus::Completed);
}

#[test]
fn events_for_unknown_ids_are_ignored_and_failures_recorded() {
    let mut app = DownloaderApp::with_output(MemoryOutput::default());
    app.submit();
    app.submit();
    app.apply_events(vec![
        DownloadEvent {
            id: 7,
            kind: DownloadEventKind::Completed,
        },
        DownloadEvent {
            id: 2,
            kind: DownloadEventKind::Failed("VideoNotFound".to_owned()),
        },
    ]);
    assert_eq!(app.downloads().len(), 2);
    assert_eq!(app.downloads()[0].status(), &DownloadStatus::Downloading);
    assert_eq!(
        app.downloads()[1].status(),
        &DownloadStatus::Failed("VideoNotFound".to_owned())
    );
    assert!(app.downloads()[1].status().is_finished());
    assert!(!app.downloads()[0].status().is_finished());
}

#[test]
fn dismiss_download_removes_finished_download_from_history() {
    let mut app = DownloaderApp::with_output(MemoryOutput::default());
    app.submit();
    app.apply_events(vec![DownloadEvent {
        id: 1,
        kind: DownloadEventKind::Completed,
    }]);

    app.dismiss_download(1);

    assert!(app.downloads().is_empty());
}

#[test]
fn dismiss_download_keeps_active_download() {
    let mut app = DownloaderApp::with_output(MemoryOutput::default());
    app.submit();

    app.dismiss_download(1);

    assert_eq!(app.downloads().len(), 1);
    assert_eq!(app.downloads()[0].status(), &DownloadStatus::Downloading);
}

#[test]
fn dismiss_download_keeps_other_finished_downloads() {
    let mut app = DownloaderApp::with_output(MemoryOutput::default());
    app.submit();
    app.submit();
    app.apply_events(vec![
        DownloadEvent { id: 1, kind: DownloadEventKind::Completed },
        DownloadEvent { id: 2, kind: DownloadEventKind::Completed },
    ]);
    app.dismiss_download(1);
    assert_eq!(app.downloads().len(), 1);
    assert_eq!(app.downloads()[0].id(), 2);
}

#[test]
fn clear_finished_downloads_keeps_active_downloads() {
    let mut app = DownloaderApp::with_output(MemoryOutput::default());
    app.submit();
    app.submit();
    app.apply_events(vec![DownloadEvent {
        id: 1,
        kind: DownloadEventKind::Completed,
    }]);

    app.clear_finished_downloads();

    assert_eq!(app.downloads().len(), 1);
    assert_eq!(app.downloads()[0].id(), 2);
    assert_eq!(app.downloads()[0].status(), &DownloadStatus::Downloading);
}

#[test]
fn worker_queues_jobs_and_hands_out_events_once() {
    let mut app = DownloaderApp::new();
    app.state_mut().set_text("pin.it/x");
    app.state_mut().set_directory_path("/tmp");
    app.submit();
    let jobs = app.output_mut().take_jobs();
    assert_eq!(
        jobs,
        vec![DownloadJob {
            id: 1,
            pin_url: "pin.it/x".to_owned(),
            directory_path: "/tmp".to_owned()
        }]
    );
    assert!(app.output_mut().take_jobs().is_empty());

    app.output_mut().push_event(DownloadEvent {
        id: 1,
        kind: DownloadEventKind::FileNameResolved("a.mp4".to_owned()),
    });
    app.output_mut().push_event(DownloadEvent {
        id: 1,
        kind: DownloadEventKind::Completed,
    });
    app.apply_download_events();
    assert_eq!(app.downloads()[0].filename(), "a.mp4");
    assert_eq!(app.downloads()[0].status(), &DownloadStatus::Completed);
    assert!(app.output_mut().drain_events().is_empty());
}

#[test]
fn worker_drains_events_in_order() {
    let mut worker = DownloadWorker::default();
    let first = DownloadEvent { id: 3, kind: DownloadEventKind::Completed };
    let second = DownloadEvent { id: 4, kind: DownloadEventKind::Failed("x".to_owned()) };
    worker.push_event(first.clone());
    worker.push_event(second.clone());
    assert_eq!(worker.drain_events(), vec![first, second]);
    assert_eq!(worker.drain_events(), vec![]);
}

#[test]
fn job_with_failed_extraction_yields_one_failure_and_no_download() {
    let job = DownloadJob { id: 5, pin_url: "x".to_owned(), directory_path: "/d".to_owned() };
    let (event, plan) = plan_download(&job, Err("VideoNotFound".to_owned()));
    assert_eq!(
        event,
        DownloadEvent { id: 5, kind: DownloadEventKind::Failed("VideoNotFound".to_owned()) }
    );
    assert_eq!(plan, None);
}

#[test]
fn job_with_link_names_the_file_then_ends_once() {
    let job = DownloadJob { id: 2, pin_url: "x".to_owned(), directory_path: "/d".to_owned() };
    let (event, plan) = plan_download(&job, Ok("https://v.com/a/clip.mp4?s=1".to_owned()));
    assert_eq!(
        event,
        DownloadEvent { id: 2, kind: DownloadEventKind::FileNameResolved("clip.mp4".to_owned()) }
    );
    let plan = plan.unwrap();
    assert_eq!(
        plan,
        DownloadPlan {
            id: 2,
            download_url: "https://v.com/a/clip.mp4?s=1".to_owned(),
            directory_path: "/d".to_owned(),
            filename: "clip.mp4".to_owned(),
        }
    );
    assert_eq!(
        finish_download(&plan, Ok(())),
        DownloadEvent { id: 2, kind: DownloadEventKind::Completed }
    );
    assert_eq!(
        finish_download(&plan, Err("IoError".to_owned())),
        DownloadEvent { id: 2, kind: DownloadEventKind::Failed("IoError".to_owned()) }
    );
    let (event, _) = plan_download(&job, Ok("https://v.com/".to_owned()));
    assert_eq!(
        event,
        DownloadEvent { id: 2, kind: DownloadEventKind::FileNameResolved("video.mp4".to_owned()) }
    );
}

#[test]
fn has_active_downloads_follows_the_statuses() {
    let mut app = DownloaderApp::with_output(MemoryOutput::default());
    assert!(!app.has_active_downloads());
    app.submit();
    assert!(app.has_active_downloads());
    app.apply_events(vec![DownloadEvent { id: 1, kind: DownloadEventKind::Completed }]);
    assert!(!app.has_active_downloads());
}

#[test]
fn into_output_without_calls_hands_back_the_sink() {
    let app = DownloaderApp::with_output(MemoryOutput { ids: vec![9], ..Default::default() });
    let output = app.into_output();
    assert_eq!(output.ids, vec![9]);
    assert!(output.lines.is_empty());
}
