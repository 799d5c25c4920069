use base64::Engine;
use neukgu::tab::TabId;
use neukgu::worker::{
    init_workers, parse_rg_output, Job, JobId, JobKind, JobResult, JobResultKind, RgMatchData,
    RgMatchLine, RgSubmatch, RgText, Worker, WorkerPoll, preview_read_len, text_preview, FilePreview, TextPreview,
};
use std::sync::mpsc;

fn text(s: &str) -> RgText {
    RgText { text: Some(s.to_string()), bytes: None }
}

fn line(path: RgText, lines: RgText, line_number: usize, ranges: &[(usize, usize)]) -> Option<RgMatchLine> {
    Some(RgMatchLine {
        data: RgMatchData {
            path,
            lines,
            line_number,
            submatches: ranges.iter().map(|&(start, end)| RgSubmatch { start, end }).collect(),
        },
    })
}

#[test]
fn rg_output_collects_matches_and_counts_ranges() {
    let bytes = base64::prelude::BASE64_STANDARD.encode(b"caf\xe9 latte\n");
    let lines = vec![
        line(text("src/a.rs"), text("fn main() {}\n"), 3, &[(0, 2), (3, 7)]),
        None,
        line(text("src/b.rs"), RgText { text: None, bytes: Some(bytes) }, 9, &[(5, 10)]),
    ];
    match parse_rg_output(String::from("fn|latte"), false, b"", lines) {
        JobResultKind::Rg { regex, matches, count } => {
            assert_eq!(regex, "fn|latte");
            assert_eq!(count, 3);
            assert_eq!(matches.len(), 2);
            assert_eq!(matches[0].path, "src/a.rs");
            assert_eq!(matches[0].line_number, 3);
            assert_eq!(matches[0].submatches, vec![(0, 2), (3, 7)]);
            assert_eq!(matches[1].line, "caf\u{fffd} latte\n");
        },
        other => panic!("{other:?}"),
    }
}

#[test]
fn rg_output_skips_records_whose_text_cannot_be_read() {
    let lines = vec![
        line(text("a"), RgText { text: None, bytes: Some(String::from("not base64!")) }, 1, &[(0, 1)]),
        line(text("b"), RgText { text: None, bytes: None }, 2, &[(0, 1)]),
        line(text("c"), text("x"), 3, &[(0, 1)]),
    ];
    match parse_rg_output(String::from("x"), false, b"", lines) {
        JobResultKind::Rg { matches, count, .. } => {
            assert_eq!(matches.len(), 1);
            assert_eq!(matches[0].path, "c");
            assert_eq!(count, 1);
        },
        other => panic!("{other:?}"),
    }
}

#[test]
fn rg_timeouts_and_errors_come_first() {
    let lines = vec![line(text("a"), text("x"), 1, &[(0, 1)])];
    assert!(matches!(parse_rg_output(String::from("x"), true, b"error", lines.clone()), JobResultKind::RgTimeout));
    match parse_rg_output(String::from("("), false, b"rg: regex parse error:\n    (\n", lines) {
        JobResultKind::RgError(e) => assert_eq!(e, "rg: regex parse error:\n    (\n"),
        other => panic!("{other:?}"),
    }
}

struct Remote {
    jobs: mpsc::Receiver<Job>,
    results: mpsc::Sender<JobResult>,
}

fn connected_worker() -> (Worker, Remote) {
    let (tx_from_main, jobs) = mpsc::channel();
    let (results, rx_to_main) = mpsc::channel();
    (Worker::new(tx_from_main, rx_to_main), Remote { jobs, results })
}

/// A worker whose other ends stay open for the rest of the test.
fn idle_worker() -> Worker {
    let (w, remote) = connected_worker();
    std::mem::forget(remote);
    w
}

#[test]
fn workers_take_jobs_in_turn_and_route_answers_to_their_tab() {
    let mut remotes = vec![];
    let mut workers = init_workers(0, || idle_worker());
    assert!(workers.workers.is_empty());
    for _ in 0..3 {
        let (w, r) = connected_worker();
        workers.workers.push(w);
        remotes.push(r);
    }
    let job = |id: u64| Job { id: JobId(id), kind: JobKind::CalcDirectorySize { path: String::from("/tmp") } };
    workers.push(Some(TabId(10)), job(1)).unwrap();
    workers.push(None, job(2)).unwrap();
    assert_eq!(workers.round_robin, 2);
    // the first job went to worker 1, the second to worker 2
    assert_eq!(remotes[1].jobs.try_recv().unwrap().id, JobId(1));
    assert_eq!(remotes[2].jobs.try_recv().unwrap().id, JobId(2));
    assert!(remotes[0].jobs.try_recv().is_err());

    remotes[1].results.send(JobResult { id: Some(JobId(1)), kind: JobResultKind::CalcDirectorySize(42) }).unwrap();
    remotes[2].results.send(JobResult { id: Some(JobId(2)), kind: JobResultKind::CalcDirectorySize(7) }).unwrap();
    let answers = workers.poll(|| idle_worker());
    assert_eq!(answers.len(), 2);
    assert_eq!(answers[0].0.id, Some(JobId(1)));
    assert_eq!(answers[0].1, Some(TabId(10)));
    assert_eq!(answers[1].0.id, Some(JobId(2)));
    assert_eq!(answers[1].1, None);
    assert!(workers.tab_id_by_job_id.is_empty());
    assert!(workers.poll(|| idle_worker()).is_empty());
}

#[test]
fn a_worker_whose_thread_has_gone_is_replaced() {
    let (w, remote) = connected_worker();
    let mut workers = init_workers(0, || idle_worker());
    workers.workers.push(w);
    drop(remote);
    let answers = workers.poll(|| idle_worker());
    assert!(answers.is_empty());
    assert_eq!(workers.workers.len(), 1);
    // the new worker's channel is open
    assert!(workers.workers[0].rx_to_main.try_recv().is_err());
    assert!(workers.push(None, Job { id: JobId(3), kind: JobKind::SynchronizeSkillsConfig }).is_ok());
}

#[test]
fn init_workers_makes_as_many_as_asked() {
    let workers = init_workers(8, || idle_worker());
    assert_eq!(workers.workers.len(), 8);
    assert_eq!(workers.round_robin, 0);
    assert!(workers.tab_id_by_job_id.is_empty());
}

#[test]
fn job_ids_are_drawn_at_random() {
    let ids: Vec<JobId> = (0..8).map(|_| JobId::new()).collect();
    assert!(ids.iter().any(|id| *id != ids[0]));
}

#[test]
fn small_text_files_are_previewed_whole() {
    assert_eq!(preview_read_len(5), Some(5));
    match text_preview(5, b"hello".to_vec()) {
        TextPreview::Done(FilePreview::Text { preview, truncated }) => {
            assert_eq!(preview, "hello");
            assert!(!truncated);
        },
        other => panic!("{other:?}"),
    }
    // invalid UTF-8 is no text
    assert!(matches!(text_preview(2, vec![0xff, 0xfe]), TextPreview::NotText));
}

#[test]
fn a_cut_character_is_dropped_from_the_prefix() {
    assert_eq!(preview_read_len(1000), Some(512));
    // 510 ASCII bytes, then a three-byte character cut after its first two bytes
    let mut head = vec![b'a'; 510];
    head.extend_from_slice(&[0xe2, 0x82]);
    match text_preview(1000, head) {
        TextPreview::Done(FilePreview::Text { preview, truncated }) => {
            assert_eq!(preview.len(), 510);
            assert!(truncated);
        },
        other => panic!("{other:?}"),
    }
    // a prefix with no valid cut is no text
    assert!(matches!(text_preview(1000, vec![0xff; 512]), TextPreview::NotText));
}

#[test]
fn huge_files_are_not_previewed() {
    assert_eq!(preview_read_len(0x0800_0000), None);
    assert!(matches!(text_preview(0x0800_0000, vec![]), TextPreview::Done(FilePreview::NoPreview)));
    assert_eq!(preview_read_len(0x07ff_ffff), Some(512));
}

#[test]
fn lossy_standard_error_is_checked_for_errors() {
    match parse_rg_output(String::from("x"), false, b"bad\xff error", vec![]) {
        JobResultKind::RgError(e) => assert_eq!(e, "bad\u{fffd} error"),
        other => panic!("{other:?}"),
    }
}

#[test]
fn delivered_answers_keep_their_order_and_gone_workers_are_replaced() {
    let mut workers = init_workers(3, || idle_worker());
    let job = |id: u64| Job { id: JobId(id), kind: JobKind::SynchronizeSkillsConfig };
    workers.push(Some(TabId(5)), job(11)).unwrap();
    workers.push(Some(TabId(6)), job(12)).unwrap();
    let (gone, remote) = connected_worker();
    drop(remote);
    workers.workers[1] = gone;
    let polls = vec![
        WorkerPoll::Answer(JobResult { id: Some(JobId(12)), kind: JobResultKind::CalcDirectorySize(2) }),
        WorkerPoll::Gone,
        WorkerPoll::Answer(JobResult { id: Some(JobId(11)), kind: JobResultKind::CalcDirectorySize(1) }),
    ];
    let answers = workers.deliver(polls, || idle_worker());
    assert_eq!(answers.len(), 2);
    assert_eq!((answers[0].0.id, answers[0].1), (Some(JobId(12)), Some(TabId(6))));
    assert_eq!((answers[1].0.id, answers[1].1), (Some(JobId(11)), Some(TabId(5))));
    assert!(workers.tab_id_by_job_id.is_empty());
    assert_eq!(workers.round_robin, 2);
    // the replaced worker's channel is open again
    assert!(matches!(workers.workers[1].rx_to_main.try_recv(), Err(mpsc::TryRecvError::Empty)));
}

#[test]
fn consecutive_jobs_reach_each_worker_once() {
    let mut remotes = vec![];
    let mut workers = init_workers(0, || idle_worker());
    for _ in 0..3 {
        let (w, r) = connected_worker();
        workers.workers.push(w);
        remotes.push(r);
    }
    for id in 0..3 {
        workers.push(None, Job { id: JobId(id), kind: JobKind::SynchronizeSkillsConfig }).unwrap();
    }
    assert_eq!(remotes[1].jobs.try_recv().unwrap().id, JobId(0));
    assert_eq!(remotes[2].jobs.try_recv().unwrap().id, JobId(1));
    assert_eq!(remotes[0].jobs.try_recv().unwrap().id, JobId(2));
    assert!(remotes.iter().all(|r| r.jobs.try_recv().is_err()));
}

#[test]
fn a_job_for_a_gone_worker_comes_back() {
    let (w, remote) = connected_worker();
    let mut workers = init_workers(0, || idle_worker());
    workers.workers.push(w);
    drop(remote);
    let e = workers.push(Some(TabId(4)), Job { id: JobId(77), kind: JobKind::SynchronizeSkillsConfig }).unwrap_err();
    assert_eq!(e.0.id, JobId(77));
    assert_eq!(workers.tab_id_by_job_id.get(&77), Some(&Some(TabId(4))));
}

#[test]
fn the_preview_decodes_utf8_as_std_does() {
    let cases: Vec<Vec<u8>> = vec![
        "héllo wörld".as_bytes().to_vec(),
        "한글 텍스트".as_bytes().to_vec(),
        "emoji 😀!".as_bytes().to_vec(),
        vec![0xc0, 0x80],             // overlong
        vec![0xe0, 0x80, 0x80],       // overlong
        vec![0xed, 0xa0, 0x80],       // surrogate
        vec![0xef, 0xbf, 0xbf],       // U+FFFF
        vec![0xf4, 0x8f, 0xbf, 0xbf], // U+10FFFF
        vec![0xf4, 0x90, 0x80, 0x80], // above U+10FFFF
        vec![0xf0, 0x9f, 0x98],       // cut short
        vec![0x61, 0x80],             // stray continuation
        vec![],
    ];
    for bytes in cases {
        let expected = String::from_utf8(bytes.clone()).ok();
        let got = match text_preview(bytes.len() as u64, bytes.clone()) {
            TextPreview::Done(FilePreview::Text { preview, truncated }) => {
                assert!(!truncated);
                Some(preview)
            },
            TextPreview::NotText => None,
            _ => panic!("unexpected preview"),
        };
        assert_eq!(got, expected, "bytes {:?}", bytes);
    }
}
