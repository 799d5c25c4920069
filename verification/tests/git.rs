use neukgu::git::{
    check_diff_headers, file_diff_key, get_git_info, load_commit_info, parse_commit_info, parse_git_diff,
    parse_git_log, update, ChangeKind, CommitLoad, FileDiff, GitCommand, GitInfoLoader, IcedContext,
    IcedMessage, LoadStep, Tab,
};
use neukgu::worker::{JobId, JobKind, JobResult, JobResultKind};

const UNSTAGED: &str = "diff --git a/src/a.rs b/src/a.rs
index 1234567..89abcde 100644
--- a/src/a.rs
+++ b/src/a.rs
@@ -1,3 +1,3 @@
 line1
-old
+new
 line3
diff --git a/new.txt b/new.txt
new file mode 100644
--- /dev/null
+++ b/new.txt
@@ -0,0 +1,2 @@
+a
+b
";

const LOG: &str = "0123456789abcdef Second commit
not a commit line
fedcba9876543210 Initial commit
";

const COMMIT_WITH_PARENT: &str = "tree 1111111111111111aaaaaaaaaaaaaaaaaaaaaaaa
parent fedcba9876543210bbbbbbbbbbbbbbbbbbbbbbbb
author Alice Kim <alice@example.com> 1700000000 +0900
committer Bob Lee <bob@example.com> 1700000100 +0900

Second commit
";

const ROOT_COMMIT: &str = "tree 2222222222222222cccccccccccccccccccccccc
author Alice Kim <alice@example.com> 1600000000 +0900
committer Alice Kim <alice@example.com> 1600000000 +0900

Initial commit
";

#[test]
fn parse_git_diff_reads_files_and_hunks() {
    let files = parse_git_diff(UNSTAGED);
    assert_eq!(files.len(), 2);
    assert_eq!(files[0].file_a, "src/a.rs");
    assert_eq!(files[0].file_b, "src/a.rs");
    assert_eq!(files[0].hunks.len(), 1);
    assert_eq!(files[0].hunks[0].lines, vec![" line1", "-old", "+new", " line3"]);
    assert_eq!((files[0].add, files[0].remove), (1, 1));
    assert_eq!(files[1].title(), "new.txt");
    assert_eq!((files[1].add, files[1].remove), (2, 0));
    assert_eq!(files[1].hunks[0].to_udiff(), "+a\n+b");
}

#[test]
fn parse_git_diff_of_nothing() {
    assert!(parse_git_diff("").is_empty());
    assert!(check_diff_headers(""));
}

#[test]
fn diff_headers_must_name_two_files() {
    assert!(check_diff_headers(UNSTAGED));
    assert!(!check_diff_headers("diff something else\n"));
}

#[test]
fn file_diff_titles() {
    let mk = |a: &str, b: &str| FileDiff { file_a: a.to_string(), file_b: b.to_string(), hunks: vec![], add: 0, remove: 0 };
    assert_eq!(mk("dev/null", "x.rs").title(), "x.rs");
    assert_eq!(mk("x.rs", "dev/null").title(), "x.rs");
    assert_eq!(mk("x.rs", "x.rs").title(), "x.rs");
    assert_eq!(mk("x.rs", "y.rs").title(), "x.rs -> y.rs");
}

#[test]
fn parse_git_log_skips_lines_without_a_hash() {
    let hashes = parse_git_log(LOG);
    assert_eq!(hashes.len(), 2);
    assert_eq!(hashes[0].to_hex(), "0123456789abcdef");
    assert_eq!(hashes[1].to_hex(), "fedcba9876543210");
}

#[test]
fn parse_commit_info_reads_a_commit_object() {
    let hashes = parse_git_log(LOG);
    let info = parse_commit_info(hashes[0], COMMIT_WITH_PARENT).unwrap();
    assert_eq!(info.commit_hash, hashes[0]);
    assert_eq!(info.tree_hash.to_hex(), "1111111111111111");
    assert_eq!(info.parent, Some(hashes[1]));
    assert_eq!(info.author_name, "Alice Kim");
    assert_eq!(info.author_email, "alice@example.com");
    assert_eq!(info.committer_name, "Bob Lee");
    assert_eq!(info.committer_email, "bob@example.com");
    assert_eq!(info.title, "Second commit");
    assert!(info.diff.is_none());
    assert!(parse_commit_info(hashes[0], "not a commit").is_none());
}

#[test]
fn load_commit_info_asks_for_the_diff_against_the_parent() {
    let hashes = parse_git_log(LOG);
    match load_commit_info(hashes[0], COMMIT_WITH_PARENT) {
        CommitLoad::NeedsDiff(c, cmd) => {
            assert_eq!(c.commit_hash, hashes[0]);
            assert_eq!(cmd, GitCommand::DiffCommit { parent: hashes[1], commit: hashes[0] });
            assert_eq!(
                cmd.args(),
                vec!["diff", "fedcba9876543210", "0123456789abcdef", "-U5", "--diff-algorithm=patience", "--no-color"]
            );
        },
        _ => panic!("a commit with a parent needs its diff"),
    }
    match load_commit_info(hashes[1], ROOT_COMMIT) {
        CommitLoad::Loaded(c) => {
            assert!(c.parent.is_none());
            assert_eq!(c.tree_hash.to_hex(), "2222222222222222");
        },
        _ => panic!("a root commit is loaded at once"),
    }
    assert!(matches!(load_commit_info(hashes[1], ""), CommitLoad::Malformed));
}

#[test]
fn git_command_arguments() {
    assert_eq!(GitCommand::Status.args(), vec!["status"]);
    assert_eq!(GitCommand::DiffUnstaged.args(), vec!["diff", "-U5", "--diff-algorithm=patience", "--no-color"]);
    assert_eq!(
        GitCommand::DiffStaged.args(),
        vec!["diff", "--cached", "-U5", "--diff-algorithm=patience", "--no-color"]
    );
    assert_eq!(GitCommand::Log.args(), vec!["log", "--oneline", "--abbrev=16", "-n100", "--no-color"]);
    let hashes = parse_git_log(LOG);
    assert_eq!(GitCommand::CatFile(hashes[1]).args(), vec!["cat-file", "commit", "fedcba9876543210"]);
}

fn fake_git(cmd: &GitCommand) -> (String, String) {
    match cmd {
        GitCommand::Status => (String::new(), String::new()),
        GitCommand::DiffUnstaged => (UNSTAGED.to_string(), String::new()),
        GitCommand::DiffStaged => (String::new(), String::new()),
        GitCommand::Log => (LOG.to_string(), String::new()),
        GitCommand::CatFile(h) if h.to_hex() == "0123456789abcdef" => (COMMIT_WITH_PARENT.to_string(), String::new()),
        GitCommand::CatFile(_) => (ROOT_COMMIT.to_string(), String::new()),
        GitCommand::DiffCommit { .. } => (UNSTAGED.to_string(), String::new()),
    }
}

#[test]
fn the_loader_walks_through_every_command() {
    let (mut loader, first) = GitInfoLoader::start();
    assert_eq!(first, GitCommand::Status);
    let mut cmd = first;
    let mut commands = vec![];
    let info = loop {
        commands.push(cmd);
        let (out, err) = fake_git(&cmd);
        match loader.step(&out, &err, 0) {
            LoadStep::Run(next) => cmd = next,
            LoadStep::Done(info) => break info,
            LoadStep::Failed(e) => panic!("{e}"),
        }
    };
    let hashes = parse_git_log(LOG);
    assert_eq!(
        commands,
        vec![
            GitCommand::Status,
            GitCommand::DiffUnstaged,
            GitCommand::DiffStaged,
            GitCommand::Log,
            GitCommand::CatFile(hashes[0]),
            GitCommand::DiffCommit { parent: hashes[1], commit: hashes[0] },
            GitCommand::CatFile(hashes[1]),
        ]
    );
    assert!(info.is_git_repo);
    assert_eq!(info.unstaged.len(), 2);
    assert!(info.staged.is_empty());
    assert_eq!(info.recent_commits.len(), 2);
    assert_eq!(info.recent_commits[0].commit_hash, hashes[0]);
    assert_eq!((info.recent_commits[0].add, info.recent_commits[0].remove), (3, 1));
    assert_eq!(info.recent_commits[0].diff.as_ref().unwrap().len(), 2);
    assert_eq!(info.recent_commits[1].commit_hash, hashes[1]);
    assert!(info.recent_commits[1].diff.is_none());
}

#[test]
fn the_loader_stops_loading_commits_after_ten_seconds() {
    let (mut loader, mut cmd) = GitInfoLoader::start();
    let info = loop {
        let (out, err) = fake_git(&cmd);
        let elapsed = if matches!(cmd, GitCommand::DiffCommit { .. }) { 10_001 } else { 0 };
        match loader.step(&out, &err, elapsed) {
            LoadStep::Run(next) => cmd = next,
            LoadStep::Done(info) => break info,
            LoadStep::Failed(e) => panic!("{e}"),
        }
    };
    assert_eq!(info.recent_commits.len(), 1);
}

#[test]
fn the_loader_knows_a_directory_that_is_no_repository() {
    let (mut loader, _) = GitInfoLoader::start();
    match loader.step("", "fatal: not a git repository (or any of the parent directories): .git", 0) {
        LoadStep::Done(info) => {
            assert!(!info.is_git_repo);
            assert!(info.staged.is_empty() && info.unstaged.is_empty() && info.recent_commits.is_empty());
        },
        _ => panic!("no repository, nothing more to load"),
    }
}

#[test]
fn the_loader_fails_on_an_unreadable_diff() {
    let (mut loader, _) = GitInfoLoader::start();
    assert!(matches!(loader.step("", "", 0), LoadStep::Run(GitCommand::DiffUnstaged)));
    assert!(matches!(loader.step("diff garbage\n", "", 0), LoadStep::Failed(_)));
}

#[test]
fn get_git_info_runs_git_through_the_caller() {
    let info = get_git_info("/repo", |path: &str, cmd: GitCommand| {
        assert_eq!(path, "/repo");
        Ok(fake_git_bytes(&cmd))
    }, || 0).unwrap();
    assert_eq!(info.recent_commits.len(), 2);
    let failed = get_git_info("/repo", |_: &str, _: GitCommand| Err(String::from("git not found")), || 0);
    assert_eq!(failed.unwrap_err(), "git not found");
}

#[test]
fn expand_keys_print_the_change_kind_like_debug() {
    let title = String::from("src/a.rs");
    assert_eq!(file_diff_key(ChangeKind::Staged, &title), "Staged-src/a.rs");
    assert_eq!(file_diff_key(ChangeKind::Unstaged, &title), "Unstaged-src/a.rs");
    let h = parse_git_log(LOG)[0];
    let key = file_diff_key(ChangeKind::Committed(h), &title);
    assert_eq!(key, format!("{:?}-{}", ChangeKind::Committed(h), title));
}

fn fake_git_bytes(cmd: &GitCommand) -> (Vec<u8>, Vec<u8>) {
    let (out, err) = fake_git(cmd);
    (out.into_bytes(), err.into_bytes())
}

fn loaded_info() -> neukgu::git::GitInfo {
    get_git_info("/repo", |_: &str, cmd: GitCommand| Ok(fake_git_bytes(&cmd)), || 0).unwrap()
}

#[test]
fn the_panel_unfolds_small_diffs_on_first_load() {
    let mut panel = IcedContext::new("/repo", JobId(7));
    assert!(update(&mut panel, IcedMessage::Tick { frame: 16 }).is_none());
    let result = JobResult { id: Some(JobId(7)), kind: JobResultKind::GetGitInfo(loaded_info()) };
    assert!(update(&mut panel, IcedMessage::BackgroundJobResult(result)).is_none());
    assert!(panel.git_info.is_some());
    assert!(panel.git_info_job_id.is_none());
    let mut keys = panel.expanded_file_diffs.clone();
    keys.sort();
    assert_eq!(keys, vec!["Unstaged-new.txt", "Unstaged-src/a.rs"]);
    assert!(panel.error.is_none());
}

#[test]
fn the_panel_ignores_answers_to_other_jobs() {
    let mut panel = IcedContext::new("/repo", JobId(7));
    let result = JobResult { id: Some(JobId(8)), kind: JobResultKind::GetGitInfo(loaded_info()) };
    update(&mut panel, IcedMessage::BackgroundJobResult(result));
    assert!(panel.git_info.is_none());
    assert_eq!(panel.git_info_job_id, Some(JobId(7)));
}

#[test]
fn the_panel_reloads_every_sixteen_frames() {
    let mut panel = IcedContext::new("/repo", JobId(7));
    let result = JobResult { id: Some(JobId(7)), kind: JobResultKind::GetGitInfo(loaded_info()) };
    update(&mut panel, IcedMessage::BackgroundJobResult(result));
    assert!(update(&mut panel, IcedMessage::Tick { frame: 17 }).is_none());
    match update(&mut panel, IcedMessage::Tick { frame: 32 }) {
        Some(IcedMessage::BackgroundJob(job)) => {
            assert_eq!(panel.git_info_job_id, Some(job.id));
            match job.kind {
                JobKind::GetGitInfo { path } => assert_eq!(path, "/repo"),
                other => panic!("{other:?}"),
            }
        },
        _ => panic!("a reload is due"),
    }
    assert!(update(&mut panel, IcedMessage::Tick { frame: 48 }).is_none());
}

#[test]
fn the_panel_toggles_what_is_unfolded_and_reports_errors() {
    let mut panel = IcedContext::new("/repo", JobId(1));
    update(&mut panel, IcedMessage::ExpandFileDiff(String::from("Staged-x")));
    update(&mut panel, IcedMessage::ExpandFileDiff(String::from("Staged-y")));
    update(&mut panel, IcedMessage::ExpandFileDiff(String::from("Staged-x")));
    assert_eq!(panel.expanded_file_diffs, vec!["Staged-y"]);
    let h = parse_git_log(LOG)[1];
    update(&mut panel, IcedMessage::ExpandCommit(h));
    assert_eq!(panel.expanded_commits.len(), 1);
    update(&mut panel, IcedMessage::ExpandCommit(h));
    assert!(panel.expanded_commits.is_empty());
    update(&mut panel, IcedMessage::SelectTab(Tab::Commits));
    assert_eq!(panel.selected_tab, Tab::Commits);
    update(&mut panel, IcedMessage::HoverTab(Tab::Changes));
    assert_eq!(panel.hovered_tab, Some(Tab::Changes));
    update(&mut panel, IcedMessage::UnhoverTab);
    assert_eq!(panel.hovered_tab, None);
    match update(&mut panel, IcedMessage::Stage(0, 0)) {
        Some(IcedMessage::Notify(n)) => assert_eq!(n, "Not implemented: Stage changes"),
        _ => panic!("staging is not implemented"),
    }
    let result = JobResult { id: None, kind: JobResultKind::GetGitInfoError(String::from("git failed")) };
    update(&mut panel, IcedMessage::BackgroundJobResult(result));
    assert_eq!(panel.error.as_deref(), Some("git failed"));
}

#[test]
fn an_unreadable_output_ends_the_load_with_its_message() {
    let failed = get_git_info("/repo", |_: &str, cmd: GitCommand| match cmd {
        GitCommand::CatFile(_) => Ok((Vec::new(), Vec::new())),
        other => Ok(fake_git_bytes(&other)),
    }, || 0);
    assert_eq!(failed.unwrap_err(), "git cat-file gave no commit object");
}

#[test]
fn a_header_without_hunks_gives_no_file() {
    let diff = "diff --git a/img.png b/img.png\nBinary files a/img.png and b/img.png differ\ndiff --git a/b.txt b/b.txt\n--- a/b.txt\n+++ b/b.txt\n@@ -1 +1 @@\n-x\n+y\n";
    let files = parse_git_diff(diff);
    assert_eq!(files.len(), 1);
    assert_eq!(files[0].file_a, "b.txt");
    assert_eq!(files[0].hunks.len(), 1);
    assert!(files[0].hunks.iter().all(|h| !h.lines.is_empty()));
}

#[test]
fn git_output_that_is_not_utf8_is_read_lossily() {
    let info = get_git_info("/repo", |_: &str, cmd: GitCommand| match cmd {
        GitCommand::Status => Ok((vec![0xff, 0xfe], vec![0xff])),
        other => Ok(fake_git_bytes(&other)),
    }, || 0).unwrap();
    assert!(info.is_git_repo);
    let not_repo = get_git_info("/repo", |_: &str, cmd: GitCommand| match cmd {
        GitCommand::Status => Ok((Vec::new(), b"fatal: not a git repository (or any parent)\xff".to_vec())),
        _ => panic!("only git status runs outside a repository"),
    }, || 0).unwrap();
    assert!(!not_repo.is_git_repo);
    assert!(not_repo.staged.is_empty() && not_repo.unstaged.is_empty() && not_repo.recent_commits.is_empty());
}
