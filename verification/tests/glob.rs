use neukgu::glob::{Glob, GlobWalk, WalkStep};
use neukgu::worker::{GlobMatch, JobResultKind};

fn entry(path: &str, is_symlink: bool, is_dir: bool) -> GlobMatch {
    GlobMatch { path: String::from(path), is_symlink, is_dir }
}

fn expect_read_dir(step: WalkStep, dir: &str) -> GlobWalk {
    match step {
        WalkStep::ReadDir(w, d) => {
            assert_eq!(d, dir);
            w
        },
        WalkStep::Finished(_) => panic!("the walk finished before listing {dir}"),
    }
}

fn expect_finished(step: WalkStep) -> (String, Vec<String>, bool) {
    match step {
        WalkStep::Finished(JobResultKind::Glob { pattern, matches, timeout }) => {
            (pattern, matches.into_iter().map(|m| m.path).collect(), timeout)
        },
        _ => panic!("the walk did not finish"),
    }
}

#[test]
fn the_walk_descends_into_directories_but_not_symlinks() {
    let (walk, root) = match GlobWalk::start("**/*.rs", String::from("/r")) {
        Ok(started) => started,
        Err(_) => panic!("a valid pattern"),
    };
    assert_eq!(root, "/r");
    let step = walk.step(Some(vec![
        entry("/r/a.rs", false, false),
        entry("/r/src", false, true),
        entry("/r/link", true, true),
        entry("/r/b.txt", false, false),
    ]));
    let walk = expect_read_dir(step, "/r/src");
    let (pattern, matches, timeout) = expect_finished(walk.step(Some(vec![entry("/r/src/main.rs", false, false)])));
    assert_eq!(pattern, "**/*.rs");
    assert_eq!(matches, vec![String::from("/r/a.rs"), String::from("/r/src/main.rs")]);
    assert!(!timeout);
}

#[test]
fn a_directory_comes_after_its_own_entries() {
    let (walk, _) = match GlobWalk::start("**/s*", String::from("/r")) {
        Ok(started) => started,
        Err(_) => panic!("a valid pattern"),
    };
    let walk = expect_read_dir(walk.step(Some(vec![entry("/r/src", false, true), entry("/r/t", false, false)])), "/r/src");
    let walk = expect_read_dir(walk.step(Some(vec![entry("/r/src/sub", false, true)])), "/r/src/sub");
    let (_, matches, timeout) = expect_finished(walk.step(Some(vec![entry("/r/src/sub/s.rs", false, false)])));
    assert_eq!(
        matches,
        vec![String::from("/r/src/sub/s.rs"), String::from("/r/src/sub"), String::from("/r/src")],
    );
    assert!(!timeout);
}

#[test]
fn a_star_does_not_match_a_separator() {
    let (walk, _) = match GlobWalk::start("/r/*.rs", String::from("/r")) {
        Ok(started) => started,
        Err(_) => panic!("a valid pattern"),
    };
    let walk = expect_read_dir(walk.step(Some(vec![entry("/r/d", false, true), entry("/r/x.rs", false, false)])), "/r/d");
    let (_, matches, _) = expect_finished(walk.step(Some(vec![entry("/r/d/y.rs", false, false)])));
    assert_eq!(matches, vec![String::from("/r/x.rs")]);
}

#[test]
fn a_timeout_keeps_the_matches_found_so_far() {
    let (walk, _) = match GlobWalk::start("**/*.md", String::from("/r")) {
        Ok(started) => started,
        Err(_) => panic!("a valid pattern"),
    };
    let walk = expect_read_dir(walk.step(Some(vec![entry("/r/a.md", false, false), entry("/r/d", false, true)])), "/r/d");
    let (_, matches, timeout) = expect_finished(walk.step(None));
    assert_eq!(matches, vec![String::from("/r/a.md")]);
    assert!(timeout);
}

#[test]
fn an_empty_root_has_no_matches() {
    let (walk, _) = match GlobWalk::start("*", String::from("/r")) {
        Ok(started) => started,
        Err(_) => panic!("a valid pattern"),
    };
    let (pattern, matches, timeout) = expect_finished(walk.step(Some(vec![])));
    assert_eq!(pattern, "*");
    assert!(matches.is_empty());
    assert!(!timeout);
}

#[test]
fn an_invalid_pattern_is_an_error() {
    match GlobWalk::start("a[", String::from("/r")) {
        Err(JobResultKind::GlobError(e)) => assert!(e.contains("error parsing glob 'a['"), "{e}"),
        _ => panic!("an invalid pattern"),
    }
    assert!(Glob::new("{a,b").is_err());
    assert!(Glob::new("**/*.rs").is_ok());
}

#[test]
fn a_pattern_whose_regex_does_not_build_is_an_error() {
    let deep = format!("{}x{}", "{a,".repeat(300), "}".repeat(300));
    assert!(matches!(GlobWalk::start(&deep, String::from("/r")), Err(JobResultKind::GlobError(_))));
}
