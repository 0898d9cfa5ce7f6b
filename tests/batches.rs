use folco::batch::{customize_events, reset_events, Action, Batch, BatchKind, Phase, Progress};

fn dirs(n: usize) -> Vec<String> {
    (1..=n).map(|i| format!("/d{}", i)).collect()
}

fn processing(p: &str) -> Progress {
    Progress::Processing { path: p.to_string() }
}

fn complete(p: &str) -> Progress {
    Progress::FolderComplete { path: p.to_string() }
}

#[test]
fn customize_all_succeed() {
    let ev = customize_events(dirs(3), Ok(()), vec![Ok(()), Ok(()), Ok(())]);
    assert_eq!(
        ev,
        vec![
            Progress::Started { total: 3 },
            Progress::Rendering,
            processing("/d1"),
            complete("/d1"),
            processing("/d2"),
            complete("/d2"),
            processing("/d3"),
            complete("/d3"),
            Progress::Completed { succeeded: 3, failed: 0 },
        ]
    );
}

#[test]
fn customize_render_fails() {
    let ev = customize_events(dirs(2), Err("boom".to_string()), vec![Ok(()), Ok(())]);
    assert_eq!(
        ev,
        vec![
            Progress::Started { total: 2 },
            Progress::Rendering,
            Progress::RenderFailed { error: "boom".to_string() },
        ]
    );
}

#[test]
fn customize_second_install_fails() {
    let ev = customize_events(dirs(3), Ok(()), vec![Ok(()), Err("denied".to_string()), Ok(())]);
    assert_eq!(
        ev,
        vec![
            Progress::Started { total: 3 },
            Progress::Rendering,
            processing("/d1"),
            complete("/d1"),
            processing("/d2"),
            Progress::FolderFailed { path: "/d2".to_string(), error: "denied".to_string() },
            processing("/d3"),
            complete("/d3"),
            Progress::Completed { succeeded: 2, failed: 1 },
        ]
    );
}

#[test]
fn customize_no_directories() {
    let ev = customize_events(vec![], Ok(()), vec![]);
    assert_eq!(
        ev,
        vec![
            Progress::Started { total: 0 },
            Progress::Rendering,
            Progress::Completed { succeeded: 0, failed: 0 },
        ]
    );
}

#[test]
fn reset_mixed() {
    let ev = reset_events(dirs(2), vec![Err("missing".to_string()), Ok(())]);
    assert_eq!(
        ev,
        vec![
            Progress::Started { total: 2 },
            processing("/d1"),
            Progress::FolderFailed { path: "/d1".to_string(), error: "missing".to_string() },
            processing("/d2"),
            complete("/d2"),
            Progress::Completed { succeeded: 1, failed: 1 },
        ]
    );
}

#[test]
fn reset_no_directories() {
    assert_eq!(
        reset_events(vec![], vec![]),
        vec![Progress::Started { total: 0 }, Progress::Completed { succeeded: 0, failed: 0 }]
    );
}

#[test]
fn customize_steps() {
    let mut b = Batch::new(BatchKind::Customize, dirs(2));
    let (ev, a) = b.begin();
    assert_eq!(ev, vec![Progress::Started { total: 2 }, Progress::Rendering]);
    assert_eq!(a, Action::Render);
    assert_eq!(b.phase, Phase::Rendering);
    let (ev, a) = b.rendered(Ok(()));
    assert_eq!(ev, vec![processing("/d1")]);
    assert_eq!(a, Action::Install { index: 0 });
    let (ev, a) = b.folder_finished(Err("e".to_string()));
    assert_eq!(
        ev,
        vec![
            Progress::FolderFailed { path: "/d1".to_string(), error: "e".to_string() },
            processing("/d2"),
        ]
    );
    assert_eq!(a, Action::Install { index: 1 });
    let (ev, a) = b.folder_finished(Ok(()));
    assert_eq!(ev, vec![complete("/d2"), Progress::Completed { succeeded: 1, failed: 1 }]);
    assert_eq!(a, Action::Finish);
    assert_eq!(b.phase, Phase::Done);
}

#[test]
fn reset_steps() {
    let mut b = Batch::new(BatchKind::Reset, dirs(1));
    let (ev, a) = b.begin();
    assert_eq!(ev, vec![Progress::Started { total: 1 }, processing("/d1")]);
    assert_eq!(a, Action::Remove { index: 0 });
    let (ev, a) = b.folder_finished(Ok(()));
    assert_eq!(ev, vec![complete("/d1"), Progress::Completed { succeeded: 1, failed: 0 }]);
    assert_eq!(a, Action::Finish);
}
