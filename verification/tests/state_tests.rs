use aether_convert::state::Supervisor;

#[test]
fn register_then_remove_returns_handle() {
    let mut s: Supervisor<u32> = Supervisor::new();
    s.register_process(String::from("a"), 7);
    assert_eq!(s.remove_process("a"), Some(7));
    assert_eq!(s.remove_process("a"), None);
}

#[test]
fn register_replaces_existing_handle() {
    let mut s: Supervisor<u32> = Supervisor::new();
    s.register_process(String::from("a"), 7);
    s.register_process(String::from("a"), 8);
    assert_eq!(s.remove_process("a"), Some(8));
    assert_eq!(s.remove_process("a"), None);
}

#[test]
fn output_paths_tracked_independently() {
    let mut s: Supervisor<u32> = Supervisor::new();
    s.register_output_path(String::from("a"), String::from("/out/a.mp4"));
    assert_eq!(s.remove_process("a"), None);
    assert_eq!(s.remove_output_path("a"), Some(String::from("/out/a.mp4")));
    assert_eq!(s.remove_output_path("a"), None);
}

#[test]
fn cancel_removes_job_and_returns_claimed_path() {
    let mut s: Supervisor<u32> = Supervisor::new();
    s.register_process(String::from("a"), 7);
    s.register_output_path(String::from("a"), String::from("/out/a.mp4"));
    s.register_process(String::from("b"), 9);
    let (handle, path) = s.kill_process("a");
    assert_eq!(handle, Some(7));
    assert_eq!(path, Some(String::from("/out/a.mp4")));
    // the cancelled job is gone from both registries
    assert_eq!(s.remove_process("a"), None);
    assert_eq!(s.remove_output_path("a"), None);
    // unrelated jobs are untouched
    assert_eq!(s.remove_process("b"), Some(9));
}

#[test]
fn cancel_unknown_id_is_noop_success() {
    let mut s: Supervisor<u32> = Supervisor::new();
    let (handle, path) = s.kill_process("ghost");
    assert_eq!(handle, None);
    assert_eq!(path, None);
}

#[test]
fn kill_all_drains_every_job_and_path() {
    let mut s: Supervisor<u32> = Supervisor::new();
    for i in 0..50u32 {
        s.register_process(format!("job-{}", i), i);
        s.register_output_path(format!("job-{}", i), format!("/out/{}.mp4", i));
    }
    let (handles, paths) = s.kill_all();
    assert_eq!(handles, (0..50).collect::<Vec<u32>>());
    assert_eq!(paths.len(), 50);
    for i in 0..50u32 {
        assert!(paths.contains(&format!("/out/{}.mp4", i)));
        assert_eq!(s.remove_process(&format!("job-{}", i)), None);
        assert_eq!(s.remove_output_path(&format!("job-{}", i)), None);
    }
}

#[test]
fn kill_all_on_empty_registry() {
    let mut s: Supervisor<u32> = Supervisor::new();
    let (handles, paths) = s.kill_all();
    assert!(handles.is_empty());
    assert!(paths.is_empty());
}
