use deepseek_harness::process::{
    dsh_command, DshProcess, JobBinding, KillPlan, Platform, Stream, CREATE_NO_WINDOW, TREE_KILL_PROGRAM,
};

#[test]
fn command_on_windows() {
    let c = dsh_command(Platform::Windows);
    assert_eq!(c.program, "cmd");
    assert_eq!(c.args, vec!["/C", "dsh", "web", "--no-open"]);
    assert_eq!((c.stdin, c.stdout, c.stderr), (Stream::Null, Stream::Piped, Stream::Piped));
    assert_eq!(c.creation_flags, Some(0x08000000));
    assert_eq!(c.creation_flags, Some(CREATE_NO_WINDOW));
    assert!(c.bind_to_job);
}

#[test]
fn command_elsewhere() {
    let c = dsh_command(Platform::Other);
    assert_eq!(c.program, "dsh");
    assert_eq!(c.args, vec!["web", "--no-open"]);
    assert_eq!((c.stdin, c.stdout, c.stderr), (Stream::Null, Stream::Piped, Stream::Piped));
    assert_eq!(c.creation_flags, None);
    assert!(!c.bind_to_job);
}

#[test]
fn tree_is_killed_on_windows() {
    assert_eq!(TREE_KILL_PROGRAM, "taskkill");
    let mut p = DshProcess::new();
    p.hold(4242);
    match p.kill_dsh(Platform::Windows) {
        KillPlan::Kill { pid, tree_kill } => {
            assert_eq!(pid, 4242);
            assert_eq!(tree_kill.unwrap(), vec!["/PID", "4242", "/T", "/F"]);
        }
        KillPlan::Nothing => panic!("nothing"),
    }
}

#[test]
fn process_is_killed_once() {
    let mut p = DshProcess::new();
    assert!(matches!(p.kill_dsh(Platform::Other), KillPlan::Nothing));
    p.hold(7);
    assert!(matches!(
        p.kill_dsh(Platform::Other),
        KillPlan::Kill { pid: 7, tree_kill: None }
    ));
    assert!(matches!(p.kill_dsh(Platform::Other), KillPlan::Nothing));
    p.hold(8);
    assert!(matches!(p.kill_dsh(Platform::Other), KillPlan::Kill { pid: 8, .. }));
}

#[test]
fn job_is_bound_after_three_successes() {
    let s = JobBinding::Create;
    let s = s.advance(true);
    assert_eq!(s, JobBinding::SetLimits);
    let s = s.advance(true);
    assert_eq!(s, JobBinding::Assign);
    let s = s.advance(true);
    assert_eq!(s, JobBinding::Bound);
    assert_eq!(s.advance(false), JobBinding::Bound);
}

#[test]
fn first_failure_ends_the_binding() {
    assert_eq!(JobBinding::Create.advance(false), JobBinding::CreateFailed);
    assert_eq!(JobBinding::SetLimits.advance(false), JobBinding::SetLimitsFailed);
    assert_eq!(JobBinding::Assign.advance(false), JobBinding::AssignFailed);
    assert_eq!(JobBinding::CreateFailed.advance(true), JobBinding::CreateFailed);
    assert_eq!(JobBinding::SetLimitsFailed.advance(true), JobBinding::SetLimitsFailed);
    assert_eq!(JobBinding::AssignFailed.advance(true), JobBinding::AssignFailed);
}
