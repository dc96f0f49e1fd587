use toda::AbsPath;
use toda::MountsInfo;
use toda::injector::{InjectorError, InjectorPhase, MountInjector, MountOp};
use toda::mounts::MountError;
use toda::retry::{UMOUNT_RETRY_DELAY_MS, UmountDecision, umount_retry_step};
use toda::supervisor::{
    PlanStep, SupervisorAction, SupervisorEvent, SupervisorState, step,
};

fn p(s: &str) -> AbsPath {
    AbsPath::from_bytes(&s.as_bytes().to_vec()).unwrap()
}

fn mounts(points: &[&str]) -> MountsInfo {
    let raw: Vec<Vec<u8>> = points.iter().map(|s| s.as_bytes().to_vec()).collect();
    MountsInfo::parse_mounts(&raw).unwrap()
}

#[test]
fn parse_mounts_and_non_root() {
    let m = mounts(&["/", "/tmp"]);
    assert_eq!(m.len(), 2);
    assert!(m.non_root(&p("/tmp/chaos-a")));
    let only_tmp = mounts(&["/tmp"]);
    assert!(!only_tmp.non_root(&p("/var/x")));
    assert!(only_tmp.non_root(&p("/tmp")));
}

#[test]
fn parse_mounts_rejects_bad_entries() {
    let raw: Vec<Vec<u8>> = vec![b"/tmp".to_vec(), b"tmp".to_vec()];
    assert!(matches!(
        MountsInfo::parse_mounts(&raw),
        Err(MountError::BadMountPoint)
    ));
}

#[test]
fn create_injection_validates_target() {
    let m = mounts(&["/", "/tmp"]);
    let inj = MountInjector::create_injection(&p("/tmp/chaos-a"), &m).unwrap();
    assert_eq!(inj.phase(), InjectorPhase::Prepared);
    assert_eq!(
        inj.shadow_path().to_bytes(),
        b"/tmp/__chaosfs__chaos-a__".to_vec()
    );

    let narrow = mounts(&["/tmp"]);
    assert!(matches!(
        MountInjector::create_injection(&p("/var/x"), &narrow),
        Err(InjectorError::NotMountCovered)
    ));
    assert!(matches!(
        MountInjector::create_injection(&p("/"), &m),
        Err(InjectorError::RootTarget)
    ));
}

#[test]
fn injector_phases_and_toggles() {
    let m = mounts(&["/"]);
    let mut inj = MountInjector::create_injection(&p("/tmp/chaos-a"), &m).unwrap();
    let (pre, mv) = inj.mount();
    assert_eq!(inj.phase(), InjectorPhase::Mounted);
    assert_eq!(pre.len(), 3);
    assert_eq!(mv.len(), 1);
    assert!(matches!(&pre[0], MountOp::MakePrivate(path) if path.path_eq(&p("/tmp/chaos-a"))));
    assert!(matches!(&pre[2], MountOp::MountHookfs(path)
        if path.path_eq(&p("/tmp/__chaosfs__chaos-a__"))));
    assert!(matches!(&mv[0], MountOp::Move { src, dst }
        if src.path_eq(&p("/tmp/__chaosfs__chaos-a__")) && dst.path_eq(&p("/tmp/chaos-a"))));
    // The toggles are idempotent.
    inj.enable_injection();
    inj.enable_injection();
    assert_eq!(inj.phase(), InjectorPhase::Armed);
    inj.disable_injection();
    inj.disable_injection();
    assert_eq!(inj.phase(), InjectorPhase::Mounted);
    let rec = inj.recover_mount();
    assert_eq!(inj.phase(), InjectorPhase::Idle);
    assert_eq!(rec.len(), 4);
    assert!(matches!(&rec[0], MountOp::Move { src, dst }
        if src.path_eq(&p("/tmp/chaos-a")) && dst.path_eq(&p("/tmp/__chaosfs__chaos-a__"))));
    assert!(matches!(&rec[1], MountOp::Unmount(path)
        if path.path_eq(&p("/tmp/__chaosfs__chaos-a__"))));
    assert!(matches!(&rec[2], MountOp::Unmount(path) if path.path_eq(&p("/tmp/chaos-a"))));
    assert!(matches!(&rec[3], MountOp::RemoveDir(path)
        if path.path_eq(&p("/tmp/__chaosfs__chaos-a__"))));
}

#[test]
fn inject_plan_orders_rewrite_before_move() {
    let m = mounts(&["/"]);
    let mut inj = MountInjector::create_injection(&p("/tmp/chaos-b"), &m).unwrap();
    let steps = inj.inject_plan(false);
    assert_eq!(inj.phase(), InjectorPhase::Armed);
    assert_eq!(steps.len(), 7);
    assert!(matches!(&steps[0], PlanStep::Mount(MountOp::MakePrivate(_))));
    assert!(matches!(&steps[1], PlanStep::Mount(MountOp::Bind { .. })));
    assert!(matches!(&steps[2], PlanStep::Mount(MountOp::MountHookfs(_))));
    assert!(matches!(&steps[3], PlanStep::PrepareFds { detect, new_root }
        if detect.path_eq(&p("/tmp/chaos-b"))
            && new_root.path_eq(&p("/tmp/__chaosfs__chaos-b__"))));
    assert!(matches!(&steps[4], PlanStep::RewriteFds));
    assert!(matches!(&steps[5], PlanStep::Mount(MountOp::Move { .. })));
    assert!(matches!(&steps[6], PlanStep::EnableInjection));
}

#[test]
fn mount_only_plan_skips_descriptor_rewrite() {
    let m = mounts(&["/"]);
    let mut inj = MountInjector::create_injection(&p("/tmp/chaos-c"), &m).unwrap();
    let steps = inj.inject_plan(true);
    assert_eq!(steps.len(), 5);
    for s in &steps {
        assert!(!matches!(s, PlanStep::PrepareFds { .. }));
        assert!(!matches!(s, PlanStep::RewriteFds));
    }
    let resume = inj.resume_plan(true);
    assert_eq!(resume.len(), 5);
    assert!(matches!(&resume[0], PlanStep::DisableInjection));
}

#[test]
fn resume_plan_disables_first_and_swaps_roots() {
    let m = mounts(&["/"]);
    let mut inj = MountInjector::create_injection(&p("/tmp/chaos-b"), &m).unwrap();
    let _ = inj.inject_plan(false);
    let steps = inj.resume_plan(false);
    assert_eq!(inj.phase(), InjectorPhase::Idle);
    assert_eq!(steps.len(), 7);
    assert!(matches!(&steps[0], PlanStep::DisableInjection));
    assert!(matches!(&steps[1], PlanStep::PrepareFds { detect, new_root }
        if detect.path_eq(&p("/tmp/__chaosfs__chaos-b__"))
            && new_root.path_eq(&p("/tmp/chaos-b"))));
    assert!(matches!(&steps[2], PlanStep::RewriteFds));
    assert!(matches!(&steps[3], PlanStep::Mount(MountOp::Move { .. })));
    assert!(matches!(&steps[6], PlanStep::Mount(MountOp::RemoveDir(_))));
}

#[test]
fn signal_starts_resume_then_exits_cleanly() {
    // A SIGTERM before any RPC call: clean resume and exit status zero.
    let (s1, a1) = step(SupervisorState::Injecting, SupervisorEvent::InjectSucceeded);
    assert_eq!(s1, SupervisorState::Serving);
    assert_eq!(a1, SupervisorAction::Continue);
    let (s2, a2) = step(s1, SupervisorEvent::Signal);
    assert_eq!(s2, SupervisorState::Resuming);
    assert_eq!(a2, SupervisorAction::StartResume);
    let (s3, a3) = step(s2, SupervisorEvent::ResumeFinished);
    assert_eq!(s3, SupervisorState::Exited);
    assert_eq!(a3, SupervisorAction::ExitCleanly);
}

#[test]
fn second_rapid_signal_is_absorbed() {
    let (s1, _) = step(SupervisorState::Serving, SupervisorEvent::Signal);
    let (s2, a2) = step(s1, SupervisorEvent::Signal);
    assert_eq!(s2, SupervisorState::Resuming);
    assert_eq!(a2, SupervisorAction::Continue);
    let (s3, a3) = step(s2, SupervisorEvent::ResumeFinished);
    assert_eq!(s3, SupervisorState::Exited);
    assert_eq!(a3, SupervisorAction::ExitCleanly);
}

#[test]
fn failed_injection_waits_then_reports() {
    let (s1, a1) = step(SupervisorState::Injecting, SupervisorEvent::InjectFailed);
    assert_eq!(s1, SupervisorState::ServingFailed);
    assert_eq!(a1, SupervisorAction::Continue);
    let (s2, a2) = step(s1, SupervisorEvent::Signal);
    assert_eq!(s2, SupervisorState::Exited);
    assert_eq!(a2, SupervisorAction::ExitReportError);
}

#[test]
fn umount_retry_policy() {
    assert_eq!(umount_retry_step(0, true), UmountDecision::Done);
    assert_eq!(
        umount_retry_step(0, false),
        UmountDecision::RetryAfterMs(UMOUNT_RETRY_DELAY_MS)
    );
    assert_eq!(
        umount_retry_step(18, false),
        UmountDecision::RetryAfterMs(500)
    );
    assert_eq!(umount_retry_step(19, false), UmountDecision::GiveUp);
}
