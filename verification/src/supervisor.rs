//! The supervisor lifecycle: the plans for injection and resume, and the
//! signal-driven state machine that sequences inject, serve, resume, exit.
//! The caller performs the I/O (mounts, ptrace, the self-pipe read); every
//! decision is taken here.

use vstd::prelude::*;

use crate::injector::{InjectorPhase, MountInjector, MountOp, inject_ops_spec, recover_ops_spec};
use crate::path::AbsPath;
use crate::retry::{
    UMOUNT_RETRY_DELAY_MS, UMOUNT_RETRY_LIMIT, lemma_unmount_retry_budget, total_retry_delay,
};

verus! {

/// One step of a plan. Mount steps are performed against the kernel; the
/// rewrite steps drive the descriptor replacer; the toggles drive the fault
/// policy of the interposing filesystem.
pub enum PlanStep {
    /// Perform this mount operation.
    Mount(MountOp),
    /// Enumerate descriptors and prepare the replacer with these roots.
    PrepareFds { detect: AbsPath, new_root: AbsPath },
    /// Run the prepared replacer against every victim, then detach them all.
    RewriteFds,
    /// Arm the fault policy.
    EnableInjection,
    /// Disarm the fault policy.
    DisableInjection,
}

/// The spec-level image of a plan step.
pub ghost enum ModelStep {
    Mount(crate::injector::ModelOp),
    PrepareFds { detect: Seq<Seq<u8>>, new_root: Seq<Seq<u8>> },
    RewriteFds,
    EnableInjection,
    DisableInjection,
}

impl View for PlanStep {
    type V = ModelStep;

    open spec fn view(&self) -> ModelStep {
        match self {
            PlanStep::Mount(op) => ModelStep::Mount(op@),
            PlanStep::PrepareFds { detect, new_root } => ModelStep::PrepareFds {
                detect: detect@,
                new_root: new_root@,
            },
            PlanStep::RewriteFds => ModelStep::RewriteFds,
            PlanStep::EnableInjection => ModelStep::EnableInjection,
            PlanStep::DisableInjection => ModelStep::DisableInjection,
        }
    }
}

/// The injection plan, in its fixed order: make the target private, bind it
/// onto itself, mount the interposing filesystem at the shadow, rewrite the
/// victims' descriptors from the target onto the shadow, move the shadow
/// over the target, and only then arm the faults. With `mount_only` the
/// rewrite steps are left out: the documented degraded mode in which
/// surviving descriptors keep the underlay.
pub open spec fn inject_plan_spec(
    target: Seq<Seq<u8>>,
    shadow: Seq<Seq<u8>>,
    mount_only: bool,
) -> Seq<ModelStep> {
    let i = inject_ops_spec(target, shadow);
    if mount_only {
        seq![
            ModelStep::Mount(i[0]),
            ModelStep::Mount(i[1]),
            ModelStep::Mount(i[2]),
            ModelStep::Mount(i[3]),
            ModelStep::EnableInjection,
        ]
    } else {
        seq![
            ModelStep::Mount(i[0]),
            ModelStep::Mount(i[1]),
            ModelStep::Mount(i[2]),
            ModelStep::PrepareFds { detect: target, new_root: shadow },
            ModelStep::RewriteFds,
            ModelStep::Mount(i[3]),
            ModelStep::EnableInjection,
        ]
    }
}

/// The resume plan: disarm the faults first, so the victims' reopens are not
/// themselves perturbed, rewrite descriptors from the shadow back onto the
/// target, then unwind the mounts in strict reverse order.
pub open spec fn resume_plan_spec(
    target: Seq<Seq<u8>>,
    shadow: Seq<Seq<u8>>,
    mount_only: bool,
) -> Seq<ModelStep> {
    let r = recover_ops_spec(target, shadow);
    if mount_only {
        seq![
            ModelStep::DisableInjection,
            ModelStep::Mount(r[0]),
            ModelStep::Mount(r[1]),
            ModelStep::Mount(r[2]),
            ModelStep::Mount(r[3]),
        ]
    } else {
        seq![
            ModelStep::DisableInjection,
            ModelStep::PrepareFds { detect: shadow, new_root: target },
            ModelStep::RewriteFds,
            ModelStep::Mount(r[0]),
            ModelStep::Mount(r[1]),
            ModelStep::Mount(r[2]),
            ModelStep::Mount(r[3]),
        ]
    }
}

impl MountInjector {
    /// Lay out the injection and advance the injector to `Armed`. The caller
    /// performs the returned steps in order.
    pub fn inject_plan(&mut self, mount_only: bool) -> (r: Vec<PlanStep>)
        requires
            old(self).phase_of() == InjectorPhase::Prepared,
        ensures
            final(self).phase_of() == InjectorPhase::Armed,
            final(self).target_of() == old(self).target_of(),
            final(self).shadow_of() == old(self).shadow_of(),
            r@.map_values(|s: PlanStep| s@)
                == inject_plan_spec(old(self).target_of(), old(self).shadow_of(), mount_only),
    {
        let (mut pre, mut mv) = self.mount();
        let mut steps: Vec<PlanStep> = Vec::new();
        proof {
            let all = inject_ops_spec(self.target_of(), self.shadow_of());
            let pv = pre@.map_values(|op: MountOp| op@);
            let mav = mv@.map_values(|op: MountOp| op@);
            assert(pv + mav == all);
            assert(all.len() == 4);
            assert((pv + mav).len() == pv.len() + mav.len());
            assert(mav.len() == mv@.len());
            assert(pv.len() == 3);
            assert(pv[0] == all[0] && pv[1] == all[1] && pv[2] == all[2] && mav[0] == all[3]);
        }
        let op0 = pre.remove(0);
        let op1 = pre.remove(0);
        let op2 = pre.remove(0);
        let op3 = mv.remove(0);
        steps.push(PlanStep::Mount(op0));
        steps.push(PlanStep::Mount(op1));
        steps.push(PlanStep::Mount(op2));
        if !mount_only {
            let detect = self.target_path().clone_path();
            let new_root = self.shadow_path().clone_path();
            steps.push(PlanStep::PrepareFds { detect, new_root });
            steps.push(PlanStep::RewriteFds);
        }
        steps.push(PlanStep::Mount(op3));
        steps.push(PlanStep::EnableInjection);
        self.enable_injection();
        proof {
            assert(steps@.map_values(|s: PlanStep| s@)
                =~= inject_plan_spec(self.target_of(), self.shadow_of(), mount_only));
        }
        steps
    }

    /// Lay out the resume and return the injector to `Idle`. The caller
    /// performs the returned steps in order; every step runs even if an
    /// earlier one failed, so partial teardown still makes progress.
    pub fn resume_plan(&mut self, mount_only: bool) -> (r: Vec<PlanStep>)
        requires
            old(self).phase_of() == InjectorPhase::Mounted
                || old(self).phase_of() == InjectorPhase::Armed,
        ensures
            final(self).phase_of() == InjectorPhase::Idle,
            final(self).target_of() == old(self).target_of(),
            final(self).shadow_of() == old(self).shadow_of(),
            r@.map_values(|s: PlanStep| s@)
                == resume_plan_spec(old(self).target_of(), old(self).shadow_of(), mount_only),
    {
        self.disable_injection();
        let mut steps: Vec<PlanStep> = Vec::new();
        steps.push(PlanStep::DisableInjection);
        if !mount_only {
            let detect = self.shadow_path().clone_path();
            let new_root = self.target_path().clone_path();
            steps.push(PlanStep::PrepareFds { detect, new_root });
            steps.push(PlanStep::RewriteFds);
        }
        let mut ops = self.recover_mount();
        proof {
            let rv = ops@.map_values(|op: MountOp| op@);
            let all = recover_ops_spec(self.target_of(), self.shadow_of());
            assert(rv.len() == 4);
            assert(rv[0] == all[0] && rv[1] == all[1] && rv[2] == all[2] && rv[3] == all[3]);
        }
        let op0 = ops.remove(0);
        let op1 = ops.remove(0);
        let op2 = ops.remove(0);
        let op3 = ops.remove(0);
        steps.push(PlanStep::Mount(op0));
        steps.push(PlanStep::Mount(op1));
        steps.push(PlanStep::Mount(op2));
        steps.push(PlanStep::Mount(op3));
        proof {
            assert(steps@.map_values(|s: PlanStep| s@)
                =~= resume_plan_spec(self.target_of(), self.shadow_of(), mount_only));
        }
        steps
    }
}

/// Where the supervisor stands.
#[derive(Clone, Copy, PartialEq, Eq, Structural, Debug)]
pub enum SupervisorState {
    /// Injection is running.
    Injecting,
    /// Injection succeeded; the RPC surface is served while waiting for a
    /// signal.
    Serving,
    /// Injection failed; the error is reported over RPC while waiting for a
    /// signal, and resume will be skipped.
    ServingFailed,
    /// A signal arrived and resume is running; further signals are absorbed.
    Resuming,
    /// The supervisor is done.
    Exited,
}

/// What the supervisor reacts to.
#[derive(Clone, Copy, PartialEq, Eq, Structural, Debug)]
pub enum SupervisorEvent {
    InjectSucceeded,
    InjectFailed,
    /// A byte arrived on the self-pipe: SIGINT or SIGTERM was delivered.
    Signal,
    ResumeFinished,
}

/// What the caller must do after a transition.
#[derive(Clone, Copy, PartialEq, Eq, Structural, Debug)]
pub enum SupervisorAction {
    /// Nothing: keep waiting.
    Continue,
    /// Run the resume plan.
    StartResume,
    /// Exit with status zero.
    ExitCleanly,
    /// Exit reporting the injection failure.
    ExitReportError,
}

/// The supervisor's transition function. A first signal while serving starts
/// the resume; a signal after a failed injection skips the resume and exits
/// reporting the failure; a signal during resume is absorbed; finishing the
/// resume exits cleanly. Anything else keeps waiting.
pub open spec fn spec_step(
    s: SupervisorState,
    e: SupervisorEvent,
) -> (SupervisorState, SupervisorAction) {
    match (s, e) {
        (SupervisorState::Injecting, SupervisorEvent::InjectSucceeded) => (
            SupervisorState::Serving,
            SupervisorAction::Continue,
        ),
        (SupervisorState::Injecting, SupervisorEvent::InjectFailed) => (
            SupervisorState::ServingFailed,
            SupervisorAction::Continue,
        ),
        (SupervisorState::Serving, SupervisorEvent::Signal) => (
            SupervisorState::Resuming,
            SupervisorAction::StartResume,
        ),
        (SupervisorState::ServingFailed, SupervisorEvent::Signal) => (
            SupervisorState::Exited,
            SupervisorAction::ExitReportError,
        ),
        (SupervisorState::Resuming, SupervisorEvent::Signal) => (
            SupervisorState::Resuming,
            SupervisorAction::Continue,
        ),
        (SupervisorState::Resuming, SupervisorEvent::ResumeFinished) => (
            SupervisorState::Exited,
            SupervisorAction::ExitCleanly,
        ),
        (s2, _) => (s2, SupervisorAction::Continue),
    }
}

/// Take one supervisor transition.
pub fn step(s: SupervisorState, e: SupervisorEvent) -> (r: (SupervisorState, SupervisorAction))
    ensures
        r == spec_step(s, e),
{
    match (s, e) {
        (SupervisorState::Injecting, SupervisorEvent::InjectSucceeded) => (
            SupervisorState::Serving,
            SupervisorAction::Continue,
        ),
        (SupervisorState::Injecting, SupervisorEvent::InjectFailed) => (
            SupervisorState::ServingFailed,
            SupervisorAction::Continue,
        ),
        (SupervisorState::Serving, SupervisorEvent::Signal) => (
            SupervisorState::Resuming,
            SupervisorAction::StartResume,
        ),
        (SupervisorState::ServingFailed, SupervisorEvent::Signal) => (
            SupervisorState::Exited,
            SupervisorAction::ExitReportError,
        ),
        (SupervisorState::Resuming, SupervisorEvent::Signal) => (
            SupervisorState::Resuming,
            SupervisorAction::Continue,
        ),
        (SupervisorState::Resuming, SupervisorEvent::ResumeFinished) => (
            SupervisorState::Exited,
            SupervisorAction::ExitCleanly,
        ),
        (s2, _) => (s2, SupervisorAction::Continue),
    }
}

/// Signal absorption: once a signal has started the resume, any further
/// signal leaves the supervisor resuming and orders nothing; a second rapid
/// signal is harmless.
pub proof fn lemma_second_signal_absorbed()
    ensures
        spec_step(SupervisorState::Serving, SupervisorEvent::Signal)
            == (SupervisorState::Resuming, SupervisorAction::StartResume),
        spec_step(SupervisorState::Resuming, SupervisorEvent::Signal)
            == (SupervisorState::Resuming, SupervisorAction::Continue),
{
}

/// Signal liveness: after a single signal while serving, the supervisor
/// starts the resume at once and exits as soon as the resume finishes - two
/// transitions in all - and the resume's blocking work is bounded: its plan
/// has a fixed number of steps, of which exactly two are unmounts, and each
/// unmount sleeps at most one delay fewer than the attempt limit.
pub proof fn lemma_signal_liveness(
    target: Seq<Seq<u8>>,
    shadow: Seq<Seq<u8>>,
    mount_only: bool,
    attempts: nat,
)
    ensures
        spec_step(SupervisorState::Serving, SupervisorEvent::Signal)
            == (SupervisorState::Resuming, SupervisorAction::StartResume),
        spec_step(SupervisorState::Resuming, SupervisorEvent::ResumeFinished)
            == (SupervisorState::Exited, SupervisorAction::ExitCleanly),
        resume_plan_spec(target, shadow, mount_only).len() <= 7,
        total_retry_delay(attempts)
            <= (UMOUNT_RETRY_LIMIT - 1) as nat * UMOUNT_RETRY_DELAY_MS as nat,
{
    lemma_unmount_retry_budget(attempts);
}

/// Descriptor continuity across the two plans: a victim path under the
/// target is carried by the injection rewrite to the same trailing
/// components under the shadow, and the resume rewrite - which uses exactly
/// the swapped roots - carries it back unchanged.
pub proof fn lemma_fd_continuity(p: Seq<Seq<u8>>, target: Seq<Seq<u8>>, shadow: Seq<Seq<u8>>)
    requires
        crate::path::is_path_prefix(target, p),
    ensures
        crate::path::is_path_prefix(shadow, crate::path::rewrite_spec(p, target, shadow)),
        crate::path::rewrite_spec(p, target, shadow)
            == shadow + p.skip(target.len() as int),
        crate::path::rewrite_spec(
            crate::path::rewrite_spec(p, target, shadow),
            shadow,
            target,
        ) == p,
{
    crate::path::lemma_rewrite_round_trip(p, target, shadow);
}

/// The mount operations a plan performs, in order.
pub open spec fn plan_mount_ops(steps: Seq<ModelStep>) -> Seq<crate::injector::ModelOp>
    decreases steps.len(),
{
    if steps.len() == 0 {
        Seq::empty()
    } else {
        let rest = plan_mount_ops(steps.skip(1));
        if steps[0] is Mount {
            seq![steps[0]->Mount_0] + rest
        } else {
            rest
        }
    }
}

/// Mount idempotence at the plan level: the injection plan performs exactly
/// the injection mount operations and the resume plan exactly the recovery
/// ones, so on any table where the target is a mount point and the shadow is
/// free, performing both plans restores the table exactly.
pub proof fn lemma_plan_mount_idempotence(
    t0: Seq<crate::injector::ModelMount>,
    target: Seq<Seq<u8>>,
    shadow: Seq<Seq<u8>>,
    mount_only: bool,
)
    requires
        crate::injector::top_idx(t0, target) >= 0,
        crate::injector::top_idx(t0, shadow) == -1,
        target != shadow,
    ensures
        plan_mount_ops(inject_plan_spec(target, shadow, mount_only))
            == inject_ops_spec(target, shadow),
        plan_mount_ops(resume_plan_spec(target, shadow, mount_only))
            == recover_ops_spec(target, shadow),
        crate::injector::apply_ops(
            crate::injector::apply_ops(
                t0,
                plan_mount_ops(inject_plan_spec(target, shadow, mount_only)),
            ),
            plan_mount_ops(resume_plan_spec(target, shadow, mount_only)),
        ) == t0,
{
    lemma_plan_mount_ops_eq(target, shadow, mount_only);
    crate::injector::lemma_mount_round_trip(t0, target, shadow);
}

/// The plans' mount operations are the injector's, in the same order.
proof fn lemma_plan_mount_ops_eq(target: Seq<Seq<u8>>, shadow: Seq<Seq<u8>>, mount_only: bool)
    ensures
        plan_mount_ops(inject_plan_spec(target, shadow, mount_only))
            == inject_ops_spec(target, shadow),
        plan_mount_ops(resume_plan_spec(target, shadow, mount_only))
            == recover_ops_spec(target, shadow),
{
    let ip = inject_plan_spec(target, shadow, mount_only);
    let rp = resume_plan_spec(target, shadow, mount_only);
    reveal_with_fuel(plan_mount_ops, 9);
    assert(ip.skip(1).skip(1) =~= ip.skip(2));
    assert(ip.skip(2).skip(1) =~= ip.skip(3));
    assert(ip.skip(3).skip(1) =~= ip.skip(4));
    assert(rp.skip(1).skip(1) =~= rp.skip(2));
    assert(rp.skip(2).skip(1) =~= rp.skip(3));
    assert(rp.skip(3).skip(1) =~= rp.skip(4));
    if !mount_only {
        assert(ip.skip(4).skip(1) =~= ip.skip(5));
        assert(ip.skip(5).skip(1) =~= ip.skip(6));
        assert(ip.skip(6).skip(1) =~= ip.skip(7));
        assert(rp.skip(4).skip(1) =~= rp.skip(5));
        assert(rp.skip(5).skip(1) =~= rp.skip(6));
        assert(rp.skip(6).skip(1) =~= rp.skip(7));
    } else {
        assert(ip.skip(4).skip(1) =~= ip.skip(5));
        assert(rp.skip(4).skip(1) =~= rp.skip(5));
    }
    assert(plan_mount_ops(ip) =~= inject_ops_spec(target, shadow));
    assert(plan_mount_ops(rp) =~= recover_ops_spec(target, shadow));
}

} // verus!
