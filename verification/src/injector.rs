//! The mount injector: the state machine that stages the interposing
//! filesystem at the shadow path, moves it over the target, and unwinds both
//! steps, together with a model of the mount table on which the round trip
//! is proved to restore the initial state.

use vstd::prelude::*;

use crate::mounts::MountsInfo;
use crate::path::{AbsPath, encode_spec, is_path_prefix};

verus! {

/// A mount operation of the injection or recovery plan. The caller performs
/// each against the kernel, in order.
pub enum MountOp {
    /// Mark the mount at the path private, so mount events do not propagate.
    MakePrivate(AbsPath),
    /// Bind-mount `src` at `dst`.
    Bind { src: AbsPath, dst: AbsPath },
    /// Create the shadow directory and mount the interposing filesystem there.
    MountHookfs(AbsPath),
    /// Atomically relocate the topmost mount at `src` to `dst`.
    Move { src: AbsPath, dst: AbsPath },
    /// Unmount the topmost mount at the path, retrying as the policy says.
    Unmount(AbsPath),
    /// Remove the shadow directory.
    RemoveDir(AbsPath),
}

/// The spec-level image of a mount operation, over path views.
pub ghost enum ModelOp {
    MakePrivate(Seq<Seq<u8>>),
    Bind { src: Seq<Seq<u8>>, dst: Seq<Seq<u8>> },
    MountHookfs(Seq<Seq<u8>>),
    Move { src: Seq<Seq<u8>>, dst: Seq<Seq<u8>> },
    Unmount(Seq<Seq<u8>>),
    RemoveDir(Seq<Seq<u8>>),
}

impl View for MountOp {
    type V = ModelOp;

    open spec fn view(&self) -> ModelOp {
        match self {
            MountOp::MakePrivate(p) => ModelOp::MakePrivate(p@),
            MountOp::Bind { src, dst } => ModelOp::Bind { src: src@, dst: dst@ },
            MountOp::MountHookfs(p) => ModelOp::MountHookfs(p@),
            MountOp::Move { src, dst } => ModelOp::Move { src: src@, dst: dst@ },
            MountOp::Unmount(p) => ModelOp::Unmount(p@),
            MountOp::RemoveDir(p) => ModelOp::RemoveDir(p@),
        }
    }
}

/// What a mount serves in the model: the underlay filesystem it was bound
/// from, or the interposing filesystem.
pub ghost enum ModelFs {
    Underlay(int),
    Hookfs,
}

/// One entry of the modelled mount table: what is mounted, and where.
pub ghost struct ModelMount {
    pub fs: ModelFs,
    pub mp: Seq<Seq<u8>>,
}

/// The index of the topmost (latest) mount at `p`, or -1 when nothing is
/// mounted there.
pub open spec fn top_idx(t: Seq<ModelMount>, p: Seq<Seq<u8>>) -> int
    decreases t.len(),
{
    if t.len() == 0 {
        -1
    } else if t.last().mp == p {
        t.len() - 1
    } else {
        top_idx(t.drop_last(), p)
    }
}

/// The effect of one operation on the modelled mount table. Making a mount
/// private and removing a directory do not change the table; binding stacks
/// a new mount of the source's filesystem; moving re-points the topmost
/// mount; unmounting removes it.
pub open spec fn apply_op(t: Seq<ModelMount>, op: ModelOp) -> Seq<ModelMount> {
    match op {
        ModelOp::MakePrivate(_) => t,
        ModelOp::Bind { src, dst } => if top_idx(t, src) >= 0 {
            t.push(ModelMount { fs: t[top_idx(t, src)].fs, mp: dst })
        } else {
            t
        },
        ModelOp::MountHookfs(p) => t.push(ModelMount { fs: ModelFs::Hookfs, mp: p }),
        ModelOp::Move { src, dst } => if top_idx(t, src) >= 0 {
            t.update(top_idx(t, src), ModelMount { fs: t[top_idx(t, src)].fs, mp: dst })
        } else {
            t
        },
        ModelOp::Unmount(p) => if top_idx(t, p) >= 0 {
            t.remove(top_idx(t, p))
        } else {
            t
        },
        ModelOp::RemoveDir(_) => t,
    }
}

/// The effect of a whole plan, first operation first.
pub open spec fn apply_ops(t: Seq<ModelMount>, ops: Seq<ModelOp>) -> Seq<ModelMount>
    decreases ops.len(),
{
    if ops.len() == 0 {
        t
    } else {
        apply_ops(apply_op(t, ops[0]), ops.skip(1))
    }
}

/// The injection plan's mount operations, in their fixed order: make the
/// target private, bind it onto itself, mount the interposing filesystem at
/// the shadow, and - after the descriptor rewrite - move it over the target.
pub open spec fn inject_ops_spec(target: Seq<Seq<u8>>, shadow: Seq<Seq<u8>>) -> Seq<ModelOp> {
    seq![
        ModelOp::MakePrivate(target),
        ModelOp::Bind { src: target, dst: target },
        ModelOp::MountHookfs(shadow),
        ModelOp::Move { src: shadow, dst: target },
    ]
}

/// The recovery plan's mount operations, the strict reverse: move the
/// interposing mount back to the shadow, unmount it, unmount the self-bind,
/// and remove the shadow directory.
pub open spec fn recover_ops_spec(target: Seq<Seq<u8>>, shadow: Seq<Seq<u8>>) -> Seq<ModelOp> {
    seq![
        ModelOp::Move { src: target, dst: shadow },
        ModelOp::Unmount(shadow),
        ModelOp::Unmount(target),
        ModelOp::RemoveDir(shadow),
    ]
}

/// Mount idempotence: on any mount table where the target is a mount point
/// and nothing is mounted at the shadow, the injection operations followed by
/// the recovery operations restore the table exactly.
pub proof fn lemma_mount_round_trip(t0: Seq<ModelMount>, target: Seq<Seq<u8>>, shadow: Seq<Seq<u8>>)
    requires
        top_idx(t0, target) >= 0,
        top_idx(t0, shadow) == -1,
        target != shadow,
    ensures
        apply_ops(apply_ops(t0, inject_ops_spec(target, shadow)), recover_ops_spec(target, shadow))
            == t0,
{
    let i = inject_ops_spec(target, shadow);
    let r = recover_ops_spec(target, shadow);
    let fs0 = t0[top_idx(t0, target)].fs;

    // Injection, step by step.
    let t1 = apply_op(t0, i[0]);
    assert(t1 == t0);
    let t2 = apply_op(t1, i[1]);
    assert(t2 == t0.push(ModelMount { fs: fs0, mp: target }));
    let t3 = apply_op(t2, i[2]);
    assert(t3 == t2.push(ModelMount { fs: ModelFs::Hookfs, mp: shadow }));
    let t4 = apply_op(t3, i[3]);
    assert(t3.last().mp == shadow);
    assert(top_idx(t3, shadow) == t3.len() - 1);
    assert(t4 == t3.update(t3.len() - 1, ModelMount { fs: ModelFs::Hookfs, mp: target }));
    assert(apply_ops(t0, i) == apply_ops(t1, i.skip(1)));
    assert(i.skip(1) =~= seq![i[1], i[2], i[3]]);
    assert(apply_ops(t1, seq![i[1], i[2], i[3]])
        == apply_ops(t2, seq![i[1], i[2], i[3]].skip(1)));
    assert(seq![i[1], i[2], i[3]].skip(1) =~= seq![i[2], i[3]]);
    assert(apply_ops(t2, seq![i[2], i[3]]) == apply_ops(t3, seq![i[2], i[3]].skip(1)));
    assert(seq![i[2], i[3]].skip(1) =~= seq![i[3]]);
    assert(apply_ops(t3, seq![i[3]]) == apply_ops(t4, seq![i[3]].skip(1)));
    assert(seq![i[3]].skip(1) =~= Seq::<ModelOp>::empty());
    assert(apply_ops(t0, i) == t4);

    // Recovery, step by step.
    assert(t4.last() == ModelMount { fs: ModelFs::Hookfs, mp: target });
    assert(top_idx(t4, target) == t4.len() - 1);
    let t5 = apply_op(t4, r[0]);
    assert(t5 == t4.update(t4.len() - 1, ModelMount { fs: ModelFs::Hookfs, mp: shadow }));
    assert(t5.last() == ModelMount { fs: ModelFs::Hookfs, mp: shadow });
    assert(top_idx(t5, shadow) == t5.len() - 1);
    let t6 = apply_op(t5, r[1]);
    assert(t6 == t5.remove(t5.len() - 1));
    assert(t6 =~= t0.push(ModelMount { fs: fs0, mp: target }));
    assert(t6.last().mp == target);
    assert(top_idx(t6, target) == t6.len() - 1);
    let t7 = apply_op(t6, r[2]);
    assert(t7 == t6.remove(t6.len() - 1));
    assert(t7 =~= t0);
    let t8 = apply_op(t7, r[3]);
    assert(t8 == t0);
    assert(apply_ops(t4, r) == apply_ops(t5, r.skip(1)));
    assert(r.skip(1) =~= seq![r[1], r[2], r[3]]);
    assert(apply_ops(t5, seq![r[1], r[2], r[3]])
        == apply_ops(t6, seq![r[1], r[2], r[3]].skip(1)));
    assert(seq![r[1], r[2], r[3]].skip(1) =~= seq![r[2], r[3]]);
    assert(apply_ops(t6, seq![r[2], r[3]]) == apply_ops(t7, seq![r[2], r[3]].skip(1)));
    assert(seq![r[2], r[3]].skip(1) =~= seq![r[3]]);
    assert(apply_ops(t7, seq![r[3]]) == apply_ops(t8, seq![r[3]].skip(1)));
    assert(seq![r[3]].skip(1) =~= Seq::<ModelOp>::empty());
    assert(apply_ops(t4, r) == t0);
}

/// The errors of injection setup.
#[derive(Clone, Copy, PartialEq, Eq, Structural, Debug)]
pub enum InjectorError {
    /// The target is not covered by any existing mount, so a mount cannot be
    /// moved over it.
    NotMountCovered,
    /// The target is the filesystem root, which has no shadow.
    RootTarget,
}

/// The injector's lifecycle.
#[derive(Clone, Copy, PartialEq, Eq, Structural, Debug)]
pub enum InjectorPhase {
    Idle,
    Prepared,
    Mounted,
    Armed,
}

/// A live interposition: the canonical target, its shadow, and where in the
/// lifecycle it stands. Created by `create_injection`, consumed by
/// `recover_mount`.
pub struct MountInjector {
    phase: InjectorPhase,
    original_path: AbsPath,
    new_path: AbsPath,
}

impl MountInjector {
    pub closed spec fn phase_of(&self) -> InjectorPhase {
        self.phase
    }

    pub closed spec fn target_of(&self) -> Seq<Seq<u8>> {
        self.original_path@
    }

    pub closed spec fn shadow_of(&self) -> Seq<Seq<u8>> {
        self.new_path@
    }

    /// The canonical target path.
    pub fn target_path(&self) -> (r: &AbsPath)
        ensures
            r@ == self.target_of(),
    {
        &self.original_path
    }

    /// The shadow path.
    pub fn shadow_path(&self) -> (r: &AbsPath)
        ensures
            r@ == self.shadow_of(),
    {
        &self.new_path
    }

    pub fn phase(&self) -> (r: InjectorPhase)
        ensures
            r == self.phase_of(),
    {
        self.phase
    }

    /// Validate the target and derive its shadow. Succeeds exactly when the
    /// target is covered by a mount and is not the root.
    pub fn create_injection(path: &AbsPath, mounts: &MountsInfo) -> (r: Result<
        MountInjector,
        InjectorError,
    >)
        ensures
            r is Ok <==> (exists|i: int|
                0 <= i < mounts@.len() && is_path_prefix(#[trigger] mounts@[i], path@))
                && path@.len() > 0,
            r matches Ok(m) ==> {
                &&& m.phase_of() == InjectorPhase::Prepared
                &&& m.target_of() == path@
                &&& m.shadow_of() == encode_spec(path@)
            },
            r matches Err(e) ==> (e == InjectorError::NotMountCovered
                <==> !(exists|i: int|
                    0 <= i < mounts@.len() && is_path_prefix(#[trigger] mounts@[i], path@))),
    {
        if !mounts.non_root(path) {
            return Err(InjectorError::NotMountCovered);
        }
        match path.encode_path() {
            Ok(shadow) => Ok(MountInjector {
                phase: InjectorPhase::Prepared,
                original_path: path.clone_path(),
                new_path: shadow,
            }),
            Err(_) => Err(InjectorError::RootTarget),
        }
    }

    /// Stage the interposition: the operations to perform before the
    /// descriptor rewrite (make private, self-bind, mount the hookfs at the
    /// shadow) and the move to perform after it.
    pub fn mount(&mut self) -> (r: (Vec<MountOp>, Vec<MountOp>))
        requires
            old(self).phase_of() == InjectorPhase::Prepared,
        ensures
            final(self).phase_of() == InjectorPhase::Mounted,
            final(self).target_of() == old(self).target_of(),
            final(self).shadow_of() == old(self).shadow_of(),
            r.0@.map_values(|op: MountOp| op@) + r.1@.map_values(|op: MountOp| op@)
                == inject_ops_spec(old(self).target_of(), old(self).shadow_of()),
            r.1@.len() == 1,
    {
        self.phase = InjectorPhase::Mounted;
        let mut pre: Vec<MountOp> = Vec::new();
        pre.push(MountOp::MakePrivate(self.original_path.clone_path()));
        pre.push(MountOp::Bind {
            src: self.original_path.clone_path(),
            dst: self.original_path.clone_path(),
        });
        pre.push(MountOp::MountHookfs(self.new_path.clone_path()));
        let mut mv: Vec<MountOp> = Vec::new();
        mv.push(MountOp::Move {
            src: self.new_path.clone_path(),
            dst: self.original_path.clone_path(),
        });
        proof {
            assert(pre@.map_values(|op: MountOp| op@) + mv@.map_values(|op: MountOp| op@)
                =~= inject_ops_spec(self.original_path@, self.new_path@));
        }
        (pre, mv)
    }

    /// Arm the fault policy. Idempotent: arming an armed injector is a no-op.
    pub fn enable_injection(&mut self)
        requires
            old(self).phase_of() == InjectorPhase::Mounted
                || old(self).phase_of() == InjectorPhase::Armed,
        ensures
            final(self).phase_of() == InjectorPhase::Armed,
            final(self).target_of() == old(self).target_of(),
            final(self).shadow_of() == old(self).shadow_of(),
    {
        self.phase = InjectorPhase::Armed;
    }

    /// Disarm the fault policy. Idempotent: disarming a merely mounted
    /// injector is a no-op.
    pub fn disable_injection(&mut self)
        requires
            old(self).phase_of() == InjectorPhase::Mounted
                || old(self).phase_of() == InjectorPhase::Armed,
        ensures
            final(self).phase_of() == InjectorPhase::Mounted,
            final(self).target_of() == old(self).target_of(),
            final(self).shadow_of() == old(self).shadow_of(),
    {
        self.phase = InjectorPhase::Mounted;
    }

    /// Unwind the interposition: the recovery operations, strict reverse of
    /// injection. The caller rewrites descriptors back before performing
    /// them. Consumes the injection: the injector returns to `Idle`.
    pub fn recover_mount(&mut self) -> (r: Vec<MountOp>)
        requires
            old(self).phase_of() == InjectorPhase::Mounted,
        ensures
            final(self).phase_of() == InjectorPhase::Idle,
            final(self).target_of() == old(self).target_of(),
            final(self).shadow_of() == old(self).shadow_of(),
            r@.map_values(|op: MountOp| op@)
                == recover_ops_spec(old(self).target_of(), old(self).shadow_of()),
    {
        self.phase = InjectorPhase::Idle;
        let mut ops: Vec<MountOp> = Vec::new();
        ops.push(MountOp::Move {
            src: self.original_path.clone_path(),
            dst: self.new_path.clone_path(),
        });
        ops.push(MountOp::Unmount(self.new_path.clone_path()));
        ops.push(MountOp::Unmount(self.original_path.clone_path()));
        ops.push(MountOp::RemoveDir(self.new_path.clone_path()));
        proof {
            assert(ops@.map_values(|op: MountOp| op@)
                =~= recover_ops_spec(self.original_path@, self.new_path@));
        }
        ops
    }
}

} // verus!
