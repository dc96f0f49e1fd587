//! The descriptor replacer: for every victim process, the packed array of
//! replace cases and the string table of NUL-terminated replacement paths
//! that the remote payload walks, and the preparation pipeline that builds
//! them from the enumerated open descriptors.

use vstd::prelude::*;

use crate::path::{
    AbsPath, NUL, is_path_prefix, lemma_path_bytes_no_nul, lemma_rewrite_wf, path_bytes, path_wf,
    rewrite_spec,
};
use crate::ptrace_registry::{
    AttachAction, DetachAction, PtraceManager, count_of, lemma_spec_trace_wf,
    lemma_trace_all_snoc, registry_wf, spec_detach, spec_trace, trace_all,
};
use itertools::Itertools;
use vstd::utf8::valid_utf8;

verus! {

/// The errors of the replacer.
#[derive(Clone, Copy, PartialEq, Eq, Structural, Debug)]
pub enum ReplaceError {
    /// The replacement path is not valid UTF-8; the case is dropped.
    NonUtf8Path,
}

/// Relies on std::str::from_utf8: it returns `Ok` exactly on well-formed
/// UTF-8, the property of the bytes that `vstd::utf8::valid_utf8` defines
/// (the same predicate vstd requires of `str::from_utf8_unchecked`).
#[verifier::external_body]
fn is_utf8(b: &Vec<u8>) -> (r: bool)
    ensures
        r == valid_utf8(b@),
{
    std::str::from_utf8(b.as_slice()).is_ok()
}

/// One replace case: a victim file descriptor and the byte offset of its
/// replacement path inside the per-process string table. The remote payload
/// reads these as two consecutive little-endian 64-bit words.
pub struct ReplaceCase {
    pub fd: u64,
    pub new_path_offset: u64,
}

impl View for ReplaceCase {
    type V = (u64, u64);

    open spec fn view(&self) -> (u64, u64) {
        (self.fd, self.new_path_offset)
    }
}

impl ReplaceCase {
    pub fn new(fd: u64, new_path_offset: u64) -> (r: ReplaceCase)
        ensures
            r@ == (fd, new_path_offset),
    {
        ReplaceCase { fd, new_path_offset }
    }
}

/// The string-table invariant: every case's offset points at the start of a
/// NUL-terminated copy of its path inside the table, and the paths themselves
/// are NUL-free.
pub open spec fn table_wf(cases: Seq<(u64, u64)>, table: Seq<u8>, paths: Seq<Seq<u8>>) -> bool {
    &&& cases.len() == paths.len()
    &&& forall|k: int| 0 <= k < cases.len() ==> {
        let off = (#[trigger] cases[k]).1 as int;
        let p = paths[k];
        &&& off + p.len() < table.len()
        &&& table.subrange(off, off + p.len()) == p
        &&& table[off + p.len()] == NUL
        &&& forall|j: int| 0 <= j < p.len() ==> p[j] != NUL
    }
}

/// The mathematical state of a builder or accessor: case pairs, string
/// table, and the path stored for each case.
pub ghost struct ReplacerModel {
    pub cases: Seq<(u64, u64)>,
    pub table: Seq<u8>,
    pub paths: Seq<Seq<u8>>,
}

/// The model with no cases.
pub open spec fn empty_model() -> ReplacerModel {
    ReplacerModel { cases: Seq::empty(), table: Seq::empty(), paths: Seq::empty() }
}

/// The effect of pushing one case for path `comps` (as components): a valid
/// UTF-8 path is appended to the table with a terminating NUL and recorded at
/// its offset; any other path is dropped.
pub open spec fn push_model(m: ReplacerModel, fd: u64, comps: Seq<Seq<u8>>) -> ReplacerModel {
    let pb = path_bytes(comps);
    if valid_utf8(pb) {
        ReplacerModel {
            cases: m.cases.push((fd, m.table.len() as u64)),
            table: m.table + pb + seq![NUL],
            paths: m.paths.push(pb),
        }
    } else {
        m
    }
}

/// The effect of pushing a whole list of cases in order.
pub open spec fn fold_model(m: ReplacerModel, items: Seq<(u64, Seq<Seq<u8>>)>) -> ReplacerModel
    decreases items.len(),
{
    if items.len() == 0 {
        m
    } else {
        fold_model(push_model(m, items[0].0, items[0].1), items.skip(1))
    }
}

/// Folding one more item onto the end.
pub proof fn lemma_fold_model_snoc(m: ReplacerModel, items: Seq<(u64, Seq<Seq<u8>>)>, x: (u64, Seq<Seq<u8>>))
    ensures
        fold_model(m, items.push(x)) == push_model(fold_model(m, items), x.0, x.1),
    decreases items.len(),
{
    let s = items.push(x);
    assert(s.len() > 0);
    assert(fold_model(m, s) == fold_model(push_model(m, s[0].0, s[0].1), s.skip(1)));
    if items.len() == 0 {
        assert(s[0] == x);
        assert(s.skip(1) =~= Seq::<(u64, Seq<Seq<u8>>)>::empty());
        assert(fold_model(push_model(m, x.0, x.1), s.skip(1)) == push_model(m, x.0, x.1));
        assert(fold_model(m, items) == m);
    } else {
        assert(s[0] == items[0]);
        assert(s.skip(1) =~= items.skip(1).push(x));
        lemma_fold_model_snoc(push_model(m, items[0].0, items[0].1), items.skip(1), x);
        assert(fold_model(m, items) == fold_model(push_model(m, items[0].0, items[0].1), items.skip(1)));
    }
}

/// Builds the replace cases and string table for one victim process.
pub struct ProcessAccessorBuilder {
    cases: Vec<ReplaceCase>,
    new_paths: Vec<u8>,
    paths: Ghost<Seq<Seq<u8>>>,
    items: Ghost<Seq<(u64, Seq<Seq<u8>>)>>,
}

impl ProcessAccessorBuilder {
    /// The builder's mathematical state.
    pub closed spec fn model(&self) -> ReplacerModel {
        ReplacerModel {
            cases: self.cases@.map_values(|c: ReplaceCase| c@),
            table: self.new_paths@,
            paths: self.paths@,
        }
    }

    pub open spec fn wf(&self) -> bool {
        table_wf(self.model().cases, self.model().table, self.model().paths)
    }

    /// Every case ever offered to the builder, dropped ones included.
    pub closed spec fn items_of(&self) -> Seq<(u64, Seq<Seq<u8>>)> {
        self.items@
    }

    /// A builder with no cases.
    pub fn new() -> (r: ProcessAccessorBuilder)
        ensures
            r.model() == empty_model(),
            r.wf(),
            r.items_of() =~= Seq::<(u64, Seq<Seq<u8>>)>::empty(),
    {
        let r = ProcessAccessorBuilder {
            cases: Vec::new(),
            new_paths: Vec::new(),
            paths: Ghost(Seq::empty()),
            items: Ghost(Seq::empty()),
        };
        proof {
            assert(r.model().cases =~= empty_model().cases);
            assert(r.model().table =~= empty_model().table);
            assert(r.model().paths =~= empty_model().paths);
        }
        r
    }

    /// Record that descriptor `fd` must be reopened at `new_path`: the
    /// rendered path is appended to the string table NUL-terminated, and the
    /// case records its offset. A path whose rendering is not valid UTF-8 is
    /// rejected and nothing changes.
    pub fn push_case(&mut self, fd: u64, new_path: &AbsPath) -> (r: Result<(), ReplaceError>)
        requires
            old(self).wf(),
            new_path.wf(),
        ensures
            final(self).wf(),
            final(self).model() == push_model(old(self).model(), fd, new_path@),
            final(self).items_of() == old(self).items_of().push((fd, new_path@)),
            r is Ok <==> valid_utf8(path_bytes(new_path@)),
            r is Err ==> r == Result::<(), ReplaceError>::Err(ReplaceError::NonUtf8Path),
    {
        let bytes = new_path.to_bytes();
        if !is_utf8(&bytes) {
            self.items = Ghost(self.items@.push((fd, new_path@)));
            return Err(ReplaceError::NonUtf8Path);
        }
        let ghost before = self.model();
        let off: u64 = self.new_paths.len() as u64;
        self.cases.push(ReplaceCase::new(fd, off));
        proof {
            assert(self.cases@.map_values(|c: ReplaceCase| c@)
                =~= before.cases.push((fd, before.table.len() as u64)));
        }
        let m = bytes.len();
        let mut k: usize = 0;
        while k < m
            invariant
                m == bytes.len(),
                0 <= k <= m,
                self.new_paths@ == before.table + bytes@.subrange(0, k as int),
                self.cases@.map_values(|c: ReplaceCase| c@)
                    == before.cases.push((fd, before.table.len() as u64)),
                self.paths@ == before.paths,
                self.items@ == old(self).items_of(),
            decreases m - k,
        {
            self.new_paths.push(bytes[k]);
            proof {
                assert(self.new_paths@ =~= before.table + bytes@.subrange(0, k + 1));
            }
            k += 1;
        }
        self.new_paths.push(NUL);
        proof {
            assert(bytes@.subrange(0, m as int) =~= bytes@);
            assert(self.new_paths@ =~= before.table + bytes@ + seq![NUL]);
        }
        self.paths = Ghost(self.paths@.push(bytes@));
        self.items = Ghost(self.items@.push((fd, new_path@)));
        proof {
            assert(self.model().cases =~= before.cases.push((fd, before.table.len() as u64)));
            assert(self.model() == push_model(before, fd, new_path@));
            lemma_path_bytes_no_nul(new_path@);
            let mc = self.model().cases;
            let mt = self.model().table;
            let mp = self.model().paths;
            assert forall|k2: int| 0 <= k2 < mc.len() implies {
                let o = (#[trigger] mc[k2]).1 as int;
                let p = mp[k2];
                &&& o + p.len() < mt.len()
                &&& mt.subrange(o, o + p.len()) == p
                &&& mt[o + p.len()] == NUL
                &&& forall|j: int| 0 <= j < p.len() ==> p[j] != NUL
            } by {
                if k2 < before.cases.len() {
                    let o = before.cases[k2].1 as int;
                    let p = before.paths[k2];
                    assert(mc[k2] == before.cases[k2]);
                    assert(mp[k2] == p);
                    assert(mt.subrange(o, o + p.len()) =~= before.table.subrange(o, o + p.len()));
                    assert(mt[o + p.len()] == before.table[o + p.len()]);
                } else {
                    let o = before.table.len() as int;
                    assert(mc[k2] == (fd, before.table.len() as u64));
                    assert(mp[k2] == bytes@);
                    assert(mt.subrange(o, o + bytes@.len()) =~= bytes@);
                    assert(mt[o + bytes@.len()] == NUL);
                }
            }
        }
        Ok(())
    }
}

/// The work unit for one victim process: its replace cases and string table,
/// ready to be written into the victim, plus the attach decision the caller
/// must carry out. Consumed once and then detached.
pub struct ProcessAccessor {
    pid: i32,
    attach: AttachAction,
    cases: Vec<ReplaceCase>,
    new_paths: Vec<u8>,
    paths: Ghost<Seq<Seq<u8>>>,
    items: Ghost<Seq<(u64, Seq<Seq<u8>>)>>,
}

impl ProcessAccessor {
    /// The accessor's mathematical state.
    pub closed spec fn model(&self) -> ReplacerModel {
        ReplacerModel {
            cases: self.cases@.map_values(|c: ReplaceCase| c@),
            table: self.new_paths@,
            paths: self.paths@,
        }
    }

    /// Every case that was offered for this process, dropped ones included.
    pub closed spec fn items_of(&self) -> Seq<(u64, Seq<Seq<u8>>)> {
        self.items@
    }

    pub closed spec fn pid_of(&self) -> i32 {
        self.pid
    }

    pub closed spec fn attach_of(&self) -> AttachAction {
        self.attach
    }

    pub open spec fn wf(&self) -> bool {
        table_wf(self.model().cases, self.model().table, self.model().paths)
    }

    pub fn pid(&self) -> (r: i32)
        ensures
            r == self.pid_of(),
    {
        self.pid
    }

    pub fn attach_action(&self) -> (r: AttachAction)
        ensures
            r == self.attach_of(),
    {
        self.attach
    }

    /// The packed replace cases.
    pub fn cases(&self) -> (r: &Vec<ReplaceCase>)
        ensures
            r@.map_values(|c: ReplaceCase| c@) == self.model().cases,
    {
        &self.cases
    }

    /// The string table of NUL-terminated replacement paths.
    pub fn new_paths(&self) -> (r: &Vec<u8>)
        ensures
            r@ == self.model().table,
    {
        &self.new_paths
    }

    /// Whether this accessor's payload fits the 32-bit displacements of the
    /// code template.
    pub open spec fn payload_fits(&self) -> bool {
        16 * self.model().cases.len() as int + self.model().table.len() as int + 130
            <= 0x7fff_ffff
    }

    /// The payload to write into this victim: the entry offset and the exact
    /// bytes of `payload_spec` for this accessor's cases and string table.
    pub fn payload(&self) -> (r: (u64, Vec<u8>))
        requires
            self.payload_fits(),
        ensures
            r.0 as int == crate::payload::payload_entry(self.model().cases, self.model().table),
            r.1@ == crate::payload::payload_spec(self.model().cases, self.model().table),
    {
        crate::payload::build_payload(&self.cases, &self.new_paths)
    }

    /// Release this accessor's hold on its victim. Returns `Detach` exactly
    /// when this was the last hold.
    pub fn detach(self, ptrace_manager: &mut PtraceManager) -> (r: DetachAction)
        requires
            old(ptrace_manager).wf(),
            count_of(old(ptrace_manager)@, self.pid_of()) >= 1,
        ensures
            final(ptrace_manager).wf(),
            final(ptrace_manager)@ == spec_detach(old(ptrace_manager)@, self.pid_of()),
            r == DetachAction::Detach <==> count_of(old(ptrace_manager)@, self.pid_of()) == 1,
    {
        ptrace_manager.detach(self.pid)
    }
}

impl ProcessAccessorBuilder {
    /// Offer every case of `items` in order, dropping the rejected ones, as
    /// the preparation pipeline does for one process.
    pub fn from_cases(items: &Vec<(u64, AbsPath)>) -> (r: ProcessAccessorBuilder)
        requires
            forall|k: int| 0 <= k < items@.len() ==> path_wf((#[trigger] items@[k]).1@),
        ensures
            r.wf(),
            r.items_of() == items_view(items@),
            r.model() == fold_model(empty_model(), items_view(items@)),
    {
        let mut b = ProcessAccessorBuilder::new();
        let n = items.len();
        let mut i: usize = 0;
        while i < n
            invariant
                n == items@.len(),
                0 <= i <= n,
                forall|k: int| 0 <= k < n ==> path_wf((#[trigger] items@[k]).1@),
                b.wf(),
                b.items_of() == items_view(items@.subrange(0, i as int)),
                b.model() == fold_model(empty_model(), b.items_of()),
            decreases n - i,
        {
            let it = &items[i];
            let ghost prev_items = b.items_of();
            let _ = b.push_case(it.0, &it.1);
            proof {
                lemma_fold_model_snoc(empty_model(), prev_items, (it.0, it.1@));
                assert(items_view(items@.subrange(0, i + 1))
                    =~= items_view(items@.subrange(0, i as int)).push((it.0, it.1@)));
            }
            i += 1;
        }
        proof {
            assert(items@.subrange(0, n as int) =~= items@);
        }
        b
    }

    /// Attach to `pid` (through the registry) and seal the builder into the
    /// process's accessor.
    pub fn build(self, pid: i32, ptrace_manager: &mut PtraceManager) -> (r: ProcessAccessor)
        requires
            self.wf(),
            old(ptrace_manager).wf(),
            count_of(old(ptrace_manager)@, pid) < u64::MAX,
        ensures
            r.wf(),
            r.pid_of() == pid,
            r.model() == self.model(),
            r.items_of() == self.items_of(),
            final(ptrace_manager).wf(),
            final(ptrace_manager)@ == spec_trace(old(ptrace_manager)@, pid),
            r.attach_of() == AttachAction::Attach <==> count_of(old(ptrace_manager)@, pid) == 0,
    {
        let attach = ptrace_manager.trace(pid);
        ProcessAccessor {
            pid,
            attach,
            cases: self.cases,
            new_paths: self.new_paths,
            paths: self.paths,
            items: self.items,
        }
    }
}

/// The view of a case list: each replacement path as its components.
pub open spec fn items_view(s: Seq<(u64, AbsPath)>) -> Seq<(u64, Seq<Seq<u8>>)> {
    s.map_values(|it: (u64, AbsPath)| (it.0, it.1@))
}

/// One open descriptor of some process, as enumerated from the kernel:
/// the owning PID, the descriptor number, and the path it points at.
pub struct FdEntry {
    pub pid: i32,
    pub fd: u64,
    pub path: AbsPath,
}

/// A descriptor selected for replacement, its path already rewritten to the
/// new root.
pub struct RewrittenFd {
    pub pid: i32,
    pub fd: u64,
    pub path: AbsPath,
}

impl View for RewrittenFd {
    type V = (i32, u64, Seq<Seq<u8>>);

    open spec fn view(&self) -> (i32, u64, Seq<Seq<u8>>) {
        (self.pid, self.fd, self.path@)
    }
}

/// The descriptors of one process, grouped for one accessor.
pub struct PidGroup {
    pub pid: i32,
    pub items: Vec<(u64, AbsPath)>,
}

/// Which descriptors the replacer acts on, and how: every entry whose path
/// lies under `detect` is kept, rewritten to `new_root`; the rest are left
/// alone. Order is preserved.
pub open spec fn select_rewrite(
    s: Seq<FdEntry>,
    detect: Seq<Seq<u8>>,
    new_root: Seq<Seq<u8>>,
) -> Seq<(i32, u64, Seq<Seq<u8>>)>
    decreases s.len(),
{
    if s.len() == 0 {
        Seq::empty()
    } else {
        let rest = select_rewrite(s.skip(1), detect, new_root);
        if is_path_prefix(detect, s[0].path@) {
            seq![(s[0].pid, s[0].fd, rewrite_spec(s[0].path@, detect, new_root))] + rest
        } else {
            rest
        }
    }
}

/// Selecting from one more entry at the end.
pub proof fn lemma_select_rewrite_snoc(
    s: Seq<FdEntry>,
    e: FdEntry,
    detect: Seq<Seq<u8>>,
    new_root: Seq<Seq<u8>>,
)
    ensures
        select_rewrite(s.push(e), detect, new_root) == if is_path_prefix(detect, e.path@) {
            select_rewrite(s, detect, new_root)
                + seq![(e.pid, e.fd, rewrite_spec(e.path@, detect, new_root))]
        } else {
            select_rewrite(s, detect, new_root)
        },
    decreases s.len(),
{
    let t = s.push(e);
    assert(t.len() > 0);
    if s.len() == 0 {
        assert(t[0] == e);
        assert(t.skip(1) =~= s);
        assert(select_rewrite(t.skip(1), detect, new_root)
            =~= Seq::<(i32, u64, Seq<Seq<u8>>)>::empty());
        if is_path_prefix(detect, e.path@) {
            assert(select_rewrite(t, detect, new_root)
                =~= select_rewrite(s, detect, new_root)
                    + seq![(e.pid, e.fd, rewrite_spec(e.path@, detect, new_root))]);
        }
    } else {
        assert(t[0] == s[0]);
        assert(t.skip(1) =~= s.skip(1).push(e));
        lemma_select_rewrite_snoc(s.skip(1), e, detect, new_root);
        if is_path_prefix(detect, e.path@) {
            assert(select_rewrite(t, detect, new_root)
                =~= select_rewrite(s, detect, new_root)
                    + seq![(e.pid, e.fd, rewrite_spec(e.path@, detect, new_root))]);
        }
    }
}

/// Selection never yields more items than it was given.
pub proof fn lemma_select_rewrite_len(s: Seq<FdEntry>, detect: Seq<Seq<u8>>, new_root: Seq<Seq<u8>>)
    ensures
        select_rewrite(s, detect, new_root).len() <= s.len(),
    decreases s.len(),
{
    if s.len() > 0 {
        lemma_select_rewrite_len(s.skip(1), detect, new_root);
    }
}

/// Rewritten paths of well-formed entries are well formed.
pub proof fn lemma_select_rewrite_wf(s: Seq<FdEntry>, detect: Seq<Seq<u8>>, new_root: Seq<Seq<u8>>)
    requires
        forall|k: int| 0 <= k < s.len() ==> path_wf((#[trigger] s[k]).path@),
        path_wf(new_root),
    ensures
        forall|k: int| 0 <= k < select_rewrite(s, detect, new_root).len()
            ==> path_wf((#[trigger] select_rewrite(s, detect, new_root)[k]).2),
    decreases s.len(),
{
    if s.len() > 0 {
        assert(forall|k: int| 0 <= k < s.skip(1).len() ==> (#[trigger] s.skip(1)[k]) == s[k + 1]);
        lemma_select_rewrite_wf(s.skip(1), detect, new_root);
        let rest = select_rewrite(s.skip(1), detect, new_root);
        if is_path_prefix(detect, s[0].path@) {
            lemma_rewrite_wf(s[0].path@, detect, new_root);
            let hd = seq![(s[0].pid, s[0].fd, rewrite_spec(s[0].path@, detect, new_root))];
            assert(select_rewrite(s, detect, new_root) == hd + rest);
            assert forall|k: int| 0 <= k < (hd + rest).len()
                implies path_wf((#[trigger] (hd + rest)[k]).2) by {
                if k == 0 {
                    assert((hd + rest)[k] == hd[0]);
                } else {
                    assert((hd + rest)[k] == rest[k - 1]);
                }
            }
        } else {
            assert(select_rewrite(s, detect, new_root) == rest);
        }
    }
}

/// Flattening grouped descriptors back into one run, each item tagged with
/// its group's PID.
pub open spec fn group_flat(
    gs: Seq<(i32, Seq<(u64, Seq<Seq<u8>>)>)>,
) -> Seq<(i32, u64, Seq<Seq<u8>>)>
    decreases gs.len(),
{
    if gs.len() == 0 {
        Seq::empty()
    } else {
        gs[0].1.map_values(|it: (u64, Seq<Seq<u8>>)| (gs[0].0, it.0, it.1))
            + group_flat(gs.skip(1))
    }
}

/// Every grouped item appears in the flattening.
pub proof fn lemma_group_flat_index(gs: Seq<(i32, Seq<(u64, Seq<Seq<u8>>)>)>, k: int, j: int)
    requires
        0 <= k < gs.len(),
        0 <= j < gs[k].1.len(),
    ensures
        exists|i: int| 0 <= i < group_flat(gs).len()
            && group_flat(gs)[i] == (gs[k].0, gs[k].1[j].0, gs[k].1[j].1),
    decreases k,
{
    let hd = gs[0].1.map_values(|it: (u64, Seq<Seq<u8>>)| (gs[0].0, it.0, it.1));
    if k == 0 {
        assert(group_flat(gs)[j] == hd[j]);
        assert(hd[j] == (gs[0].0, gs[0].1[j].0, gs[0].1[j].1));
    } else {
        assert(gs.skip(1)[k - 1] == gs[k]);
        lemma_group_flat_index(gs.skip(1), k - 1, j);
        let i0 = choose|i: int| 0 <= i < group_flat(gs.skip(1)).len()
            && group_flat(gs.skip(1))[i] == (gs[k].0, gs[k].1[j].0, gs[k].1[j].1);
        assert(group_flat(gs)[hd.len() + i0] == group_flat(gs.skip(1))[i0]);
    }
}

/// A flattening of nonempty groups is at least as long as the group list.
pub proof fn lemma_group_flat_len(gs: Seq<(i32, Seq<(u64, Seq<Seq<u8>>)>)>)
    requires
        forall|k: int| 0 <= k < gs.len() ==> (#[trigger] gs[k]).1.len() > 0,
    ensures
        gs.len() <= group_flat(gs).len(),
    decreases gs.len(),
{
    if gs.len() > 0 {
        assert(forall|k: int| 0 <= k < gs.skip(1).len()
            ==> (#[trigger] gs.skip(1)[k]) == gs[k + 1]);
        lemma_group_flat_len(gs.skip(1));
    }
}

/// The view of grouped descriptors.
pub open spec fn groups_view(gs: Seq<PidGroup>) -> Seq<(i32, Seq<(u64, Seq<Seq<u8>>)>)> {
    gs.map_values(|g: PidGroup| (g.pid, items_view(g.items@)))
}

/// Relies on itertools::Itertools::chunk_by: consecutive elements that map to
/// equal keys form one group (a maximal run), so groups are nonempty, the
/// keys of adjacent groups differ, and flattening the groups with their keys
/// restores the input sequence.
#[verifier::external_body]
fn group_by_pid(v: Vec<RewrittenFd>) -> (r: Vec<PidGroup>)
    ensures
        group_flat(groups_view(r@)) == v@.map_values(|e: RewrittenFd| e@),
        forall|k: int| 0 <= k < r@.len() ==> (#[trigger] r@[k]).items@.len() > 0,
        forall|k: int| 0 <= k < r@.len() - 1 ==> (#[trigger] r@[k]).pid != r@[k + 1].pid,
{
    v.into_iter()
        .chunk_by(|e| e.pid)
        .into_iter()
        .map(|(pid, grp)| PidGroup { pid, items: grp.map(|e| (e.fd, e.path)).collect() })
        .collect()
}

/// The group list that a set of accessors represents.
pub open spec fn acc_groups(ps: Seq<ProcessAccessor>) -> Seq<(i32, Seq<(u64, Seq<Seq<u8>>)>)> {
    ps.map_values(|a: ProcessAccessor| (a.pid_of(), a.items_of()))
}

/// The PIDs of a set of accessors, in order.
pub open spec fn acc_pids(ps: Seq<ProcessAccessor>) -> Seq<i32> {
    ps.map_values(|a: ProcessAccessor| a.pid_of())
}

/// The descriptor replacer: one accessor per victim process.
pub struct FdReplacer {
    processes: Vec<ProcessAccessor>,
}

impl FdReplacer {
    pub closed spec fn processes_of(&self) -> Seq<ProcessAccessor> {
        self.processes@
    }

    pub open spec fn wf(&self) -> bool {
        forall|k: int| 0 <= k < self.processes_of().len() ==> {
            let a = #[trigger] self.processes_of()[k];
            &&& a.wf()
            &&& a.model() == fold_model(empty_model(), a.items_of())
        }
    }

    /// How many victim processes were prepared.
    pub fn process_count(&self) -> (r: usize)
        ensures
            r == self.processes_of().len(),
    {
        self.processes.len()
    }

    /// Borrow one prepared accessor.
    pub fn process(&self, i: usize) -> (r: &ProcessAccessor)
        requires
            i < self.processes_of().len(),
        ensures
            r == self.processes_of()[i as int],
    {
        &self.processes[i]
    }

    /// Take the accessors out, in order, to run and then detach them.
    pub fn take_processes(&mut self) -> (r: Vec<ProcessAccessor>)
        ensures
            r@ == old(self).processes_of(),
            final(self).processes_of() =~= Seq::<ProcessAccessor>::empty(),
    {
        let mut out: Vec<ProcessAccessor> = Vec::new();
        std::mem::swap(&mut out, &mut self.processes);
        out
    }

    /// Prepare the replacement of every enumerated descriptor whose path lies
    /// under `detect_path`, rewriting it to the same location under
    /// `new_path`: group the kept descriptors by owning process, build each
    /// process's cases and string table (dropping non-UTF-8 paths), and
    /// attach to each process through the registry.
    pub fn prepare(
        detect_path: &AbsPath,
        new_path: &AbsPath,
        entries: &Vec<FdEntry>,
        ptrace_manager: &mut PtraceManager,
    ) -> (r: FdReplacer)
        requires
            new_path.wf(),
            forall|k: int| 0 <= k < entries@.len() ==> path_wf((#[trigger] entries@[k]).path@),
            old(ptrace_manager).wf(),
            forall|q: i32| count_of(old(ptrace_manager)@, q) as int + entries@.len()
                <= u64::MAX as int,
        ensures
            r.wf(),
            group_flat(acc_groups(r.processes_of()))
                == select_rewrite(entries@, detect_path@, new_path@),
            forall|k: int| 0 <= k < r.processes_of().len()
                ==> (#[trigger] r.processes_of()[k]).items_of().len() > 0,
            forall|k: int| 0 <= k < r.processes_of().len() - 1
                ==> (#[trigger] r.processes_of()[k]).pid_of()
                    != r.processes_of()[k + 1].pid_of(),
            final(ptrace_manager).wf(),
            final(ptrace_manager)@
                == trace_all(old(ptrace_manager)@, acc_pids(r.processes_of())),
    {
        // Keep the descriptors under the detected root, rewritten in place.
        let mut rewritten: Vec<RewrittenFd> = Vec::new();
        let n = entries.len();
        let mut i: usize = 0;
        while i < n
            invariant
                n == entries@.len(),
                0 <= i <= n,
                forall|k: int| 0 <= k < n ==> path_wf((#[trigger] entries@[k]).path@),
                new_path.wf(),
                rewritten@.map_values(|e: RewrittenFd| e@)
                    == select_rewrite(entries@.subrange(0, i as int), detect_path@, new_path@),
                forall|k: int| 0 <= k < rewritten@.len()
                    ==> path_wf((#[trigger] rewritten@[k]).path@),
            decreases n - i,
        {
            let e = &entries[i];
            let ghost pre = entries@.subrange(0, i as int);
            proof {
                assert(entries@.subrange(0, i + 1) =~= pre.push(entries@[i as int]));
                lemma_select_rewrite_snoc(pre, entries@[i as int], detect_path@, new_path@);
            }
            if e.path.starts_with(detect_path) {
                let w = RewrittenFd {
                    pid: e.pid,
                    fd: e.fd,
                    path: e.path.rewrite(detect_path, new_path),
                };
                proof {
                    lemma_rewrite_wf(e.path@, detect_path@, new_path@);
                }
                rewritten.push(w);
                proof {
                    assert(rewritten@.map_values(|x: RewrittenFd| x@)
                        =~= select_rewrite(entries@.subrange(0, i + 1), detect_path@, new_path@));
                }
            }
            i += 1;
        }
        proof {
            assert(entries@.subrange(0, n as int) =~= entries@);
            lemma_select_rewrite_len(entries@, detect_path@, new_path@);
        }
        let ghost rew_view = rewritten@.map_values(|e: RewrittenFd| e@);
        let ghost sel = select_rewrite(entries@, detect_path@, new_path@);

        // Group consecutive descriptors of the same process.
        let groups = group_by_pid(rewritten);
        proof {
            lemma_group_flat_len(groups_view(groups@));
            // Every grouped path is one of the rewritten paths, so well formed.
            assert forall|k: int, j: int|
                0 <= k < groups@.len() && 0 <= j < groups@[k].items@.len()
                implies path_wf((#[trigger] groups@[k].items@[j]).1@) by {
                let gv = groups_view(groups@);
                assert(gv[k] == (groups@[k].pid, items_view(groups@[k].items@)));
                assert(gv[k].1[j] == (groups@[k].items@[j].0, groups@[k].items@[j].1@));
                lemma_group_flat_index(gv, k, j);
                let fi = choose|fi: int| 0 <= fi < group_flat(gv).len()
                    && group_flat(gv)[fi] == (gv[k].0, gv[k].1[j].0, gv[k].1[j].1);
                lemma_select_rewrite_wf(entries@, detect_path@, new_path@);
                assert(group_flat(gv)[fi] == sel[fi]);
            }
        }

        // One accessor per group, attaching through the registry.
        let ghost m0 = ptrace_manager@;
        let mut processes: Vec<ProcessAccessor> = Vec::new();
        let gn = groups.len();
        let mut g: usize = 0;
        while g < gn
            invariant
                gn == groups@.len(),
                0 <= g <= gn,
                gn <= group_flat(groups_view(groups@)).len(),
                group_flat(groups_view(groups@)).len() <= entries@.len(),
                forall|k: int, j: int|
                    0 <= k < groups@.len() && 0 <= j < groups@[k].items@.len()
                        ==> path_wf((#[trigger] groups@[k].items@[j]).1@),
                forall|k: int| 0 <= k < gn ==> (#[trigger] groups@[k]).items@.len() > 0,
                forall|k: int| 0 <= k < gn - 1
                    ==> (#[trigger] groups@[k]).pid != groups@[k + 1].pid,
                processes@.len() == g,
                acc_groups(processes@) == groups_view(groups@.subrange(0, g as int)),
                forall|k: int| 0 <= k < g ==> {
                    let a = #[trigger] processes@[k];
                    &&& a.wf()
                    &&& a.model() == fold_model(empty_model(), a.items_of())
                    &&& a.pid_of() == groups@[k].pid
                },
                ptrace_manager.wf(),
                ptrace_manager@ == trace_all(m0, acc_pids(processes@)),
                forall|q: i32| count_of(ptrace_manager@, q) as int <= count_of(m0, q) as int + g,
                forall|q: i32| count_of(m0, q) as int + entries@.len() <= u64::MAX as int,
            decreases gn - g,
        {
            let grp = &groups[g];
            let b = ProcessAccessorBuilder::from_cases(&grp.items);
            let ghost mgr_pre = ptrace_manager@;
            proof {
                assert(count_of(mgr_pre, grp.pid) as int <= count_of(m0, grp.pid) as int + g);
                assert((g as int) < gn as int);
                assert(count_of(mgr_pre, grp.pid) < u64::MAX);
            }
            let acc = b.build(grp.pid, ptrace_manager);
            let ghost prev = processes@;
            processes.push(acc);
            proof {
                assert(acc_groups(processes@) =~= acc_groups(prev).push((acc.pid_of(), acc.items_of())));
                assert(groups_view(groups@.subrange(0, g + 1))
                    =~= groups_view(groups@.subrange(0, g as int))
                        .push((groups@[g as int].pid, items_view(groups@[g as int].items@))));
                assert(acc_pids(processes@) =~= acc_pids(prev).push(acc.pid_of()));
                lemma_trace_all_snoc(m0, acc_pids(prev), acc.pid_of());
                lemma_spec_trace_wf(mgr_pre, grp.pid);
            }
            g += 1;
        }
        proof {
            assert(groups@.subrange(0, gn as int) =~= groups@);
        }
        let r = FdReplacer { processes };
        proof {
            assert forall|k: int| 0 <= k < r.processes_of().len()
                implies (#[trigger] r.processes_of()[k]).items_of().len() > 0 by {
                assert(acc_groups(r.processes_of())[k]
                    == (r.processes_of()[k].pid_of(), r.processes_of()[k].items_of()));
                assert(groups_view(groups@)[k]
                    == (groups@[k].pid, items_view(groups@[k].items@)));
            }
        }
        r
    }
}

/// What `run` produces for a list of accessors: one payload per victim whose
/// tables fit the code template's 32-bit displacements, in order; oversized
/// victims are skipped, as the per-process best-effort policy demands.
pub open spec fn payloads_of(ps: Seq<ProcessAccessor>) -> Seq<(i32, u64, Seq<u8>)>
    decreases ps.len(),
{
    if ps.len() == 0 {
        Seq::empty()
    } else {
        let rest = payloads_of(ps.skip(1));
        if ps[0].payload_fits() {
            seq![(
                ps[0].pid_of(),
                crate::payload::payload_entry(ps[0].model().cases, ps[0].model().table) as u64,
                crate::payload::payload_spec(ps[0].model().cases, ps[0].model().table),
            )] + rest
        } else {
            rest
        }
    }
}

/// Producing one more payload at the end.
pub proof fn lemma_payloads_of_snoc(ps: Seq<ProcessAccessor>, a: ProcessAccessor)
    ensures
        payloads_of(ps.push(a)) == if a.payload_fits() {
            payloads_of(ps) + seq![(
                a.pid_of(),
                crate::payload::payload_entry(a.model().cases, a.model().table) as u64,
                crate::payload::payload_spec(a.model().cases, a.model().table),
            )]
        } else {
            payloads_of(ps)
        },
    decreases ps.len(),
{
    let t = ps.push(a);
    assert(t.len() > 0);
    if ps.len() == 0 {
        assert(t[0] == a);
        assert(t.skip(1) =~= ps);
        assert(payloads_of(t.skip(1)) =~= Seq::<(i32, u64, Seq<u8>)>::empty());
        if a.payload_fits() {
            assert(payloads_of(t) =~= payloads_of(ps) + seq![(
                a.pid_of(),
                crate::payload::payload_entry(a.model().cases, a.model().table) as u64,
                crate::payload::payload_spec(a.model().cases, a.model().table),
            )]);
        }
    } else {
        assert(t[0] == ps[0]);
        assert(t.skip(1) =~= ps.skip(1).push(a));
        lemma_payloads_of_snoc(ps.skip(1), a);
        if a.payload_fits() {
            assert(payloads_of(t) =~= payloads_of(ps) + seq![(
                a.pid_of(),
                crate::payload::payload_entry(a.model().cases, a.model().table) as u64,
                crate::payload::payload_spec(a.model().cases, a.model().table),
            )]);
        }
    }
}

impl FdReplacer {
    /// Drain the prepared accessors into concrete payloads, one per victim
    /// that fits the code template; the caller writes and runs each payload,
    /// then detaches the victims.
    pub fn run(&mut self) -> (r: Vec<(i32, u64, Vec<u8>)>)
        ensures
            r@.map_values(|p: (i32, u64, Vec<u8>)| (p.0, p.1, p.2@))
                == payloads_of(old(self).processes_of()),
            final(self).processes_of() =~= Seq::<ProcessAccessor>::empty(),
    {
        let ghost ps0 = self.processes_of();
        let procs = self.take_processes();
        let mut out: Vec<(i32, u64, Vec<u8>)> = Vec::new();
        let n = procs.len();
        let mut i: usize = 0;
        while i < n
            invariant
                n == procs@.len(),
                procs@ == ps0,
                0 <= i <= n,
                out@.map_values(|p: (i32, u64, Vec<u8>)| (p.0, p.1, p.2@))
                    == payloads_of(ps0.subrange(0, i as int)),
            decreases n - i,
        {
            let a = &procs[i];
            proof {
                assert(ps0.subrange(0, i + 1) =~= ps0.subrange(0, i as int).push(ps0[i as int]));
                lemma_payloads_of_snoc(ps0.subrange(0, i as int), ps0[i as int]);
            }
            let cl = a.cases.len();
            let tl = a.new_paths.len();
            let sz: u128 = 16 * (cl as u128) + (tl as u128) + 130;
            if sz <= 0x7fff_ffff {
                proof {
                    assert(a.model().cases.len() == cl);
                    assert(a.payload_fits());
                }
                let (entry, bytes) = a.payload();
                let pid = a.pid();
                out.push((pid, entry, bytes));
                proof {
                    assert(out@.map_values(|p: (i32, u64, Vec<u8>)| (p.0, p.1, p.2@))
                        =~= payloads_of(ps0.subrange(0, i + 1)));
                }
            } else {
                proof {
                    assert(a.model().cases.len() == cl);
                    assert(!a.payload_fits());
                }
            }
            i += 1;
        }
        proof {
            assert(ps0.subrange(0, n as int) =~= ps0);
        }
        out
    }
}

/// The sequenced composition of sub-replacers sharing one ptrace registry.
/// The descriptor replacer is currently the only one; the design admits
/// more, drained in registration order, each best-effort.
pub struct UnionReplacer {
    fd_replacer: FdReplacer,
}

impl UnionReplacer {
    pub closed spec fn fd_of(&self) -> FdReplacer {
        self.fd_replacer
    }

    pub open spec fn wf(&self) -> bool {
        self.fd_of().wf()
    }

    /// Dispatch preparation to every sub-replacer.
    pub fn prepare(
        detect_path: &AbsPath,
        new_path: &AbsPath,
        entries: &Vec<FdEntry>,
        ptrace_manager: &mut PtraceManager,
    ) -> (r: UnionReplacer)
        requires
            new_path.wf(),
            forall|k: int| 0 <= k < entries@.len() ==> path_wf((#[trigger] entries@[k]).path@),
            old(ptrace_manager).wf(),
            forall|q: i32| count_of(old(ptrace_manager)@, q) as int + entries@.len()
                <= u64::MAX as int,
        ensures
            r.wf(),
            group_flat(acc_groups(r.fd_of().processes_of()))
                == select_rewrite(entries@, detect_path@, new_path@),
            final(ptrace_manager).wf(),
            final(ptrace_manager)@
                == trace_all(old(ptrace_manager)@, acc_pids(r.fd_of().processes_of())),
    {
        UnionReplacer {
            fd_replacer: FdReplacer::prepare(detect_path, new_path, entries, ptrace_manager),
        }
    }

    /// Borrow the descriptor sub-replacer, so the caller can act on each
    /// accessor's attach decision before running the payloads.
    pub fn fd_replacer(&self) -> (r: &FdReplacer)
        ensures
            *r == self.fd_of(),
    {
        &self.fd_replacer
    }

    /// Drain every sub-replacer in registration order.
    pub fn run(&mut self) -> (r: Vec<(i32, u64, Vec<u8>)>)
        ensures
            r@.map_values(|p: (i32, u64, Vec<u8>)| (p.0, p.1, p.2@))
                == payloads_of(old(self).fd_of().processes_of()),
            final(self).fd_of().processes_of() =~= Seq::<ProcessAccessor>::empty(),
    {
        self.fd_replacer.run()
    }
}

} // verus!
