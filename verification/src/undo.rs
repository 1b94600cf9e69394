//! The undo history of a project panel.
//!
//! Undo and redo execute an operation against the file system; the change that
//! this produces is recorded back into the history in place of the entry that
//! was undone or redone. Every change can be turned into the operation that
//! reverts it, so the cycle can repeat.
use std::collections::VecDeque;
use vstd::prelude::*;

verus! {

/// Identifies a worktree of a project.
#[derive(Clone, Copy, Debug, PartialEq, Eq, Structural)]
pub struct WorktreeId(pub u64);

/// An entry that was moved to the trash, identified by the handle that the
/// trash handed out for it.
#[derive(Clone, Copy, Debug, PartialEq, Eq, Structural)]
pub struct TrashedEntry {
    pub id: u64,
}

/// A path inside one of the project's worktrees.
#[derive(Debug, PartialEq, Eq)]
pub struct ProjectPath {
    pub worktree_id: WorktreeId,
    pub path: String,
}

/// The mathematical value of a [`ProjectPath`].
pub struct ProjectPathV {
    pub worktree_id: u64,
    pub path: Seq<char>,
}

impl View for ProjectPath {
    type V = ProjectPathV;

    open spec fn view(&self) -> ProjectPathV {
        ProjectPathV { worktree_id: self.worktree_id.0, path: self.path@ }
    }
}

impl Clone for ProjectPath {
    fn clone(&self) -> (r: Self)
        ensures
            r@ == self@,
    {
        ProjectPath { worktree_id: self.worktree_id, path: self.path.clone() }
    }
}

impl ProjectPath {
    pub fn new(worktree_id: WorktreeId, path: String) -> (r: Self)
        ensures
            r@ == (ProjectPathV { worktree_id: worktree_id.0, path: path@ }),
    {
        ProjectPath { worktree_id, path }
    }
}

/// An operation on the file system that the undo manager can perform.
#[derive(Debug, PartialEq, Eq)]
pub enum Operation {
    Create(ProjectPath),
    Trash(ProjectPath),
    Rename(ProjectPath, ProjectPath),
    Restore(WorktreeId, TrashedEntry),
    Batch(Vec<Operation>),
}

/// A change to the file system, as the history records it.
#[derive(Debug, PartialEq, Eq)]
pub enum Change {
    Created(ProjectPath),
    Trashed(WorktreeId, TrashedEntry),
    Renamed(ProjectPath, ProjectPath),
    Restored(ProjectPath),
    Batched(Vec<Change>),
}

/// The mathematical value of an [`Operation`].
pub enum OperationV {
    Create(ProjectPathV),
    Trash(ProjectPathV),
    Rename(ProjectPathV, ProjectPathV),
    Restore(u64, TrashedEntry),
    Batch(Seq<OperationV>),
}

/// The mathematical value of a [`Change`].
pub enum ChangeV {
    Created(ProjectPathV),
    Trashed(u64, TrashedEntry),
    Renamed(ProjectPathV, ProjectPathV),
    Restored(ProjectPathV),
    Batched(Seq<ChangeV>),
}

impl View for Operation {
    type V = OperationV;

    open spec fn view(&self) -> OperationV
        decreases self,
    {
        match self {
            Operation::Create(p) => OperationV::Create(p@),
            Operation::Trash(p) => OperationV::Trash(p@),
            Operation::Rename(f, t) => OperationV::Rename(f@, t@),
            Operation::Restore(w, e) => OperationV::Restore(w.0, *e),
            Operation::Batch(ops) => OperationV::Batch(
                Seq::new(
                    ops@.len(),
                    |i: int|
                        if 0 <= i < ops@.len() {
                            ops@[i].view()
                        } else {
                            OperationV::Batch(Seq::empty())
                        },
                ),
            ),
        }
    }
}

impl View for Change {
    type V = ChangeV;

    open spec fn view(&self) -> ChangeV
        decreases self,
    {
        match self {
            Change::Created(p) => ChangeV::Created(p@),
            Change::Trashed(w, e) => ChangeV::Trashed(w.0, *e),
            Change::Renamed(f, t) => ChangeV::Renamed(f@, t@),
            Change::Restored(p) => ChangeV::Restored(p@),
            Change::Batched(cs) => ChangeV::Batched(
                Seq::new(
                    cs@.len(),
                    |i: int|
                        if 0 <= i < cs@.len() {
                            cs@[i].view()
                        } else {
                            ChangeV::Batched(Seq::empty())
                        },
                ),
            ),
        }
    }
}

/// The operation that reverts a change. A batch is reverted by reverting its
/// changes in the opposite order, so that later changes that depend on earlier
/// ones (a file created inside a new directory) are reverted first.
pub open spec fn inverse(c: ChangeV) -> OperationV
    decreases c,
{
    match c {
        ChangeV::Created(p) => OperationV::Trash(p),
        ChangeV::Trashed(w, e) => OperationV::Restore(w, e),
        ChangeV::Renamed(from, to) => OperationV::Rename(to, from),
        ChangeV::Restored(p) => OperationV::Trash(p),
        ChangeV::Batched(cs) => OperationV::Batch(
            Seq::new(
                cs.len(),
                |i: int|
                    if 0 <= i < cs.len() {
                        inverse(cs[cs.len() - 1 - i])
                    } else {
                        OperationV::Batch(Seq::empty())
                    },
            ),
        ),
    }
}

/// Reverting a batch of changes runs, for every kind of change it holds, the
/// reverting operations in the opposite order: the `k`-th operation reverts
/// the `k`-th change from the end. Single changes are reverted by the
/// operation that undoes them: a creation or a restore by trashing the path,
/// a trashing by restoring the entry, a rename by the rename back.
pub proof fn lemma_inverse_reverses_batches(cs: Seq<ChangeV>)
    ensures
        inverse(ChangeV::Batched(cs)) is Batch,
        inverse(ChangeV::Batched(cs))->Batch_0.len() == cs.len(),
        forall|k: int|
            0 <= k < cs.len() ==> #[trigger] inverse(ChangeV::Batched(cs))->Batch_0[k] == inverse(
                cs[cs.len() - 1 - k],
            ),
        forall|k: int|
            0 <= k < cs.len() ==> match #[trigger] cs[k] {
                ChangeV::Created(p) => inverse(cs[k]) == OperationV::Trash(p),
                ChangeV::Restored(p) => inverse(cs[k]) == OperationV::Trash(p),
                ChangeV::Trashed(w, e) => inverse(cs[k]) == OperationV::Restore(w, e),
                ChangeV::Renamed(a, b) => inverse(cs[k]) == OperationV::Rename(b, a),
                ChangeV::Batched(_) => inverse(cs[k]) is Batch,
            },
{
}

impl Change {
    /// Turns the change into the operation that reverts it.
    pub fn to_inverse(self) -> (op: Operation)
        ensures
            op@ == inverse(self@),
        decreases self,
    {
        match self {
            Change::Created(p) => Operation::Trash(p),
            Change::Trashed(w, e) => Operation::Restore(w, e),
            Change::Renamed(from, to) => Operation::Rename(to, from),
            Change::Restored(p) => Operation::Trash(p),
            Change::Batched(changes) => {
                let ghost cs = changes@;
                let mut changes = changes;
                let mut ops: Vec<Operation> = Vec::new();
                while changes.len() > 0
                    invariant
                        ops.len() + changes.len() == cs.len(),
                        self matches Change::Batched(v) && v@ == cs,
                        changes@ == cs.take(changes.len() as int),
                        forall|k: int|
                            0 <= k < ops.len() ==> #[trigger] ops@[k]@ == inverse(
                                cs[cs.len() - 1 - k]@,
                            ),
                    decreases changes.len(),
                {
                    let ghost n = changes.len();
                    let c = changes.pop().unwrap();
                    assert(c == cs[n - 1]);
                    proof {
                        let v = self->Batched_0;
                        assert(decreases_to!(self => v));
                        assert(decreases_to!(v => v@));
                        assert(decreases_to!(v@ => v@[n - 1]));
                    }
                    let op = c.to_inverse();
                    ops.push(op);
                }
                let r = Operation::Batch(ops);
                proof {
                    reveal_with_fuel(<Change as View>::view, 2);
                    reveal_with_fuel(<Operation as View>::view, 2);
                    reveal_with_fuel(inverse, 2);
                    let sv = self@->Batched_0;
                    assert(sv.len() == cs.len());
                    assert forall|k: int| 0 <= k < cs.len() implies #[trigger] sv[k] == cs[k]@ by {}
                    let a = r@->Batch_0;
                    let b = inverse(self@)->Batch_0;
                    assert(a.len() == ops@.len());
                    assert(b.len() == cs.len());
                    assert forall|k: int| 0 <= k < a.len() implies a[k] == b[k] by {
                        assert(a[k] == ops@[k]@);
                        assert(b[k] == inverse(sv[cs.len() - 1 - k]));
                    }
                    assert(a =~= b);
                }
                r
            },
        }
    }
}

/// What performing a single operation (one that is not a batch) reported.
#[derive(Debug, PartialEq, Eq)]
pub enum LeafOutcome {
    Created,
    Trashed(TrashedEntry),
    Renamed,
    Restored(ProjectPath),
}

/// The mathematical value of a [`LeafOutcome`].
pub enum LeafOutcomeV {
    Created,
    Trashed(TrashedEntry),
    Renamed,
    Restored(ProjectPathV),
}

impl View for LeafOutcome {
    type V = LeafOutcomeV;

    open spec fn view(&self) -> LeafOutcomeV {
        match self {
            LeafOutcome::Created => LeafOutcomeV::Created,
            LeafOutcome::Trashed(e) => LeafOutcomeV::Trashed(*e),
            LeafOutcome::Renamed => LeafOutcomeV::Renamed,
            LeafOutcome::Restored(p) => LeafOutcomeV::Restored(p@),
        }
    }
}

pub open spec fn op_views(s: Seq<Operation>) -> Seq<OperationV> {
    s.map_values(|o: Operation| o@)
}

pub open spec fn change_views(s: Seq<Change>) -> Seq<ChangeV> {
    s.map_values(|c: Change| c@)
}

pub open spec fn outcome_views(s: Seq<LeafOutcome>) -> Seq<LeafOutcomeV> {
    s.map_values(|o: LeafOutcome| o@)
}

/// The single operations that executing `op` performs, in the order in which
/// it performs them: a batch performs its operations one after the other.
pub open spec fn leaves(op: OperationV) -> Seq<OperationV>
    decreases op,
{
    match op {
        OperationV::Batch(ops) => leaves_of(ops),
        _ => seq![op],
    }
}

/// The single operations that executing `ops` one after the other performs.
pub open spec fn leaves_of(ops: Seq<OperationV>) -> Seq<OperationV>
    decreases ops,
{
    if ops.len() == 0 {
        Seq::empty()
    } else {
        leaves_of(ops.drop_last()) + leaves(ops.last())
    }
}

/// The change that executing `op` produces, when its single operations
/// reported `outs`, in order; `None` when `outs` does not answer them one for
/// one.
pub open spec fn assemble(op: OperationV, outs: Seq<LeafOutcomeV>) -> Option<ChangeV>
    decreases op,
{
    match op {
        OperationV::Create(p) => if outs.len() == 1 && outs[0] is Created {
            Some(ChangeV::Created(p))
        } else {
            None
        },
        OperationV::Trash(p) => if outs.len() == 1 && outs[0] is Trashed {
            Some(ChangeV::Trashed(p.worktree_id, outs[0]->Trashed_0))
        } else {
            None
        },
        OperationV::Rename(from, to) => if outs.len() == 1 && outs[0] is Renamed {
            Some(ChangeV::Renamed(from, to))
        } else {
            None
        },
        OperationV::Restore(_w, _e) => if outs.len() == 1 && outs[0] is Restored {
            Some(ChangeV::Restored(outs[0]->Restored_0))
        } else {
            None
        },
        OperationV::Batch(ops) => match assemble_all(ops, outs) {
            Some(cs) => Some(ChangeV::Batched(cs)),
            None => None,
        },
    }
}

/// The changes that executing `ops` one after the other produces, when their
/// single operations reported `outs`.
pub open spec fn assemble_all(ops: Seq<OperationV>, outs: Seq<LeafOutcomeV>) -> Option<
    Seq<ChangeV>,
>
    decreases ops,
{
    if ops.len() == 0 {
        if outs.len() == 0 {
            Some(Seq::empty())
        } else {
            None
        }
    } else {
        let n = leaves(ops.last()).len();
        if outs.len() < n {
            None
        } else {
            match (
                assemble_all(ops.drop_last(), outs.take(outs.len() - n)),
                assemble(ops.last(), outs.skip(outs.len() - n)),
            ) {
                (Some(cs), Some(c)) => Some(cs.push(c)),
                _ => None,
            }
        }
    }
}

pub proof fn lemma_assemble_len(op: OperationV, outs: Seq<LeafOutcomeV>)
    ensures
        assemble(op, outs) is Some ==> outs.len() == leaves(op).len(),
    decreases op,
{
    if let OperationV::Batch(ops) = op {
        lemma_assemble_all_len(ops, outs);
    }
}

pub proof fn lemma_assemble_all_len(ops: Seq<OperationV>, outs: Seq<LeafOutcomeV>)
    ensures
        assemble_all(ops, outs) is Some ==> outs.len() == leaves_of(ops).len(),
    decreases ops,
{
    if ops.len() > 0 {
        let n = leaves(ops.last()).len();
        if outs.len() >= n {
            lemma_assemble_all_len(ops.drop_last(), outs.take(outs.len() - n));
            lemma_assemble_len(ops.last(), outs.skip(outs.len() - n));
        }
    }
}

/// Whether `out` is what performing the single operation `leaf` reports when
/// it succeeds.
pub open spec fn reports(leaf: OperationV, out: LeafOutcomeV) -> bool {
    match (leaf, out) {
        (OperationV::Create(_), LeafOutcomeV::Created) => true,
        (OperationV::Trash(_), LeafOutcomeV::Trashed(_)) => true,
        (OperationV::Rename(_, _), LeafOutcomeV::Renamed) => true,
        (OperationV::Restore(_, _), LeafOutcomeV::Restored(_)) => true,
        _ => false,
    }
}

/// Whether `outs` answers the single operations `ls` one for one.
pub open spec fn reports_each(ls: Seq<OperationV>, outs: Seq<LeafOutcomeV>) -> bool {
    &&& ls.len() == outs.len()
    &&& forall|i: int| 0 <= i < ls.len() ==> reports(#[trigger] ls[i], outs[i])
}

/// An operation whose single operations all succeed, in order, always amounts
/// to a change.
pub proof fn lemma_assemble_succeeds(op: OperationV, outs: Seq<LeafOutcomeV>)
    requires
        reports_each(leaves(op), outs),
    ensures
        assemble(op, outs) is Some,
    decreases op,
{
    match op {
        OperationV::Batch(ops) => lemma_assemble_all_succeeds(ops, outs),
        _ => {
            assert(leaves(op)[0] == op);
            assert(reports(leaves(op)[0], outs[0]));
        },
    }
}

proof fn lemma_assemble_all_succeeds(ops: Seq<OperationV>, outs: Seq<LeafOutcomeV>)
    requires
        reports_each(leaves_of(ops), outs),
    ensures
        assemble_all(ops, outs) is Some,
    decreases ops,
{
    if ops.len() > 0 {
        let first = leaves_of(ops.drop_last());
        let last = leaves(ops.last());
        let k = outs.len() - last.len();
        assert(leaves_of(ops) == first + last);
        assert forall|i: int| 0 <= i < first.len() implies reports(#[trigger] first[i], outs.take(k)[i]) by {
            assert((first + last)[i] == first[i]);
        }
        assert forall|i: int| 0 <= i < last.len() implies reports(#[trigger] last[i], outs.skip(k)[i]) by {
            assert((first + last)[first.len() + i] == last[i]);
        }
        lemma_assemble_all_succeeds(ops.drop_last(), outs.take(k));
        lemma_assemble_succeeds(ops.last(), outs.skip(k));
    }
}

pub proof fn lemma_batch_view(op: Operation)
    requires
        op is Batch,
    ensures
        op@ == OperationV::Batch(op_views(op->Batch_0@)),
{
    reveal_with_fuel(<Operation as View>::view, 2);
    assert(op@->Batch_0 =~= op_views(op->Batch_0@));
}

pub proof fn lemma_batched_view(c: Change)
    requires
        c is Batched,
    ensures
        c@ == ChangeV::Batched(change_views(c->Batched_0@)),
{
    reveal_with_fuel(<Change as View>::view, 2);
    assert(c@->Batched_0 =~= change_views(c->Batched_0@));
}

impl Operation {
    /// The single operations that executing this operation performs, in order.
    pub fn leaves(&self) -> (r: Vec<Operation>)
        ensures
            op_views(r@) == leaves(self@),
        decreases self,
    {
        match self {
            Operation::Create(p) => vec![Operation::Create(p.clone())],
            Operation::Trash(p) => vec![Operation::Trash(p.clone())],
            Operation::Rename(from, to) => vec![Operation::Rename(from.clone(), to.clone())],
            Operation::Restore(w, e) => vec![Operation::Restore(*w, *e)],
            Operation::Batch(ops) => {
                proof {
                    lemma_batch_view(*self);
                }
                let ghost os = op_views(ops@);
                let mut r: Vec<Operation> = Vec::new();
                let mut i: usize = 0;
                while i < ops.len()
                    invariant
                        i <= ops.len(),
                        self matches Operation::Batch(v) && v == ops,
                        os == op_views(ops@),
                        op_views(r@) == leaves_of(os.take(i as int)),
                    decreases ops.len() - i,
                {
                    proof {
                        assert(decreases_to!(self => ops));
                        assert(decreases_to!(ops => ops@));
                        assert(decreases_to!(ops@ => ops@[i as int]));
                    }
                    let mut sub = ops[i].leaves();
                    let ghost before = r@;
                    let ghost subv = sub@;
                    r.append(&mut sub);
                    proof {
                        assert(os.take(i + 1).drop_last() =~= os.take(i as int));
                        assert(os.take(i + 1).last() == os[i as int]);
                        assert(op_views(r@) =~= op_views(before) + op_views(subv));
                    }
                    i = i + 1;
                }
                proof {
                    assert(os.take(ops.len() as int) =~= os);
                }
                r
            },
        }
    }
}

pub open spec fn assembled_from_back(
    op: OperationV,
    before: Seq<LeafOutcome>,
    after: Seq<LeafOutcome>,
    r: Option<Change>,
) -> bool {
    let s = outcome_views(before);
    let n = leaves(op).len();
    match r {
        Some(c) => n <= s.len() && after == before.take(s.len() - n) && assemble(
            op,
            s.skip(s.len() - n),
        ) == Some(c@),
        None => n > s.len() || assemble(op, s.skip(s.len() - n)) is None,
    }
}

proof fn lemma_leaves_of_step(o: Seq<OperationV>, m: int)
    requires
        0 < m <= o.len(),
    ensures
        leaves_of(o.take(m)).len() == leaves_of(o.take(m - 1)).len() + leaves(o[m - 1]).len(),
        o.take(m).drop_last() == o.take(m - 1),
        o.take(m).last() == o[m - 1],
{
    assert(o.take(m).drop_last() =~= o.take(m - 1));
}

impl Operation {
    /// Takes, from the end of `outs`, what this operation's single operations
    /// reported, and builds the change that they amount to.
    fn assemble_back(self, outs: &mut Vec<LeafOutcome>) -> (r: Option<Change>)
        ensures
            assembled_from_back(self@, old(outs)@, final(outs)@, r),
        decreases self,
    {
        match self {
            Operation::Create(p) => match outs.pop() {
                Some(LeafOutcome::Created) => Some(Change::Created(p)),
                _ => None,
            },
            Operation::Trash(p) => match outs.pop() {
                Some(LeafOutcome::Trashed(e)) => Some(Change::Trashed(p.worktree_id, e)),
                _ => None,
            },
            Operation::Rename(from, to) => match outs.pop() {
                Some(LeafOutcome::Renamed) => Some(Change::Renamed(from, to)),
                _ => None,
            },
            Operation::Restore(_w, _e) => match outs.pop() {
                Some(LeafOutcome::Restored(p)) => Some(Change::Restored(p)),
                _ => None,
            },
            Operation::Batch(ops) => {
                proof {
                    lemma_batch_view(self);
                }
                let ghost o = op_views(ops@);
                let ghost before = outs@;
                let ghost s = outcome_views(outs@);
                let ghost ntot = leaves_of(o).len();
                let ghost seg = s.skip(s.len() - ntot);
                let ghost mut p: Seq<ChangeV> = Seq::empty();
                proof {
                    assert(o.take(o.len() as int) =~= o);
                    assert(before.take(before.len() as int) =~= before);
                    if ntot <= s.len() {
                        assert(seg.take(ntot as int) =~= seg);
                        match assemble_all(o, seg) {
                            Some(cs) => {
                                assert(cs + p =~= cs);
                            },
                            None => {},
                        }
                    }
                }
                let mut ops = ops;
                let mut rev: Vec<Change> = Vec::new();
                while ops.len() > 0
                    invariant
                        self is Batch,
                        o == op_views(self->Batch_0@),
                        self@ == OperationV::Batch(o),
                        ops@ == self->Batch_0@.take(ops.len() as int),
                        o.len() == ops.len() + rev.len(),
                        ntot == leaves_of(o).len(),
                        s == outcome_views(before),
                        before == old(outs)@,
                        seg == s.skip(s.len() - ntot),
                        outs@.len() == s.len() - (ntot - leaves_of(o.take(ops.len() as int)).len()),
                        outs@ == before.take(outs@.len() as int),
                        outs@.len() <= before.len(),
                        p.len() == rev.len(),
                        forall|k: int| 0 <= k < rev.len() ==> #[trigger] rev@[k]@ == p[p.len() - 1 - k],
                        ntot <= s.len() ==> assemble_all(o, seg) == match assemble_all(
                            o.take(ops.len() as int),
                            seg.take(leaves_of(o.take(ops.len() as int)).len() as int),
                        ) {
                            Some(cs) => Some(cs + p),
                            None => None::<Seq<ChangeV>>,
                        },
                    decreases ops.len(),
                {
                    let ghost m = ops.len() as int;
                    let ghost t = outcome_views(outs@);
                    let ghost outs_before = outs@;
                    let op = ops.pop().unwrap();
                    proof {
                        let v = self->Batch_0;
                        assert(op == v@[m - 1]);
                        assert(decreases_to!(self => v));
                        assert(decreases_to!(v => v@));
                        assert(decreases_to!(v@ => v@[m - 1]));
                        lemma_leaves_of_step(o, m);
                        assert(op@ == o[m - 1]);
                    }
                    let ghost n = leaves(op@).len();
                    let res = op.assemble_back(outs);
                    match res {
                        Some(c) => {
                            proof {
                                let nm = leaves_of(o.take(m)).len() as int;
                                let nm1 = leaves_of(o.take(m - 1)).len() as int;
                                assert(t =~= s.take(t.len() as int));
                                if ntot <= s.len() {
                                    assert(seg.take(nm).take(nm - n) =~= seg.take(nm1));
                                    assert(seg.take(nm).skip(nm - n) =~= t.skip(t.len() - n));
                                    let pn = seq![c@] + p;
                                    match assemble_all(o.take(m - 1), seg.take(nm1)) {
                                        Some(cs) => {
                                            assert(cs.push(c@) + p =~= cs + pn);
                                        },
                                        None => {},
                                    }
                                }
                                p = seq![c@] + p;
                            }
                            rev.push(c);
                            proof {
                                assert forall|k: int| 0 <= k < rev.len() implies #[trigger] rev@[k]@ == p[p.len() - 1 - k] by {
                                    if k < rev.len() - 1 {
                                    }
                                }
                                assert(outs@ =~= outs_before.take(outs@.len() as int));
                                assert(outs@ =~= before.take(outs@.len() as int));
                            }
                        },
                        None => {
                            proof {
                                let nm = leaves_of(o.take(m)).len() as int;
                                let nm1 = leaves_of(o.take(m - 1)).len() as int;
                                assert(t =~= s.take(t.len() as int));
                                if n > t.len() {
                                    assert(ntot > s.len());
                                } else if ntot <= s.len() {
                                    assert(seg.take(nm).skip(nm - n) =~= t.skip(t.len() - n));
                                    assert(seg.take(nm).len() == nm);
                                    assert(assemble(o.take(m).last(), seg.take(nm).skip(nm - n)) is None);
                                    assert(assemble_all(o.take(m), seg.take(nm)) is None);
                                    assert(assemble_all(o, seg) is None);
                                    assert(assemble(self@, seg) is None);
                                }
                                assert(leaves(self@).len() == ntot);

                            }
                            return None;
                        },
                    }
                }
                let mut res: Vec<Change> = Vec::new();
                while rev.len() > 0
                    invariant
                        rev.len() + res.len() == p.len(),
                        forall|k: int| 0 <= k < rev.len() ==> #[trigger] rev@[k]@ == p[p.len() - 1 - k],
                        forall|k: int| 0 <= k < res.len() ==> #[trigger] res@[k]@ == p[k],
                    decreases rev.len(),
                {
                    let c = rev.pop().unwrap();
                    res.push(c);
                }
                let r = Change::Batched(res);
                proof {
                    lemma_batched_view(r);
                    assert(change_views(res@) =~= p);
                    assert(o.take(0) =~= Seq::<OperationV>::empty());
                    assert(p =~= Seq::<ChangeV>::empty() + p);
                    assert(outs@ =~= before.take(s.len() - ntot));
                }
                Some(r)
            },
        }
    }
}

impl Operation {
    /// The change that executing this operation produced, given what its
    /// single operations reported in the order in which they were performed
    /// (see [`Operation::leaves`]); `None` when `outcomes` does not answer them
    /// one for one.
    pub fn into_change(self, outcomes: Vec<LeafOutcome>) -> (r: Option<Change>)
        ensures
            match r {
                Some(c) => assemble(self@, outcome_views(outcomes@)) == Some(c@),
                None => assemble(self@, outcome_views(outcomes@)) is None,
            },
    {
        let ghost op = self@;
        let ghost s = outcome_views(outcomes@);
        let mut outs = outcomes;
        let r = self.assemble_back(&mut outs);
        proof {
            lemma_assemble_len(op, s);
            assert(s.skip(0) =~= s);
        }
        match r {
            Some(c) => if outs.len() == 0 {
                Some(c)
            } else {
                None
            },
            None => None,
        }
    }
}

/// Performing an operation: its single operations run one after the other,
/// in order. The first that fails ends the run: nothing after it runs, and
/// what ran before it stays done.
pub struct OperationRun {
    op: Operation,
    leaves: Vec<Operation>,
    outcomes: Vec<LeafOutcome>,
    failed: bool,
}

/// The mathematical value of an [`OperationRun`]: the operation, its single
/// operations, what those that ran reported, and whether one failed.
pub struct OperationRunV {
    pub op: OperationV,
    pub leaves: Seq<OperationV>,
    pub outcomes: Seq<LeafOutcomeV>,
    pub failed: bool,
}

impl View for OperationRun {
    type V = OperationRunV;

    closed spec fn view(&self) -> OperationRunV {
        OperationRunV {
            op: self.op@,
            leaves: op_views(self.leaves@),
            outcomes: outcome_views(self.outcomes@),
            failed: self.failed,
        }
    }
}

/// The single operation to run next: the one after those that succeeded,
/// unless one failed or all have run.
pub open spec fn run_next(v: OperationRunV) -> Option<OperationV> {
    if v.failed || v.outcomes.len() >= v.leaves.len() {
        None
    } else {
        Some(v.leaves[v.outcomes.len() as int])
    }
}

/// What a run amounts to: the change, once every single operation has
/// succeeded; `None` when one failed, some are left, or the reports do not
/// answer them.
pub open spec fn run_change(v: OperationRunV) -> Option<ChangeV> {
    if v.failed || v.outcomes.len() != v.leaves.len() {
        None
    } else {
        assemble(v.op, v.outcomes)
    }
}

impl OperationRun {
    #[verifier::type_invariant]
    closed spec fn inv(self) -> bool {
        &&& op_views(self.leaves@) == leaves(self.op@)
        &&& self.outcomes.len() <= self.leaves.len()
    }

    /// A run of `op` in which nothing has run yet.
    pub fn start(op: Operation) -> (r: Self)
        ensures
            r@ == (OperationRunV { op: op@, leaves: leaves(op@), outcomes: Seq::empty(), failed: false }),
    {
        let leaves = op.leaves();
        let r = OperationRun { op, leaves, outcomes: Vec::new(), failed: false };
        assert(r@.outcomes =~= Seq::<LeafOutcomeV>::empty());
        r
    }

    /// The single operation to run next, as [`run_next`] says.
    pub fn next_leaf(&self) -> (r: Option<&Operation>)
        ensures
            match r {
                Some(l) => run_next(self@) == Some(l@),
                None => run_next(self@) is None,
            },
    {
        proof {
            use_type_invariant(self);
        }
        if self.failed || self.outcomes.len() >= self.leaves.len() {
            None
        } else {
            let l = &self.leaves[self.outcomes.len()];
            assert(op_views(self.leaves@)[self.outcomes.len() as int] == l@);
            Some(l)
        }
    }

    /// Records that the single operation run last succeeded with `outcome`.
    pub fn succeeded(&mut self, outcome: LeafOutcome)
        requires
            run_next(old(self)@) is Some,
        ensures
            final(self)@ == (OperationRunV { outcomes: old(self)@.outcomes.push(outcome@), ..old(self)@ }),
    {
        proof {
            use_type_invariant(&*self);
        }
        let ghost before = outcome_views(self.outcomes@);
        let ghost o = outcome@;
        let mut outcomes = Vec::new();
        std::mem::swap(&mut outcomes, &mut self.outcomes);
        outcomes.push(outcome);
        self.outcomes = outcomes;
        assert(outcome_views(self.outcomes@) =~= before.push(o));
    }

    /// Records that the single operation run last failed: the run ends, and
    /// nothing that ran before is undone.
    pub fn failed(&mut self)
        ensures
            final(self)@ == (OperationRunV { failed: true, ..old(self)@ }),
    {
        proof {
            use_type_invariant(&*self);
        }
        self.failed = true;
    }

    /// The change that the run amounts to, as [`run_change`] says.
    pub fn finish(self) -> (r: Option<Change>)
        ensures
            match r {
                Some(c) => run_change(self@) == Some(c@),
                None => run_change(self@) is None,
            },
    {
        proof {
            use_type_invariant(&self);
        }
        if self.failed || self.outcomes.len() != self.leaves.len() {
            return None;
        }
        let OperationRun { op, outcomes, .. } = self;
        op.into_change(outcomes)
    }
}

/// A run stops at its first failure: once a single operation has failed,
/// nothing more runs and nothing comes of the run, while the reports of those
/// that ran before stay as they were.
pub proof fn lemma_run_stops_at_failure(v: OperationRunV)
    requires
        v.failed,
    ensures
        run_next(v) is None,
        run_change(v) is None,
{
}

/// A run in which every single operation succeeded, each reporting what it
/// does, amounts to a change.
pub proof fn lemma_run_completes(v: OperationRunV)
    requires
        !v.failed,
        v.leaves == leaves(v.op),
        reports_each(v.leaves, v.outcomes),
    ensures
        run_next(v) is None,
        run_change(v) is Some,
{
    lemma_assemble_succeeds(v.op, v.outcomes);
}

/// How many changes the history keeps unless told otherwise.
pub const MAX_UNDO_OPERATIONS: usize = 10000;

/// The undo history: the recorded changes, and a cursor that separates the
/// changes that can be undone (before it) from those that can be redone (at
/// and after it).
pub struct UndoManager {
    history: VecDeque<Change>,
    cursor: usize,
    limit: usize,
}

/// The mathematical value of an [`UndoManager`].
pub struct UndoState {
    pub history: Seq<ChangeV>,
    pub cursor: nat,
    pub limit: nat,
}

/// What holds of every history: the cursor lies within it, and it keeps no
/// more changes than its limit (one, when the limit is zero).
pub open spec fn state_wf(s: UndoState) -> bool {
    &&& s.cursor <= s.history.len()
    &&& (s.history.len() <= s.limit || s.history.len() <= 1)
}

/// Whether one more change fits into the history.
pub open spec fn has_room(s: UndoState) -> bool {
    s.history.len() < s.limit || s.history.len() == 0
}

pub open spec fn can_undo(s: UndoState) -> bool {
    s.cursor > 0
}

pub open spec fn can_redo(s: UndoState) -> bool {
    s.cursor < s.history.len()
}

/// The single history entry that recording `cs` adds: one change on its own,
/// several as a batch.
pub open spec fn combined(cs: Seq<ChangeV>) -> ChangeV {
    if cs.len() == 1 {
        cs[0]
    } else {
        ChangeV::Batched(cs)
    }
}

/// The history after recording `cs`: what could still be redone is dropped,
/// the oldest entry leaves when the history is full, the new entry is
/// appended and the cursor moves to the end.
pub open spec fn recorded(s: UndoState, cs: Seq<ChangeV>) -> UndoState {
    if cs.len() == 0 {
        s
    } else {
        let kept = s.history.take(s.cursor as int);
        let kept = if kept.len() >= s.limit && kept.len() > 0 {
            kept.drop_first()
        } else {
            kept
        };
        UndoState { history: kept.push(combined(cs)), cursor: kept.len() + 1, limit: s.limit }
    }
}

/// Starting an undo takes the entry just before the cursor out of the history,
/// steps the cursor back, and yields the operation that reverts the entry.
pub open spec fn undo_begun(s: UndoState) -> (UndoState, Option<OperationV>) {
    if s.cursor == 0 {
        (s, None)
    } else {
        let k = s.cursor - 1;
        (
            UndoState { history: s.history.remove(k), cursor: k as nat, limit: s.limit },
            Some(inverse(s.history[k])),
        )
    }
}

/// Finishing an undo records the change that reverting produced at the cursor.
pub open spec fn undo_finished(s: UndoState, c: ChangeV) -> UndoState {
    UndoState { history: s.history.insert(s.cursor as int, c), cursor: s.cursor, limit: s.limit }
}

/// Starting a redo takes the entry at the cursor out of the history and yields
/// the operation that reverts it.
pub open spec fn redo_begun(s: UndoState) -> (UndoState, Option<OperationV>) {
    if s.cursor >= s.history.len() {
        (s, None)
    } else {
        (
            UndoState { history: s.history.remove(s.cursor as int), cursor: s.cursor, limit: s.limit },
            Some(inverse(s.history[s.cursor as int])),
        )
    }
}

/// Finishing a redo records the change that reverting produced at the cursor
/// and steps the cursor past it.
pub open spec fn redo_finished(s: UndoState, c: ChangeV) -> UndoState {
    UndoState {
        history: s.history.insert(s.cursor as int, c),
        cursor: s.cursor + 1,
        limit: s.limit,
    }
}

impl View for UndoManager {
    type V = UndoState;

    closed spec fn view(&self) -> UndoState {
        UndoState {
            history: change_views(self.history@),
            cursor: self.cursor as nat,
            limit: self.limit as nat,
        }
    }
}

impl UndoManager {
    #[verifier::type_invariant]
    closed spec fn inv(self) -> bool {
        state_wf(self@)
    }

    /// An empty history that keeps up to [`MAX_UNDO_OPERATIONS`] changes.
    pub fn new() -> (r: Self)
        ensures
            r@ == (UndoState { history: Seq::empty(), cursor: 0, limit: MAX_UNDO_OPERATIONS as nat }),
    {
        Self::new_with_limit(MAX_UNDO_OPERATIONS)
    }

    /// An empty history that keeps up to `limit` changes.
    pub fn new_with_limit(limit: usize) -> (r: Self)
        ensures
            r@ == (UndoState { history: Seq::empty(), cursor: 0, limit: limit as nat }),
    {
        let r = UndoManager { history: VecDeque::new(), cursor: 0, limit };
        assert(r@.history =~= Seq::<ChangeV>::empty());
        r
    }

    pub fn can_undo(&self) -> (r: bool)
        ensures
            r == can_undo(self@),
    {
        self.cursor > 0
    }

    pub fn can_redo(&self) -> (r: bool)
        ensures
            r == can_redo(self@),
    {
        proof {
            use_type_invariant(self);
        }
        self.cursor < self.history.len()
    }

    /// Whether the history can take one more change, as finishing an undo or a
    /// redo needs.
    pub fn has_room(&self) -> (r: bool)
        ensures
            r == has_room(self@),
    {
        self.history.len() < self.limit || self.history.len() == 0
    }

    /// The number of changes in the history.
    pub fn len(&self) -> (r: usize)
        ensures
            r == self@.history.len(),
    {
        self.history.len()
    }

    /// Records `changes` as one step: a single change as it is, several as a
    /// batch. Nothing happens when `changes` is empty.
    pub fn record(&mut self, changes: Vec<Change>)
        ensures
            final(self)@ == recorded(old(self)@, change_views(changes@)),
            state_wf(final(self)@),
    {
        proof {
            use_type_invariant(&*self);
        }
        let ghost cs = change_views(changes@);
        if changes.len() == 0 {
            return;
        }
        let mut changes = changes;
        let change = if changes.len() == 1 {
            changes.pop().unwrap()
        } else {
            let c = Change::Batched(changes);
            proof {
                lemma_batched_view(c);
            }
            c
        };
        assert(change@ == combined(cs));
        let cursor = self.cursor;
        self.cursor = 0;
        let mut history = VecDeque::new();
        std::mem::swap(&mut history, &mut self.history);
        if cursor < history.len() {
            history.truncate(cursor);
        }
        if history.len() >= self.limit {
            history.pop_front();
        }
        history.push_back(change);
        let len = history.len();
        self.history = history;
        self.cursor = len;
        proof {
            let old_h = old(self)@.history;
            let kept = old_h.take(cursor as int);
            assert(change_views(self.history@) =~= recorded(old(self)@, cs).history) by {
                if kept.len() >= old(self)@.limit && kept.len() > 0 {
                    assert(kept.drop_first().push(change@) =~= change_views(self.history@));
                } else {
                    assert(kept.push(change@) =~= change_views(self.history@));
                }
            }
        }
    }

    /// Starts undoing: takes the entry just before the cursor out of the
    /// history, steps the cursor back and returns the operation that reverts
    /// it; `None`, with nothing changed, when there is nothing to undo. Once
    /// the operation has been executed, [`UndoManager::finish_undo`] records
    /// the change it produced; when it fails, the entry stays removed.
    pub fn begin_undo(&mut self) -> (op: Option<Operation>)
        ensures
            final(self)@ == undo_begun(old(self)@).0,
            match op {
                Some(o) => undo_begun(old(self)@).1 == Some(o@),
                None => undo_begun(old(self)@).1 is None,
            },
            state_wf(final(self)@),
    {
        proof {
            use_type_invariant(&*self);
        }
        if !self.can_undo() {
            return None;
        }
        let cursor = self.cursor - 1;
        self.cursor = 0;
        let mut history = VecDeque::new();
        std::mem::swap(&mut history, &mut self.history);
        let change = history.remove(cursor).unwrap();
        self.history = history;
        self.cursor = cursor;
        proof {
            assert(change_views(self.history@) =~= undo_begun(old(self)@).0.history);
        }
        Some(change.to_inverse())
    }

    /// Records at the cursor the change that undoing produced.
    pub fn finish_undo(&mut self, change: Change)
        requires
            has_room(old(self)@),
        ensures
            final(self)@ == undo_finished(old(self)@, change@),
            state_wf(final(self)@),
    {
        proof {
            use_type_invariant(&*self);
        }
        let ghost c = change@;
        let cursor = self.cursor;
        self.cursor = 0;
        let mut history = VecDeque::new();
        std::mem::swap(&mut history, &mut self.history);
        history.insert(cursor, change);
        self.history = history;
        self.cursor = cursor;
        proof {
            assert(change_views(self.history@) =~= undo_finished(old(self)@, c).history);
        }
    }

    /// Starts redoing: takes the entry at the cursor out of the history and
    /// returns the operation that reverts it; `None`, with nothing changed,
    /// when there is nothing to redo. Once the operation has been executed,
    /// [`UndoManager::finish_redo`] records the change it produced; when it
    /// fails, the entry stays removed.
    pub fn begin_redo(&mut self) -> (op: Option<Operation>)
        ensures
            final(self)@ == redo_begun(old(self)@).0,
            match op {
                Some(o) => redo_begun(old(self)@).1 == Some(o@),
                None => redo_begun(old(self)@).1 is None,
            },
            state_wf(final(self)@),
    {
        proof {
            use_type_invariant(&*self);
        }
        if !self.can_redo() {
            return None;
        }
        let cursor = self.cursor;
        self.cursor = 0;
        let mut history = VecDeque::new();
        std::mem::swap(&mut history, &mut self.history);
        let change = history.remove(cursor).unwrap();
        self.history = history;
        self.cursor = cursor;
        proof {
            assert(change_views(self.history@) =~= redo_begun(old(self)@).0.history);
        }
        Some(change.to_inverse())
    }

    /// Records at the cursor the change that redoing produced and steps the
    /// cursor past it.
    pub fn finish_redo(&mut self, change: Change)
        requires
            has_room(old(self)@),
        ensures
            final(self)@ == redo_finished(old(self)@, change@),
            state_wf(final(self)@),
    {
        proof {
            use_type_invariant(&*self);
        }
        let ghost c = change@;
        let cursor = self.cursor;
        self.cursor = 0;
        let mut history = VecDeque::new();
        std::mem::swap(&mut history, &mut self.history);
        history.insert(cursor, change);
        self.history = history;
        self.cursor = cursor + 1;
        proof {
            assert(change_views(self.history@) =~= redo_finished(old(self)@, c).history);
        }
    }
}

/// Whether a change consists of renames only (possibly in nested batches).
pub open spec fn renames_only(c: ChangeV) -> bool
    decreases c,
{
    match c {
        ChangeV::Renamed(_, _) => true,
        ChangeV::Batched(cs) => forall|i: int| 0 <= i < cs.len() ==> renames_only(#[trigger] cs[i]),
        _ => false,
    }
}

/// Whether an operation consists of renames only (possibly in nested batches).
pub open spec fn rename_ops_only(op: OperationV) -> bool
    decreases op,
{
    match op {
        OperationV::Rename(_, _) => true,
        OperationV::Batch(ops) => forall|i: int|
            0 <= i < ops.len() ==> rename_ops_only(#[trigger] ops[i]),
        _ => false,
    }
}

/// `n` reports of a successful rename.
pub open spec fn all_renamed(n: nat) -> Seq<LeafOutcomeV> {
    Seq::new(n, |i: int| LeafOutcomeV::Renamed)
}

/// The change that an operation made of renames produces when every rename
/// succeeds.
pub open spec fn renames_result(op: OperationV) -> ChangeV
    decreases op,
{
    match op {
        OperationV::Rename(from, to) => ChangeV::Renamed(from, to),
        OperationV::Batch(ops) => ChangeV::Batched(
            Seq::new(
                ops.len(),
                |i: int|
                    if 0 <= i < ops.len() {
                        renames_result(ops[i])
                    } else {
                        ChangeV::Batched(Seq::empty())
                    },
            ),
        ),
        _ => ChangeV::Batched(Seq::empty()),
    }
}

proof fn lemma_assemble_renames(op: OperationV)
    requires
        rename_ops_only(op),
    ensures
        assemble(op, all_renamed(leaves(op).len())) == Some(renames_result(op)),
    decreases op,
{
    if let OperationV::Batch(ops) = op {
        lemma_assemble_all_renames(ops, ops.len() as int);
        assert(ops.take(ops.len() as int) =~= ops);
        assert(Seq::new(ops.len(), |i: int| renames_result(ops[i])) =~= renames_result(op)->Batched_0);
    } else {
        assert(all_renamed(1)[0] == LeafOutcomeV::Renamed);
    }
}

proof fn lemma_assemble_all_renames(ops: Seq<OperationV>, m: int)
    requires
        0 <= m <= ops.len(),
        forall|i: int| 0 <= i < ops.len() ==> rename_ops_only(#[trigger] ops[i]),
    ensures
        assemble_all(ops.take(m), all_renamed(leaves_of(ops.take(m)).len())) == Some(
            Seq::new(m as nat, |i: int| renames_result(ops[i])),
        ),
    decreases ops, m,
{
    let o = ops.take(m);
    if m == 0 {
        assert(o.len() == 0);
        assert(Seq::new(0, |i: int| renames_result(ops[i])) =~= Seq::<ChangeV>::empty());
    } else {
        lemma_leaves_of_step(ops, m);
        let nm = leaves_of(o).len();
        let nm1 = leaves_of(ops.take(m - 1)).len();
        let n = leaves(ops[m - 1]).len();
        lemma_assemble_all_renames(ops, m - 1);
        assert(decreases_to!(ops => ops[m - 1]));
        lemma_assemble_renames(ops[m - 1]);
        assert(all_renamed(nm).take(nm - n) =~= all_renamed(nm1));
        assert(all_renamed(nm).skip(nm - n) =~= all_renamed(n));
        assert(Seq::new((m - 1) as nat, |i: int| renames_result(ops[i])).push(
            renames_result(ops[m - 1]),
        ) =~= Seq::new(m as nat, |i: int| renames_result(ops[i])));
    }
}

/// Reverting a change made of renames, with every rename succeeding, and
/// reverting what that produced, gives back the change.
proof fn lemma_renames_round_trip(c: ChangeV)
    requires
        renames_only(c),
    ensures
        rename_ops_only(inverse(c)),
        renames_only(renames_result(inverse(c))),
        renames_result(inverse(renames_result(inverse(c)))) == c,
    decreases c,
{
    if let ChangeV::Batched(cs) = c {
        let len = cs.len();
        let inv = inverse(c)->Batch_0;
        let once = renames_result(inverse(c))->Batched_0;
        let inv2 = inverse(renames_result(inverse(c)))->Batch_0;
        let twice = renames_result(inverse(renames_result(inverse(c))))->Batched_0;
        assert forall|i: int| 0 <= i < len implies {
            &&& rename_ops_only(#[trigger] inv[i])
            &&& renames_only(once[i])
            &&& once[i] == renames_result(inverse(cs[len - 1 - i]))
        } by {
            assert(decreases_to!(c => cs[len - 1 - i]));
            lemma_renames_round_trip(cs[len - 1 - i]);
        }
        assert forall|i: int| 0 <= i < len implies #[trigger] twice[i] == cs[i] by {
            assert(decreases_to!(c => cs[i]));
            lemma_renames_round_trip(cs[i]);
            assert(inv2[i] == inverse(once[len - 1 - i]));
        }
        assert(twice =~= cs);
    }
}

/// Undoing a change made of renames and redoing it, with every rename
/// succeeding both times, leaves the history and its cursor as they were.
pub proof fn lemma_undo_redo_renames(s: UndoState)
    requires
        state_wf(s),
        can_undo(s),
        renames_only(s.history[s.cursor - 1]),
    ensures
        ({
            let (s1, op1) = undo_begun(s);
            let o1 = op1->0;
            let r1 = assemble(o1, all_renamed(leaves(o1).len()));
            let s2 = undo_finished(s1, r1->0);
            let (s3, op2) = redo_begun(s2);
            let o2 = op2->0;
            let r2 = assemble(o2, all_renamed(leaves(o2).len()));
            &&& op1 is Some
            &&& r1 is Some
            &&& op2 is Some
            &&& r2 is Some
            &&& redo_finished(s3, r2->0) == s
        }),
{
    let k = s.cursor - 1;
    let c = s.history[k];
    lemma_renames_round_trip(c);
    lemma_renames_round_trip(renames_result(inverse(c)));
    lemma_assemble_renames(inverse(c));
    lemma_assemble_renames(inverse(renames_result(inverse(c))));
    let (s1, op1) = undo_begun(s);
    let s2 = undo_finished(s1, renames_result(inverse(c)));
    assert(s2.history =~= s.history.update(k, renames_result(inverse(c))));
    let (s3, op2) = redo_begun(s2);
    assert(s3.history =~= s.history.remove(k));
    let s4 = redo_finished(s3, c);
    assert(s4.history =~= s.history);
}

/// Recording a non-empty set of changes leaves nothing to redo, and undoing
/// next reverts exactly what was recorded.
pub proof fn lemma_record_then_undo(s: UndoState, cs: Seq<ChangeV>)
    requires
        state_wf(s),
        cs.len() > 0,
    ensures
        state_wf(recorded(s, cs)),
        can_undo(recorded(s, cs)),
        !can_redo(recorded(s, cs)),
        undo_begun(recorded(s, cs)).1 == Some(inverse(combined(cs))),
{
}

/// Undoing and then redoing hands back to the redo the change that the undo
/// recorded, and the cursor returns to where it was.
pub proof fn lemma_undo_then_redo(s: UndoState, c: ChangeV)
    requires
        state_wf(s),
        can_undo(s),
    ensures
        redo_begun(undo_finished(undo_begun(s).0, c)).1 == Some(inverse(c)),
        redo_finished(redo_begun(undo_finished(undo_begun(s).0, c)).0, c).cursor == s.cursor,
{
}

/// Every step keeps the history well formed: the cursor within it, and no
/// more entries than the limit allows.
pub proof fn lemma_steps_keep_wf(s: UndoState, cs: Seq<ChangeV>, c: ChangeV)
    requires
        state_wf(s),
    ensures
        state_wf(recorded(s, cs)),
        state_wf(undo_begun(s).0),
        state_wf(redo_begun(s).0),
        has_room(s) ==> state_wf(undo_finished(s, c)),
        has_room(s) ==> state_wf(redo_finished(s, c)),
        can_undo(s) ==> has_room(undo_begun(s).0),
        can_redo(s) ==> has_room(redo_begun(s).0),
{
}

} // verus!
