use vstd::prelude::*;
use crate::amount::LedgerError;
use crate::ledger::{empty_view, parts_view, view_valid, Ledger, LedgerParts};

verus! {

/// What reading the primary store produced.
pub enum ReadOutcome {
    /// Nothing is stored yet: the first run.
    Missing,
    /// The store exists but could not be read.
    Failed,
    /// The store was read but is not in the expected format.
    Undecodable,
    /// The store was read and decoded into these parts.
    Decoded(LedgerParts),
}

/// Decides the ledger that a session starts from. A missing store gives a
/// fresh ledger; a store that cannot be read gives `IOFailure`; one that
/// cannot be decoded, or whose parts do not form a valid ledger, gives
/// `CorruptState`.
pub fn load_state(outcome: ReadOutcome) -> (r: Result<Ledger, LedgerError>)
    ensures
        outcome is Missing ==> r is Ok && r->Ok_0@ == empty_view(),
        outcome is Failed ==> r == Err::<Ledger, LedgerError>(LedgerError::IOFailure),
        outcome is Undecodable ==> r == Err::<Ledger, LedgerError>(LedgerError::CorruptState),
        outcome matches ReadOutcome::Decoded(p) ==> if view_valid(parts_view(p)) {
            r is Ok && r->Ok_0@ == parts_view(p)
        } else {
            r == Err::<Ledger, LedgerError>(LedgerError::CorruptState)
        },
        r matches Ok(l) ==> l.wf(),
{
    match outcome {
        ReadOutcome::Missing => Ok(Ledger::new()),
        ReadOutcome::Failed => Err(LedgerError::IOFailure),
        ReadOutcome::Undecodable => Err(LedgerError::CorruptState),
        ReadOutcome::Decoded(p) => Ledger::from_parts(p),
    }
}

/// One step of a save.
#[derive(Debug, Clone, Copy, PartialEq, Eq, Structural)]
pub enum SaveStep {
    /// Copy the current primary store to the backup location.
    CopyPrimaryToBackup,
    /// Write the new state to a temporary location beside the primary.
    WriteTemporary,
    /// Rename the temporary file over the primary store.
    RenameTemporaryToPrimary,
}

/// The steps of a save, in order: the backup copy first, when backups are
/// enabled and a primary store exists, then the write to a temporary
/// location and its rename over the primary.
pub open spec fn plan_of(backup_enabled: bool, primary_exists: bool) -> Seq<SaveStep> {
    if backup_enabled && primary_exists {
        seq![SaveStep::CopyPrimaryToBackup, SaveStep::WriteTemporary, SaveStep::RenameTemporaryToPrimary]
    } else {
        seq![SaveStep::WriteTemporary, SaveStep::RenameTemporaryToPrimary]
    }
}

/// The steps that a save performs, in order.
pub fn save_plan(backup_enabled: bool, primary_exists: bool) -> (r: Vec<SaveStep>)
    ensures
        r@ == plan_of(backup_enabled, primary_exists),
{
    let mut r: Vec<SaveStep> = Vec::new();
    if backup_enabled && primary_exists {
        r.push(SaveStep::CopyPrimaryToBackup);
    }
    r.push(SaveStep::WriteTemporary);
    r.push(SaveStep::RenameTemporaryToPrimary);
    assert(r@ =~= plan_of(backup_enabled, primary_exists));
    r
}

/// The error that ends a save whose `step` failed: a failed backup copy is
/// a `BackupFailure`, any other failed step an `IOFailure`. The steps after
/// a failed one are not performed.
pub fn step_error(step: SaveStep) -> (r: LedgerError)
    ensures
        step is CopyPrimaryToBackup ==> r == LedgerError::BackupFailure,
        !(step is CopyPrimaryToBackup) ==> r == LedgerError::IOFailure,
{
    match step {
        SaveStep::CopyPrimaryToBackup => LedgerError::BackupFailure,
        _ => LedgerError::IOFailure,
    }
}

/// The contents of the three storage locations that a save touches.
pub struct StoreView {
    pub primary: Option<Seq<u8>>,
    pub backup: Option<Seq<u8>>,
    pub temporary: Option<Seq<u8>>,
}

/// The store after `step` succeeds while saving the bytes `data`.
pub open spec fn apply_step(st: StoreView, step: SaveStep, data: Seq<u8>) -> StoreView {
    match step {
        SaveStep::CopyPrimaryToBackup => StoreView { backup: st.primary, ..st },
        SaveStep::WriteTemporary => StoreView { temporary: Some(data), ..st },
        SaveStep::RenameTemporaryToPrimary => StoreView { primary: st.temporary, temporary: None, ..st },
    }
}

/// The store after each of `steps` succeeds in turn.
pub open spec fn run_steps(st: StoreView, steps: Seq<SaveStep>, data: Seq<u8>) -> StoreView
    decreases steps.len(),
{
    if steps.len() == 0 {
        st
    } else {
        run_steps(apply_step(st, steps[0], data), steps.drop_first(), data)
    }
}

/// A fresh ledger, which a first load from a missing store gives, has no
/// income and no expenses, so all its totals are zero.
pub proof fn law_fresh_ledger_totals_zero()
    ensures
        crate::ledger::income_of(empty_view()) == 0,
        crate::ledger::expenses_of(empty_view()) == 0,
        forall|c: Seq<char>| !crate::totals::has_category(#[trigger] empty_view().expenses, c),
{
}

/// A save with backups enabled over an existing primary store leaves the
/// previous primary contents in the backup and the new bytes in the primary.
pub proof fn law_backup_keeps_previous(st: StoreView, data: Seq<u8>)
    requires
        st.primary is Some,
    ensures
        run_steps(st, plan_of(true, true), data) == (StoreView {
            primary: Some(data),
            backup: st.primary,
            temporary: None,
        }),
{
    reveal_with_fuel(run_steps, 4);
    let p = plan_of(true, true);
    assert(p[0] == SaveStep::CopyPrimaryToBackup && p[1] == SaveStep::WriteTemporary && p[2] == SaveStep::RenameTemporaryToPrimary);
    let s1 = apply_step(st, p[0], data);
    let s2 = apply_step(s1, p[1], data);
    let s3 = apply_step(s2, p[2], data);
    assert(p.drop_first() =~= seq![SaveStep::WriteTemporary, SaveStep::RenameTemporaryToPrimary]);
    assert(p.drop_first().drop_first() =~= seq![SaveStep::RenameTemporaryToPrimary]);
    assert(p.drop_first().drop_first().drop_first() =~= Seq::<SaveStep>::empty());
    assert(run_steps(s3, Seq::<SaveStep>::empty(), data) == s3);
}

/// A save with backups disabled, or with no primary store yet, leaves the
/// backup as it was and the new bytes in the primary.
pub proof fn law_save_without_backup(st: StoreView, data: Seq<u8>, backup_enabled: bool, primary_exists: bool)
    requires
        !(backup_enabled && primary_exists),
    ensures
        run_steps(st, plan_of(backup_enabled, primary_exists), data) == (StoreView {
            primary: Some(data),
            backup: st.backup,
            temporary: None,
        }),
{
    reveal_with_fuel(run_steps, 3);
    let p = plan_of(backup_enabled, primary_exists);
    assert(p[0] == SaveStep::WriteTemporary && p[1] == SaveStep::RenameTemporaryToPrimary);
    assert(p.drop_first() =~= seq![SaveStep::RenameTemporaryToPrimary]);
    assert(p.drop_first().drop_first() =~= Seq::<SaveStep>::empty());
}

/// However many steps of a save have succeeded before it stops, the primary
/// store holds either its previous contents or exactly the new bytes.
pub proof fn law_primary_never_partial(st: StoreView, data: Seq<u8>, backup_enabled: bool, primary_exists: bool, k: int)
    requires
        st.temporary is None,
        0 <= k <= plan_of(backup_enabled, primary_exists).len(),
    ensures
        run_steps(st, plan_of(backup_enabled, primary_exists).take(k), data).primary == st.primary
            || run_steps(st, plan_of(backup_enabled, primary_exists).take(k), data).primary == Some(data),
{
    reveal_with_fuel(run_steps, 4);
    let p = plan_of(backup_enabled, primary_exists);
    let t = p.take(k);
    if backup_enabled && primary_exists {
        assert(p[0] == SaveStep::CopyPrimaryToBackup && p[1] == SaveStep::WriteTemporary && p[2] == SaveStep::RenameTemporaryToPrimary);
    } else {
        assert(p[0] == SaveStep::WriteTemporary && p[1] == SaveStep::RenameTemporaryToPrimary);
    }
    if t.len() > 0 {
        assert(t[0] == p[0]);
        assert(t.drop_first() =~= p.subrange(1, k));
        if t.len() > 1 {
            assert(t.drop_first().drop_first() =~= p.subrange(2, k));
            assert(t[1] == p[1]);
            if t.len() > 2 {
                assert(t.drop_first().drop_first().drop_first() =~= p.subrange(3, k));
                assert(t[2] == p[2]);
            }
        }
    }
}

} // verus!
