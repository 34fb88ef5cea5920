//! The transaction lifecycle: a transaction is consumed exactly once by
//! commit or rollback, and every operation attempted afterwards is
//! rejected with a defined error rather than silently retried.

use vstd::prelude::*;
use crate::error::OrmError;

verus! {

/// Where a transaction stands in its life.
#[derive(Debug, Clone, Copy, PartialEq, Eq, Structural)]
pub enum TxPhase {
    /// Operations may proceed.
    Open,
    /// Consumed by commit; every further operation is rejected.
    Committed,
    /// Consumed by rollback; every further operation is rejected.
    RolledBack,
}

/// The tri-state lifecycle guarding a transaction handle.
#[derive(Debug, Clone, Copy, PartialEq, Eq, Structural)]
pub struct TxLifecycle {
    pub phase: TxPhase,
}

impl TxLifecycle {
    /// A freshly begun transaction.
    pub fn new() -> (r: Self)
        ensures
            r.phase == TxPhase::Open,
    {
        TxLifecycle { phase: TxPhase::Open }
    }

    /// Admits an operation only while the transaction is open; after
    /// commit or rollback every call fails with the closed-transaction
    /// error.
    pub fn check_active(&self) -> (r: Result<(), OrmError>)
        ensures
            self.phase == TxPhase::Open ==> r is Ok,
            self.phase != TxPhase::Open ==> (r matches Err(e) && e@
                == crate::error::ErrorModel::TransactionClosedError),
    {
        match self.phase {
            TxPhase::Open => Ok(()),
            _ => Err(OrmError::TransactionClosedError),
        }
    }

    /// Consumes the transaction by commit. The result says whether the
    /// underlying handle must actually be committed: a transaction
    /// already consumed is left alone, and the repeated call is a no-op.
    pub fn finish_commit(&mut self) -> (do_commit: bool)
        ensures
            old(self).phase == TxPhase::Open ==> do_commit && final(self).phase
                == TxPhase::Committed,
            old(self).phase != TxPhase::Open ==> !do_commit && final(self).phase == old(self).phase,
    {
        match self.phase {
            TxPhase::Open => {
                self.phase = TxPhase::Committed;
                true
            },
            _ => false,
        }
    }

    /// Consumes the transaction by rollback, in the same one-shot way as
    /// commit.
    pub fn finish_rollback(&mut self) -> (do_rollback: bool)
        ensures
            old(self).phase == TxPhase::Open ==> do_rollback && final(self).phase
                == TxPhase::RolledBack,
            old(self).phase != TxPhase::Open ==> !do_rollback && final(self).phase == old(self).phase,
    {
        match self.phase {
            TxPhase::Open => {
                self.phase = TxPhase::RolledBack;
                true
            },
            _ => false,
        }
    }
}

} // verus!
