//! The decision rules of the ledger store.
//!
//! The store serves ledger metadata — ledger infos, epochs, transaction
//! infos — from an on-disk database and caches the latest ledger info in
//! memory.  The database itself is outside the library: each rule here
//! takes what the database lookup returned as a plain value and decides
//! what the store answers, or which writes a batch must carry.

use vstd::prelude::*;

verus! {

/// Why a ledger-store query failed.
#[derive(Debug, PartialEq, Eq, Structural)]
pub enum LedgerStoreError {
    /// The requested item is not in the store.
    NotFound,
    /// The store's contents contradict themselves.
    Corruption,
    /// The request itself is invalid for this store.
    InvalidRequest,
}

/// A ledger info with its signatures, reduced to what the store's rules
/// read: the epoch it closes over, the version it sits at, and whether it
/// carries the state of the next epoch (which is what makes it end its
/// epoch).
#[derive(Clone, Copy, Debug, PartialEq, Eq, Structural)]
pub struct LedgerInfoWithSignatures {
    pub epoch: u64,
    pub version: u64,
    pub has_next_epoch_state: bool,
}

/// The state of an epoch, reduced to its number.
#[derive(Clone, Copy, Debug, PartialEq, Eq, Structural)]
pub struct EpochState {
    pub epoch: u64,
}

/// A transaction info, as the store carries it: opaque bytes.
#[derive(Debug)]
pub struct TransactionInfo {
    pub bytes: Vec<u8>,
}

/// The writes a ledger info puts into a batch: the epoch index entry, when
/// the info ends its epoch, and the info itself under its epoch.
#[derive(Debug)]
pub struct LedgerInfoBatchOps {
    pub epoch_index_entry: Option<(u64, u64)>,
    pub ledger_info_key: u64,
}

/// The ledger store's in-memory state: the cached latest ledger info.  The
/// cache is read on almost every request and updated whenever a new ledger
/// info is persisted.
pub struct LedgerStore {
    latest_ledger_info: Option<LedgerInfoWithSignatures>,
}

impl LedgerStore {
    /// The cached latest ledger info.
    pub closed spec fn spec_latest(&self) -> Option<LedgerInfoWithSignatures> {
        self.latest_ledger_info
    }

    /// A store that starts with what the database's ledger-info table held
    /// last, read once at startup.
    pub fn new(startup_ledger_info: Option<LedgerInfoWithSignatures>) -> (r: Self)
        ensures
            r.spec_latest() == startup_ledger_info,
    {
        LedgerStore { latest_ledger_info: startup_ledger_info }
    }

    /// The epoch a version belongs to.  `index_entry` is the last
    /// `(epoch ending version, epoch)` pair at or before `version` in the
    /// epoch-by-version index.  With no such pair the version precedes the
    /// first recorded epoch change and belongs to epoch 0; a pair after
    /// `version` is a corrupt index; a pair before it means the next epoch
    /// has begun; a pair at it means `version` closes that very epoch.
    pub fn get_epoch(&self, version: u64, index_entry: Option<(u64, u64)>) -> (r: Result<
        u64,
        LedgerStoreError,
    >)
        requires
            index_entry is Some ==> (index_entry->0).1 < u64::MAX,
        ensures
            index_entry is None ==> r == Ok::<u64, LedgerStoreError>(0),
            index_entry is Some ==> {
                let (epoch_end_version, epoch) = index_entry->0;
                if epoch_end_version > version {
                    r == Err::<u64, LedgerStoreError>(LedgerStoreError::Corruption)
                } else if epoch_end_version < version {
                    r == Ok::<u64, LedgerStoreError>((epoch + 1) as u64)
                } else {
                    r == Ok::<u64, LedgerStoreError>(epoch)
                }
            },
    {
        match index_entry {
            None => Ok(0),
            Some((epoch_end_version, epoch)) => {
                if epoch_end_version > version {
                    Err(LedgerStoreError::Corruption)
                } else if epoch_end_version < version {
                    Ok(epoch + 1)
                } else {
                    Ok(epoch)
                }
            },
        }
    }

    /// The ledger info that ends its epoch at `version`.  `lookup` is the
    /// ledger info the database holds for that epoch.  The info must exist,
    /// sit exactly at `version`, and carry the next epoch's state — else
    /// `version` is no epoch ending.
    pub fn get_epoch_ending_ledger_info(
        &self,
        version: u64,
        lookup: Option<LedgerInfoWithSignatures>,
    ) -> (r: Result<LedgerInfoWithSignatures, LedgerStoreError>)
        ensures
            lookup is None ==> r == Err::<LedgerInfoWithSignatures, LedgerStoreError>(
                LedgerStoreError::NotFound,
            ),
            lookup is Some ==> {
                let li = lookup->0;
                if li.version != version {
                    r == Err::<LedgerInfoWithSignatures, LedgerStoreError>(
                        LedgerStoreError::Corruption,
                    )
                } else if !li.has_next_epoch_state {
                    r == Err::<LedgerInfoWithSignatures, LedgerStoreError>(
                        LedgerStoreError::NotFound,
                    )
                } else {
                    r == Ok::<LedgerInfoWithSignatures, LedgerStoreError>(li)
                }
            },
    {
        match lookup {
            None => Err(LedgerStoreError::NotFound),
            Some(li) => {
                if li.version != version {
                    Err(LedgerStoreError::Corruption)
                } else if !li.has_next_epoch_state {
                    Err(LedgerStoreError::NotFound)
                } else {
                    Ok(li)
                }
            },
        }
    }

    /// The cached latest ledger info, if one exists.
    pub fn get_latest_ledger_info_option(&self) -> (r: Option<LedgerInfoWithSignatures>)
        ensures
            r == self.spec_latest(),
    {
        self.latest_ledger_info
    }

    /// The cached latest ledger info; a store that has none holds no
    /// genesis yet.
    pub fn get_latest_ledger_info(&self) -> (r: Result<
        LedgerInfoWithSignatures,
        LedgerStoreError,
    >)
        ensures
            self.spec_latest() is Some ==> r == Ok::<LedgerInfoWithSignatures, LedgerStoreError>(
                self.spec_latest()->0,
            ),
            self.spec_latest() is None ==> r == Err::<LedgerInfoWithSignatures, LedgerStoreError>(
                LedgerStoreError::NotFound,
            ),
    {
        match self.latest_ledger_info {
            Some(li) => Ok(li),
            None => Err(LedgerStoreError::NotFound),
        }
    }

    /// Caches `ledger_info_with_sigs` as the latest; called whenever a new
    /// ledger info is persisted.
    pub fn set_latest_ledger_info(&mut self, ledger_info_with_sigs: LedgerInfoWithSignatures)
        ensures
            final(self).spec_latest() == Some(ledger_info_with_sigs),
    {
        self.latest_ledger_info = Some(ledger_info_with_sigs);
    }

    /// The last ledger info of `epoch`; `lookup` is what the database holds
    /// under that epoch.
    pub fn get_latest_ledger_info_in_epoch(
        &self,
        lookup: Option<LedgerInfoWithSignatures>,
    ) -> (r: Result<LedgerInfoWithSignatures, LedgerStoreError>)
        ensures
            lookup is Some ==> r == Ok::<LedgerInfoWithSignatures, LedgerStoreError>(lookup->0),
            lookup is None ==> r == Err::<LedgerInfoWithSignatures, LedgerStoreError>(
                LedgerStoreError::NotFound,
            ),
    {
        match lookup {
            Some(li) => Ok(li),
            None => Err(LedgerStoreError::NotFound),
        }
    }

    /// The state of `epoch`, carried by the last ledger info of the epoch
    /// before it.  Epoch 0 has no such predecessor and cannot be queried;
    /// `lookup_prev` is the database's ledger info for `epoch - 1`, which
    /// must exist and end its epoch.
    pub fn get_epoch_state(&self, epoch: u64, lookup_prev: Option<LedgerInfoWithSignatures>) -> (r:
        Result<EpochState, LedgerStoreError>)
        ensures
            epoch == 0 ==> r == Err::<EpochState, LedgerStoreError>(
                LedgerStoreError::InvalidRequest,
            ),
            epoch > 0 && lookup_prev is None ==> r == Err::<EpochState, LedgerStoreError>(
                LedgerStoreError::NotFound,
            ),
            epoch > 0 && lookup_prev is Some ==> {
                if (lookup_prev->0).has_next_epoch_state {
                    r == Ok::<EpochState, LedgerStoreError>(EpochState { epoch })
                } else {
                    r == Err::<EpochState, LedgerStoreError>(LedgerStoreError::Corruption)
                }
            },
    {
        if epoch == 0 {
            return Err(LedgerStoreError::InvalidRequest);
        }
        match lookup_prev {
            None => Err(LedgerStoreError::NotFound),
            Some(li) => {
                if li.has_next_epoch_state {
                    Ok(EpochState { epoch })
                } else {
                    Err(LedgerStoreError::Corruption)
                }
            },
        }
    }

    /// The transaction info at a version; `lookup` is what the database
    /// holds there.
    pub fn get_transaction_info(&self, lookup: Option<TransactionInfo>) -> (r: Result<
        TransactionInfo,
        LedgerStoreError,
    >)
        ensures
            lookup is Some ==> r is Ok && (r->Ok_0).bytes@ == (lookup->0).bytes@,
            lookup is None ==> r == Err::<TransactionInfo, LedgerStoreError>(
                LedgerStoreError::NotFound,
            ),
    {
        match lookup {
            Some(info) => Ok(info),
            None => Err(LedgerStoreError::NotFound),
        }
    }

    /// The latest committed version; `progress` is the database's overall
    /// commit progress, which a fresh database lacks.
    pub fn get_latest_version(&self, progress: Option<u64>) -> (r: Result<u64, LedgerStoreError>)
        ensures
            progress is Some ==> r == Ok::<u64, LedgerStoreError>(progress->0),
            progress is None ==> r == Err::<u64, LedgerStoreError>(LedgerStoreError::NotFound),
    {
        match progress {
            Some(v) => Ok(v),
            None => Err(LedgerStoreError::NotFound),
        }
    }

    /// Checks that `version` ends an epoch: the epoch-by-version index must
    /// hold an entry at exactly that version; `index_lookup` is that entry's
    /// epoch, if one exists.
    pub fn ensure_epoch_ending(&self, index_lookup: Option<u64>) -> (r: Result<
        (),
        LedgerStoreError,
    >)
        ensures
            index_lookup is Some ==> r is Ok,
            index_lookup is None ==> r == Err::<(), LedgerStoreError>(
                LedgerStoreError::InvalidRequest,
            ),
    {
        match index_lookup {
            Some(_) => Ok(()),
            None => Err(LedgerStoreError::InvalidRequest),
        }
    }

    /// The leaf counts a consistency proof is built over: a known version
    /// covers one more leaf than its number, an unknown client covers none,
    /// both saturating at the integer's top.
    pub fn consistency_proof_leaf_counts(
        &self,
        client_known_version: Option<u64>,
        ledger_version: u64,
    ) -> (r: (u64, u64))
        ensures
            r.0 == match client_known_version {
                Some(v) => if v < u64::MAX {
                    (v + 1) as u64
                } else {
                    u64::MAX
                },
                None => 0u64,
            },
            r.1 == if ledger_version < u64::MAX {
                (ledger_version + 1) as u64
            } else {
                u64::MAX
            },
    {
        let client_known_num_leaves = match client_known_version {
            Some(v) => if v < u64::MAX {
                v + 1
            } else {
                u64::MAX
            },
            None => 0,
        };
        let ledger_num_leaves = if ledger_version < u64::MAX {
            ledger_version + 1
        } else {
            u64::MAX
        };
        (client_known_num_leaves, ledger_num_leaves)
    }

    /// The writes persisting a ledger info: when the info ends its epoch,
    /// the epoch-by-version index gains `(version, epoch)`; the info itself
    /// is always written under its epoch.
    pub fn put_ledger_info(&self, ledger_info_with_sigs: &LedgerInfoWithSignatures) -> (r:
        LedgerInfoBatchOps)
        ensures
            ledger_info_with_sigs.has_next_epoch_state ==> r.epoch_index_entry == Some(
                (ledger_info_with_sigs.version, ledger_info_with_sigs.epoch),
            ),
            !ledger_info_with_sigs.has_next_epoch_state ==> r.epoch_index_entry is None,
            r.ledger_info_key == ledger_info_with_sigs.epoch,
    {
        let epoch_index_entry = if ledger_info_with_sigs.has_next_epoch_state {
            Some((ledger_info_with_sigs.version, ledger_info_with_sigs.epoch))
        } else {
            None
        };
        LedgerInfoBatchOps { epoch_index_entry, ledger_info_key: ledger_info_with_sigs.epoch }
    }

    /// The versions that `count` consecutive transaction infos are written
    /// under, starting at `first_version`.
    pub fn transaction_info_versions(&self, first_version: u64, count: usize) -> (r: Vec<u64>)
        requires
            first_version + count <= u64::MAX,
        ensures
            r@.len() == count,
            forall|i: int| 0 <= i < count ==> r@[i] == first_version + i,
    {
        let mut versions: Vec<u64> = Vec::new();
        let mut i: usize = 0;
        while i < count
            invariant
                i <= count,
                first_version + count <= u64::MAX,
                versions@.len() == i,
                forall|j: int| 0 <= j < i ==> versions@[j] == first_version + j,
            decreases count - i,
        {
            versions.push(first_version + i as u64);
            i = i + 1;
        }
        versions
    }
}

} // verus!
