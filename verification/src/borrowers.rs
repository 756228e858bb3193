//! Vault tracker.
//!
//! Keeps track of the vaults that have open positions and observes their debt
//! healthiness.  Vault ids come from a historical event scan performed by the
//! caller; this module plans the batched reads for each working set, turns
//! the per-call outcomes back into vault records, reclassifies trivially
//! undercollateralized vaults through the cache, and maintains the vault map.
//! A vault that could not be read is rewritten as an uninitialized
//! placeholder — never dropped — so "unknown" and "unreadable" stay
//! distinguishable and the working set never shrinks.
use crate::cache::ImmutableCache;
use crate::errors::KeeperError;
use crate::idmap::{lemma_keys_cover_elim, spec_keys_cover, IdMap};
use crate::ids_sorted;
use crate::lemma_ids_sorted_unique;
use crate::types::{Address, IlkIdType, SeriesIdType, VaultIdType};
use vstd::prelude::*;

verus! {

/// A vault's details.
#[derive(PartialEq, Eq, Structural, Clone, Copy, Debug)]
pub struct Vault {
    /// The vault's id.
    pub vault_id: VaultIdType,
    /// False for a placeholder written when the vault could not be read.
    pub is_initialized: bool,
    /// Whether the collateral covers the debt (negative health means no).
    pub is_collateralized: bool,
    /// Whether a liquidation auction already owns the vault.
    pub under_auction: bool,
    /// The signed health level; negative means undercollateralized.
    pub level: i128,
    /// The outstanding debt.
    pub debt: u128,
    /// The collateral-asset id.
    pub ilk_id: IlkIdType,
    /// The series id.
    pub series_id: SeriesIdType,
}

impl Vault {
    /// The placeholder written for a vault whose data could not be fetched or
    /// decoded: uninitialized, with zeroed fields.
    pub open spec fn spec_placeholder(vault_id: VaultIdType) -> Vault {
        Vault {
            vault_id,
            is_initialized: false,
            is_collateralized: false,
            under_auction: false,
            level: 0,
            debt: 0,
            ilk_id: 0,
            series_id: 0,
        }
    }

    /// Build the placeholder record for `vault_id`.
    pub fn placeholder(vault_id: VaultIdType) -> (r: Vault)
        ensures
            r == Vault::spec_placeholder(vault_id),
    {
        Vault {
            vault_id,
            is_initialized: false,
            is_collateralized: false,
            under_auction: false,
            level: 0,
            debt: 0,
            ilk_id: 0,
            series_id: 0,
        }
    }
}

/// The canonical vault map, keyed by vault id.
pub type VaultMap = IdMap<Vault>;

/// One read in the fixed per-vault call plan.
#[derive(PartialEq, Eq, Structural, Clone, Copy, Debug)]
pub enum VaultRead {
    /// The vault's signed health level.
    Level(VaultIdType),
    /// The vault's (debt, collateral) balances.
    Balances(VaultIdType),
    /// The vault's (owner, series id, collateral-asset id) record.
    VaultData(VaultIdType),
    /// The vault's (auctioneer, start) auction record.
    AuctionData(VaultIdType),
}

/// The decoded payload of one read.
#[derive(PartialEq, Eq, Structural, Clone, Copy, Debug)]
pub enum CallResponse {
    /// Decoded answer to `VaultRead::Level`.
    Level(i128),
    /// Decoded answer to `VaultRead::Balances`: (debt, collateral).
    Balances(u128, u128),
    /// Decoded answer to `VaultRead::VaultData`: (owner, series, ilk).
    VaultData(Address, SeriesIdType, IlkIdType),
    /// Decoded answer to `VaultRead::AuctionData`: (auctioneer, start).
    AuctionData(Address, u32),
    /// The bytes did not decode as the expected answer.
    Malformed,
}

/// The tagged outcome of one read inside an aggregate call: the call's own
/// revert never aborts the batch, it is reported here instead.
#[derive(PartialEq, Eq, Structural, Clone, Copy, Debug)]
pub struct ResultData {
    /// Whether the inner call succeeded.
    pub success: bool,
    /// The decoded payload, meaningful when `success` holds.
    pub return_data: CallResponse,
}

/// The number of reads issued per vault.
pub const READS_PER_VAULT: usize = 4;

/// The view of a chunk plan as one flat id sequence.
pub open spec fn flatten_ids(chunks: Seq<Vec<VaultIdType>>) -> Seq<VaultIdType>
    decreases chunks.len(),
{
    if chunks.len() == 0 {
        Seq::empty()
    } else {
        flatten_ids(chunks.drop_last()) + chunks.last()@
    }
}

/// The vault record assembled from the four reads of one vault, or the error
/// that degrades it to a placeholder: a reverted read is a `RemoteReadError`,
/// an answer of the wrong shape a `DecodeError`.
pub open spec fn spec_generate_vault(d: Seq<ResultData>, vault_id: VaultIdType) -> Result<
    Vault,
    KeeperError,
>
    recommends
        d.len() == READS_PER_VAULT,
{
    if !(d[0].success && d[1].success && d[2].success && d[3].success) {
        Err(KeeperError::RemoteReadError)
    } else {
        match (d[0].return_data, d[1].return_data, d[2].return_data, d[3].return_data) {
            (
                CallResponse::Level(level),
                CallResponse::Balances(art, _ink),
                CallResponse::VaultData(_owner, series_id, ilk_id),
                CallResponse::AuctionData(auctioneer, _start),
            ) => Ok(
                Vault {
                    vault_id,
                    is_initialized: true,
                    is_collateralized: level >= 0,
                    under_auction: !auctioneer.spec_is_zero(),
                    level,
                    debt: art,
                    ilk_id,
                    series_id,
                },
            ),
            _ => Err(KeeperError::DecodeError),
        }
    }
}

/// The second-round check on an assembled vault: a vault that looks
/// undercollateralized but is classified ignorable by the cache (dust or
/// self-collateralized) is marked collateralized; an unanswerable check
/// degrades the vault to an error (hence a placeholder).
pub open spec fn spec_reclassify(cache: ImmutableCache, v: Vault) -> Result<Vault, KeeperError> {
    if v.is_collateralized {
        Ok(v)
    } else {
        match cache.spec_is_vault_ignored(v.series_id, v.ilk_id, v.debt) {
            Some(true) => Ok(
                Vault {
                    vault_id: v.vault_id,
                    is_initialized: v.is_initialized,
                    is_collateralized: true,
                    under_auction: v.under_auction,
                    level: v.level,
                    debt: v.debt,
                    ilk_id: v.ilk_id,
                    series_id: v.series_id,
                },
            ),
            Some(false) => Ok(v),
            None => Err(KeeperError::RemoteReadError),
        }
    }
}

/// The record the vault map receives for one id: the fetched vault, or the
/// placeholder when its read failed.
pub open spec fn spec_applied(r: Result<Vault, KeeperError>, vault_id: VaultIdType) -> Vault {
    match r {
        Ok(v) => v,
        Err(_) => Vault::spec_placeholder(vault_id),
    }
}

/// True when `m` maps each of the first `upto` ids to its applied result.
pub open spec fn spec_values_applied(
    m: VaultMap,
    ids: Seq<u128>,
    results: Seq<Result<Vault, KeeperError>>,
    upto: int,
) -> bool {
    forall|j: int|
        0 <= j < upto ==> m@[#[trigger] ids[j]] == spec_applied(results[j], ids[j])
}

/// The vault tracker: the vault map plus the batching bound for aggregate
/// reads.
pub struct Borrowers {
    /// The tracked vaults.
    pub vaults: VaultMap,
    /// How many vaults are grouped into one aggregate call.
    pub multicall_batch_size: usize,
}

impl Borrowers {
    /// Well-formed: the vault map is, and batches are non-empty.
    pub open spec fn wf(self) -> bool {
        &&& self.vaults.wf()
        &&& self.multicall_batch_size >= 1
    }

    /// Constructor over previously persisted vaults (empty on first start).
    pub fn new(multicall_batch_size: usize, vaults: VaultMap) -> (r: Self)
        requires
            multicall_batch_size >= 1,
            vaults.wf(),
        ensures
            r.wf(),
            r.vaults == vaults,
            r.multicall_batch_size == multicall_batch_size,
    {
        Borrowers { vaults, multicall_batch_size }
    }

    /// Partition a working set into chunks of at most `multicall_batch_size`
    /// ids: all chunks but the last are full, none is empty, and
    /// concatenating them in order gives back the working set.  One aggregate
    /// call is issued per chunk; a transport failure of a whole chunk is
    /// fatal, never degraded to one-by-one calls.
    pub fn chunk_ids(&self, ids: &Vec<VaultIdType>) -> (r: Vec<Vec<VaultIdType>>)
        requires
            self.wf(),
        ensures
            flatten_ids(r@) == ids@,
            forall|c: int| 0 <= c < r@.len() ==> 1 <= #[trigger] r@[c]@.len()
                <= self.multicall_batch_size,
            forall|c: int| 0 <= c < r@.len() - 1 ==> #[trigger] r@[c]@.len()
                == self.multicall_batch_size,
    {
        let mut r: Vec<Vec<VaultIdType>> = Vec::new();
        let mut done: usize = 0;
        let n: usize = ids.len();
        proof {
            assert(ids@.len() <= usize::MAX);
            assert(flatten_ids(r@) =~= ids@.subrange(0, 0));
        }
        while done < ids.len()
            invariant
                self.wf(),
                ids@.len() <= usize::MAX,
                done <= ids@.len(),
                flatten_ids(r@) == ids@.subrange(0, done as int),
                forall|c: int| 0 <= c < r@.len() ==> 1 <= #[trigger] r@[c]@.len()
                    <= self.multicall_batch_size,
                forall|c: int| 0 <= c < r@.len() - 1 ==> #[trigger] r@[c]@.len()
                    == self.multicall_batch_size,
                done < ids@.len() ==> forall|c: int|
                    0 <= c < r@.len() ==> #[trigger] r@[c]@.len() == self.multicall_batch_size,
            decreases ids@.len() - done,
        {
            let remaining = ids.len() - done;
            let take = if remaining < self.multicall_batch_size {
                remaining
            } else {
                self.multicall_batch_size
            };
            let mut chunk: Vec<VaultIdType> = Vec::new();
            let mut j: usize = 0;
            while j < take
                invariant
                    j <= take,
                    ids@.len() <= usize::MAX,
                    done + take <= ids@.len(),
                    chunk@.len() == j,
                    chunk@ == ids@.subrange(done as int, done as int + j),
                decreases take - j,
            {
                chunk.push(ids[done + j]);
                proof {
                    assert(chunk@ =~= ids@.subrange(done as int, done as int + j + 1));
                }
                j = j + 1;
            }
            proof {
                assert(r@.push(chunk).drop_last() =~= r@);
                assert(r@.push(chunk).last() == chunk);
                assert(flatten_ids(r@.push(chunk)) == flatten_ids(r@) + chunk@);
                assert(ids@.subrange(0, done as int) + ids@.subrange(
                    done as int,
                    done as int + take as int,
                ) =~= ids@.subrange(0, done as int + take as int));
            }
            r.push(chunk);
            done = done + take;
        }
        proof {
            assert(ids@.subrange(0, ids@.len() as int) =~= ids@);
        }
        r
    }

    /// The fixed call plan for one chunk of vault ids: four reads per vault,
    /// in chunk order.
    pub fn get_vault_info_chunk_generate_multicall_args(&self, ids_chunk: &Vec<VaultIdType>) -> (r:
        Vec<VaultRead>)
        ensures
            r@.len() == READS_PER_VAULT * ids_chunk@.len(),
            forall|i: int|
                0 <= i < ids_chunk@.len() ==> {
                    &&& r@[4 * i] == VaultRead::Level(#[trigger] ids_chunk@[i])
                    &&& r@[4 * i + 1] == VaultRead::Balances(ids_chunk@[i])
                    &&& r@[4 * i + 2] == VaultRead::VaultData(ids_chunk@[i])
                    &&& r@[4 * i + 3] == VaultRead::AuctionData(ids_chunk@[i])
                },
    {
        let mut r: Vec<VaultRead> = Vec::new();
        let mut i: usize = 0;
        while i < ids_chunk.len()
            invariant
                i <= ids_chunk@.len(),
                r@.len() == 4 * i,
                forall|j: int|
                    0 <= j < i ==> {
                        &&& r@[4 * j] == VaultRead::Level(#[trigger] ids_chunk@[j])
                        &&& r@[4 * j + 1] == VaultRead::Balances(ids_chunk@[j])
                        &&& r@[4 * j + 2] == VaultRead::VaultData(ids_chunk@[j])
                        &&& r@[4 * j + 3] == VaultRead::AuctionData(ids_chunk@[j])
                    },
            decreases ids_chunk@.len() - i,
        {
            let id = ids_chunk[i];
            r.push(VaultRead::Level(id));
            r.push(VaultRead::Balances(id));
            r.push(VaultRead::VaultData(id));
            r.push(VaultRead::AuctionData(id));
            i = i + 1;
        }
        r
    }

    /// Assemble one vault record from its four read outcomes.
    pub fn get_vault_info_generate_vault(
        &self,
        d0: &ResultData,
        d1: &ResultData,
        d2: &ResultData,
        d3: &ResultData,
        vault_id: VaultIdType,
    ) -> (r: Result<Vault, KeeperError>)
        ensures
            r == spec_generate_vault(seq![*d0, *d1, *d2, *d3], vault_id),
    {
        if !(d0.success && d1.success && d2.success && d3.success) {
            return Err(KeeperError::RemoteReadError);
        }
        match (d0.return_data, d1.return_data, d2.return_data, d3.return_data) {
            (
                CallResponse::Level(level),
                CallResponse::Balances(art, _ink),
                CallResponse::VaultData(_owner, series_id, ilk_id),
                CallResponse::AuctionData(auctioneer, _start),
            ) => Ok(
                Vault {
                    vault_id,
                    is_initialized: true,
                    is_collateralized: level >= 0,
                    under_auction: !auctioneer.is_zero(),
                    level,
                    debt: art,
                    ilk_id,
                    series_id,
                },
            ),
            _ => Err(KeeperError::DecodeError),
        }
    }

    /// Turn one chunk's aggregate-call outcome into per-vault results, in
    /// chunk order.  A transport-level failure of the whole chunk, or an
    /// answer of the wrong shape, is a fatal `ConfigurationError` (an
    /// oversized batch must surface, not degrade); a single vault's failed
    /// read only fails that vault.
    pub fn get_vault_info_chunk_parse_response(
        &self,
        ids_chunk: &Vec<VaultIdType>,
        maybe_response: Result<Vec<ResultData>, KeeperError>,
    ) -> (r: Result<Vec<Result<Vault, KeeperError>>, KeeperError>)
        ensures
            match maybe_response {
                Err(_) => r == Err::<Vec<Result<Vault, KeeperError>>, KeeperError>(
                    KeeperError::ConfigurationError,
                ),
                Ok(resp) => {
                    if resp@.len() != READS_PER_VAULT * ids_chunk@.len() {
                        r == Err::<Vec<Result<Vault, KeeperError>>, KeeperError>(
                            KeeperError::ConfigurationError,
                        )
                    } else {
                        match r {
                            Ok(v) => {
                                &&& v@.len() == ids_chunk@.len()
                                &&& forall|i: int|
                                    0 <= i < ids_chunk@.len() ==> #[trigger] v@[i]
                                        == spec_generate_vault(
                                        resp@.subrange(4 * i, 4 * i + 4),
                                        ids_chunk@[i],
                                    )
                            },
                            Err(_) => false,
                        }
                    }
                },
            },
    {
        let resp = match maybe_response {
            Ok(resp) => resp,
            Err(_) => {
                return Err(KeeperError::ConfigurationError);
            },
        };
        if resp.len() % READS_PER_VAULT != 0 || resp.len() / READS_PER_VAULT != ids_chunk.len() {
            proof {
                assert(resp@.len() != READS_PER_VAULT * ids_chunk@.len());
            }
            return Err(KeeperError::ConfigurationError);
        }
        let mut v: Vec<Result<Vault, KeeperError>> = Vec::new();
        let mut i: usize = 0;
        while i < ids_chunk.len()
            invariant
                resp@.len() <= usize::MAX,
                4 * ids_chunk@.len() == resp@.len(),
                i <= ids_chunk@.len(),
                v@.len() == i,
                forall|j: int|
                    0 <= j < i ==> #[trigger] v@[j] == spec_generate_vault(
                        resp@.subrange(4 * j, 4 * j + 4),
                        ids_chunk@[j],
                    ),
            decreases ids_chunk@.len() - i,
        {
            proof {
                assert(4 * (i as int) + 4 <= resp@.len()) by (nonlinear_arith)
                    requires
                        (i as int) < ids_chunk@.len(),
                        4 * ids_chunk@.len() == resp@.len(),
                ;
            }
            let one = self.get_vault_info_generate_vault(
                &resp[4 * i],
                &resp[4 * i + 1],
                &resp[4 * i + 2],
                &resp[4 * i + 3],
                ids_chunk[i],
            );
            proof {
                assert(seq![
                    resp@[4 * i as int],
                    resp@[4 * i as int + 1],
                    resp@[4 * i as int + 2],
                    resp@[4 * i as int + 3],
                ] =~= resp@.subrange(4 * i as int, 4 * i as int + 4));
            }
            v.push(one);
            i = i + 1;
        }
        Ok(v)
    }

    /// Re-check every assembled vault against the cache: vaults the cache
    /// classifies as ignorable are marked collateralized, and a vault whose
    /// check cannot be answered degrades to an error.  The result has one
    /// entry per input, in order — a failure never drops a vault.
    pub fn reclassify_vaults(
        &self,
        cache: &ImmutableCache,
        results: Vec<Result<Vault, KeeperError>>,
    ) -> (r: Vec<Result<Vault, KeeperError>>)
        requires
            cache.wf(),
        ensures
            r@.len() == results@.len(),
            forall|i: int|
                0 <= i < results@.len() ==> #[trigger] r@[i] == (match results@[i] {
                    Ok(v) => spec_reclassify(*cache, v),
                    Err(e) => Err(e),
                }),
    {
        let mut r: Vec<Result<Vault, KeeperError>> = Vec::new();
        let mut i: usize = 0;
        while i < results.len()
            invariant
                cache.wf(),
                i <= results@.len(),
                r@.len() == i,
                forall|j: int|
                    0 <= j < i ==> #[trigger] r@[j] == (match results@[j] {
                        Ok(v) => spec_reclassify(*cache, v),
                        Err(e) => Err(e),
                    }),
            decreases results@.len() - i,
        {
            let one = match &results[i] {
                Ok(v) => {
                    if v.is_collateralized {
                        Ok(*v)
                    } else {
                        match cache.is_vault_ignored(v.series_id, v.ilk_id, v.debt) {
                            Some(true) => Ok(
                                Vault {
                                    vault_id: v.vault_id,
                                    is_initialized: v.is_initialized,
                                    is_collateralized: true,
                                    under_auction: v.under_auction,
                                    level: v.level,
                                    debt: v.debt,
                                    ilk_id: v.ilk_id,
                                    series_id: v.series_id,
                                },
                            ),
                            Some(false) => Ok(*v),
                            None => Err(KeeperError::RemoteReadError),
                        }
                    }
                },
                Err(e) => Err(*e),
            };
            r.push(one);
            i = i + 1;
        }
        r
    }

    /// Write one refreshed record per id of the working set into the vault
    /// map: the fetched vault on success, the uninitialized placeholder on
    /// failure.  Afterwards the map's keys are exactly the working set — no
    /// id is ever dropped, whatever failed.
    pub fn update_vaults(
        &mut self,
        all_ids: &Vec<VaultIdType>,
        results: &Vec<Result<Vault, KeeperError>>,
    )
        requires
            old(self).wf(),
            ids_sorted(all_ids@),
            results@.len() == all_ids@.len(),
            forall|k: u128|
                old(self).vaults.spec_keys().contains(k) ==> all_ids@.contains(k),
        ensures
            final(self).wf(),
            final(self).multicall_batch_size == old(self).multicall_batch_size,
            final(self).vaults.spec_keys() == all_ids@,
            final(self).vaults.spec_len() == all_ids@.len(),
            forall|i: int|
                0 <= i < all_ids@.len() ==> final(self).vaults@[#[trigger] all_ids@[i]]
                    == spec_applied(results@[i], all_ids@[i]),
    {
        let ghost keys0 = self.vaults.spec_keys();
        let mut i: usize = 0;
        while i < all_ids.len()
            invariant
                self.vaults.wf(),
                self.multicall_batch_size == old(self).multicall_batch_size,
                old(self).wf(),
                ids_sorted(all_ids@),
                results@.len() == all_ids@.len(),
                i <= all_ids@.len(),
                keys0 == old(self).vaults.spec_keys(),
                spec_keys_cover(self.vaults, keys0, all_ids@, i as int),
                spec_values_applied(self.vaults, all_ids@, results@, i as int),
            decreases all_ids@.len() - i,
        {
            let id = all_ids[i];
            let record = match &results[i] {
                Ok(v) => *v,
                Err(_) => Vault::placeholder(id),
            };
            let ghost pre = self.vaults;
            self.vaults.insert(id, record);
            proof {
                assert(spec_keys_cover(pre, keys0, all_ids@, i as int));
                assert(spec_values_applied(pre, all_ids@, results@, i as int));
                assert(spec_keys_cover(self.vaults, keys0, all_ids@, i + 1 as int)) by {
                    assert forall|k: u128|
                        (self.vaults.spec_keys().contains(k) <==> (keys0.contains(k)
                            || all_ids@.subrange(0, i + 1 as int).contains(k))) by {
                        let s = all_ids@.subrange(0, i as int);
                        let t = all_ids@.subrange(0, i + 1 as int);
                        assert(self.vaults.spec_keys().contains(k) <==> (
                        pre.spec_keys().contains(k) || k == id));
                        lemma_keys_cover_elim(pre, keys0, all_ids@, i as int, k);
                        if t.contains(k) {
                            let ix = choose|ix: int| 0 <= ix < t.len() && t[ix] == k;
                            if ix < i as int {
                                assert(s[ix] == k);
                            } else {
                                assert(k == all_ids@[i as int]);
                            }
                        }
                        if s.contains(k) {
                            let ix = choose|ix: int| 0 <= ix < s.len() && s[ix] == k;
                            assert(t[ix] == k);
                        }
                        if k == id {
                            assert(t[i as int] == k);
                        }
                    }
                }
                assert(spec_values_applied(self.vaults, all_ids@, results@, i + 1 as int)) by {
                    assert forall|j: int|
                        0 <= j < i + 1 implies self.vaults@[#[trigger] all_ids@[j]]
                        == spec_applied(results@[j], all_ids@[j]) by {
                        if j < i as int {
                            let x = all_ids@[j];
                            assert(x != id);
                            assert(all_ids@.subrange(0, i as int)[j] == x);
                            assert(all_ids@.subrange(0, i as int).contains(x));
                            lemma_keys_cover_elim(pre, keys0, all_ids@, i as int, x);
                            assert(pre.spec_keys().contains(x));
                            pre.lemma_keys_contains(x);
                            assert(pre@.contains_key(x));
                            assert(self.vaults@ == pre@.insert(id, record));
                            assert(self.vaults@[x] == pre@[x]);
                            assert(pre@[x] == spec_applied(results@[j], x));
                        } else {
                            assert(self.vaults@[id] == record);
                        }
                    }
                }
            }
            i = i + 1;
        }
        proof {
            let keys1 = self.vaults.spec_keys();
            assert(all_ids@.subrange(0, all_ids@.len() as int) =~= all_ids@);
            assert(spec_keys_cover(self.vaults, keys0, all_ids@, all_ids@.len() as int));
            assert(spec_values_applied(self.vaults, all_ids@, results@, all_ids@.len() as int));
            assert forall|k: u128| (keys1.contains(k) <==> all_ids@.contains(k)) by {
                assert(keys1.contains(k) <==> (keys0.contains(k) || all_ids@.subrange(
                    0,
                    all_ids@.len() as int,
                ).contains(k)));
                if keys0.contains(k) {
                    assert(all_ids@.contains(k));
                }
            }
            assert(ids_sorted(keys1)) by {
                assert(forall|i: int, j: int|
                    0 <= i < j < keys1.len() ==> keys1[i] == self.vaults.entries@[i].0 && keys1[j]
                        == self.vaults.entries@[j].0);
            }
            lemma_ids_sorted_unique(keys1, all_ids@);
        }
    }
}

} // verus!
