//! Validators of the governance singletons (compliance registry, protocol
//! configuration) and Merkle proofs against the compliance roots.
use crate::cells::{
    lemma_compliance_cell_decodes_unique, lemma_config_cell_decodes_unique, ComplianceCellData,
    ConfigCellData,
};
use crate::codec::{eq32, push_bytes32};
use crate::hashing::{sha256, sha256_of};
use vstd::prelude::*;

verus! {

/// Reasons a compliance update is rejected.
#[derive(Debug, Clone, Copy, PartialEq, Eq)]
pub enum ComplianceTypeError {
    InvalidCellData,
    Unauthorized,
    VersionNotIncremented,
    StaleUpdate,
}

/// Reasons a configuration update is rejected.
#[derive(Debug, Clone, Copy, PartialEq, Eq)]
pub enum ConfigTypeError {
    InvalidCellData,
    Unauthorized,
    InvalidCommitWindow,
    InvalidRevealWindow,
    InvalidSlashRate,
    InvalidPriceDeviation,
    InvalidMinDifficulty,
}

/// Proof that `leaf` is under a Merkle root; bit `i` of `indices` set means
/// the `i`-th sibling is on the left.
#[derive(Clone, Debug, PartialEq, Eq)]
pub struct MerkleProof {
    pub leaf: [u8; 32],
    pub path: Vec<[u8; 32]>,
    pub indices: u32,
}

/// Folds `cur` up a Merkle path: with bit clear the running hash is on the
/// left, with bit set on the right; bits beyond the 32 of `indices` are clear.
pub open spec fn merkle_fold(cur: Seq<u8>, path: Seq<[u8; 32]>, indices: nat) -> Seq<u8>
    decreases path.len(),
{
    if path.len() == 0 {
        cur
    } else {
        merkle_fold(
            if indices % 2 == 0 {
                sha256_of(cur + path[0]@)
            } else {
                sha256_of(path[0]@ + cur)
            },
            path.drop_first(),
            indices / 2,
        )
    }
}

/// Walks `leaf` up `path` and returns the hash reached.
fn fold_path(leaf: &[u8; 32], path: &[[u8; 32]], indices: u32) -> (r: [u8; 32])
    ensures
        r@ == merkle_fold(leaf@, path@, indices as nat),
{
    let mut current = *leaf;
    let mut bits: u32 = indices;
    let mut i: usize = 0;
    proof {
        assert(path@.subrange(0, path@.len() as int) =~= path@);
    }
    while i < path.len()
        invariant
            i <= path@.len(),
            merkle_fold(leaf@, path@, indices as nat) == merkle_fold(
                current@,
                path@.subrange(i as int, path@.len() as int),
                bits as nat,
            ),
        decreases path@.len() - i,
    {
        proof {
            let s = path@.subrange(i as int, path@.len() as int);
            assert(s.drop_first() =~= path@.subrange(i + 1, path@.len() as int));
        }
        let mut buf: Vec<u8> = Vec::new();
        if bits % 2 == 0 {
            push_bytes32(&mut buf, &current);
            push_bytes32(&mut buf, &path[i]);
        } else {
            push_bytes32(&mut buf, &path[i]);
            push_bytes32(&mut buf, &current);
        }
        current = sha256(buf.as_slice());
        bits = bits / 2;
        i = i + 1;
    }
    current
}

impl MerkleProof {
    /// Whether the leaf folds up the path to `root`.
    pub fn verify(&self, root: &[u8; 32]) -> (r: bool)
        ensures
            r == (merkle_fold(self.leaf@, self.path@, self.indices as nat) == root@),
    {
        let reached = fold_path(&self.leaf, self.path.as_slice(), self.indices);
        eq32(&reached, root)
    }
}

/// Whether `lock_hash` is proven to be in the blocked set: its SHA-256 folds up
/// the path to the blocked root.
pub fn verify_blocked_address(
    compliance: &ComplianceCellData,
    lock_hash: &[u8; 32],
    proof_path: &[[u8; 32]],
    proof_indices: u32,
) -> (r: bool)
    ensures
        r == (merkle_fold(sha256_of(lock_hash@), proof_path@, proof_indices as nat)
            == compliance.blocked_merkle_root@),
{
    let leaf = sha256(lock_hash.as_slice());
    let reached = fold_path(&leaf, proof_path, proof_indices);
    eq32(&reached, &compliance.blocked_merkle_root)
}

/// Rules for a compliance update: only governance may write, and an update
/// raises both the version and the update time.
pub open spec fn compliance_rule(
    is_creation: bool,
    old: Option<ComplianceCellData>,
    new: ComplianceCellData,
    authorized: bool,
) -> Result<(), ComplianceTypeError> {
    if !authorized {
        Err(ComplianceTypeError::Unauthorized)
    } else if is_creation || old is None {
        Ok(())
    } else if new.version <= old->Some_0.version {
        Err(ComplianceTypeError::VersionNotIncremented)
    } else if new.last_updated <= old->Some_0.last_updated {
        Err(ComplianceTypeError::StaleUpdate)
    } else {
        Ok(())
    }
}

/// Validates the creation or update of the compliance cell.
pub fn verify_compliance_type(
    is_creation: bool,
    old_data: Option<&[u8]>,
    new_data: &[u8],
    is_governance_authorized: bool,
) -> (r: Result<(), ComplianceTypeError>)
    ensures
        new_data@.len() < ComplianceCellData::SERIALIZED_SIZE ==> r == Err::<
            (),
            ComplianceTypeError,
        >(ComplianceTypeError::InvalidCellData),
        forall|new: ComplianceCellData| #[trigger]
            new.decodes(new_data@) && new_data@.len() >= ComplianceCellData::SERIALIZED_SIZE ==> {
                match old_data {
                    Some(od) if !is_creation && is_governance_authorized => {
                        &&& od@.len() < ComplianceCellData::SERIALIZED_SIZE ==> r == Err::<
                            (),
                            ComplianceTypeError,
                        >(ComplianceTypeError::InvalidCellData)
                        &&& forall|old: ComplianceCellData| #[trigger]
                            old.decodes(od@) && od@.len() >= ComplianceCellData::SERIALIZED_SIZE
                                ==> r == compliance_rule(
                                is_creation,
                                Some(old),
                                new,
                                is_governance_authorized,
                            )
                    },
                    _ => r == compliance_rule(is_creation, None, new, is_governance_authorized),
                }
            },
{
    let new_compliance = match ComplianceCellData::deserialize(new_data) {
        Some(c) => c,
        None => {
            return Err(ComplianceTypeError::InvalidCellData);
        },
    };
    proof {
        assert forall|n: ComplianceCellData| #[trigger] n.decodes(new_data@) implies n
            == new_compliance by {
            lemma_compliance_cell_decodes_unique(n, new_compliance, new_data@);
        }
    }
    if !is_governance_authorized {
        return Err(ComplianceTypeError::Unauthorized);
    }
    if is_creation {
        return Ok(());
    }
    if let Some(old) = old_data {
        let old_compliance = match ComplianceCellData::deserialize(old) {
            Some(c) => c,
            None => {
                return Err(ComplianceTypeError::InvalidCellData);
            },
        };
        proof {
            assert forall|o: ComplianceCellData| #[trigger] o.decodes(old@) implies o
                == old_compliance by {
                lemma_compliance_cell_decodes_unique(o, old_compliance, old@);
            }
        }
        if new_compliance.version <= old_compliance.version {
            return Err(ComplianceTypeError::VersionNotIncremented);
        }
        if new_compliance.last_updated <= old_compliance.last_updated {
            return Err(ComplianceTypeError::StaleUpdate);
        }
    }
    Ok(())
}

/// Range rules of the protocol configuration.
pub open spec fn config_ranges_rule(c: ConfigCellData) -> Result<(), ConfigTypeError> {
    if c.commit_window_blocks == 0 || c.commit_window_blocks > 1000 {
        Err(ConfigTypeError::InvalidCommitWindow)
    } else if c.reveal_window_blocks == 0 || c.reveal_window_blocks > 500 {
        Err(ConfigTypeError::InvalidRevealWindow)
    } else if c.slash_rate_bps > 10_000 {
        Err(ConfigTypeError::InvalidSlashRate)
    } else if c.max_price_deviation == 0 || c.max_price_deviation > 5000 {
        Err(ConfigTypeError::InvalidPriceDeviation)
    } else if c.min_pow_difficulty == 0 {
        Err(ConfigTypeError::InvalidMinDifficulty)
    } else {
        Ok(())
    }
}

/// Validates the creation or update of the configuration cell: governance
/// only, every parameter in range, and a prior cell (if any) that decodes.
pub fn verify_config_type(
    _is_creation: bool,
    old_data: Option<&[u8]>,
    new_data: &[u8],
    is_governance_authorized: bool,
) -> (r: Result<(), ConfigTypeError>)
    ensures
        new_data@.len() < ConfigCellData::SERIALIZED_SIZE ==> r == Err::<(), ConfigTypeError>(
            ConfigTypeError::InvalidCellData,
        ),
        forall|new: ConfigCellData| #[trigger]
            new.decodes(new_data@) && new_data@.len() >= ConfigCellData::SERIALIZED_SIZE ==> r == if !is_governance_authorized {
                Err::<(), ConfigTypeError>(ConfigTypeError::Unauthorized)
            } else if config_ranges_rule(new) is Err {
                config_ranges_rule(new)
            } else if old_data is Some && old_data->Some_0@.len() < ConfigCellData::SERIALIZED_SIZE {
                Err::<(), ConfigTypeError>(ConfigTypeError::InvalidCellData)
            } else {
                Ok::<(), ConfigTypeError>(())
            },
{
    let new_config = match ConfigCellData::deserialize(new_data) {
        Some(c) => c,
        None => {
            return Err(ConfigTypeError::InvalidCellData);
        },
    };
    proof {
        assert forall|n: ConfigCellData| #[trigger] n.decodes(new_data@) implies n == new_config by {
            lemma_config_cell_decodes_unique(n, new_config, new_data@);
        }
    }
    if !is_governance_authorized {
        return Err(ConfigTypeError::Unauthorized);
    }
    let ranges = validate_config_ranges(&new_config);
    if ranges.is_err() {
        return ranges;
    }
    if let Some(old) = old_data {
        if ConfigCellData::deserialize(old).is_none() {
            return Err(ConfigTypeError::InvalidCellData);
        }
    }
    Ok(())
}

fn validate_config_ranges(config: &ConfigCellData) -> (r: Result<(), ConfigTypeError>)
    ensures
        r == config_ranges_rule(*config),
{
    if config.commit_window_blocks == 0 || config.commit_window_blocks > 1000 {
        return Err(ConfigTypeError::InvalidCommitWindow);
    }
    if config.reveal_window_blocks == 0 || config.reveal_window_blocks > 500 {
        return Err(ConfigTypeError::InvalidRevealWindow);
    }
    if config.slash_rate_bps > 10_000 {
        return Err(ConfigTypeError::InvalidSlashRate);
    }
    if config.max_price_deviation == 0 || config.max_price_deviation > 5000 {
        return Err(ConfigTypeError::InvalidPriceDeviation);
    }
    if config.min_pow_difficulty == 0 {
        return Err(ConfigTypeError::InvalidMinDifficulty);
    }
    Ok(())
}

} // verus!
