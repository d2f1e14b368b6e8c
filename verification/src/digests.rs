//! Consensus digest items of a header, and their extraction.
//!
//! A header carries a list of digest logs. The importer reads one pre-digest,
//! the global randomness, the solution range and the salt out of them —
//! each must occur exactly once — together with optional `next_*` updates and
//! the seal that closes the list.

use vstd::prelude::*;

verus! {

/// The farmer's claim carried in the pre-digest: who solved, and how close
/// the solution tag came.
#[derive(Clone, Copy, Debug)]
pub struct Solution {
    /// The farmer's public key, the one the seal must verify against.
    pub public_key: [u8; 32],
    /// The solution tag, read as a big-endian 64-bit word.
    pub tag: u64,
}

/// The slot claim of a block: the slot and the solution for it.
#[derive(Clone, Copy, Debug)]
pub struct PreDigest {
    pub slot: u64,
    pub solution: Solution,
}

/// One digest log of a header, as this light client reads them.
#[derive(Clone, Copy, Debug)]
pub enum DigestLog {
    GlobalRandomness([u8; 32]),
    SolutionRange(u64),
    Salt([u8; 8]),
    PreDigest(PreDigest),
    NextGlobalRandomness([u8; 32]),
    NextSolutionRange(u64),
    NextSalt([u8; 8]),
    Seal([u8; 64]),
}

/// Which digest item an extraction failure speaks of.
#[derive(Clone, Copy, Debug, PartialEq, Eq, Structural)]
pub enum ErrorDigestType {
    PreDigest,
    Seal,
    GlobalRandomness,
    SolutionRange,
    Salt,
    NextGlobalRandomness,
    NextSolutionRange,
    NextSalt,
}

/// Why digest extraction failed.
#[derive(Clone, Copy, Debug, PartialEq, Eq, Structural)]
pub enum DigestError {
    Missing(ErrorDigestType),
    Duplicate(ErrorDigestType),
}

/// Everything extracted from a header's digest logs.
#[derive(Clone, Copy, Debug)]
pub struct SubspaceDigestItems {
    pub pre_digest: PreDigest,
    /// The seal signature, when a seal log is present.
    pub signature: Option<[u8; 64]>,
    pub global_randomness: [u8; 32],
    pub solution_range: u64,
    pub salt: [u8; 8],
    pub next_global_randomness: Option<[u8; 32]>,
    pub next_solution_range: Option<u64>,
    pub next_salt: Option<[u8; 8]>,
}

/// The items gathered so far while scanning digest logs in order.
#[derive(Clone, Copy, Debug)]
pub struct DigestCollector {
    pub pre_digest: Option<PreDigest>,
    pub signature: Option<[u8; 64]>,
    pub global_randomness: Option<[u8; 32]>,
    pub solution_range: Option<u64>,
    pub salt: Option<[u8; 8]>,
    pub next_global_randomness: Option<[u8; 32]>,
    pub next_solution_range: Option<u64>,
    pub next_salt: Option<[u8; 8]>,
}

pub open spec fn spec_empty_collector() -> DigestCollector {
    DigestCollector {
        pre_digest: Option::None,
        signature: Option::None,
        global_randomness: Option::None,
        solution_range: Option::None,
        salt: Option::None,
        next_global_randomness: Option::None,
        next_solution_range: Option::None,
        next_salt: Option::None,
    }
}

/// Folds one log into the collector; a second log of the same kind is a
/// duplicate.
pub open spec fn spec_collect_log(acc: DigestCollector, log: DigestLog) -> Result<
    DigestCollector,
    DigestError,
> {
    match log {
        DigestLog::GlobalRandomness(v) => if acc.global_randomness is Some {
            Err(DigestError::Duplicate(ErrorDigestType::GlobalRandomness))
        } else {
            Ok(DigestCollector { global_randomness: Option::Some(v), ..acc })
        },
        DigestLog::SolutionRange(v) => if acc.solution_range is Some {
            Err(DigestError::Duplicate(ErrorDigestType::SolutionRange))
        } else {
            Ok(DigestCollector { solution_range: Option::Some(v), ..acc })
        },
        DigestLog::Salt(v) => if acc.salt is Some {
            Err(DigestError::Duplicate(ErrorDigestType::Salt))
        } else {
            Ok(DigestCollector { salt: Option::Some(v), ..acc })
        },
        DigestLog::PreDigest(v) => if acc.pre_digest is Some {
            Err(DigestError::Duplicate(ErrorDigestType::PreDigest))
        } else {
            Ok(DigestCollector { pre_digest: Option::Some(v), ..acc })
        },
        DigestLog::NextGlobalRandomness(v) => if acc.next_global_randomness is Some {
            Err(DigestError::Duplicate(ErrorDigestType::NextGlobalRandomness))
        } else {
            Ok(DigestCollector { next_global_randomness: Option::Some(v), ..acc })
        },
        DigestLog::NextSolutionRange(v) => if acc.next_solution_range is Some {
            Err(DigestError::Duplicate(ErrorDigestType::NextSolutionRange))
        } else {
            Ok(DigestCollector { next_solution_range: Option::Some(v), ..acc })
        },
        DigestLog::NextSalt(v) => if acc.next_salt is Some {
            Err(DigestError::Duplicate(ErrorDigestType::NextSalt))
        } else {
            Ok(DigestCollector { next_salt: Option::Some(v), ..acc })
        },
        DigestLog::Seal(v) => if acc.signature is Some {
            Err(DigestError::Duplicate(ErrorDigestType::Seal))
        } else {
            Ok(DigestCollector { signature: Option::Some(v), ..acc })
        },
    }
}

/// Folds the logs into the collector front to back, stopping at the first
/// duplicate.
pub open spec fn spec_scan_logs(logs: Seq<DigestLog>, acc: DigestCollector) -> Result<
    DigestCollector,
    DigestError,
>
    decreases logs.len(),
{
    if logs.len() == 0 {
        Ok(acc)
    } else {
        match spec_collect_log(acc, logs.first()) {
            Err(e) => Err(e),
            Ok(acc2) => spec_scan_logs(logs.drop_first(), acc2),
        }
    }
}

/// What extraction of the full digest bundle returns: the first duplicate in
/// scan order, else the first missing required item in pre-digest, global
/// randomness, solution range, salt order, else the bundle.
pub open spec fn spec_extract_digest_items(logs: Seq<DigestLog>) -> Result<
    SubspaceDigestItems,
    DigestError,
> {
    match spec_scan_logs(logs, spec_empty_collector()) {
        Err(e) => Err(e),
        Ok(acc) => {
            if acc.pre_digest is None {
                Err(DigestError::Missing(ErrorDigestType::PreDigest))
            } else if acc.global_randomness is None {
                Err(DigestError::Missing(ErrorDigestType::GlobalRandomness))
            } else if acc.solution_range is None {
                Err(DigestError::Missing(ErrorDigestType::SolutionRange))
            } else if acc.salt is None {
                Err(DigestError::Missing(ErrorDigestType::Salt))
            } else {
                Ok(
                    SubspaceDigestItems {
                        pre_digest: acc.pre_digest->Some_0,
                        signature: acc.signature,
                        global_randomness: acc.global_randomness->Some_0,
                        solution_range: acc.solution_range->Some_0,
                        salt: acc.salt->Some_0,
                        next_global_randomness: acc.next_global_randomness,
                        next_solution_range: acc.next_solution_range,
                        next_salt: acc.next_salt,
                    },
                )
            }
        },
    }
}

/// What extraction of the pre-digest alone returns: the single pre-digest
/// log, a duplicate, or that it is missing.
pub open spec fn spec_extract_pre_digest(logs: Seq<DigestLog>) -> Result<PreDigest, DigestError> {
    match spec_scan_pre_digest(logs, Option::None) {
        Err(e) => Err(e),
        Ok(Option::None) => Err(DigestError::Missing(ErrorDigestType::PreDigest)),
        Ok(Option::Some(p)) => Ok(p),
    }
}

pub open spec fn spec_scan_pre_digest(logs: Seq<DigestLog>, found: Option<PreDigest>) -> Result<
    Option<PreDigest>,
    DigestError,
>
    decreases logs.len(),
{
    if logs.len() == 0 {
        Ok(found)
    } else {
        match logs.first() {
            DigestLog::PreDigest(p) => if found is Some {
                Err(DigestError::Duplicate(ErrorDigestType::PreDigest))
            } else {
                spec_scan_pre_digest(logs.drop_first(), Option::Some(p))
            },
            _ => spec_scan_pre_digest(logs.drop_first(), found),
        }
    }
}

fn collect_log(acc: DigestCollector, log: DigestLog) -> (r: Result<DigestCollector, DigestError>)
    ensures
        r == spec_collect_log(acc, log),
{
    match log {
        DigestLog::GlobalRandomness(v) => if acc.global_randomness.is_some() {
            Err(DigestError::Duplicate(ErrorDigestType::GlobalRandomness))
        } else {
            Ok(DigestCollector { global_randomness: Option::Some(v), ..acc })
        },
        DigestLog::SolutionRange(v) => if acc.solution_range.is_some() {
            Err(DigestError::Duplicate(ErrorDigestType::SolutionRange))
        } else {
            Ok(DigestCollector { solution_range: Option::Some(v), ..acc })
        },
        DigestLog::Salt(v) => if acc.salt.is_some() {
            Err(DigestError::Duplicate(ErrorDigestType::Salt))
        } else {
            Ok(DigestCollector { salt: Option::Some(v), ..acc })
        },
        DigestLog::PreDigest(v) => if acc.pre_digest.is_some() {
            Err(DigestError::Duplicate(ErrorDigestType::PreDigest))
        } else {
            Ok(DigestCollector { pre_digest: Option::Some(v), ..acc })
        },
        DigestLog::NextGlobalRandomness(v) => if acc.next_global_randomness.is_some() {
            Err(DigestError::Duplicate(ErrorDigestType::NextGlobalRandomness))
        } else {
            Ok(DigestCollector { next_global_randomness: Option::Some(v), ..acc })
        },
        DigestLog::NextSolutionRange(v) => if acc.next_solution_range.is_some() {
            Err(DigestError::Duplicate(ErrorDigestType::NextSolutionRange))
        } else {
            Ok(DigestCollector { next_solution_range: Option::Some(v), ..acc })
        },
        DigestLog::NextSalt(v) => if acc.next_salt.is_some() {
            Err(DigestError::Duplicate(ErrorDigestType::NextSalt))
        } else {
            Ok(DigestCollector { next_salt: Option::Some(v), ..acc })
        },
        DigestLog::Seal(v) => if acc.signature.is_some() {
            Err(DigestError::Duplicate(ErrorDigestType::Seal))
        } else {
            Ok(DigestCollector { signature: Option::Some(v), ..acc })
        },
    }
}

/// Extracts the digest bundle of a header's logs.
pub fn extract_subspace_digest_items(logs: &Vec<DigestLog>) -> (r: Result<
    SubspaceDigestItems,
    DigestError,
>)
    ensures
        r == spec_extract_digest_items(logs@),
{
    let n = logs.len();
    let mut acc = DigestCollector {
        pre_digest: Option::None,
        signature: Option::None,
        global_randomness: Option::None,
        solution_range: Option::None,
        salt: Option::None,
        next_global_randomness: Option::None,
        next_solution_range: Option::None,
        next_salt: Option::None,
    };
    let mut i: usize = 0;
    proof {
        assert(logs@.subrange(0, n as int) =~= logs@);
    }
    while i < n
        invariant
            i <= n,
            n == logs@.len(),
            spec_scan_logs(logs@, spec_empty_collector()) == spec_scan_logs(
                logs@.subrange(i as int, n as int),
                acc,
            ),
        decreases n - i,
    {
        proof {
            assert(logs@.subrange(i as int, n as int).first() == logs@[i as int]);
            assert(logs@.subrange(i as int, n as int).drop_first() =~= logs@.subrange(
                i as int + 1,
                n as int,
            ));
        }
        acc = match collect_log(acc, logs[i]) {
            Ok(a) => a,
            Err(e) => {
                return Err(e);
            },
        };
        i = i + 1;
    }
    proof {
        assert(logs@.subrange(n as int, n as int) =~= Seq::<DigestLog>::empty());
    }
    if acc.pre_digest.is_none() {
        return Err(DigestError::Missing(ErrorDigestType::PreDigest));
    }
    if acc.global_randomness.is_none() {
        return Err(DigestError::Missing(ErrorDigestType::GlobalRandomness));
    }
    if acc.solution_range.is_none() {
        return Err(DigestError::Missing(ErrorDigestType::SolutionRange));
    }
    if acc.salt.is_none() {
        return Err(DigestError::Missing(ErrorDigestType::Salt));
    }
    Ok(
        SubspaceDigestItems {
            pre_digest: acc.pre_digest.unwrap(),
            signature: acc.signature,
            global_randomness: acc.global_randomness.unwrap(),
            solution_range: acc.solution_range.unwrap(),
            salt: acc.salt.unwrap(),
            next_global_randomness: acc.next_global_randomness,
            next_solution_range: acc.next_solution_range,
            next_salt: acc.next_salt,
        },
    )
}

/// Extracts the pre-digest of a header's logs.
pub fn extract_pre_digest(logs: &Vec<DigestLog>) -> (r: Result<PreDigest, DigestError>)
    ensures
        r == spec_extract_pre_digest(logs@),
{
    let n = logs.len();
    let mut found: Option<PreDigest> = Option::None;
    let mut i: usize = 0;
    proof {
        assert(logs@.subrange(0, n as int) =~= logs@);
    }
    while i < n
        invariant
            i <= n,
            n == logs@.len(),
            spec_scan_pre_digest(logs@, Option::None) == spec_scan_pre_digest(
                logs@.subrange(i as int, n as int),
                found,
            ),
        decreases n - i,
    {
        proof {
            assert(logs@.subrange(i as int, n as int).first() == logs@[i as int]);
            assert(logs@.subrange(i as int, n as int).drop_first() =~= logs@.subrange(
                i as int + 1,
                n as int,
            ));
        }
        match logs[i] {
            DigestLog::PreDigest(p) => {
                if found.is_some() {
                    return Err(DigestError::Duplicate(ErrorDigestType::PreDigest));
                }
                found = Option::Some(p);
            },
            _ => (),
        }
        i = i + 1;
    }
    proof {
        assert(logs@.subrange(n as int, n as int) =~= Seq::<DigestLog>::empty());
    }
    match found {
        Option::Some(p) => Ok(p),
        Option::None => Err(DigestError::Missing(ErrorDigestType::PreDigest)),
    }
}

} // verus!
