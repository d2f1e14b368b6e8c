use schnorrkel::{ExpansionMode, Keypair, MiniSecretKey};
use subspace_consensus::digests::{
    extract_pre_digest, extract_subspace_digest_items, DigestError, DigestLog, ErrorDigestType,
    PreDigest, Solution,
};
use subspace_consensus::lightclient::{
    bidirectional_distance, ChainConstants, Header, HeaderExt, HeaderImporter, ImportError,
    SolutionError, Storage,
};
use subspace_consensus::mem_store::MemStorage;

const RANDOMNESS: [u8; 32] = [3u8; 32];
const SALT: [u8; 8] = [5u8; 8];
const SOLUTION_RANGE: u64 = u64::MAX;

fn keypair() -> Keypair {
    MiniSecretKey::from_bytes(&[42u8; 32])
        .unwrap()
        .expand_to_keypair(ExpansionMode::Ed25519)
}

fn genesis() -> HeaderExt {
    HeaderExt {
        header: Header {
            number: 0,
            parent_hash: 0,
            hash: 1,
            pre_hash: [0u8; 32],
            digest_logs: vec![DigestLog::PreDigest(PreDigest {
                slot: 1,
                solution: Solution { public_key: [0u8; 32], tag: 0 },
            })],
        },
        derived_global_randomness: RANDOMNESS,
        derived_solution_range: SOLUTION_RANGE,
        derived_salt: SALT,
        total_weight: 1,
    }
}

/// A header extending `parent_hash`, sealed by the test keypair.
fn valid_header(number: u64, parent_hash: u64, hash: u64, slot: u64, tag: u64) -> Header {
    let keypair = keypair();
    let mut pre_hash = [0u8; 32];
    pre_hash[0] = hash as u8;
    let context = schnorrkel::signing_context(b"subspace_reward");
    let signature = keypair.sign(context.bytes(&pre_hash)).to_bytes();
    Header {
        number,
        parent_hash,
        hash,
        pre_hash,
        digest_logs: vec![
            DigestLog::GlobalRandomness(RANDOMNESS),
            DigestLog::SolutionRange(SOLUTION_RANGE),
            DigestLog::Salt(SALT),
            DigestLog::PreDigest(PreDigest {
                slot,
                solution: Solution { public_key: keypair.public.to_bytes(), tag },
            }),
            DigestLog::Seal(signature),
        ],
    }
}

#[test]
fn import_header_stores_and_promotes_best() {
    let mut store = MemStorage::new(ChainConstants { k_depth: 7 }, genesis());
    let header = valid_header(1, 1, 2, 2, 1000);
    let res = HeaderImporter::import_header(&mut store, header, Ok(1000));
    assert_eq!(res, Ok(()));
    let best = store.best_header();
    assert_eq!(best.header.hash, 2);
    assert_eq!(best.header.number, 1);
    // distance zero: the block carries the maximum weight
    assert_eq!(best.total_weight, 1 + u64::MAX as u128);
    assert_eq!(best.derived_global_randomness, RANDOMNESS);
    assert_eq!(best.derived_solution_range, SOLUTION_RANGE);
    assert_eq!(best.derived_salt, SALT);
}

#[test]
fn import_header_twice_reports_already_imported() {
    let mut store = MemStorage::new(ChainConstants { k_depth: 7 }, genesis());
    let header = valid_header(1, 1, 2, 2, 77);
    assert_eq!(
        HeaderImporter::import_header(&mut store, header, Ok(99)),
        Ok(())
    );
    let again = valid_header(1, 1, 2, 2, 77);
    assert_eq!(
        HeaderImporter::import_header(&mut store, again, Ok(99)),
        Err(ImportError::HeaderAlreadyImported)
    );
}

#[test]
fn import_header_missing_parent() {
    let mut store = MemStorage::new(ChainConstants { k_depth: 7 }, genesis());
    let header = valid_header(1, 999, 2, 2, 77);
    assert_eq!(
        HeaderImporter::import_header(&mut store, header, Ok(99)),
        Err(ImportError::MissingParent(2))
    );
}

#[test]
fn import_header_rejects_non_increasing_slot() {
    let mut store = MemStorage::new(ChainConstants { k_depth: 7 }, genesis());
    // parent claims slot 1; a child at the same slot is rejected
    let header = valid_header(1, 1, 2, 1, 77);
    assert_eq!(
        HeaderImporter::import_header(&mut store, header, Ok(99)),
        Err(ImportError::InvalidSlot)
    );
}

#[test]
fn import_header_rejects_mismatched_digests() {
    let mut store = MemStorage::new(ChainConstants { k_depth: 7 }, genesis());
    let mut header = valid_header(1, 1, 2, 2, 77);
    header.digest_logs[0] = DigestLog::GlobalRandomness([9u8; 32]);
    assert_eq!(
        HeaderImporter::import_header(&mut store, header, Ok(99)),
        Err(ImportError::InvalidDigest(ErrorDigestType::GlobalRandomness))
    );
    let mut header = valid_header(1, 1, 2, 2, 77);
    header.digest_logs[1] = DigestLog::SolutionRange(12);
    assert_eq!(
        HeaderImporter::import_header(&mut store, header, Ok(99)),
        Err(ImportError::InvalidDigest(ErrorDigestType::SolutionRange))
    );
    let mut header = valid_header(1, 1, 2, 2, 77);
    header.digest_logs[2] = DigestLog::Salt([9u8; 8]);
    assert_eq!(
        HeaderImporter::import_header(&mut store, header, Ok(99)),
        Err(ImportError::InvalidDigest(ErrorDigestType::Salt))
    );
}

#[test]
fn import_header_rejects_missing_or_duplicate_digests() {
    let mut store = MemStorage::new(ChainConstants { k_depth: 7 }, genesis());
    let mut header = valid_header(1, 1, 2, 2, 77);
    header.digest_logs.remove(2);
    assert_eq!(
        HeaderImporter::import_header(&mut store, header, Ok(99)),
        Err(ImportError::DigestExtractionError(DigestError::Missing(
            ErrorDigestType::Salt
        )))
    );
    let mut header = valid_header(1, 1, 2, 2, 77);
    header.digest_logs.push(DigestLog::Salt(SALT));
    assert_eq!(
        HeaderImporter::import_header(&mut store, header, Ok(99)),
        Err(ImportError::DigestExtractionError(DigestError::Duplicate(
            ErrorDigestType::Salt
        )))
    );
}

#[test]
fn import_header_rejects_bad_seal() {
    let mut store = MemStorage::new(ChainConstants { k_depth: 7 }, genesis());
    let mut header = valid_header(1, 1, 2, 2, 77);
    let n = header.digest_logs.len();
    header.digest_logs[n - 1] = DigestLog::Seal([1u8; 64]);
    assert_eq!(
        HeaderImporter::import_header(&mut store, header, Ok(99)),
        Err(ImportError::InvalidBlockSignature)
    );
}

#[test]
fn import_header_propagates_solution_verdict() {
    let mut store = MemStorage::new(ChainConstants { k_depth: 7 }, genesis());
    let header = valid_header(1, 1, 2, 2, 77);
    assert_eq!(
        HeaderImporter::import_header(&mut store, header, Err(SolutionError::OutsideSolutionRange)),
        Err(ImportError::InvalidSolution(SolutionError::OutsideSolutionRange))
    );
    // the rejected header was not stored
    assert!(store.header(2).is_none());
}

#[test]
fn fork_choice_keeps_best_on_tie_and_switches_on_weight() {
    let mut store = MemStorage::new(ChainConstants { k_depth: 7 }, genesis());

    // the first child of genesis becomes best
    let h1 = valid_header(1, 1, 2, 2, 500);
    assert_eq!(HeaderImporter::import_header(&mut store, h1, Ok(500)), Ok(()));
    assert_eq!(store.best_header().header.hash, 2);
    let w1 = store.best_header().total_weight;

    // a sibling with the same weight and the same number does not replace it
    let h1_sibling = valid_header(1, 1, 3, 2, 500);
    assert_eq!(HeaderImporter::import_header(&mut store, h1_sibling, Ok(500)), Ok(()));
    assert_eq!(store.best_header().header.hash, 2);
    assert_eq!(store.header(3).unwrap().total_weight, w1);

    // extending the sibling outweighs the old best and takes over
    let h2 = valid_header(2, 3, 4, 3, 600);
    assert_eq!(HeaderImporter::import_header(&mut store, h2, Ok(600)), Ok(()));
    assert_eq!(store.best_header().header.hash, 4);
    assert_eq!(store.best_header().header.number, 2);
}

#[test]
fn find_ancestor_walks_parent_links() {
    let mut store = MemStorage::new(ChainConstants { k_depth: 7 }, genesis());
    let h1 = valid_header(1, 1, 2, 2, 500);
    assert_eq!(HeaderImporter::import_header(&mut store, h1, Ok(500)), Ok(()));
    let h1_sibling = valid_header(1, 1, 3, 2, 500);
    assert_eq!(HeaderImporter::import_header(&mut store, h1_sibling, Ok(500)), Ok(()));
    let h2 = valid_header(2, 3, 4, 3, 600);
    assert_eq!(HeaderImporter::import_header(&mut store, h2, Ok(600)), Ok(()));

    let tip = store.header(4).unwrap();
    // two headers exist at height one, so the walk resolves the fork
    let ancestor = HeaderImporter::find_ancestor_of_header_at_number(&store, tip, 1).unwrap();
    assert_eq!(ancestor.header.hash, 3);
    // at or above the header's own height there is no ancestor
    let tip = store.header(4).unwrap();
    assert!(HeaderImporter::find_ancestor_of_header_at_number(&store, tip, 2).is_none());
    // below a height with a single header the store is canonical
    let tip = store.header(4).unwrap();
    let at_genesis = HeaderImporter::find_ancestor_of_header_at_number(&store, tip, 0).unwrap();
    assert_eq!(at_genesis.header.hash, 1);
}

#[test]
fn prune_chain_removes_descendants() {
    let mut store = MemStorage::new(ChainConstants { k_depth: 7 }, genesis());
    let h1 = valid_header(1, 1, 2, 2, 500);
    assert_eq!(HeaderImporter::import_header(&mut store, h1, Ok(500)), Ok(()));
    let h1_sibling = valid_header(1, 1, 3, 2, 500);
    assert_eq!(HeaderImporter::import_header(&mut store, h1_sibling, Ok(500)), Ok(()));
    let h2 = valid_header(2, 3, 4, 3, 600);
    assert_eq!(HeaderImporter::import_header(&mut store, h2, Ok(600)), Ok(()));

    let doomed = store.header(3).unwrap();
    assert_eq!(HeaderImporter::prune_chain_from_header(&mut store, doomed), Ok(()));
    // the pruned header and its child are gone; the other branch stays
    assert!(store.header(3).is_none());
    assert!(store.header(4).is_none());
    assert!(store.header(2).is_some());
    assert!(store.header(1).is_some());
}

#[test]
fn prune_chain_steps_one_height_at_a_time() {
    let mut store = MemStorage::new(ChainConstants { k_depth: 7 }, genesis());
    let h1 = valid_header(1, 1, 2, 2, 500);
    assert_eq!(HeaderImporter::import_header(&mut store, h1, Ok(500)), Ok(()));
    // a child that skips a height: its parent chain does not descend one
    // height per step, so the breadth-first walk never reaches it
    let h3 = valid_header(3, 2, 5, 3, 600);
    assert_eq!(HeaderImporter::import_header(&mut store, h3, Ok(600)), Ok(()));
    let doomed = store.header(2).unwrap();
    assert_eq!(HeaderImporter::prune_chain_from_header(&mut store, doomed), Ok(()));
    assert!(store.header(2).is_none());
    assert!(store.header(5).is_some());
}

#[test]
fn find_ancestor_needs_descending_heights() {
    let mut store = MemStorage::new(ChainConstants { k_depth: 7 }, genesis());
    // a header five heights up whose parent is genesis: the walk jumps past
    // every height in between
    let h5 = valid_header(5, 1, 2, 2, 500);
    assert_eq!(HeaderImporter::import_header(&mut store, h5, Ok(500)), Ok(()));
    let tip = store.header(2).unwrap();
    assert!(HeaderImporter::find_ancestor_of_header_at_number(&store, tip, 3).is_none());
    let tip = store.header(2).unwrap();
    let at_genesis = HeaderImporter::find_ancestor_of_header_at_number(&store, tip, 0).unwrap();
    assert_eq!(at_genesis.header.hash, 1);
}

#[test]
fn import_header_reports_weight_overflow() {
    let mut heavy_genesis = genesis();
    heavy_genesis.total_weight = u128::MAX;
    let mut store = MemStorage::new(ChainConstants { k_depth: 7 }, heavy_genesis);
    let header = valid_header(1, 1, 2, 2, 77);
    assert_eq!(
        HeaderImporter::import_header(&mut store, header, Ok(77)),
        Err(ImportError::ArithmeticError(
            subspace_consensus::lightclient::ArithmeticError::Overflow
        ))
    );
}

#[test]
fn store_tracks_constants_and_finalization() {
    let mut store = MemStorage::new(ChainConstants { k_depth: 7 }, genesis());
    assert_eq!(store.chain_constants(), ChainConstants { k_depth: 7 });
    assert_eq!(store.finalized_header().header.hash, 1);
    let h1 = valid_header(1, 1, 2, 2, 500);
    assert_eq!(HeaderImporter::import_header(&mut store, h1, Ok(500)), Ok(()));
    store.finalize_header(2);
    assert_eq!(store.finalized_header().header.hash, 2);
    assert_eq!(store.finalized_header().header.number, 1);
}

#[test]
fn extract_digest_items_reports_missing_and_duplicates() {
    let logs = vec![
        DigestLog::GlobalRandomness(RANDOMNESS),
        DigestLog::SolutionRange(SOLUTION_RANGE),
        DigestLog::Salt(SALT),
    ];
    assert_eq!(
        extract_subspace_digest_items(&logs).unwrap_err(),
        DigestError::Missing(ErrorDigestType::PreDigest)
    );
    assert_eq!(
        extract_pre_digest(&logs).unwrap_err(),
        DigestError::Missing(ErrorDigestType::PreDigest)
    );
    let pre = PreDigest { slot: 4, solution: Solution { public_key: [1u8; 32], tag: 9 } };
    let logs = vec![
        DigestLog::PreDigest(pre),
        DigestLog::PreDigest(pre),
    ];
    assert_eq!(
        extract_pre_digest(&logs).unwrap_err(),
        DigestError::Duplicate(ErrorDigestType::PreDigest)
    );
    let logs = vec![
        DigestLog::GlobalRandomness(RANDOMNESS),
        DigestLog::SolutionRange(SOLUTION_RANGE),
        DigestLog::Salt(SALT),
        DigestLog::PreDigest(pre),
        DigestLog::NextSalt([8u8; 8]),
    ];
    let items = extract_subspace_digest_items(&logs).unwrap();
    assert_eq!(items.pre_digest.slot, 4);
    assert_eq!(items.solution_range, SOLUTION_RANGE);
    assert_eq!(items.next_salt, Some([8u8; 8]));
    assert_eq!(items.next_solution_range, None);
    assert_eq!(extract_pre_digest(&logs).unwrap().solution.tag, 9);
}

#[test]
fn bidirectional_distance_wraps_both_ways() {
    assert_eq!(bidirectional_distance(5, 5), 0);
    assert_eq!(bidirectional_distance(0, 10), 10);
    assert_eq!(bidirectional_distance(10, 0), 10);
    assert_eq!(bidirectional_distance(u64::MAX, 0), 1);
    assert_eq!(bidirectional_distance(0, u64::MAX), 1);
}
