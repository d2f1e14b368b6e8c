//! The light-client header importer.
//!
//! [`HeaderImporter::import_header`] validates an externally supplied header
//! against its parent's derived consensus values, checks slot monotonicity and
//! the reward seal, folds in the host's verdict on the proof-of-archival-
//! storage solution, computes cumulative chain weight, and resolves forks by
//! the heaviest-chain rule with a longest-chain tie-break. It stores headers
//! through the narrow [`Storage`] interface and holds no state of its own.
//!
//! Hashes are opaque 64-bit identities supplied with each header by the host,
//! which computes them over the header's encoding; `pre_hash` is the hash of
//! the header without its seal, the value the reward signature signs.

use vstd::prelude::*;

use crate::digests::{
    extract_pre_digest, extract_subspace_digest_items, DigestError, DigestLog, ErrorDigestType,
    PreDigest, SubspaceDigestItems,
};

verus! {

/// A consensus header as this light client reads it.
#[derive(Debug)]
pub struct Header {
    pub number: u64,
    pub parent_hash: u64,
    /// The hash of the whole header: its identity in the store.
    pub hash: u64,
    /// The hash of the header without its seal: what the reward signature
    /// signs.
    pub pre_hash: [u8; 32],
    pub digest_logs: Vec<DigestLog>,
}

/// Mathematical shape of a [`Header`].
pub struct HeaderView {
    pub number: u64,
    pub parent_hash: u64,
    pub hash: u64,
    pub pre_hash: [u8; 32],
    pub digest_logs: Seq<DigestLog>,
}

impl View for Header {
    type V = HeaderView;

    open spec fn view(&self) -> HeaderView {
        HeaderView {
            number: self.number,
            parent_hash: self.parent_hash,
            hash: self.hash,
            pre_hash: self.pre_hash,
            digest_logs: self.digest_logs@,
        }
    }
}

impl Header {
    /// A field-for-field copy.
    pub fn duplicate(&self) -> (r: Header)
        ensures
            r@ == self@,
    {
        let mut logs: Vec<DigestLog> = Vec::new();
        let n = self.digest_logs.len();
        let mut i: usize = 0;
        while i < n
            invariant
                i <= n,
                n == self.digest_logs@.len(),
                logs@ == self.digest_logs@.take(i as int),
            decreases n - i,
        {
            logs.push(self.digest_logs[i]);
            proof {
                assert(logs@ =~= self.digest_logs@.take(i as int + 1));
            }
            i = i + 1;
        }
        proof {
            assert(self.digest_logs@.take(n as int) =~= self.digest_logs@);
        }
        Header {
            number: self.number,
            parent_hash: self.parent_hash,
            hash: self.hash,
            pre_hash: self.pre_hash,
            digest_logs: logs,
        }
    }
}

/// A header together with the consensus values derived when it was imported.
#[derive(Debug)]
pub struct HeaderExt {
    pub header: Header,
    /// Global randomness after this header; carried forward from the parent
    /// until an update interval is met.
    pub derived_global_randomness: [u8; 32],
    /// Solution range after this header; carried forward likewise.
    pub derived_solution_range: u64,
    /// Salt after this header; carried forward likewise.
    pub derived_salt: [u8; 8],
    /// Cumulative weight of the chain up to this header.
    pub total_weight: u128,
}

/// Mathematical shape of a [`HeaderExt`].
pub struct HeaderExtView {
    pub header: HeaderView,
    pub derived_global_randomness: [u8; 32],
    pub derived_solution_range: u64,
    pub derived_salt: [u8; 8],
    pub total_weight: u128,
}

impl View for HeaderExt {
    type V = HeaderExtView;

    open spec fn view(&self) -> HeaderExtView {
        HeaderExtView {
            header: self.header@,
            derived_global_randomness: self.derived_global_randomness,
            derived_solution_range: self.derived_solution_range,
            derived_salt: self.derived_salt,
            total_weight: self.total_weight,
        }
    }
}

impl HeaderExt {
    /// A field-for-field copy.
    pub fn duplicate(&self) -> (r: HeaderExt)
        ensures
            r@ == self@,
    {
        HeaderExt {
            header: self.header.duplicate(),
            derived_global_randomness: self.derived_global_randomness,
            derived_solution_range: self.derived_solution_range,
            derived_salt: self.derived_salt,
            total_weight: self.total_weight,
        }
    }
}

/// Chain constants the store is configured with.
#[derive(Clone, Copy, Debug, PartialEq, Eq, Structural)]
pub struct ChainConstants {
    /// The depth below the best block at which headers are finalized.
    pub k_depth: u64,
}

/// The host's verdict on a solution that this crate cannot check itself.
#[derive(Clone, Copy, Debug, PartialEq, Eq, Structural)]
pub enum SolutionError {
    OutsideSolutionRange,
    InvalidTagSignature,
    InvalidLocalChallenge,
    InvalidPiece,
}

/// Arithmetic faults reported instead of wrapping silently.
#[derive(Clone, Copy, Debug, PartialEq, Eq, Structural)]
pub enum ArithmeticError {
    Overflow,
    Underflow,
    DivisionByZero,
}

/// Why a header import failed.
#[derive(Clone, Copy, Debug, PartialEq, Eq, Structural)]
pub enum ImportError {
    HeaderAlreadyImported,
    MissingParent(u64),
    DigestExtractionError(DigestError),
    InvalidDigest(ErrorDigestType),
    InvalidSlot,
    InvalidBlockSignature,
    InvalidSolution(SolutionError),
    ArithmeticError(ArithmeticError),
}

/// Storage responsible for the persisted headers. The store owns every
/// `HeaderExt` it holds, keyed by header hash; it tracks the best tip and the
/// latest finalized header.
pub trait Storage: Sized {
    /// The persisted headers by hash.
    spec fn headers(&self) -> Map<u64, HeaderExtView>;

    /// The hash of the best known tip.
    spec fn best_hash(&self) -> u64;

    /// The hash of the latest finalized header.
    spec fn finalized_hash(&self) -> u64;

    spec fn constants(&self) -> ChainConstants;

    /// A store holds finitely many headers.
    proof fn headers_finite(&self)
        ensures
            self.headers().dom().finite(),
    ;

    /// Every header sits under its own hash.
    proof fn hashes_consistent(&self)
        ensures
            forall|h: u64|
                self.headers().contains_key(h) ==> (#[trigger] self.headers()[h]).header.hash == h,
    ;

    fn chain_constants(&self) -> (r: ChainConstants)
        ensures
            r == self.constants(),
    ;

    fn header(&self, hash: u64) -> (r: Option<HeaderExt>)
        ensures
            match r {
                Option::Some(h) => self.headers().contains_key(hash) && h@ == self.headers()[hash],
                Option::None => !self.headers().contains_key(hash),
            },
    ;

    /// Idempotent insert under the header's hash; promotes the tip when asked
    /// to.
    fn store_header(&mut self, header_ext: HeaderExt, as_best_header: bool)
        ensures
            final(self).headers() == old(self).headers().insert(
                header_ext.header.hash,
                header_ext@,
            ),
            final(self).best_hash() == if as_best_header {
                header_ext.header.hash
            } else {
                old(self).best_hash()
            },
            final(self).finalized_hash() == old(self).finalized_hash(),
            final(self).constants() == old(self).constants(),
    ;

    /// The best known tip; a store is never empty after genesis.
    fn best_header(&self) -> (r: HeaderExt)
        requires
            self.headers().contains_key(self.best_hash()),
        ensures
            r@ == self.headers()[self.best_hash()],
    ;

    /// All known headers at a height, forks included: each exactly once.
    fn headers_at_number(&self, number: u64) -> (r: Vec<HeaderExt>)
        ensures
            forall|k: int|
                0 <= k < r@.len() ==> (#[trigger] r@[k])@.header.number == number
                    && self.headers().contains_key(r@[k]@.header.hash) && self.headers()[r@[k]@.header.hash]
                    == r@[k]@,
            forall|h: u64|
                self.headers().contains_key(h) && (#[trigger] self.headers()[h]).header.number
                    == number ==> exists|k: int|
                    0 <= k < r@.len() && (#[trigger] r@[k])@.header.hash == h,
            forall|k1: int, k2: int|
                0 <= k1 < k2 < r@.len() ==> (#[trigger] r@[k1])@.header.hash != (
                #[trigger] r@[k2])@.header.hash,
    ;

    fn prune_header(&mut self, hash: u64)
        ensures
            final(self).headers() == old(self).headers().remove(hash),
            final(self).best_hash() == old(self).best_hash(),
            final(self).finalized_hash() == old(self).finalized_hash(),
            final(self).constants() == old(self).constants(),
    ;

    /// Marks the header as the latest finalized one.
    fn finalize_header(&mut self, hash: u64)
        ensures
            final(self).headers() == old(self).headers(),
            final(self).best_hash() == old(self).best_hash(),
            final(self).finalized_hash() == hash,
            final(self).constants() == old(self).constants(),
    ;

    fn finalized_header(&self) -> (r: HeaderExt)
        requires
            self.headers().contains_key(self.finalized_hash()),
        ensures
            r@ == self.headers()[self.finalized_hash()],
    ;
}

/// `a - b` in the 64-bit wrapping ring.
pub open spec fn spec_wrapping_sub64(a: u64, b: u64) -> u64 {
    if a >= b {
        (a - b) as u64
    } else {
        (a - b + 0x1_0000_0000_0000_0000) as u64
    }
}

/// The shorter way around the 64-bit ring between `a` and `b`.
pub open spec fn spec_bidirectional_distance(a: u64, b: u64) -> u64 {
    if spec_wrapping_sub64(a, b) <= spec_wrapping_sub64(b, a) {
        spec_wrapping_sub64(a, b)
    } else {
        spec_wrapping_sub64(b, a)
    }
}

/// The weight of one block: how close the solution tag came to the target.
pub open spec fn spec_block_weight(target: u64, tag: u64) -> u128 {
    (u64::MAX - spec_bidirectional_distance(target, tag)) as u128
}

/// The shorter wrapping distance between two 64-bit values.
pub fn bidirectional_distance(a: u64, b: u64) -> (r: u64)
    ensures
        r == spec_bidirectional_distance(a, b),
{
    let d1 = wrapping_sub64(a, b);
    let d2 = wrapping_sub64(b, a);
    if d1 <= d2 {
        d1
    } else {
        d2
    }
}

fn wrapping_sub64(a: u64, b: u64) -> (r: u64)
    ensures
        r == spec_wrapping_sub64(a, b),
{
    if a >= b {
        a - b
    } else {
        (u64::MAX - b) + a + 1
    }
}

/// Whether the reward seal of a header is a valid signature over its pre-seal
/// hash by the solution's public key, under the reward signing context. The
/// cryptography behind this is the host's; this crate only names its verdict.
pub uninterp spec fn reward_signature_is_valid(
    pre_hash: Seq<u8>,
    signature: Seq<u8>,
    public_key: Seq<u8>,
) -> bool;

/// Relies on schnorrkel's `PublicKey::verify`: deciding whether `signature`
/// signs `pre_hash` under `public_key` in the reward signing context is a
/// deterministic function of those three values alone; byte strings that are
/// no valid key or signature verify as false.
#[verifier::external_body]
fn check_reward_signature(pre_hash: &[u8; 32], signature: &[u8; 64], public_key: &[u8; 32]) -> (r:
    bool)
    ensures
        r == reward_signature_is_valid(pre_hash@, signature@, public_key@),
{
    let context = schnorrkel::context::signing_context(b"subspace_reward");
    match (
        schnorrkel::PublicKey::from_bytes(public_key),
        schnorrkel::Signature::from_bytes(signature),
    ) {
        (Ok(pk), Ok(sig)) => pk.verify(context.bytes(pre_hash), &sig).is_ok(),
        _ => false,
    }
}

/// The header's digest bundle, checked item by item against the parent's
/// derived consensus values.
pub open spec fn spec_verify_digest_with_parent(
    parent: HeaderExtView,
    header: HeaderView,
) -> Result<SubspaceDigestItems, ImportError> {
    match crate::digests::spec_extract_digest_items(header.digest_logs) {
        Err(e) => Err(ImportError::DigestExtractionError(e)),
        Ok(items) => {
            if items.global_randomness != parent.derived_global_randomness {
                Err(ImportError::InvalidDigest(ErrorDigestType::GlobalRandomness))
            } else if items.solution_range != parent.derived_solution_range {
                Err(ImportError::InvalidDigest(ErrorDigestType::SolutionRange))
            } else if items.salt != parent.derived_salt {
                Err(ImportError::InvalidDigest(ErrorDigestType::Salt))
            } else {
                Ok(items)
            }
        },
    }
}

/// Whether the claimed slot strictly advances past the parent's.
pub open spec fn spec_verify_slot(
    parent_header: HeaderView,
    pre_digest: PreDigest,
) -> Result<(), ImportError> {
    match crate::digests::spec_extract_pre_digest(parent_header.digest_logs) {
        Err(e) => Err(ImportError::DigestExtractionError(e)),
        Ok(parent_pre_digest) => {
            if pre_digest.slot <= parent_pre_digest.slot {
                Err(ImportError::InvalidSlot)
            } else {
                Ok(())
            }
        },
    }
}

/// Whether the header's last digest log is a seal whose signature covers the
/// pre-seal hash under `public_key`.
pub open spec fn spec_verify_block_signature(
    header: HeaderView,
    public_key: [u8; 32],
) -> Result<(), ImportError> {
    if header.digest_logs.len() == 0 {
        Err(ImportError::DigestExtractionError(DigestError::Missing(ErrorDigestType::Seal)))
    } else {
        match header.digest_logs.last() {
            DigestLog::Seal(seal_signature) => {
                if reward_signature_is_valid(header.pre_hash@, seal_signature@, public_key@) {
                    Ok(())
                } else {
                    Err(ImportError::InvalidBlockSignature)
                }
            },
            _ => Err(ImportError::InvalidDigest(ErrorDigestType::Seal)),
        }
    }
}

/// What importing `header` into a store holding `headers` with best tip
/// `best` decides, given the host verifier's `verdict` on the header's
/// solution: the extended header to persist and whether it becomes the new
/// best, or the exact failure.
pub open spec fn spec_import_outcome(
    headers: Map<u64, HeaderExtView>,
    best: HeaderExtView,
    header: HeaderView,
    verdict: Result<u64, SolutionError>,
) -> Result<(HeaderExtView, bool), ImportError> {
    if headers.contains_key(header.hash) {
        Err(ImportError::HeaderAlreadyImported)
    } else if !headers.contains_key(header.parent_hash) {
        Err(ImportError::MissingParent(header.hash))
    } else {
        let parent = headers[header.parent_hash];
        match spec_verify_digest_with_parent(parent, header) {
            Err(e) => Err(e),
            Ok(items) => {
                match spec_verify_slot(parent.header, items.pre_digest) {
                    Err(e) => Err(e),
                    Ok(()) => {
                        match spec_verify_block_signature(
                            header,
                            items.pre_digest.solution.public_key,
                        ) {
                            Err(e) => Err(e),
                            Ok(()) => spec_import_sealed(headers, best, header, verdict, items),
                        }
                    },
                }
            },
        }
    }
}

/// The tail of the import decision, once every check on the header itself has
/// passed: solution verdict, weight and fork choice.
pub open spec fn spec_import_sealed(
    headers: Map<u64, HeaderExtView>,
    best: HeaderExtView,
    header: HeaderView,
    verdict: Result<u64, SolutionError>,
    items: SubspaceDigestItems,
) -> Result<(HeaderExtView, bool), ImportError> {
    let parent = headers[header.parent_hash];
    match verdict {
        Err(e) => Err(ImportError::InvalidSolution(e)),
        Ok(target) => {
            let block_weight = spec_block_weight(target, items.pre_digest.solution.tag);
            if parent.total_weight + block_weight > u128::MAX {
                Err(ImportError::ArithmeticError(ArithmeticError::Overflow))
            } else {
                let total_weight = (parent.total_weight + block_weight) as u128;
                let is_best = if best.header.hash == parent.header.hash {
                    true
                } else if total_weight > best.total_weight {
                    true
                } else if total_weight == best.total_weight {
                    header.number > best.header.number
                } else {
                    false
                };
                Ok(
                    (
                        HeaderExtView {
                            header,
                            derived_global_randomness: items.global_randomness,
                            derived_solution_range: items.solution_range,
                            derived_salt: items.salt,
                            total_weight,
                        },
                        is_best,
                    ),
                )
            }
        },
    }
}

/// Verifies and imports headers into a [`Storage`].
#[derive(Debug)]
pub struct HeaderImporter;

impl HeaderImporter {
    /// Verifies `header`, computes its chain weight, resolves fork choice and
    /// persists the extended header.
    ///
    /// `solution_verdict` is the host verifier's judgement of the header's
    /// solution against the slot and the parent's derived consensus values —
    /// the solution's target on success — which this crate's contracts treat
    /// as given: proof-of-archival-storage checking is cryptography this
    /// library does not contain.
    ///
    /// Importing the same header twice returns `HeaderAlreadyImported` the
    /// second time, whatever the verdict.
    pub fn import_header<S: Storage>(
        store: &mut S,
        header: Header,
        solution_verdict: Result<u64, SolutionError>,
    ) -> (r: Result<(), ImportError>)
        requires
            old(store).headers().contains_key(old(store).best_hash()),
        ensures
            final(store).constants() == old(store).constants(),
            final(store).finalized_hash() == old(store).finalized_hash(),
            final(store).headers().contains_key(final(store).best_hash()),
            old(store).headers().contains_key(header.hash) ==> r == Err::<(), ImportError>(
                ImportError::HeaderAlreadyImported,
            ),
            r is Ok ==> final(store).headers().contains_key(header.hash),
            match spec_import_outcome(
                old(store).headers(),
                old(store).headers()[old(store).best_hash()],
                header@,
                solution_verdict,
            ) {
                Ok((stored, is_best)) => r == Ok::<(), ImportError>(()) && final(store).headers()
                    == old(store).headers().insert(header.hash, stored) && final(store).best_hash()
                    == if is_best {
                    header.hash
                } else {
                    old(store).best_hash()
                },
                Err(e) => r == Err::<(), ImportError>(e) && final(store).headers() == old(
                    store,
                ).headers() && final(store).best_hash() == old(store).best_hash(),
            },
    {
        if store.header(header.hash).is_some() {
            return Err(ImportError::HeaderAlreadyImported);
        }
        let parent_header = match store.header(header.parent_hash) {
            Option::Some(p) => p,
            Option::None => {
                return Err(ImportError::MissingParent(header.hash));
            },
        };
        let items = match Self::verify_header_digest_with_parent(&parent_header, &header) {
            Ok(items) => items,
            Err(e) => {
                return Err(e);
            },
        };
        match Self::verify_slot(&parent_header.header, &items.pre_digest) {
            Ok(()) => (),
            Err(e) => {
                return Err(e);
            },
        }
        match Self::verify_block_signature(&header, &items.pre_digest.solution.public_key) {
            Ok(()) => (),
            Err(e) => {
                return Err(e);
            },
        }
        let target = match solution_verdict {
            Ok(t) => t,
            Err(e) => {
                return Err(ImportError::InvalidSolution(e));
            },
        };
        let block_weight = Self::calculate_block_weight(target, items.pre_digest.solution.tag);
        let total_weight = match parent_header.total_weight.checked_add(block_weight) {
            Option::Some(t) => t,
            Option::None => {
                return Err(ImportError::ArithmeticError(ArithmeticError::Overflow));
            },
        };
        let last_best_header = store.best_header();
        let is_best_header = if last_best_header.header.hash == parent_header.header.hash {
            true
        } else if total_weight > last_best_header.total_weight {
            true
        } else if total_weight == last_best_header.total_weight {
            header.number > last_best_header.header.number
        } else {
            false
        };
        let header_ext = HeaderExt {
            header,
            derived_global_randomness: items.global_randomness,
            derived_solution_range: items.solution_range,
            derived_salt: items.salt,
            total_weight,
        };
        store.store_header(header_ext, is_best_header);
        Ok(())
    }

    /// Extracts the header's digest items and holds them against the parent's
    /// derived global randomness, solution range and salt.
    fn verify_header_digest_with_parent(parent_header: &HeaderExt, header: &Header) -> (r: Result<
        SubspaceDigestItems,
        ImportError,
    >)
        ensures
            r == spec_verify_digest_with_parent(parent_header@, header@),
    {
        let items = match extract_subspace_digest_items(&header.digest_logs) {
            Ok(items) => items,
            Err(e) => {
                return Err(ImportError::DigestExtractionError(e));
            },
        };
        if !bytes32_eq(&items.global_randomness, &parent_header.derived_global_randomness) {
            return Err(ImportError::InvalidDigest(ErrorDigestType::GlobalRandomness));
        }
        if items.solution_range != parent_header.derived_solution_range {
            return Err(ImportError::InvalidDigest(ErrorDigestType::SolutionRange));
        }
        if !bytes8_eq(&items.salt, &parent_header.derived_salt) {
            return Err(ImportError::InvalidDigest(ErrorDigestType::Salt));
        }
        Ok(items)
    }

    /// The slot must strictly increase from the parent's slot.
    fn verify_slot(parent_header: &Header, pre_digest: &PreDigest) -> (r: Result<(), ImportError>)
        ensures
            r == spec_verify_slot(parent_header@, *pre_digest),
    {
        let parent_pre_digest = match extract_pre_digest(&parent_header.digest_logs) {
            Ok(p) => p,
            Err(e) => {
                return Err(ImportError::DigestExtractionError(e));
            },
        };
        if pre_digest.slot <= parent_pre_digest.slot {
            return Err(ImportError::InvalidSlot);
        }
        Ok(())
    }

    /// The last digest log must be the seal, and its signature must cover the
    /// header's pre-seal hash under the solution's public key.
    fn verify_block_signature(header: &Header, public_key: &[u8; 32]) -> (r: Result<
        (),
        ImportError,
    >)
        ensures
            r == spec_verify_block_signature(header@, *public_key),
    {
        let n_logs = header.digest_logs.len();
        if n_logs == 0 {
            return Err(
                ImportError::DigestExtractionError(DigestError::Missing(ErrorDigestType::Seal)),
            );
        }
        let seal_signature = match header.digest_logs[n_logs - 1] {
            DigestLog::Seal(sig) => sig,
            _ => {
                return Err(ImportError::InvalidDigest(ErrorDigestType::Seal));
            },
        };
        if !check_reward_signature(&header.pre_hash, &seal_signature, public_key) {
            return Err(ImportError::InvalidBlockSignature);
        }
        Ok(())
    }

    /// The block's weight: how close the solution tag came to the target the
    /// host verifier derived.
    fn calculate_block_weight(target: u64, tag: u64) -> (r: u128)
        ensures
            r == spec_block_weight(target, tag),
    {
        (u64::MAX - bidirectional_distance(target, tag)) as u128
    }
}

/// Whether the store holds a header at height `number` under hash `h`.
pub open spec fn stored_at_height(headers: Map<u64, HeaderExtView>, number: u64, h: u64) -> bool {
    headers.contains_key(h) && headers[h].header.number == number
}

/// Whether exactly one stored header sits at the height.
pub open spec fn unique_at_height(headers: Map<u64, HeaderExtView>, number: u64) -> bool {
    exists|h: u64|
        stored_at_height(headers, number, h) && (forall|h2: u64|
            stored_at_height(headers, number, h2) ==> h2 == h)
}

/// The ancestor of `h` at height `n`, following parent hashes downward
/// through `headers`: none where a link is missing or fails to descend in
/// height.
pub open spec fn spec_ancestor_at(
    headers: Map<u64, HeaderExtView>,
    h: HeaderExtView,
    n: u64,
) -> Option<HeaderExtView>
    decreases h.header.number,
{
    if h.header.number <= n {
        if h.header.number == n {
            Option::Some(h)
        } else {
            Option::None
        }
    } else if !headers.contains_key(h.header.parent_hash) {
        Option::None
    } else if headers[h.header.parent_hash].header.number >= h.header.number {
        Option::None
    } else {
        spec_ancestor_at(headers, headers[h.header.parent_hash], n)
    }
}

/// An ancestor found by the parent-link walk is itself a stored header at the
/// asked-for height.
proof fn lemma_ancestor_is_stored(headers: Map<u64, HeaderExtView>, h: HeaderExtView, n: u64)
    requires
        h.header.number > n,
        spec_ancestor_at(headers, h, n) is Some,
    ensures
        exists|k: u64|
            #[trigger] headers.contains_key(k) && headers[k] == spec_ancestor_at(
                headers,
                h,
                n,
            )->Some_0 && headers[k].header.number == n,
    decreases h.header.number,
{
    let parent_hash = h.header.parent_hash;
    let parent = headers[parent_hash];
    assert(headers.contains_key(parent_hash));
    assert(parent.header.number < h.header.number);
    assert(spec_ancestor_at(headers, h, n) == spec_ancestor_at(headers, parent, n));
    if parent.header.number > n {
        lemma_ancestor_is_stored(headers, parent, n);
    } else {
        assert(parent.header.number == n);
        assert(spec_ancestor_at(headers, parent, n) == Option::Some(parent));
        assert(headers.contains_key(parent_hash) && headers[parent_hash] == spec_ancestor_at(
            headers,
            h,
            n,
        )->Some_0 && headers[parent_hash].header.number == n);
    }
}

/// Whether the stored header under hash `h` lies in the subtree rooted at the
/// pruned header: its parent chain descends one height per step, through
/// stored headers, down to a direct child of the root. This is exactly the
/// set a breadth-first walk by increasing height visits.
pub open spec fn spec_reaches(
    headers: Map<u64, HeaderExtView>,
    h: u64,
    root_hash: u64,
    root_number: u64,
) -> bool
    decreases headers[h].header.number,
{
    if !headers.contains_key(h) {
        false
    } else if headers[h].header.number <= root_number {
        false
    } else if headers[h].header.number == root_number + 1 {
        headers[h].header.parent_hash == root_hash
    } else {
        let parent = headers[h].header.parent_hash;
        if headers.contains_key(parent) && headers[parent].header.number + 1
            == headers[h].header.number {
            spec_reaches(headers, parent, root_hash, root_number)
        } else {
            false
        }
    }
}

/// A subtree member's parent chain passes through every height between the
/// root and the member.
proof fn lemma_reaches_passes_height(
    headers: Map<u64, HeaderExtView>,
    h: u64,
    root_hash: u64,
    root_number: u64,
    m: u64,
)
    requires
        spec_reaches(headers, h, root_hash, root_number),
        root_number < m,
        m <= headers[h].header.number,
    ensures
        exists|h2: u64|
            #[trigger] spec_reaches(headers, h2, root_hash, root_number)
                && headers[h2].header.number == m,
    decreases headers[h].header.number,
{
    if headers[h].header.number == m {
        assert(spec_reaches(headers, h, root_hash, root_number) && headers[h].header.number == m);
    } else {
        let parent = headers[h].header.parent_hash;
        assert(headers.contains_key(parent) && headers[parent].header.number + 1
            == headers[h].header.number);
        assert(spec_reaches(headers, parent, root_hash, root_number));
        lemma_reaches_passes_height(headers, parent, root_hash, root_number, m);
    }
}

/// Whether the stored header under hash `h` is a descendant that pruning the
/// header `root` removes: its parent chain, judged in the store without the
/// pruned key itself, descends one height per step down to `root`.
pub open spec fn spec_in_pruned_subtree(
    headers: Map<u64, HeaderExtView>,
    root: HeaderView,
    h: u64,
) -> bool {
    spec_reaches(headers.remove(root.hash), h, root.hash, root.number)
}

impl HeaderImporter {
    /// The ancestor of `header` at height `ancestor_number`, if the store can
    /// name one: below the finalized head or where the height has a single
    /// header the chain is canonical and that header answers; above it the
    /// walk follows parent hashes downward. A height at or above the header's
    /// own, a missing link, or a store whose parent links do not descend in
    /// height yields none.
    #[verifier::loop_isolation(false)]
    pub fn find_ancestor_of_header_at_number<S: Storage>(
        store: &S,
        header: HeaderExt,
        ancestor_number: u64,
    ) -> (r: Option<HeaderExt>)
        requires
            store.headers().contains_key(store.finalized_hash()),
        ensures
            match r {
                Option::Some(h) => h@.header.number == ancestor_number
                    && store.headers().contains_key(h@.header.hash) && store.headers()[h@.header.hash]
                    == h@,
                Option::None => true,
            },
            ancestor_number >= header@.header.number ==> r is None,
            // whichever path answers, an ancestor reachable by parent links is
            // never missed
            ancestor_number < header@.header.number && spec_ancestor_at(
                store.headers(),
                header@,
                ancestor_number,
            ) is Some ==> r is Some,
            // above finalization and with forks at the height, the walk
            // answers exactly by parent links
            (ancestor_number < header@.header.number && ancestor_number
                > store.headers()[store.finalized_hash()].header.number && !unique_at_height(
                store.headers(),
                ancestor_number,
            )) ==> (match r {
                Option::Some(h) => spec_ancestor_at(store.headers(), header@, ancestor_number)
                    == Option::Some(h@),
                Option::None => spec_ancestor_at(store.headers(), header@, ancestor_number)
                    is None,
            }),
            // below finalization, or where the height has a single header, the
            // store is canonical: any stored header at the height answers
            (ancestor_number < header@.header.number && (ancestor_number
                <= store.headers()[store.finalized_hash()].header.number || unique_at_height(
                store.headers(),
                ancestor_number,
            )) && (exists|k: u64|
                stored_at_height(store.headers(), ancestor_number, k))) ==> r is Some,
    {
        proof {
            store.hashes_consistent();
        }
        if ancestor_number >= header.header.number {
            return Option::None;
        }
        let headers_at_ancestor_number = store.headers_at_number(ancestor_number);
        let finalized_header = store.finalized_header();
        proof {
            if headers_at_ancestor_number@.len() == 1 {
                let k0 = headers_at_ancestor_number@[0]@.header.hash;
                assert(stored_at_height(store.headers(), ancestor_number, k0));
                assert forall|k2: u64|
                    stored_at_height(store.headers(), ancestor_number, k2) implies k2 == k0 by {
                    let idx = choose|idx: int|
                        0 <= idx < headers_at_ancestor_number@.len() && (
                        #[trigger] headers_at_ancestor_number@[idx])@.header.hash == k2;
                    assert(idx == 0);
                }
                assert(unique_at_height(store.headers(), ancestor_number));
            }
            if unique_at_height(store.headers(), ancestor_number) {
                let k0 = choose|k0: u64|
                    stored_at_height(store.headers(), ancestor_number, k0) && (forall|k2: u64|
                        stored_at_height(store.headers(), ancestor_number, k2) ==> k2 == k0);
                assert(exists|idx: int|
                    0 <= idx < headers_at_ancestor_number@.len() && (
                    #[trigger] headers_at_ancestor_number@[idx])@.header.hash == k0);
                if headers_at_ancestor_number@.len() >= 2 {
                    assert(stored_at_height(
                        store.headers(),
                        ancestor_number,
                        headers_at_ancestor_number@[0]@.header.hash,
                    ));
                    assert(stored_at_height(
                        store.headers(),
                        ancestor_number,
                        headers_at_ancestor_number@[1]@.header.hash,
                    ));
                    assert(false);
                }
                assert(headers_at_ancestor_number@.len() == 1);
            }
        }
        if ancestor_number <= finalized_header.header.number || headers_at_ancestor_number.len()
            == 1 {
            if headers_at_ancestor_number.len() == 0 {
                proof {
                    assert forall|k: u64|
                        !stored_at_height(store.headers(), ancestor_number, k) by {
                        if stored_at_height(store.headers(), ancestor_number, k) {
                            let idx = choose|idx: int|
                                0 <= idx < headers_at_ancestor_number@.len() && (
                                #[trigger] headers_at_ancestor_number@[idx])@.header.hash == k;
                        }
                    }
                    if spec_ancestor_at(store.headers(), header@, ancestor_number) is Some {
                        lemma_ancestor_is_stored(store.headers(), header@, ancestor_number);
                        let k = choose|k: u64|
                            #[trigger] store.headers().contains_key(k) && store.headers()[k]
                                == spec_ancestor_at(
                                store.headers(),
                                header@,
                                ancestor_number,
                            )->Some_0 && store.headers()[k].header.number == ancestor_number;
                        assert(stored_at_height(store.headers(), ancestor_number, k));
                        assert(false);
                    }
                }
                return Option::None;
            }
            return Option::Some(headers_at_ancestor_number[0].duplicate());
        }
        let mut current = header;
        while current.header.number > ancestor_number
            invariant
                ancestor_number < header@.header.number,
                current@.header.number <= header@.header.number,
                current@.header.number < header@.header.number ==> store.headers().contains_key(
                    current@.header.hash,
                ) && store.headers()[current@.header.hash] == current@,
                spec_ancestor_at(store.headers(), header@, ancestor_number) == spec_ancestor_at(
                    store.headers(),
                    current@,
                    ancestor_number,
                ),
            decreases current.header.number,
        {
            proof {
                store.hashes_consistent();
            }
            let parent = match store.header(current.header.parent_hash) {
                Option::Some(p) => p,
                Option::None => {
                    proof {
                        assert(spec_ancestor_at(store.headers(), current@, ancestor_number)
                            is None);
                    }
                    return Option::None;
                },
            };
            if parent.header.number >= current.header.number {
                proof {
                    assert(spec_ancestor_at(store.headers(), current@, ancestor_number) is None);
                }
                return Option::None;
            }
            current = parent;
        }
        if current.header.number == ancestor_number {
            proof {
                assert(spec_ancestor_at(store.headers(), current@, ancestor_number)
                    == Option::Some(current@));
            }
            Option::Some(current)
        } else {
            proof {
                assert(spec_ancestor_at(store.headers(), current@, ancestor_number) is None);
            }
            Option::None
        }
    }

    /// Prunes `header` and every stored descendant of it: the frontier
    /// starts at the header's hash and, height by height, gathers the stored
    /// headers whose parent lies in it, pruning as it goes, until a height
    /// adds nothing. A descendant is a header whose parent chain descends one
    /// height per step down to the pruned header; a chain passing through the
    /// pruned header's own hash is cut with it. Exactly the header and that
    /// subtree leave the store. A height counter that would overflow is
    /// reported, which happens exactly when the subtree still grows at the
    /// highest representable height.
    #[verifier::loop_isolation(false)]
    #[verifier::rlimit(100)]
    pub fn prune_chain_from_header<S: Storage>(store: &mut S, header: HeaderExt) -> (r: Result<
        (),
        ImportError,
    >)
        ensures
            forall|h: u64|
                final(store).headers().contains_key(h) ==> old(store).headers().contains_key(h)
                    && final(store).headers()[h] == old(store).headers()[h],
            !final(store).headers().contains_key(header@.header.hash),
            forall|h: u64|
                old(store).headers().contains_key(h) && !final(store).headers().contains_key(h)
                    ==> h == header@.header.hash || spec_in_pruned_subtree(
                    old(store).headers(),
                    header@.header,
                    h,
                ),
            forall|h: u64|
                spec_in_pruned_subtree(old(store).headers(), header@.header, h)
                    ==> !final(store).headers().contains_key(h),
            final(store).best_hash() == old(store).best_hash(),
            final(store).finalized_hash() == old(store).finalized_hash(),
            final(store).constants() == old(store).constants(),
            match r {
                Ok(()) => header@.header.number != u64::MAX && !(exists|h: u64|
                    #[trigger] spec_in_pruned_subtree(old(store).headers(), header@.header, h)
                        && old(store).headers()[h].header.number == u64::MAX),
                Err(e) => e == ImportError::ArithmeticError(ArithmeticError::Overflow) && (
                header@.header.number == u64::MAX || (exists|h: u64|
                    #[trigger] spec_in_pruned_subtree(old(store).headers(), header@.header, h)
                        && old(store).headers()[h].header.number == u64::MAX)),
            },
    {
        let ghost orig_headers = store.headers();
        let ghost orig_best = store.best_hash();
        let ghost orig_finalized = store.finalized_hash();
        let ghost orig_constants = store.constants();
        let ghost root_hash_g = header@.header.hash;
        let ghost root_number_g = header@.header.number;
        let ghost reach_map = orig_headers.remove(root_hash_g);
        store.prune_header(header.header.hash);
        let mut pruned_parent_hashes: Vec<u64> = Vec::new();
        pruned_parent_hashes.push(header.header.hash);
        let mut current_number = header.header.number;
        proof {
            store.headers_finite();
        }
        while pruned_parent_hashes.len() > 0
            invariant
                forall|h: u64|
                    #[trigger] store.headers().contains_key(h) ==> orig_headers.contains_key(h)
                        && store.headers()[h] == orig_headers[h],
                !store.headers().contains_key(root_hash_g),
                forall|h: u64|
                    #[trigger] orig_headers.contains_key(h) && !store.headers().contains_key(h)
                        ==> h == root_hash_g || (spec_reaches(
                        reach_map,
                        h,
                        root_hash_g,
                        root_number_g,
                    ) && orig_headers[h].header.number <= current_number),
                forall|h: u64|
                    #[trigger] spec_reaches(reach_map, h, root_hash_g, root_number_g)
                        && reach_map[h].header.number <= current_number
                        ==> !store.headers().contains_key(h),
                current_number == root_number_g ==> pruned_parent_hashes@ == seq![root_hash_g],
                current_number > root_number_g ==> forall|h: u64|
                    #![trigger pruned_parent_hashes@.contains(h)]
                    #![trigger spec_reaches(reach_map, h, root_hash_g, root_number_g)]
                    (pruned_parent_hashes@.contains(h) <==> (spec_reaches(
                        reach_map,
                        h,
                        root_hash_g,
                        root_number_g,
                    ) && reach_map[h].header.number == current_number)),
                store.best_hash() == orig_best,
                store.finalized_hash() == orig_finalized,
                store.constants() == orig_constants,
                store.headers().dom().finite(),
                current_number >= root_number_g,
            decreases store.headers().dom().len() + pruned_parent_hashes@.len(),
        {
            let ghost prev_number = current_number;
            current_number = match current_number.checked_add(1) {
                Option::Some(v) => v,
                Option::None => {
                    proof {
                        assert(old(store).headers().remove(header@.header.hash) == reach_map);
                        assert forall|h2: u64|
                            #[trigger] spec_in_pruned_subtree(
                                old(store).headers(),
                                header@.header,
                                h2,
                            ) == spec_reaches(reach_map, h2, root_hash_g, root_number_g) by {}
                        if prev_number > root_number_g {
                            let w = pruned_parent_hashes@[0];
                            assert(pruned_parent_hashes@.contains(w));
                            assert(spec_reaches(reach_map, w, root_hash_g, root_number_g)
                                && reach_map[w].header.number == u64::MAX);
                            assert(spec_in_pruned_subtree(
                                old(store).headers(),
                                header@.header,
                                w,
                            ));
                            assert(old(store).headers()[w].header.number == u64::MAX);
                        }
                    }
                    return Err(ImportError::ArithmeticError(ArithmeticError::Overflow));
                },
            };
            let ghost start_headers = store.headers();
            let headers_at = store.headers_at_number(current_number);
            let n_at = headers_at.len();
            let mut descendant_hashes: Vec<u64> = Vec::new();
            let ghost mut sources: Seq<int> = Seq::empty();
            let mut k: usize = 0;
            while k < n_at
                invariant
                    k <= n_at,
                    sources.len() == descendant_hashes@.len(),
                    forall|j: int| 0 <= j < sources.len() ==> 0 <= #[trigger] sources[j] < k,
                    forall|j1: int, j2: int|
                        0 <= j1 < j2 < sources.len() ==> #[trigger] sources[j1]
                            < #[trigger] sources[j2],
                    forall|j: int|
                        0 <= j < sources.len() ==> #[trigger] descendant_hashes@[j]
                            == headers_at@[sources[j]]@.header.hash && pruned_parent_hashes@.contains(
                            headers_at@[sources[j]]@.header.parent_hash,
                        ),
                    forall|idx: int|
                        0 <= idx < k && pruned_parent_hashes@.contains(
                            (#[trigger] headers_at@[idx])@.header.parent_hash,
                        ) ==> exists|j: int|
                            0 <= j < descendant_hashes@.len() && #[trigger] descendant_hashes@[j]
                                == headers_at@[idx]@.header.hash,
                decreases n_at - k,
            {
                let ghost d0 = descendant_hashes@;
                let ghost s0 = sources;
                proof {
                    assert forall|j: int| 0 <= j < s0.len() implies 0 <= #[trigger] s0[j] < k
                        && d0[j] == headers_at@[s0[j]]@.header.hash
                        && pruned_parent_hashes@.contains(
                        headers_at@[s0[j]]@.header.parent_hash,
                    ) by {
                        assert(sources[j] == s0[j]);
                        assert(descendant_hashes@[j] == d0[j]);
                    }
                    assert forall|j1: int, j2: int| 0 <= j1 < j2 < s0.len() implies #[trigger] s0[j1]
                        < #[trigger] s0[j2] by {
                        assert(sources[j1] == s0[j1] && sources[j2] == s0[j2]);
                    }
                    assert forall|idx: int|
                        0 <= idx < k && pruned_parent_hashes@.contains(
                            (#[trigger] headers_at@[idx])@.header.parent_hash,
                        ) implies exists|j: int|
                        0 <= j < d0.len() && #[trigger] d0[j] == headers_at@[idx]@.header.hash by {
                        let j = choose|j: int|
                            0 <= j < descendant_hashes@.len() && #[trigger] descendant_hashes@[j]
                                == headers_at@[idx]@.header.hash;
                        assert(d0[j] == headers_at@[idx]@.header.hash);
                    }
                    assert(headers_at@[k as int]@.header.parent_hash == headers_at@[k as int].header.parent_hash);
                    assert(headers_at@[k as int]@.header.hash == headers_at@[k as int].header.hash);
                }
                let matched = contains_u64(&pruned_parent_hashes, headers_at[k].header.parent_hash);
                if matched {
                    descendant_hashes.push(headers_at[k].header.hash);
                    proof {
                        sources = sources.push(k as int);
                    }
                }
                proof {
                    if matched {
                        assert(descendant_hashes@ == d0.push(headers_at@[k as int]@.header.hash));
                        assert(sources == s0.push(k as int));
                        assert(pruned_parent_hashes@.contains(
                            headers_at@[k as int]@.header.parent_hash,
                        ));
                    } else {
                        assert(descendant_hashes@ == d0);
                        assert(sources == s0);
                    }
                    assert forall|j: int| 0 <= j < sources.len() implies 0 <= #[trigger] sources[j]
                        < k + 1 by {
                        if j < s0.len() {
                            assert(sources[j] == s0[j]);
                        } else {
                            assert(sources[j] == k as int);
                        }
                    }
                    assert forall|j1: int, j2: int|
                        0 <= j1 < j2 < sources.len() implies #[trigger] sources[j1]
                        < #[trigger] sources[j2] by {
                        if j2 < s0.len() {
                            assert(sources[j1] == s0[j1] && sources[j2] == s0[j2]);
                        } else {
                            assert(sources[j2] == k as int);
                            assert(sources[j1] == s0[j1]);
                            assert(s0[j1] < k);
                        }
                    }
                    assert forall|j: int| 0 <= j < sources.len() implies #[trigger] descendant_hashes@[j]
                        == headers_at@[sources[j]]@.header.hash && pruned_parent_hashes@.contains(
                        headers_at@[sources[j]]@.header.parent_hash,
                    ) by {
                        if j < s0.len() {
                            assert(descendant_hashes@[j] == d0[j]);
                            assert(sources[j] == s0[j]);
                        } else {
                            assert(sources[j] == k as int);
                            assert(descendant_hashes@[j] == headers_at@[k as int]@.header.hash);
                        }
                    }
                    assert forall|idx: int|
                        0 <= idx < k + 1 && pruned_parent_hashes@.contains(
                            (#[trigger] headers_at@[idx])@.header.parent_hash,
                        ) implies exists|j: int|
                        0 <= j < descendant_hashes@.len() && #[trigger] descendant_hashes@[j]
                            == headers_at@[idx]@.header.hash by {
                        if idx < k {
                            let j = choose|j: int|
                                0 <= j < d0.len() && #[trigger] d0[j]
                                    == headers_at@[idx]@.header.hash;
                            assert(descendant_hashes@[j] == headers_at@[idx]@.header.hash);
                        } else {
                            assert(matched);
                            let j = descendant_hashes@.len() - 1;
                            assert(descendant_hashes@[j] == headers_at@[idx]@.header.hash);
                        }
                    }
                }
                k = k + 1;
            }
            proof {
                assert forall|j1: int, j2: int|
                    0 <= j1 < j2 < descendant_hashes@.len() implies #[trigger] descendant_hashes@[j1]
                    != #[trigger] descendant_hashes@[j2] by {
                    assert(sources[j1] < sources[j2]);
                    assert(headers_at@[sources[j1]]@.header.hash
                        != headers_at@[sources[j2]]@.header.hash);
                }
                // every gathered hash is a stored subtree member at this height
                assert forall|j: int| 0 <= j < descendant_hashes@.len() implies store.headers().contains_key(
                    #[trigger] descendant_hashes@[j],
                ) && spec_reaches(reach_map, descendant_hashes@[j], root_hash_g, root_number_g)
                    && reach_map[descendant_hashes@[j]].header.number == current_number by {
                    let dh = descendant_hashes@[j];
                    assert(0 <= sources[j] < headers_at@.len());
                    let hv = headers_at@[sources[j]];
                    assert(dh == hv@.header.hash);
                    assert(pruned_parent_hashes@.contains(hv@.header.parent_hash));
                    let hh = hv@.header.hash;
                    assert(store.headers().contains_key(hh) && store.headers()[hh] == hv@);
                    assert(orig_headers.contains_key(hh) && orig_headers[hh] == hv@);
                    assert(hh != root_hash_g);
                    assert(reach_map.contains_key(hh) && reach_map[hh] == hv@);
                    let p = hv@.header.parent_hash;
                    assert(pruned_parent_hashes@.contains(p));
                    if prev_number == root_number_g {
                        assert(pruned_parent_hashes@ == seq![root_hash_g]);
                        assert(p == root_hash_g);
                    } else {
                        assert(spec_reaches(reach_map, p, root_hash_g, root_number_g)
                            && reach_map[p].header.number == prev_number);
                    }
                    assert(spec_reaches(reach_map, hh, root_hash_g, root_number_g));
                }
                // every stored subtree member at this height was gathered
                assert forall|h: u64|
                    spec_reaches(reach_map, h, root_hash_g, root_number_g)
                        && reach_map[h].header.number == current_number implies exists|j: int|
                    0 <= j < descendant_hashes@.len() && #[trigger] descendant_hashes@[j] == h by {
                    assert(reach_map.contains_key(h));
                    assert(h != root_hash_g);
                    assert(orig_headers.contains_key(h) && orig_headers[h] == reach_map[h]);
                    assert(store.headers().contains_key(h));
                    assert(store.headers()[h] == orig_headers[h]);
                    let idx = choose|idx: int|
                        0 <= idx < headers_at@.len() && (#[trigger] headers_at@[idx])@.header.hash
                            == h;
                    let p = reach_map[h].header.parent_hash;
                    if current_number == root_number_g + 1 {
                        assert(p == root_hash_g);
                        assert(pruned_parent_hashes@ == seq![root_hash_g]);
                        assert(pruned_parent_hashes@[0] == p);
                        assert(pruned_parent_hashes@.contains(p));
                    } else {
                        assert(spec_reaches(reach_map, p, root_hash_g, root_number_g)
                            && reach_map[p].header.number == prev_number);
                        assert(pruned_parent_hashes@.contains(p));
                    }
                    assert(headers_at@[idx]@.header.parent_hash == p);
                }
            }
            let n_desc = descendant_hashes.len();
            let mut t: usize = 0;
            while t < n_desc
                invariant
                    t <= n_desc,
                    forall|j: int|
                        0 <= j < t ==> !store.headers().contains_key(
                            #[trigger] descendant_hashes@[j],
                        ),
                    forall|j: int|
                        t <= j < descendant_hashes@.len() ==> store.headers().contains_key(
                            #[trigger] descendant_hashes@[j],
                        ),
                    forall|h: u64|
                        #[trigger] store.headers().contains_key(h) ==> start_headers.contains_key(
                            h,
                        ) && store.headers()[h] == start_headers[h],
                    forall|h: u64|
                        #[trigger] start_headers.contains_key(h) && !store.headers().contains_key(
                            h,
                        ) ==> descendant_hashes@.contains(h),
                    store.headers().dom().finite(),
                    store.headers().dom().len() + t == start_headers.dom().len(),
                    store.best_hash() == orig_best,
                    store.finalized_hash() == orig_finalized,
                    store.constants() == orig_constants,
                decreases n_desc - t,
            {
                let ghost pre_prune = store.headers();
                proof {
                    assert forall|h: u64| #[trigger] pre_prune.contains_key(h) implies
                        start_headers.contains_key(h) && pre_prune[h] == start_headers[h] by {
                        assert(store.headers().contains_key(h));
                    }
                    assert forall|h: u64|
                        #[trigger] start_headers.contains_key(h) && !pre_prune.contains_key(
                            h,
                        ) implies descendant_hashes@.contains(h) by {
                        assert(!store.headers().contains_key(h));
                    }
                    assert forall|j: int|
                        t <= j < descendant_hashes@.len() implies pre_prune.contains_key(
                        #[trigger] descendant_hashes@[j],
                    ) by {
                        assert(store.headers().contains_key(descendant_hashes@[j]));
                    }
                    assert forall|j: int| 0 <= j < t implies !pre_prune.contains_key(
                        #[trigger] descendant_hashes@[j],
                    ) by {
                        assert(!store.headers().contains_key(descendant_hashes@[j]));
                    }
                    assert(pre_prune.dom().finite());
                    assert(pre_prune.dom().len() + t == start_headers.dom().len());
                    assert(pre_prune.dom().contains(descendant_hashes@[t as int]));
                }
                store.prune_header(descendant_hashes[t]);
                proof {
                    let pruned: u64 = descendant_hashes@[t as int];
                    assert(store.headers() == pre_prune.remove(pruned));
                    assert(store.headers().dom() =~= pre_prune.dom().remove(pruned));
                    assert(store.headers().dom().len() + 1 == pre_prune.dom().len());
                    assert forall|h: u64| #[trigger] store.headers().contains_key(h) implies
                        start_headers.contains_key(h) && store.headers()[h]
                        == start_headers[h] by {
                        assert(pre_prune.remove(pruned).contains_key(h));
                        assert(pre_prune.contains_key(h));
                        assert(store.headers()[h] == pre_prune[h]);
                    }
                    assert forall|h: u64|
                        #[trigger] start_headers.contains_key(h) && !store.headers().contains_key(
                            h,
                        ) implies descendant_hashes@.contains(h) by {
                        if pre_prune.contains_key(h) {
                            assert(!pre_prune.remove(pruned).contains_key(h));
                            assert(h == pruned);
                            assert(descendant_hashes@[t as int] == h);
                        }
                    }
                    assert forall|j: int|
                        t + 1 <= j < descendant_hashes@.len() implies store.headers().contains_key(
                        #[trigger] descendant_hashes@[j],
                    ) by {
                        assert(descendant_hashes@[j] != pruned);
                        assert(pre_prune.contains_key(descendant_hashes@[j]));
                        assert(pre_prune.remove(pruned).contains_key(descendant_hashes@[j]));
                    }
                    assert forall|j: int| 0 <= j < t + 1 implies !store.headers().contains_key(
                        #[trigger] descendant_hashes@[j],
                    ) by {
                        if j < t {
                            assert(!pre_prune.contains_key(descendant_hashes@[j]));
                        }
                    }
                }
                t = t + 1;
            }
            proof {
                assert forall|h: u64| #[trigger] store.headers().contains_key(h) implies
                    orig_headers.contains_key(h) && store.headers()[h] == orig_headers[h] by {
                    assert(start_headers.contains_key(h));
                    assert(orig_headers.contains_key(h));
                }
                assert(!store.headers().contains_key(root_hash_g));
                // what left the store this round is in the gathered set
                assert forall|h: u64|
                    #[trigger] orig_headers.contains_key(h) && !store.headers().contains_key(
                        h,
                    ) implies h == root_hash_g || (spec_reaches(
                    reach_map,
                    h,
                    root_hash_g,
                    root_number_g,
                ) && orig_headers[h].header.number <= current_number) by {
                    if start_headers.contains_key(h) {
                        assert(descendant_hashes@.contains(h));
                        let j = choose|j: int|
                            0 <= j < descendant_hashes@.len() && descendant_hashes@[j] == h;
                        assert(spec_reaches(reach_map, descendant_hashes@[j], root_hash_g,
                            root_number_g));
                        assert(reach_map[h].header.number == current_number);
                        assert(orig_headers[h] == reach_map[h]);
                    }
                }
                // the subtree is gone up to this height
                assert forall|h: u64|
                    #[trigger] spec_reaches(reach_map, h, root_hash_g, root_number_g)
                        && reach_map[h].header.number <= current_number implies
                    !store.headers().contains_key(h) by {
                    if reach_map[h].header.number <= prev_number {
                        assert(!start_headers.contains_key(h));
                    } else {
                        assert(reach_map[h].header.number == current_number);
                        let j = choose|j: int|
                            0 <= j < descendant_hashes@.len() && #[trigger] descendant_hashes@[j]
                                == h;
                        assert(!store.headers().contains_key(descendant_hashes@[j]));
                    }
                }
                // the gathered set is exactly the next frontier's promise
                assert forall|h: u64| descendant_hashes@.contains(h) implies spec_reaches(
                    reach_map,
                    h,
                    root_hash_g,
                    root_number_g,
                ) && reach_map[h].header.number == current_number by {
                    let j = choose|j: int|
                        0 <= j < descendant_hashes@.len() && descendant_hashes@[j] == h;
                    assert(spec_reaches(reach_map, descendant_hashes@[j], root_hash_g,
                        root_number_g));
                }
                assert forall|h: u64|
                    spec_reaches(reach_map, h, root_hash_g, root_number_g)
                        && reach_map[h].header.number == current_number implies
                    descendant_hashes@.contains(h) by {
                    let j = choose|j: int|
                        0 <= j < descendant_hashes@.len() && #[trigger] descendant_hashes@[j] == h;
                    assert(descendant_hashes@[j] == h);
                }
            }
            pruned_parent_hashes = descendant_hashes;
        }
        proof {
            assert(old(store).headers().remove(header@.header.hash) == reach_map);
            assert forall|h2: u64|
                #[trigger] spec_in_pruned_subtree(old(store).headers(), header@.header, h2)
                    == spec_reaches(reach_map, h2, root_hash_g, root_number_g) by {}
            assert(current_number > root_number_g);
            assert forall|h: u64|
                #[trigger] spec_reaches(reach_map, h, root_hash_g, root_number_g) implies
                !store.headers().contains_key(h) by {
                if reach_map[h].header.number > current_number {
                    lemma_reaches_passes_height(
                        reach_map,
                        h,
                        root_hash_g,
                        root_number_g,
                        current_number,
                    );
                    let h2 = choose|h2: u64|
                        #[trigger] spec_reaches(reach_map, h2, root_hash_g, root_number_g)
                            && reach_map[h2].header.number == current_number;
                    assert(pruned_parent_hashes@.contains(h2));
                    assert(false);
                }
            }
            assert(root_number_g != u64::MAX);
            assert forall|h: u64|
                #[trigger] spec_reaches(reach_map, h, root_hash_g, root_number_g) implies
                orig_headers[h].header.number != u64::MAX by {
                assert(orig_headers[h] == reach_map[h]);
                if reach_map[h].header.number == u64::MAX {
                    if current_number == u64::MAX {
                        assert(pruned_parent_hashes@.contains(h));
                    } else {
                        lemma_reaches_passes_height(
                            reach_map,
                            h,
                            root_hash_g,
                            root_number_g,
                            current_number,
                        );
                        let h2 = choose|h2: u64|
                            #[trigger] spec_reaches(reach_map, h2, root_hash_g, root_number_g)
                                && reach_map[h2].header.number == current_number;
                        assert(pruned_parent_hashes@.contains(h2));
                    }
                    assert(false);
                }
            }
            assert(!(exists|h: u64|
                #[trigger] spec_in_pruned_subtree(old(store).headers(), header@.header, h) && old(
                    store,
                ).headers()[h].header.number == u64::MAX)) by {
                if exists|h: u64|
                    #[trigger] spec_in_pruned_subtree(old(store).headers(), header@.header, h)
                        && old(store).headers()[h].header.number == u64::MAX {
                    let h = choose|h: u64|
                        #[trigger] spec_in_pruned_subtree(old(store).headers(), header@.header, h)
                            && old(store).headers()[h].header.number == u64::MAX;
                    assert(spec_reaches(reach_map, h, root_hash_g, root_number_g));
                    assert(orig_headers[h].header.number != u64::MAX);
                    assert(false);
                }
            }
        }
        Ok(())
    }
}

fn contains_u64(v: &Vec<u64>, x: u64) -> (r: bool)
    ensures
        r == v@.contains(x),
{
    let n = v.len();
    let mut i: usize = 0;
    while i < n
        invariant
            i <= n,
            n == v@.len(),
            forall|j: int| 0 <= j < i ==> v@[j] != x,
        decreases n - i,
    {
        if v[i] == x {
            return true;
        }
        i = i + 1;
    }
    false
}

fn bytes32_eq(a: &[u8; 32], b: &[u8; 32]) -> (r: bool)
    ensures
        r == (*a == *b),
{
    let mut i: usize = 0;
    while i < 32
        invariant
            i <= 32,
            forall|j: int| 0 <= j < i ==> a[j] == b[j],
        decreases 32 - i,
    {
        if a[i] != b[i] {
            proof {
                assert(a[i as int] != b[i as int]);
            }
            return false;
        }
        i = i + 1;
    }
    proof {
        assert(*a =~= *b);
    }
    true
}

fn bytes8_eq(a: &[u8; 8], b: &[u8; 8]) -> (r: bool)
    ensures
        r == (*a == *b),
{
    let mut i: usize = 0;
    while i < 8
        invariant
            i <= 8,
            forall|j: int| 0 <= j < i ==> a[j] == b[j],
        decreases 8 - i,
    {
        if a[i] != b[i] {
            proof {
                assert(a[i as int] != b[i as int]);
            }
            return false;
        }
        i = i + 1;
    }
    proof {
        assert(*a =~= *b);
    }
    true
}

} // verus!
