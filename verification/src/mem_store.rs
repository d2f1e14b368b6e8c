//! An in-memory header store: the [`Storage`] implementation that tests and
//! light hosts use. It keeps every extended header under its hash, the hash
//! of the best tip, and the hash of the latest finalized header.

use vstd::prelude::*;

use crate::id_map::IdMap;
use crate::lightclient::{ChainConstants, HeaderExt, HeaderExtView, Storage};

verus! {

pub struct MemStorage {
    headers: IdMap<HeaderExt>,
    best_hash: u64,
    finalized_hash: u64,
    constants: ChainConstants,
}

impl MemStorage {
    #[verifier::type_invariant]
    spec fn inv(&self) -> bool {
        forall|h: u64|
            #[trigger] self.headers@.contains_key(h) ==> self.headers@[h]@.header.hash == h
    }

    /// A store growing from its genesis header, which starts out as both the
    /// best and the finalized header.
    pub fn new(constants: ChainConstants, genesis: HeaderExt) -> (r: Self)
        ensures
            r.headers() == Map::<u64, HeaderExtView>::empty().insert(
                genesis.header.hash,
                genesis@,
            ),
            r.best_hash() == genesis.header.hash,
            r.finalized_hash() == genesis.header.hash,
            r.constants() == constants,
    {
        let best_hash = genesis.header.hash;
        let mut headers: IdMap<HeaderExt> = IdMap::new();
        headers.insert(best_hash, genesis);
        let r = MemStorage { headers, best_hash, finalized_hash: best_hash, constants };
        proof {
            assert(r.headers() =~= Map::<u64, HeaderExtView>::empty().insert(
                best_hash,
                r.headers@[best_hash]@,
            ));
        }
        r
    }
}

impl Storage for MemStorage {
    closed spec fn headers(&self) -> Map<u64, HeaderExtView> {
        Map::new(
            |h: u64| self.headers@.contains_key(h) && self.headers@[h]@.header.hash == h,
            |h: u64| self.headers@[h]@,
        )
    }

    closed spec fn best_hash(&self) -> u64 {
        self.best_hash
    }

    closed spec fn finalized_hash(&self) -> u64 {
        self.finalized_hash
    }

    closed spec fn constants(&self) -> ChainConstants {
        self.constants
    }

    proof fn headers_finite(&self) {
        self.headers.lemma_dom_finite();
        assert(self.headers().dom().subset_of(self.headers@.dom()));
        vstd::set_lib::lemma_len_subset(self.headers().dom(), self.headers@.dom());
    }

    proof fn hashes_consistent(&self) {
    }

    fn chain_constants(&self) -> (r: ChainConstants) {
        self.constants
    }

    fn header(&self, hash: u64) -> (r: Option<HeaderExt>) {
        proof {
            use_type_invariant(self);
        }
        match self.headers.get(hash) {
            Option::Some(h) => Option::Some(h.duplicate()),
            Option::None => Option::None,
        }
    }

    fn store_header(&mut self, header_ext: HeaderExt, as_best_header: bool) {
        proof {
            use_type_invariant(&*self);
        }
        let hash = header_ext.header.hash;
        let mut headers: IdMap<HeaderExt> = IdMap::new();
        core::mem::swap(&mut headers, &mut self.headers);
        headers.insert(hash, header_ext);
        core::mem::swap(&mut headers, &mut self.headers);
        if as_best_header {
            self.best_hash = hash;
        }
        proof {
            assert(self.headers() =~= old(self).headers().insert(
                hash,
                self.headers@[hash]@,
            ));
        }
    }

    fn best_header(&self) -> (r: HeaderExt) {
        proof {
            use_type_invariant(self);
        }
        self.headers.get(self.best_hash).unwrap().duplicate()
    }

    fn headers_at_number(&self, number: u64) -> (r: Vec<HeaderExt>) {
        proof {
            use_type_invariant(self);
        }
        self.headers.key_seq_facts();
        let n = self.headers.len();
        let mut out: Vec<HeaderExt> = Vec::new();
        let ghost mut sources: Seq<int> = Seq::empty();
        let mut i: usize = 0;
        while i < n
            invariant
                i <= n,
                n == self.headers@.dom().len(),
                self.headers@.dom().finite(),
                n == self.headers.key_seq().len(),
                forall|h: u64|
                    #[trigger] self.headers@.contains_key(h) ==> self.headers@[h]@.header.hash
                        == h,
                forall|ii: int|
                    0 <= ii < n ==> self.headers@.contains_key(
                        #[trigger] self.headers.key_seq()[ii],
                    ),
                forall|i1: int, i2: int|
                    0 <= i1 < i2 < n ==> self.headers.key_seq()[i1] != self.headers.key_seq()[i2],
                sources.len() == out@.len(),
                forall|j: int| 0 <= j < sources.len() ==> 0 <= #[trigger] sources[j] < i,
                forall|j1: int, j2: int|
                    0 <= j1 < j2 < sources.len() ==> #[trigger] sources[j1] < #[trigger] sources[j2],
                forall|j: int|
                    0 <= j < sources.len() ==> (#[trigger] out@[j])@ == self.headers@[self.headers.key_seq()[sources[j]]]@
                        && out@[j]@.header.hash == self.headers.key_seq()[sources[j]]
                        && out@[j]@.header.number == number,
                forall|ii: int|
                    0 <= ii < i && (#[trigger] self.headers@[self.headers.key_seq()[ii]])@.header.number
                        == number ==> exists|j: int|
                        0 <= j < out@.len() && (#[trigger] out@[j])@.header.hash
                            == self.headers.key_seq()[ii],
            decreases n - i,
        {
            let ghost out0 = out@;
            let key = self.headers.key_at(i);
            let value = self.headers.value_at(i);
            if value.header.number == number {
                out.push(value.duplicate());
                proof {
                    sources = sources.push(i as int);
                    let j = out@.len() - 1;
                    assert(out@[j]@.header.hash == self.headers.key_seq()[i as int]);
                }
            }
            proof {
                assert forall|ii: int|
                    0 <= ii < i + 1 && (#[trigger] self.headers@[self.headers.key_seq()[ii]])@.header.number
                        == number implies exists|j: int|
                    0 <= j < out@.len() && (#[trigger] out@[j])@.header.hash
                        == self.headers.key_seq()[ii] by {
                    if ii < i {
                        let j = choose|j: int|
                            0 <= j < out0.len() && (#[trigger] out0[j])@.header.hash
                                == self.headers.key_seq()[ii];
                        assert(out@[j]@.header.hash == self.headers.key_seq()[ii]);
                    } else {
                        assert(value@ == self.headers@[self.headers.key_seq()[ii]]@);
                        let j = out@.len() - 1;
                        assert(out@[j]@.header.hash == self.headers.key_seq()[ii]);
                    }
                }
            }
            i = i + 1;
        }
        proof {
            assert forall|h: u64|
                self.headers().contains_key(h) && (#[trigger] self.headers()[h]).header.number
                    == number implies exists|k: int|
                0 <= k < out@.len() && (#[trigger] out@[k])@.header.hash == h by {
                assert(self.headers@.contains_key(h));
                assert(self.headers.key_seq().contains(h));
                let ii = choose|ii: int|
                    0 <= ii < self.headers.key_seq().len() && self.headers.key_seq()[ii] == h;
                assert(self.headers@[self.headers.key_seq()[ii]]@.header.number == number);
                let j = choose|j: int|
                    0 <= j < out@.len() && (#[trigger] out@[j])@.header.hash
                        == self.headers.key_seq()[ii];
                assert(out@[j]@.header.hash == h);
            }
            assert forall|k: int|
                0 <= k < out@.len() implies (#[trigger] out@[k])@.header.number == number
                && self.headers().contains_key(out@[k]@.header.hash) && self.headers()[out@[k]@.header.hash]
                == out@[k]@ by {
                let key = self.headers.key_seq()[sources[k]];
                assert(self.headers@.contains_key(key));
                assert(out@[k]@.header.hash == key);
            }
            assert forall|k1: int, k2: int|
                0 <= k1 < k2 < out@.len() implies (#[trigger] out@[k1])@.header.hash != (
            #[trigger] out@[k2])@.header.hash by {
                assert(sources[k1] < sources[k2]);
                assert(self.headers.key_seq()[sources[k1]] != self.headers.key_seq()[sources[k2]]);
            }
        }
        out
    }

    fn prune_header(&mut self, hash: u64) {
        proof {
            use_type_invariant(&*self);
        }
        let mut headers: IdMap<HeaderExt> = IdMap::new();
        core::mem::swap(&mut headers, &mut self.headers);
        let _ = headers.remove(hash);
        core::mem::swap(&mut headers, &mut self.headers);
        proof {
            assert(self.headers() =~= old(self).headers().remove(hash));
        }
    }

    fn finalize_header(&mut self, hash: u64) {
        proof {
            use_type_invariant(&*self);
        }
        self.finalized_hash = hash;
    }

    fn finalized_header(&self) -> (r: HeaderExt) {
        proof {
            use_type_invariant(self);
        }
        self.headers.get(self.finalized_hash).unwrap().duplicate()
    }
}

} // verus!
