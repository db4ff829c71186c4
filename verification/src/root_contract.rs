//! The root aggregator: an epoch-gated authority that folds intermediate
//! roots into one global tree and exposes a global root on a fixed cadence.

use vstd::prelude::*;

use crate::boc::Boc;
use crate::errors::SystemError;
use crate::keyed::{contains_key, distinct_keys, index_of_key, lemma_index_of_key, lemma_upsert};
use crate::smt::{spec_insert, SparseMerkleTreeI};
use crate::util::{bytes32_eq, extend_from_slice};
use crate::zkproof::ZkProof;
use vstd::bytes::{spec_u64_from_le_bytes, spec_u64_to_le_bytes, u64_from_le_bytes,
    u64_to_le_bytes};

verus! {

/// The capability flags an aggregator is constructed with. Capabilities are
/// configuration fixed at construction, checked at each decision point, never
/// toggled from outside.
pub struct RootCapabilities {
    pub verify_settlement_state: bool,
    pub verify_intermediate_state: bool,
    pub verify_channel_state: bool,
    pub verify_transaction_state: bool,
    pub verify_storage_state: bool,
    pub verify_global_state: bool,
    pub verify_root_state: bool,
    pub submit_settlement: bool,
}

/// The certificate returned beside an emitted global root.
pub struct GlobalRootCertificate {
    /// Sibling hashes supporting the emission; empty for the top-level root.
    pub siblings: Vec<[u8; 32]>,
}

/// A transaction presented to the aggregator for capability-gated screening.
pub struct Transaction {
    /// The channel the transaction belongs to.
    pub channel_id: [u8; 32],
    /// The amount moved.
    pub amount: u64,
    /// The sender's transaction counter.
    pub nonce: u64,
}

/// The bookkeeping state the epoch gate decides on.
pub struct EpochState {
    pub epoch: u64,
    pub epoch_duration: u64,
    pub last_submission: u64,
    pub verify_global_state: bool,
}

/// The epoch gate: before `epoch_duration` has elapsed since the last
/// submission nothing changes and nothing is emitted; afterwards the epoch
/// advances and the timestamp is taken, while a root is emitted only under
/// the global-state capability. Epoch advancement and root emission are
/// deliberately decoupled.
pub open spec fn submit_spec(st: EpochState, now: u64) -> (EpochState, bool)
    recommends
        now >= st.last_submission,
        st.epoch < u64::MAX,
{
    if now - st.last_submission < st.epoch_duration {
        (st, false)
    } else {
        (
            EpochState {
                epoch: (st.epoch + 1) as u64,
                epoch_duration: st.epoch_duration,
                last_submission: now,
                verify_global_state: st.verify_global_state,
            },
            st.verify_global_state,
        )
    }
}

/// The serialized aggregator header: epoch, epoch duration and last
/// submission as little-endian words, then the two persisted flags.
pub open spec fn header_spec(
    epoch: u64,
    epoch_duration: u64,
    last_submission: u64,
    verify_settlement_state: bool,
    submit_settlement: bool,
) -> Seq<u8> {
    spec_u64_to_le_bytes(epoch) + spec_u64_to_le_bytes(epoch_duration) + spec_u64_to_le_bytes(
        last_submission,
    ) + seq![
        if verify_settlement_state {
            1u8
        } else {
            0u8
        },
        if submit_settlement {
            1u8
        } else {
            0u8
        },
    ]
}

/// The root aggregator's state: the global tree, the latest root reported by
/// each intermediate contract, the epoch bookkeeping, and the capability
/// flags fixed at construction.
pub struct RootContract {
    global_tree: SparseMerkleTreeI,
    intermediate_roots: Vec<([u8; 32], [u8; 32])>,
    epoch: u64,
    epoch_duration: u64,
    last_submission: u64,
    verify_settlement_state: bool,
    verify_intermediate_state: bool,
    verify_channel_state: bool,
    verify_transaction_state: bool,
    verify_storage_state: bool,
    verify_global_state: bool,
    verify_root_state: bool,
    submit_settlement: bool,
}

impl RootContract {
    /// The global tree's leaves.
    pub closed spec fn tree_leaves(&self) -> Seq<crate::smt::LeafView> {
        self.global_tree.leaves()
    }

    /// The global tree's root.
    pub closed spec fn global_root(&self) -> Seq<u8> {
        self.global_tree.root_view()
    }

    /// The recorded intermediate roots, oldest first, one entry per address.
    pub closed spec fn intermediate_view(&self) -> Seq<(Seq<u8>, Seq<u8>)> {
        self.intermediate_roots@.map_values(|e: ([u8; 32], [u8; 32])| (e.0@, e.1@))
    }

    /// The bookkeeping fields that epoch-gated submission reads and writes.
    pub closed spec fn epoch_state(&self) -> EpochState {
        EpochState {
            epoch: self.epoch,
            epoch_duration: self.epoch_duration,
            last_submission: self.last_submission,
            verify_global_state: self.verify_global_state,
        }
    }

    pub closed spec fn epoch(&self) -> u64 {
        self.epoch
    }

    pub closed spec fn epoch_duration(&self) -> u64 {
        self.epoch_duration
    }

    pub closed spec fn last_submission(&self) -> u64 {
        self.last_submission
    }

    pub closed spec fn verify_settlement_state(&self) -> bool {
        self.verify_settlement_state
    }

    pub closed spec fn verify_transaction_state(&self) -> bool {
        self.verify_transaction_state
    }

    pub closed spec fn verify_global_state(&self) -> bool {
        self.verify_global_state
    }

    pub closed spec fn submit_settlement(&self) -> bool {
        self.submit_settlement
    }

    /// Well-formed: the global tree is well-formed and each address holds at
    /// most one recorded root.
    pub closed spec fn wf(&self) -> bool {
        &&& self.global_tree.wf()
        &&& distinct_keys(self.intermediate_roots@)
    }

    /// Creates an aggregator with the default capabilities: settlement
    /// verification and settlement submission enabled, everything else
    /// disabled.
    pub fn new(epoch_duration: u64) -> (r: Self)
        ensures
            r.wf(),
            r.epoch() == 0,
            r.epoch_duration() == epoch_duration,
            r.last_submission() == 0,
            r.tree_leaves() == Seq::<crate::smt::LeafView>::empty(),
            r.intermediate_view() == Seq::<(Seq<u8>, Seq<u8>)>::empty(),
            r.verify_settlement_state(),
            !r.verify_transaction_state(),
            !r.verify_global_state(),
            r.submit_settlement(),
    {
        let r = RootContract {
            global_tree: SparseMerkleTreeI::new(),
            intermediate_roots: Vec::new(),
            epoch: 0,
            epoch_duration,
            last_submission: 0,
            verify_settlement_state: true,
            verify_intermediate_state: false,
            verify_channel_state: false,
            verify_transaction_state: false,
            verify_storage_state: false,
            verify_global_state: false,
            verify_root_state: false,
            submit_settlement: true,
        };
        proof {
            assert(r.intermediate_view() =~= Seq::<(Seq<u8>, Seq<u8>)>::empty());
        }
        r
    }

    /// Creates an aggregator with explicit capabilities.
    pub fn with_capabilities(epoch_duration: u64, caps: &RootCapabilities) -> (r: Self)
        ensures
            r.wf(),
            r.epoch() == 0,
            r.epoch_duration() == epoch_duration,
            r.last_submission() == 0,
            r.tree_leaves() == Seq::<crate::smt::LeafView>::empty(),
            r.intermediate_view() == Seq::<(Seq<u8>, Seq<u8>)>::empty(),
            r.verify_settlement_state() == caps.verify_settlement_state,
            r.verify_transaction_state() == caps.verify_transaction_state,
            r.verify_global_state() == caps.verify_global_state,
            r.submit_settlement() == caps.submit_settlement,
    {
        let r = RootContract {
            global_tree: SparseMerkleTreeI::new(),
            intermediate_roots: Vec::new(),
            epoch: 0,
            epoch_duration,
            last_submission: 0,
            verify_settlement_state: caps.verify_settlement_state,
            verify_intermediate_state: caps.verify_intermediate_state,
            verify_channel_state: caps.verify_channel_state,
            verify_transaction_state: caps.verify_transaction_state,
            verify_storage_state: caps.verify_storage_state,
            verify_global_state: caps.verify_global_state,
            verify_root_state: caps.verify_root_state,
            submit_settlement: caps.submit_settlement,
        };
        proof {
            assert(r.intermediate_view() =~= Seq::<(Seq<u8>, Seq<u8>)>::empty());
        }
        r
    }

    /// The current epoch counter.
    pub fn current_epoch(&self) -> (r: u64)
        ensures
            r == self.epoch(),
    {
        self.epoch
    }

    /// The current global tree root.
    pub fn global_tree_root(&self) -> (r: [u8; 32])
        ensures
            r@ == self.global_root(),
    {
        self.global_tree.root()
    }

    /// The recorded intermediate entries, for reasoning about updates.
    pub closed spec fn intermediate_entries(&self) -> Seq<([u8; 32], [u8; 32])> {
        self.intermediate_roots@
    }

    /// Records an intermediate root unconditionally, replacing any earlier
    /// root for the address, and folds it into the global tree. Repeating an
    /// identical `(address, root)` pair changes nothing a second time. The
    /// proof artifact is carried for the interface and not inspected here.
    pub fn process_intermediate_root(
        &mut self,
        contract_addr: [u8; 32],
        root: [u8; 32],
        _proof: &ZkProof,
    ) -> (r: Result<(), SystemError>)
        requires
            old(self).wf(),
        ensures
            final(self).wf(),
            r is Ok,
            final(self).intermediate_entries() == record_root_spec(
                old(self).intermediate_entries(),
                contract_addr,
                root,
            ),
            final(self).tree_leaves() == spec_insert(old(self).tree_leaves(), contract_addr@, root@),
            final(self).global_root() == crate::smt::root_spec(final(self).tree_leaves()),
            final(self).epoch_state() == old(self).epoch_state(),
    {
        let ghost entries0 = self.intermediate_roots@;
        let mut idx: Option<usize> = None;
        let mut i: usize = 0;
        while i < self.intermediate_roots.len()
            invariant
                i <= self.intermediate_roots@.len(),
                self.intermediate_roots@ == entries0,
                *self == *old(self),
                idx is None ==> forall|j: int|
                    0 <= j < i ==> (#[trigger] entries0[j]).0@ != contract_addr@,
                idx matches Some(k) ==> k < i && entries0[k as int].0@ == contract_addr@,
            decreases self.intermediate_roots@.len() - i,
        {
            if bytes32_eq(&self.intermediate_roots[i].0, &contract_addr) {
                idx = Some(i);
            }
            i = i + 1;
        }
        match idx {
            Some(k) => {
                proof {
                    lemma_index_of_key(entries0, k as int);
                }
                self.intermediate_roots.remove(k);
            },
            None => {
                proof {
                    if contains_key(entries0, contract_addr@) {
                        let j = choose|j: int|
                            0 <= j < entries0.len() && (#[trigger] entries0[j]).0@
                                == contract_addr@;
                        assert(false);
                    }
                }
            },
        }
        self.intermediate_roots.push((contract_addr, root));
        proof {
            lemma_upsert(entries0, self.intermediate_roots@, contract_addr, root);
        }
        match self.global_tree.update(contract_addr.as_slice(), root.as_slice()) {
            Ok(_) => Ok(()),
            Err(e) => Err(e),
        }
    }

    /// Applies the epoch gate at time `now`: within the window nothing
    /// happens; past it the epoch advances and the submission time is taken,
    /// and the current global root with its certificate is returned exactly
    /// when the global-state capability is enabled.
    pub fn try_submit_global_root(&mut self, now: u64) -> (r: Option<
        ([u8; 32], GlobalRootCertificate),
    >)
        requires
            old(self).wf(),
            now >= old(self).last_submission(),
            old(self).epoch() < u64::MAX,
        ensures
            final(self).wf(),
            (final(self).epoch_state(), r is Some) == submit_spec(old(self).epoch_state(), now),
            final(self).tree_leaves() == old(self).tree_leaves(),
            final(self).global_root() == old(self).global_root(),
            final(self).intermediate_view() == old(self).intermediate_view(),
            r matches Some(pair) ==> pair.0@ == old(self).global_root() && pair.1.siblings@.len()
                == 0,
            now - old(self).last_submission() >= old(self).epoch_duration() ==> final(self).epoch()
                == old(self).epoch() + 1 && final(self).last_submission() == now && final(self).verify_settlement_state() && final(self).submit_settlement(),
            now - old(self).last_submission() < old(self).epoch_duration() ==> *final(self) == *old(self),
    {
        if now - self.last_submission < self.epoch_duration {
            return None;
        }
        let root = self.global_tree.root();
        self.epoch = self.epoch + 1;
        self.last_submission = now;
        self.verify_settlement_state = true;
        self.submit_settlement = true;
        if !self.verify_global_state {
            return None;
        }
        Some((root, GlobalRootCertificate { siblings: Vec::new() }))
    }

    /// The capability gate for transactions: without the transaction
    /// capability every transaction is reported unverified; with it the
    /// transaction is approved without further structural checks. This is an
    /// explicit capability gate, not a cryptographic verification.
    pub fn verify_transaction(&self, _tx: &Transaction, _proof: &ZkProof) -> (r: Result<
        bool,
        SystemError,
    >)
        ensures
            r == Ok::<bool, SystemError>(self.verify_transaction_state()),
    {
        if !self.verify_transaction_state {
            return Ok(false);
        }
        Ok(true)
    }

    /// Serialises the bookkeeping header: epoch, epoch duration, last
    /// submission, and the two persisted flags, 26 bytes in all.
    pub fn to_state_data(&self) -> (r: Vec<u8>)
        ensures
            r@ == header_spec(
                self.epoch(),
                self.epoch_duration(),
                self.last_submission(),
                self.verify_settlement_state(),
                self.submit_settlement(),
            ),
            r@.len() == 26,
    {
        let mut out: Vec<u8> = Vec::new();
        let e = u64_to_le_bytes(self.epoch);
        extend_from_slice(&mut out, e.as_slice());
        let d = u64_to_le_bytes(self.epoch_duration);
        extend_from_slice(&mut out, d.as_slice());
        let l = u64_to_le_bytes(self.last_submission);
        extend_from_slice(&mut out, l.as_slice());
        out.push(if self.verify_settlement_state { 1u8 } else { 0u8 });
        out.push(if self.submit_settlement { 1u8 } else { 0u8 });
        proof {
            assert(out@ =~= header_spec(
                self.epoch(),
                self.epoch_duration(),
                self.last_submission(),
                self.verify_settlement_state(),
                self.submit_settlement(),
            ));
        }
        out
    }

    /// Rebuilds an aggregator from a container whose first root cell holds a
    /// serialized header. Rejected when the container has no root cell or the
    /// header is shorter than 26 bytes. The tree state and the unpersisted
    /// flags start afresh.
    pub fn deserialize(boc: &Boc) -> (r: Result<Self, SystemError>)
        requires
            boc.wf(),
        ensures
            r is Ok <==> boc.roots_view().len() > 0 && boc.cells_view()[boc.roots_view()[0] as int].len()
                >= 26,
            r is Err ==> r == Err::<Self, SystemError>(SystemError::NotFound),
            r matches Ok(c) ==> {
                let data = boc.cells_view()[boc.roots_view()[0] as int];
                &&& c.wf()
                &&& c.epoch() == spec_u64_from_le_bytes(data.subrange(0, 8))
                &&& c.epoch_duration() == spec_u64_from_le_bytes(data.subrange(8, 16))
                &&& c.last_submission() == spec_u64_from_le_bytes(data.subrange(16, 24))
                &&& c.verify_settlement_state() == (data[24] != 0)
                &&& c.submit_settlement() == (data[25] != 0)
                &&& !c.verify_transaction_state()
                &&& !c.verify_global_state()
                &&& c.tree_leaves() == Seq::<crate::smt::LeafView>::empty()
                &&& c.intermediate_view() == Seq::<(Seq<u8>, Seq<u8>)>::empty()
            },
    {
        let state_data = match boc.root_cell_data(0) {
            Ok(d) => d,
            Err(_) => {
                return Err(SystemError::NotFound);
            },
        };
        if state_data.len() < 26 {
            return Err(SystemError::NotFound);
        }
        let s = state_data.as_slice();
        let epoch = u64_from_le_bytes(&s[0..8]);
        let epoch_duration = u64_from_le_bytes(&s[8..16]);
        let last_submission = u64_from_le_bytes(&s[16..24]);
        let verify_settlement_state = s[24] != 0;
        let submit_settlement = s[25] != 0;
        let r = RootContract {
            global_tree: SparseMerkleTreeI::new(),
            intermediate_roots: Vec::new(),
            epoch,
            epoch_duration,
            last_submission,
            verify_settlement_state,
            verify_intermediate_state: false,
            verify_channel_state: false,
            verify_transaction_state: false,
            verify_storage_state: false,
            verify_global_state: false,
            verify_root_state: false,
            submit_settlement,
        };
        proof {
            assert(r.intermediate_view() =~= Seq::<(Seq<u8>, Seq<u8>)>::empty());
        }
        Ok(r)
    }
}

/// Recording a root: any earlier entry for the address is dropped and the
/// pair appended.
pub open spec fn record_root_spec(
    entries: Seq<([u8; 32], [u8; 32])>,
    contract_addr: [u8; 32],
    root: [u8; 32],
) -> Seq<([u8; 32], [u8; 32])> {
    if contains_key(entries, contract_addr@) {
        entries.remove(index_of_key(entries, contract_addr@)).push((contract_addr, root))
    } else {
        entries.push((contract_addr, root))
    }
}

/// Law: recording an identical `(address, root)` pair twice leaves both the
/// recorded entries and the global tree's leaves exactly as one recording
/// leaves them.
pub proof fn lemma_process_idempotent(
    entries: Seq<([u8; 32], [u8; 32])>,
    leaves: Seq<crate::smt::LeafView>,
    contract_addr: [u8; 32],
    root: [u8; 32],
)
    requires
        distinct_keys(entries),
    ensures
        record_root_spec(record_root_spec(entries, contract_addr, root), contract_addr, root)
            == record_root_spec(entries, contract_addr, root),
        spec_insert(spec_insert(leaves, contract_addr@, root@), contract_addr@, root@)
            == spec_insert(leaves, contract_addr@, root@),
{
    let e1 = record_root_spec(entries, contract_addr, root);
    lemma_upsert(entries, e1, contract_addr, root);
    assert(e1[e1.len() - 1] == (contract_addr, root));
    lemma_index_of_key(e1, e1.len() - 1);
    let e2 = record_root_spec(e1, contract_addr, root);
    assert(e1.remove(e1.len() - 1) =~= (if contains_key(entries, contract_addr@) {
        entries.remove(index_of_key(entries, contract_addr@))
    } else {
        entries
    }));
    assert(e2 =~= e1);
    crate::smt::lemma_update_idempotent(leaves, contract_addr@, root@);
}

/// Law: the serialized header parses back to exactly the fields it was built
/// from.
pub proof fn lemma_header_round_trip(
    epoch: u64,
    epoch_duration: u64,
    last_submission: u64,
    verify_settlement_state: bool,
    submit_settlement: bool,
)
    ensures
        ({
            let d = header_spec(
                epoch,
                epoch_duration,
                last_submission,
                verify_settlement_state,
                submit_settlement,
            );
            &&& d.len() == 26
            &&& spec_u64_from_le_bytes(d.subrange(0, 8)) == epoch
            &&& spec_u64_from_le_bytes(d.subrange(8, 16)) == epoch_duration
            &&& spec_u64_from_le_bytes(d.subrange(16, 24)) == last_submission
            &&& (d[24] != 0) == verify_settlement_state
            &&& (d[25] != 0) == submit_settlement
        }),
{
    vstd::bytes::lemma_auto_spec_u64_to_from_le_bytes();
    let d = header_spec(
        epoch,
        epoch_duration,
        last_submission,
        verify_settlement_state,
        submit_settlement,
    );
    assert(d.subrange(0, 8) =~= spec_u64_to_le_bytes(epoch));
    assert(d.subrange(8, 16) =~= spec_u64_to_le_bytes(epoch_duration));
    assert(d.subrange(16, 24) =~= spec_u64_to_le_bytes(last_submission));
}

/// Law: within one epoch window a global root is emitted at most once. When
/// the first call finds the window elapsed, a second call strictly inside the next
/// window emits nothing and moves nothing, and the epoch has advanced by
/// exactly one across the pair.
pub proof fn lemma_epoch_gating(st: EpochState, t1: u64, t2: u64)
    requires
        t1 >= st.last_submission,
        st.epoch < u64::MAX,
        t1 - st.last_submission >= st.epoch_duration,
        t2 >= t1,
        t2 - t1 < st.epoch_duration,
    ensures
        ({
            let (st1, emitted1) = submit_spec(st, t1);
            let (st2, emitted2) = submit_spec(st1, t2);
            &&& emitted1 == st.verify_global_state
            &&& !emitted2
            &&& st2 == st1
            &&& st1.epoch == st.epoch + 1
        }),
{
}

} // verus!
