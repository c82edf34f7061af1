//! The registry: a durable-store model mapping identities to registrations,
//! kept in strict key order, with the ownership-transfer protocol and the
//! read-side search and verification operations.

use vstd::prelude::*;
use crate::identity::{Identity, lex_lt, lemma_lex_lt_ne, lemma_lex_lt_total, lemma_lex_lt_trans};
use crate::registration::{
    metadata_view, history_view, Registration, RegistrationStatus, RegistrationView,
    RegistryError, TransferRecord, TransferRecordView,
};
use crate::text::{lowered, lower_bytes, matches_query, reg_matches};

verus! {

/// The mathematical value of a sequence of stored registrations.
pub open spec fn regs_view(s: Seq<Registration>) -> Seq<RegistrationView> {
    s.map_values(|x: Registration| x@)
}

/// Entries stand in strictly increasing key order; the key of an entry is its
/// owner. Strict order makes every key unique.
pub open spec fn seq_wf(s: Seq<RegistrationView>) -> bool {
    forall|i: int, j: int|
        0 <= i < j < s.len() ==> lex_lt((#[trigger] s[i]).owner, (#[trigger] s[j]).owner)
}

/// Some entry holds key `o`.
pub open spec fn seq_has(s: Seq<RegistrationView>, o: Seq<u8>) -> bool {
    exists|i: int| 0 <= i < s.len() && (#[trigger] s[i]).owner == o
}

/// An index of an entry holding key `o`.
pub open spec fn seq_index_of(s: Seq<RegistrationView>, o: Seq<u8>) -> int {
    choose|i: int| 0 <= i < s.len() && (#[trigger] s[i]).owner == o
}

/// The entry stored under key `o`, if any.
pub open spec fn seq_get(s: Seq<RegistrationView>, o: Seq<u8>) -> Option<RegistrationView> {
    if seq_has(s, o) {
        Some(s[seq_index_of(s, o)])
    } else {
        None
    }
}

/// In a well-ordered sequence, looking up the key of entry `i` finds exactly
/// entry `i`.
pub proof fn lemma_seq_get_at(s: Seq<RegistrationView>, i: int)
    requires
        seq_wf(s),
        0 <= i < s.len(),
    ensures
        seq_get(s, s[i].owner) == Some(s[i]),
{
    let o = s[i].owner;
    assert(seq_has(s, o));
    let j = seq_index_of(s, o);
    if i < j {
        lemma_lex_lt_ne(s[i].owner, s[j].owner);
    } else if j < i {
        lemma_lex_lt_ne(s[j].owner, s[i].owner);
    }
}

/// Overwriting entry `i` with an entry of the same key preserves the order
/// and changes only that key's binding.
pub proof fn lemma_seq_get_update(s: Seq<RegistrationView>, i: int, rv: RegistrationView)
    requires
        seq_wf(s),
        0 <= i < s.len(),
        rv.owner == s[i].owner,
    ensures
        seq_wf(s.update(i, rv)),
        seq_get(s.update(i, rv), rv.owner) == Some(rv),
        forall|o: Seq<u8>|
            o != rv.owner ==> seq_get(s.update(i, rv), o) == seq_get(s, o),
{
    let t = s.update(i, rv);
    assert(forall|k: int| 0 <= k < t.len() ==> (#[trigger] t[k]).owner == s[k].owner);
    assert(seq_wf(t));
    lemma_seq_get_at(t, i);
    assert forall|o: Seq<u8>| o != rv.owner implies seq_get(t, o) == seq_get(s, o) by {
        if seq_has(s, o) {
            let k = seq_index_of(s, o);
            assert(0 <= k < s.len() && s[k].owner == o);
            lemma_seq_get_at(s, k);
            assert(t[k].owner == o);
            lemma_seq_get_at(t, k);
            assert(k != i);
        } else {
            if seq_has(t, o) {
                let k = seq_index_of(t, o);
                assert(0 <= k < t.len() && t[k].owner == o);
                assert(s[k].owner == o);
            }
        }
    }
}

/// Inserting an entry between the keys below it and the keys above it keeps
/// the order and adds exactly one binding.
pub proof fn lemma_seq_get_insert(s: Seq<RegistrationView>, pos: int, rv: RegistrationView)
    requires
        seq_wf(s),
        0 <= pos <= s.len(),
        forall|j: int| 0 <= j < pos ==> lex_lt((#[trigger] s[j]).owner, rv.owner),
        forall|j: int| pos <= j < s.len() ==> lex_lt(rv.owner, (#[trigger] s[j]).owner),
    ensures
        seq_wf(s.insert(pos, rv)),
        seq_get(s.insert(pos, rv), rv.owner) == Some(rv),
        forall|o: Seq<u8>|
            o != rv.owner ==> seq_get(s.insert(pos, rv), o) == seq_get(s, o),
{
    let t = s.insert(pos, rv);
    assert(t.len() == s.len() + 1);
    assert(forall|k: int| 0 <= k < pos ==> #[trigger] t[k] == s[k]);
    assert(t[pos] == rv);
    assert(forall|k: int| pos < k < t.len() ==> #[trigger] t[k] == s[k - 1]);
    assert forall|a: int, b: int| 0 <= a < b < t.len() implies lex_lt(
        (#[trigger] t[a]).owner,
        (#[trigger] t[b]).owner,
    ) by {
        if b < pos {
        } else if a < pos && b == pos {
        } else if a < pos && b > pos {
            if pos < s.len() {
            }
        } else if a == pos && b > pos {
        }
    }
    lemma_seq_get_at(t, pos);
    assert forall|o: Seq<u8>| o != rv.owner implies seq_get(t, o) == seq_get(s, o) by {
        if seq_has(s, o) {
            let k = seq_index_of(s, o);
            assert(0 <= k < s.len() && s[k].owner == o);
            lemma_seq_get_at(s, k);
            if k < pos {
                assert(t[k].owner == o);
                lemma_seq_get_at(t, k);
            } else {
                assert(t[k + 1].owner == o);
                lemma_seq_get_at(t, k + 1);
            }
        } else {
            if seq_has(t, o) {
                let k = seq_index_of(t, o);
                assert(0 <= k < t.len() && t[k].owner == o);
                if k < pos {
                    assert(s[k].owner == o);
                } else if k > pos {
                    assert(s[k - 1].owner == o);
                }
            }
        }
    }
}

/// Removing entry `i` keeps the order and vacates exactly that key.
pub proof fn lemma_seq_get_remove(s: Seq<RegistrationView>, i: int)
    requires
        seq_wf(s),
        0 <= i < s.len(),
    ensures
        seq_wf(s.remove(i)),
        seq_get(s.remove(i), s[i].owner) is None,
        forall|o: Seq<u8>|
            o != s[i].owner ==> seq_get(s.remove(i), o) == seq_get(s, o),
{
    let t = s.remove(i);
    assert(t.len() == s.len() - 1);
    assert(forall|k: int| 0 <= k < i ==> #[trigger] t[k] == s[k]);
    assert(forall|k: int| i <= k < t.len() ==> #[trigger] t[k] == s[k + 1]);
    assert forall|a: int, b: int| 0 <= a < b < t.len() implies lex_lt(
        (#[trigger] t[a]).owner,
        (#[trigger] t[b]).owner,
    ) by {
        if a < i && b >= i {
            assert(lex_lt(s[a].owner, s[b + 1].owner));
        }
    }
    if seq_has(t, s[i].owner) {
        let k = seq_index_of(t, s[i].owner);
        assert(0 <= k < t.len() && t[k].owner == s[i].owner);
        if k < i {
            lemma_lex_lt_ne(s[k].owner, s[i].owner);
        } else {
            lemma_lex_lt_ne(s[i].owner, s[k + 1].owner);
        }
    }
    assert forall|o: Seq<u8>| o != s[i].owner implies seq_get(t, o) == seq_get(s, o) by {
        if seq_has(s, o) {
            let k = seq_index_of(s, o);
            assert(0 <= k < s.len() && s[k].owner == o);
            lemma_seq_get_at(s, k);
            if k < i {
                assert(t[k].owner == o);
                lemma_seq_get_at(t, k);
            } else {
                assert(t[k - 1].owner == o);
                lemma_seq_get_at(t, k - 1);
            }
        } else {
            if seq_has(t, o) {
                let k = seq_index_of(t, o);
                assert(0 <= k < t.len() && t[k].owner == o);
                if k < i {
                    assert(s[k].owner == o);
                } else {
                    assert(s[k + 1].owner == o);
                }
            }
        }
    }
}

/// The registrations a search query selects, in store order.
pub open spec fn matching(s: Seq<RegistrationView>, query_lower: Seq<u8>) -> Seq<RegistrationView>
    decreases s.len(),
{
    if s.len() == 0 {
        Seq::empty()
    } else if reg_matches(s.last(), query_lower) {
        matching(s.drop_last(), query_lower).push(s.last())
    } else {
        matching(s.drop_last(), query_lower)
    }
}

/// The first entry, in store order, whose content hash equals `h`.
pub open spec fn first_hash_match(s: Seq<RegistrationView>, h: Seq<char>) -> Option<
    RegistrationView,
>
    decreases s.len(),
{
    if s.len() == 0 {
        None
    } else if s.first().file_hash == h {
        Some(s.first())
    } else {
        first_hash_match(s.drop_first(), h)
    }
}

/// Entries without the hash do not change which entry is found first.
proof fn lemma_first_hash_skip(s: Seq<RegistrationView>, h: Seq<char>, k: int)
    requires
        0 <= k <= s.len(),
        forall|j: int| 0 <= j < k ==> (#[trigger] s[j]).file_hash != h,
    ensures
        first_hash_match(s, h) == first_hash_match(s.skip(k), h),
    decreases k,
{
    if k > 0 {
        assert(s[0].file_hash != h);
        assert forall|j: int| 0 <= j < k - 1 implies (#[trigger] s.drop_first()[j]).file_hash
            != h by {
            assert(s.drop_first()[j] == s[j + 1]);
        }
        lemma_first_hash_skip(s.drop_first(), h, k - 1);
        assert(s.drop_first().skip(k - 1) =~= s.skip(k));
    } else {
        assert(s.skip(0) =~= s);
    }
}

/// The registry: a keyed store of registrations in strict key order.
pub struct Registry {
    entries: Vec<Registration>,
}

impl View for Registry {
    type V = Seq<RegistrationView>;

    closed spec fn view(&self) -> Seq<RegistrationView> {
        regs_view(self.entries@)
    }
}

impl Registry {
    /// The store's invariant: entries in strictly increasing key order.
    pub open spec fn wf(&self) -> bool {
        seq_wf(self@)
    }

    /// The registration stored under key `o`, if any.
    pub open spec fn spec_get(&self, o: Seq<u8>) -> Option<RegistrationView> {
        seq_get(self@, o)
    }

    /// An empty registry.
    pub fn new() -> (r: Registry)
        ensures
            r.wf(),
            r@.len() == 0,
            forall|o: Seq<u8>| r.spec_get(o) is None,
    {
        let r = Registry { entries: Vec::new() };
        proof {
            assert(r@ =~= Seq::<RegistrationView>::empty());
        }
        r
    }

    /// Single-slot invariant: a well-formed registry holds at most one
    /// registration under any identity; two distinct slots have distinct
    /// keys.
    pub proof fn lemma_single_slot(&self, i: int, j: int)
        requires
            self.wf(),
            0 <= i < self@.len(),
            0 <= j < self@.len(),
            i != j,
        ensures
            self@[i].owner != self@[j].owner,
    {
        if i < j {
            lemma_lex_lt_ne(self@[i].owner, self@[j].owner);
        } else {
            lemma_lex_lt_ne(self@[j].owner, self@[i].owner);
        }
    }

    /// Index of the entry keyed by `o`, if one exists.
    fn find_index(&self, o: &Identity) -> (r: Option<usize>)
        ensures
            match r {
                Some(i) => i < self@.len() && self@[i as int].owner == o@,
                None => !seq_has(self@, o@),
            },
    {
        let mut i: usize = 0;
        while i < self.entries.len()
            invariant
                0 <= i <= self.entries@.len(),
                self@.len() == self.entries@.len(),
                forall|j: int| 0 <= j < i ==> (#[trigger] self@[j]).owner != o@,
            decreases self.entries@.len() - i,
        {
            if self.entries[i].owner.equals(o) {
                return Some(i);
            }
            i += 1;
        }
        None
    }

    /// Point lookup: the registration under `owner`'s key, or absent. Any
    /// caller may query any identity; there is no authorization check.
    pub fn get_ip_registration(&self, owner: &Identity) -> (r: Option<Registration>)
        requires
            self.wf(),
        ensures
            match r {
                Some(reg) => self.spec_get(owner@) == Some(reg@),
                None => self.spec_get(owner@) is None,
            },
    {
        match self.find_index(owner) {
            Some(i) => {
                proof {
                    lemma_seq_get_at(self@, i as int);
                }
                Some(self.entries[i].clone())
            },
            None => None,
        }
    }

    /// Pure predicate: a registration exists under `owner`'s key and its
    /// content hash equals `file_hash`.
    pub fn verify_ownership(&self, owner: &Identity, file_hash: &String) -> (r: bool)
        requires
            self.wf(),
        ensures
            r == match self.spec_get(owner@) {
                Some(rv) => rv.file_hash == file_hash@,
                None => false,
            },
    {
        match self.find_index(owner) {
            Some(i) => {
                proof {
                    lemma_seq_get_at(self@, i as int);
                }
                self.entries[i].file_hash == *file_hash
            },
            None => false,
        }
    }

    /// Inserts or overwrites the entry under `reg`'s owner key; last write
    /// wins, every other key keeps its binding.
    fn put(&mut self, reg: Registration)
        requires
            old(self).wf(),
        ensures
            final(self).wf(),
            final(self).spec_get(reg.owner@) == Some(reg@),
            forall|o: Seq<u8>|
                o != reg.owner@ ==> final(self).spec_get(o) == old(self).spec_get(o),
    {
        let ghost olds = self@;
        let mut pos: usize = 0;
        while pos < self.entries.len() && self.entries[pos].owner.lt(&reg.owner)
            invariant
                old(self) == self,
                olds == self@,
                0 <= pos <= self.entries@.len(),
                self@.len() == self.entries@.len(),
                forall|j: int| 0 <= j < pos ==> lex_lt((#[trigger] self@[j]).owner, reg.owner@),
            decreases self.entries@.len() - pos,
        {
            pos += 1;
        }
        let mut replace: bool = false;
        if pos < self.entries.len() {
            if self.entries[pos].owner.equals(&reg.owner) {
                replace = true;
            }
        }
        if replace {
            proof {
                lemma_seq_get_update(olds, pos as int, reg@);
            }
            self.entries.set(pos, reg);
            proof {
                assert(self@ =~= olds.update(pos as int, reg@));
            }
        } else {
            proof {
                assert forall|j: int| pos <= j < olds.len() implies lex_lt(
                    reg.owner@,
                    (#[trigger] olds[j]).owner,
                ) by {
                    assert(!lex_lt(olds[pos as int].owner, reg.owner@));
                    assert(olds[pos as int].owner != reg.owner@);
                    lemma_lex_lt_total(reg.owner@, olds[pos as int].owner);
                    if j > pos {
                        lemma_lex_lt_trans(
                            reg.owner@,
                            olds[pos as int].owner,
                            olds[j].owner,
                        );
                    }
                }
                lemma_seq_get_insert(olds, pos as int, reg@);
            }
            self.entries.insert(pos, reg);
            proof {
                assert(self@ =~= olds.insert(pos as int, reg@));
            }
        }
    }

    /// Creates a new registration owned by the caller, status Active, with an
    /// empty transfer history, unconditionally overwriting any prior
    /// registration stored under the caller's identity. Always succeeds.
    pub fn register_ip(
        &mut self,
        caller: &Identity,
        timestamp: u64,
        title: String,
        description: String,
        file_hash: String,
        license_type: String,
        metadata: Vec<(String, String)>,
    ) -> (r: Result<(), RegistryError>)
        requires
            old(self).wf(),
        ensures
            final(self).wf(),
            r is Ok,
            final(self).spec_get(caller@) == Some(
                (RegistrationView {
                    owner: caller@,
                    title: title@,
                    description: description@,
                    timestamp: timestamp,
                    file_hash: file_hash@,
                    license_type: license_type@,
                    metadata: metadata_view(metadata@),
                    transfer_history: Seq::empty(),
                    status: RegistrationStatus::Active,
                }),
            ),
            forall|o: Seq<u8>|
                o != caller@ ==> final(self).spec_get(o) == old(self).spec_get(o),
    {
        let reg = Registration {
            owner: caller.clone(),
            title,
            description,
            timestamp,
            file_hash,
            license_type,
            metadata,
            transfer_history: Vec::new(),
            status: RegistrationStatus::Active,
        };
        proof {
            assert(history_view(reg.transfer_history@) =~= Seq::<TransferRecordView>::empty());
        }
        self.put(reg);
        Ok(())
    }

    /// Transfers the caller's registration of `file_hash` to `new_owner`:
    /// appends a transfer record, marks the registration Transferred, vacates
    /// the caller's key and stores the result under the new owner's key.
    /// Fails with NotFound if the caller holds no registration, and with
    /// OwnershipMismatch if the held registration's hash differs; on failure
    /// the store is unchanged.
    pub fn transfer_ownership(
        &mut self,
        caller: &Identity,
        timestamp: u64,
        file_hash: &String,
        new_owner: &Identity,
    ) -> (r: Result<(), RegistryError>)
        requires
            old(self).wf(),
        ensures
            final(self).wf(),
            match old(self).spec_get(caller@) {
                None => r == Err::<(), RegistryError>(RegistryError::NotFound) && final(self)@
                    == old(self)@,
                Some(rv) => if rv.file_hash != file_hash@ {
                    r == Err::<(), RegistryError>(RegistryError::OwnershipMismatch)
                        && final(self)@ == old(self)@
                } else {
                    r is Ok && forall|o: Seq<u8>|
                        final(self).spec_get(o) == (if o == new_owner@ {
                            Some(
                                (RegistrationView {
                                    owner: new_owner@,
                                    status: RegistrationStatus::Transferred,
                                    transfer_history: rv.transfer_history.push(
                                        (TransferRecordView {
                                            from: caller@,
                                            to: new_owner@,
                                            timestamp: timestamp,
                                        }),
                                    ),
                                    ..rv
                                }),
                            )
                        } else if o == caller@ {
                            None
                        } else {
                            old(self).spec_get(o)
                        })
                },
            },
            // Transfer relocates, never duplicates: on success the
            // registration stands only under the new owner's key, marked
            // Transferred, its hash intact, with exactly one record
            // {caller -> new_owner} appended and every earlier record
            // unaltered.
            match old(self).spec_get(caller@) {
                Some(rv) => if rv.file_hash == file_hash@ {
                    final(self).spec_get(new_owner@) matches Some(nv) && nv.owner == new_owner@
                        && nv.file_hash == rv.file_hash && nv.status
                        == RegistrationStatus::Transferred && nv.transfer_history.len()
                        == rv.transfer_history.len() + 1 && nv.transfer_history.last() == (
                    TransferRecordView { from: caller@, to: new_owner@, timestamp: timestamp })
                        && (forall|k: int|
                        0 <= k < rv.transfer_history.len() ==> nv.transfer_history[k]
                            == rv.transfer_history[k]) && (caller@ != new_owner@
                        ==> final(self).spec_get(caller@) is None)
                } else {
                    true
                },
                None => true,
            },
    {
        let ghost olds = self@;
        match self.find_index(caller) {
            None => Err(RegistryError::NotFound),
            Some(i) => {
                proof {
                    lemma_seq_get_at(olds, i as int);
                }
                if self.entries[i].file_hash != *file_hash {
                    Err(RegistryError::OwnershipMismatch)
                } else {
                    let mut reg = self.entries.remove(i);
                    proof {
                        lemma_seq_get_remove(olds, i as int);
                        assert(self@ =~= olds.remove(i as int));
                    }
                    reg.transfer_history.push(
                        TransferRecord { from: caller.clone(), to: new_owner.clone(), timestamp },
                    );
                    reg.owner = new_owner.clone();
                    reg.status = RegistrationStatus::Transferred;
                    proof {
                        assert(history_view(reg.transfer_history@) =~= olds[i as int]
                            .transfer_history.push(
                            (TransferRecordView {
                                from: caller@,
                                to: new_owner@,
                                timestamp: timestamp,
                            }),
                        ));
                    }
                    self.put(reg);
                    Ok(())
                }
            },
        }
    }

    /// Overwrites the status of the caller's registration, in place. Fails
    /// with NotFound if the caller holds no registration, and with
    /// OwnershipMismatch if the held registration's hash differs; on failure
    /// the store is unchanged. Any status transition is permitted.
    pub fn update_registration_status(
        &mut self,
        caller: &Identity,
        file_hash: &String,
        status: RegistrationStatus,
    ) -> (r: Result<(), RegistryError>)
        requires
            old(self).wf(),
        ensures
            final(self).wf(),
            match old(self).spec_get(caller@) {
                None => r == Err::<(), RegistryError>(RegistryError::NotFound) && final(self)@
                    == old(self)@,
                Some(rv) => if rv.file_hash != file_hash@ {
                    r == Err::<(), RegistryError>(RegistryError::OwnershipMismatch)
                        && final(self)@ == old(self)@
                } else {
                    r is Ok && forall|o: Seq<u8>|
                        final(self).spec_get(o) == (if o == caller@ {
                            Some((RegistrationView { status: status, ..rv }))
                        } else {
                            old(self).spec_get(o)
                        })
                },
            },
    {
        let ghost olds = self@;
        match self.find_index(caller) {
            None => Err(RegistryError::NotFound),
            Some(i) => {
                proof {
                    lemma_seq_get_at(olds, i as int);
                }
                if self.entries[i].file_hash != *file_hash {
                    Err(RegistryError::OwnershipMismatch)
                } else {
                    let mut reg = self.entries[i].clone();
                    reg.status = status;
                    proof {
                        lemma_seq_get_update(olds, i as int, reg@);
                    }
                    self.entries.set(i, reg);
                    proof {
                        assert(self@ =~= olds.update(i as int, reg@));
                    }
                    Ok(())
                }
            },
        }
    }

    /// Case-insensitive substring search over title, description and license
    /// type, by full scan; returns the matches in store (key) order.
    pub fn search_registrations(&self, query: &String) -> (r: Vec<Registration>)
        ensures
            regs_view(r@) == matching(self@, lowered(query@)),
    {
        let ql = lower_bytes(query);
        let mut out: Vec<Registration> = Vec::new();
        let mut i: usize = 0;
        while i < self.entries.len()
            invariant
                ql@ == lowered(query@),
                0 <= i <= self.entries@.len(),
                self@.len() == self.entries@.len(),
                regs_view(out@) == matching(self@.take(i as int), lowered(query@)),
            decreases self.entries@.len() - i,
        {
            let ghost prefix = self@.take(i as int);
            let hit = matches_query(&self.entries[i], &ql);
            if hit {
                out.push(self.entries[i].clone());
            }
            proof {
                assert(self@.take(i + 1).drop_last() =~= prefix);
                assert(self@.take(i + 1).last() == self@[i as int]);
                if hit {
                    assert(regs_view(out@) =~= matching(prefix, lowered(query@)).push(
                        self@[i as int],
                    ));
                } else {
                    assert(regs_view(out@) =~= matching(prefix, lowered(query@)));
                }
            }
            i += 1;
        }
        proof {
            assert(self@.take(self@.len() as int) =~= self@);
        }
        out
    }

    /// The transfer history of the first registration, in store (key) order,
    /// whose content hash equals `file_hash`; NotFound if no hash matches.
    pub fn get_transfer_history(&self, file_hash: &String) -> (r: Result<
        Vec<TransferRecord>,
        RegistryError,
    >)
        ensures
            match first_hash_match(self@, file_hash@) {
                Some(rv) => r matches Ok(h) && history_view(h@) == rv.transfer_history,
                None => r == Err::<Vec<TransferRecord>, RegistryError>(RegistryError::NotFound),
            },
    {
        let mut i: usize = 0;
        while i < self.entries.len()
            invariant
                0 <= i <= self.entries@.len(),
                self@.len() == self.entries@.len(),
                forall|j: int| 0 <= j < i ==> (#[trigger] self@[j]).file_hash != file_hash@,
            decreases self.entries@.len() - i,
        {
            if self.entries[i].file_hash == *file_hash {
                proof {
                    lemma_first_hash_skip(self@, file_hash@, i as int);
                    assert(self@.skip(i as int).first() == self@[i as int]);
                }
                return Ok(crate::registration::clone_history(
                    &self.entries[i].transfer_history,
                ));
            }
            i += 1;
        }
        proof {
            lemma_first_hash_skip(self@, file_hash@, self@.len() as int);
            assert(self@.skip(self@.len() as int) =~= Seq::<RegistrationView>::empty());
        }
        Err(RegistryError::NotFound)
    }
}

/// History monotonicity: appending one transfer record grows the history by
/// exactly one and alters no earlier record.
pub proof fn lemma_history_append(h: Seq<TransferRecordView>, rec: TransferRecordView)
    ensures
        h.push(rec).len() == h.len() + 1,
        forall|i: int| 0 <= i < h.len() ==> h.push(rec)[i] == h[i],
{
}

} // verus!
