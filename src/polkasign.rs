use vstd::prelude::*;

use crate::agreement::{
    AgreementInfo, AgreementInfoDisplay, AgreementModel, CreateAgreementParams, DisplayModel,
    SignInfo, SignRecord, StorageInfo, attached, contains_account, display_of, new_agreement,
    signed,
};
use crate::crypto::{
    CryptoExtension, CryptoExtensionErr, SignScheme, framed, signed_message, verify_sign,
};
use crate::index::{
    IdList, add_to_index, entries_unique, find_entry, ids_of, index_matches, lemma_ids_complete,
    lemma_ids_of_push, lemma_ids_of_same, lemma_ids_sound, lemma_listed_at, listed, numbered,
};
use crate::page::{PageError, PageParams, PageResult, cal_pages, count_pages, page_bounds, page_count};
use crate::types::AccountId;

verus! {

/// Why an operation on the agreement store failed; a failed operation changes nothing.
#[derive(Debug, Clone, Copy, PartialEq, Eq, Structural)]
pub enum PolkasignError {
    /// The next agreement index would not fit in 64 bits.
    IndexOverflow,
    /// No agreement has the given index.
    AgreementNotFound,
    /// The caller is not one of the agreement's signers.
    NotSigner,
    /// The host rejected the signature.
    InvalidSignature,
    /// A page size of zero was asked for.
    InvalidPageSize,
}

/// Sent out when an agreement is opened.
#[derive(Debug, Clone, PartialEq, Eq)]
pub struct CreateAgreementEvent {
    pub index: u64,
    pub creator: AccountId,
    pub name: String,
}

/// Sent out when a signer attaches a resource to an agreement: the agreement, the
/// resource's document hash, and the signer.
#[derive(Debug, Clone, Copy, PartialEq, Eq)]
pub struct UpdateAgreementEvent {
    pub index: u64,
    pub hash: crate::types::Hash,
    pub creator: AccountId,
}

/// `new` is `old` with the agreement `ag` added under the next index: it is appended to
/// the agreements and to the index entries of its creator and of each of its signers,
/// once per signer even where the signer list names someone twice.
pub open spec fn creates(old: Polkasign, new: Polkasign, ag: AgreementModel) -> bool {
    &&& ag.index == old.next_index()
    &&& new.next_index() == ag.index + 1
    &&& new.owner_account() == old.owner_account()
    &&& new.agreements() == old.agreements().push(ag)
    &&& forall|a: AccountId|
        #[trigger] new.creator_index(a) == if a == ag.creator {
            old.creator_index(a).push(ag.index)
        } else {
            old.creator_index(a)
        }
    &&& forall|a: AccountId|
        #[trigger] new.collaborator_index(a) == if ag.signers.contains(a) {
            old.collaborator_index(a).push(ag.index)
        } else {
            old.collaborator_index(a)
        }
}

/// `new` is `old` with agreement `index` replaced by `ag`; nothing else changes.
pub open spec fn updates(old: Polkasign, new: Polkasign, index: u64, ag: AgreementModel) -> bool {
    &&& index < old.next_index()
    &&& new.next_index() == old.next_index()
    &&& new.owner_account() == old.owner_account()
    &&& new.agreements() == old.agreements().update(index as int, ag)
    &&& forall|a: AccountId| #[trigger] new.creator_index(a) == old.creator_index(a)
    &&& forall|a: AccountId| #[trigger] new.collaborator_index(a) == old.collaborator_index(a)
}

/// The record of a signature `sign` by `caller` at time `now`.
pub open spec fn sign_record(caller: AccountId, now: u64, sign: [u8; 64]) -> SignRecord {
    SignRecord { sign: sign@, addr: caller, create_at: now }
}

/// Copies a signature into a `Vec`.
fn sign_bytes(sign: &[u8; 64]) -> (r: Vec<u8>)
    ensures
        r@ == sign@,
{
    let mut v: Vec<u8> = Vec::new();
    let mut i: usize = 0;
    while i < 64
        invariant
            0 <= i <= 64,
            v@ =~= sign@.take(i as int),
        decreases 64 - i,
    {
        v.push(sign[i]);
        i = i + 1;
    }
    assert(sign@.take(64) =~= sign@);
    v
}

/// The client views of the agreements that page `page_index` of size `page_size` of
/// `ids` covers, in the order of `ids`.
pub open spec fn page_of(
    ids: Seq<u64>,
    ags: Seq<AgreementModel>,
    page_index: u64,
    page_size: u64,
) -> Seq<DisplayModel> {
    let (start, end, _) = page_bounds(page_index as nat, page_size as nat, ids.len());
    if start < end {
        ids.subrange(start, end).map_values(|id: u64| display_of(ags[id as int]))
    } else {
        seq![]
    }
}

/// The client views that a page holds.
pub open spec fn page_items(p: PageResult<AgreementInfoDisplay>) -> Seq<DisplayModel> {
    p.data@.map_values(|d: AgreementInfoDisplay| d@)
}

/// `p` is the page that `params` asks for of the agreements `ids`: of an empty list,
/// an empty page with all counts zero.
pub open spec fn is_page(
    p: PageResult<AgreementInfoDisplay>,
    ids: Seq<u64>,
    ags: Seq<AgreementModel>,
    params: PageParams,
) -> bool {
    &&& p.success
    &&& p.err@ == "success"@
    &&& if ids.len() == 0 {
        &&& p.total == 0
        &&& p.pages == 0
        &&& p.page_index == 0
        &&& p.page_size == 0
        &&& p.data@.len() == 0
    } else {
        &&& p.total == ids.len()
        &&& p.pages == page_count(ids.len(), params.page_size as nat)
        &&& p.page_index == params.page_index
        &&& p.page_size == params.page_size
        &&& page_items(p) == page_of(ids, ags, params.page_index, params.page_size)
    }
}

/// The agreement store: every agreement by index, and for each account the agreements
/// it created and those it must sign.
pub struct Polkasign {
    owner: AccountId,
    index: u64,
    agreements_map: Vec<AgreementInfo>,
    agreements_creator_map: Vec<IdList>,
    agreements_collaborator_map: Vec<IdList>,
}

impl Polkasign {
    /// The agreements, the one with index `i` at position `i`.
    pub closed spec fn agreements(&self) -> Seq<AgreementModel> {
        self.agreements_map@.map_values(|a: AgreementInfo| a@)
    }

    /// The index that the next agreement gets.
    pub closed spec fn next_index(&self) -> u64 {
        self.index
    }

    /// The account that deployed the store.
    pub closed spec fn owner_account(&self) -> AccountId {
        self.owner
    }

    /// The indices of the agreements that `a` created, as the creator index holds them.
    pub closed spec fn creator_index(&self, a: AccountId) -> Seq<u64> {
        listed(self.agreements_creator_map@, a)
    }

    /// The indices of the agreements that `a` must sign, as the collaborator index holds them.
    pub closed spec fn collaborator_index(&self, a: AccountId) -> Seq<u64> {
        listed(self.agreements_collaborator_map@, a)
    }

    /// The store's invariant: indices are dense and never reused, each agreement is
    /// well formed, and both account indices agree with the agreements.
    pub closed spec fn wf(&self) -> bool {
        &&& self.agreements_map@.len() == self.index
        &&& numbered(self.agreements())
        &&& forall|i: int| 0 <= i < self.agreements().len() ==> (#[trigger] self.agreements()[i]).wf()
        &&& index_matches(self.agreements_creator_map@, self.agreements(), true)
        &&& index_matches(self.agreements_collaborator_map@, self.agreements(), false)
    }

    /// The store's invariant gives each of its parts.
    pub proof fn lemma_wf(&self)
        requires
            self.wf(),
        ensures
            self.agreements().len() == self.next_index(),
            numbered(self.agreements()),
            forall|i: int| 0 <= i < self.agreements().len() ==> (#[trigger] self.agreements()[i]).wf(),
            forall|a: AccountId| #[trigger] self.creator_index(a) == ids_of(self.agreements(), a, true),
            forall|a: AccountId|
                #[trigger] self.collaborator_index(a) == ids_of(self.agreements(), a, false),
    {
        assert forall|a: AccountId| #[trigger] self.creator_index(a) == ids_of(self.agreements(), a, true) by {
            assert(listed(self.agreements_creator_map@, a) == ids_of(self.agreements(), a, true));
        }
        assert forall|a: AccountId|
            #[trigger] self.collaborator_index(a) == ids_of(self.agreements(), a, false) by {
            assert(listed(self.agreements_collaborator_map@, a) == ids_of(self.agreements(), a, false));
        }
    }

    /// An empty store deployed by `owner`.
    pub fn new(owner: AccountId) -> (r: Polkasign)
        ensures
            r.wf(),
            r.owner_account() == owner,
            r.next_index() == 0,
            r.agreements() == Seq::<AgreementModel>::empty(),
    {
        let r = Polkasign {
            owner,
            index: 0,
            agreements_map: Vec::new(),
            agreements_creator_map: Vec::new(),
            agreements_collaborator_map: Vec::new(),
        };
        assert(r.agreements() =~= Seq::<AgreementModel>::empty());
        r
    }

    /// The account that deployed the store.
    pub fn owner(&self) -> (r: AccountId)
        ensures
            r == self.owner_account(),
    {
        self.owner
    }

    /// The index that the next agreement gets; also the number of agreements.
    pub fn index(&self) -> (r: u64)
        ensures
            r == self.next_index(),
    {
        self.index
    }
}

impl Polkasign {
    /// Opens an agreement on behalf of `caller` at time `now` and returns its index.
    /// The document is recorded as created by `caller`, whatever `params` says.
    pub fn create_agreement(&mut self, caller: AccountId, now: u64, params: CreateAgreementParams) -> (r:
        Result<u64, PolkasignError>)
        requires
            old(self).wf(),
        ensures
            final(self).wf(),
            old(self).next_index() <= final(self).next_index(),
            old(self).next_index() == u64::MAX ==> r == Err::<u64, PolkasignError>(
                PolkasignError::IndexOverflow,
            ) && *final(self) == *old(self),
            r is Ok ==> forall|k: int|
                0 <= k < old(self).agreements().len() ==> #[trigger] old(self).agreements()[k].index
                    < r.unwrap(),
            old(self).next_index() < u64::MAX ==> r == Ok::<u64, PolkasignError>(old(self).next_index())
                && creates(
                *old(self),
                *final(self),
                new_agreement(old(self).next_index(), caller, now, params),
            ),
    {
        if self.index == u64::MAX {
            return Err(PolkasignError::IndexOverflow);
        }
        let index = self.index;
        let ghost old_self = *self;
        let ghost ags = self.agreements();
        proof {
            self.lemma_wf();
            lemma_ids_sound(ags, caller, true);
        }
        add_to_index(&mut self.agreements_creator_map, caller, index);
        assert(listed(self.agreements_creator_map@, caller) == ids_of(ags, caller, true).push(index));
        let ghost cm = self.agreements_creator_map@;
        assert(entries_unique(cm));
        assert forall|b: AccountId| b != caller implies #[trigger] listed(cm, b) == ids_of(ags, b, true) by {
            assert(old_self.creator_index(b) == ids_of(ags, b, true));
        }
        let mut i: usize = 0;
        while i < params.signers.len()
            invariant
                0 <= i <= params.signers@.len(),
                self.agreements() == ags,
                self.index == index,
                ags.len() == index,
                numbered(ags),
                self.owner == old_self.owner,
                self.agreements_map == old_self.agreements_map,
                self.agreements_creator_map@ == cm,
                entries_unique(self.agreements_collaborator_map@),
                forall|b: AccountId|
                    #[trigger] listed(self.agreements_collaborator_map@, b) == if params.signers@.take(
                        i as int,
                    ).contains(b) {
                        ids_of(ags, b, false).push(index)
                    } else {
                        ids_of(ags, b, false)
                    },
            decreases params.signers@.len() - i,
        {
            let s = params.signers[i];
            let ghost l0 = self.agreements_collaborator_map@;
            proof {
                lemma_ids_sound(ags, s, false);
                let x = ids_of(ags, s, false);
                if x.len() > 0 {
                    assert(x[x.len() - 1] < index);
                }
            }
            add_to_index(&mut self.agreements_collaborator_map, s, index);
            proof {
                let t0 = params.signers@.take(i as int);
                let t1 = params.signers@.take(i + 1);
                assert(t1 =~= t0.push(s));
                assert forall|b: AccountId| #[trigger] t1.contains(b) == (t0.contains(b) || b == s) by {
                    if t1.contains(b) {
                        let j = choose|j: int| 0 <= j < t1.len() && t1[j] == b;
                        if j < t0.len() {
                            assert(t0[j] == b);
                        }
                    }
                    if t0.contains(b) {
                        let j = choose|j: int| 0 <= j < t0.len() && t0[j] == b;
                        assert(t1[j] == b);
                    }
                    if b == s {
                        assert(t1[i as int] == b);
                    }
                }
            }
            i = i + 1;
        }
        assert(params.signers@.take(params.signers@.len() as int) =~= params.signers@);
        let mut file = params.agreement_file;
        file.creator = caller;
        let info = AgreementInfo {
            index,
            creator: caller,
            name: params.name,
            create_at: now,
            status: crate::agreement::STATUS_DRAFT,
            signers: params.signers,
            agreement_file: file,
            sign_infos: Vec::new(),
            resources: Vec::new(),
        };
        self.agreements_map.push(info);
        self.index = index + 1;
        proof {
            let ag = new_agreement(index, caller, now, params);
            assert(info@.sign_infos =~= Seq::<crate::agreement::SignRecord>::empty());
            assert(info@.resources =~= Seq::<(AccountId, Seq<StorageInfo>)>::empty());
            assert(info@ == ag);
            assert(self.agreements() =~= ags.push(ag));
            let ags1 = self.agreements();
            assert forall|i: int| 0 <= i < ags1.len() implies (#[trigger] ags1[i]).index == i by {
                if i < ags.len() {
                    assert(ags1[i] == ags[i]);
                }
            }
            assert forall|i: int| 0 <= i < ags1.len() implies (#[trigger] ags1[i]).wf() by {
                if i < ags.len() {
                    assert(ags1[i] == ags[i]);
                    assert(old_self.agreements()[i].wf());
                }
            }
            assert forall|a: AccountId| #[trigger] listed(self.agreements_creator_map@, a) == ids_of(
                ags1,
                a,
                true,
            ) by {
                lemma_ids_of_push(ags, ag, a, true);
            }
            assert forall|a: AccountId| #[trigger] listed(self.agreements_collaborator_map@, a)
                == ids_of(ags1, a, false) by {
                lemma_ids_of_push(ags, ag, a, false);
            }
            assert forall|a: AccountId| #[trigger] self.creator_index(a) == if a == caller {
                old_self.creator_index(a).push(index)
            } else {
                old_self.creator_index(a)
            } by {
                lemma_ids_of_push(ags, ag, a, true);
            }
            assert forall|a: AccountId| #[trigger] self.collaborator_index(a) == if params.signers@.contains(
                a,
            ) {
                old_self.collaborator_index(a).push(index)
            } else {
                old_self.collaborator_index(a)
            } by {
                lemma_ids_of_push(ags, ag, a, false);
            }
        }
        Ok(index)
    }
}

impl Polkasign {
    /// Replacing agreement `index` by a well-formed `ag` with the same index, creator
    /// and signers keeps the store well formed and both account indices unchanged.
    proof fn lemma_update_keeps_wf(old: Polkasign, new: Polkasign, index: u64, ag: AgreementModel)
        requires
            old.wf(),
            index < old.next_index(),
            ag.wf(),
            ag.index == old.agreements()[index as int].index,
            ag.creator == old.agreements()[index as int].creator,
            ag.signers == old.agreements()[index as int].signers,
            new.agreements() == old.agreements().update(index as int, ag),
            new.index == old.index,
            new.owner == old.owner,
            new.agreements_creator_map == old.agreements_creator_map,
            new.agreements_collaborator_map == old.agreements_collaborator_map,
        ensures
            new.wf(),
            updates(old, new, index, ag),
    {
        let a0 = old.agreements();
        let a1 = new.agreements();
        assert forall|i: int| 0 <= i < a1.len() implies (#[trigger] a1[i]).index == a0[i].index
            && a1[i].creator == a0[i].creator && a1[i].signers == a0[i].signers by {}
        assert forall|i: int| 0 <= i < a1.len() implies (#[trigger] a1[i]).index == i by {
            assert(a0[i].index == i);
        }
        assert forall|i: int| 0 <= i < a1.len() implies (#[trigger] a1[i]).wf() by {
            if i != index {
                assert(a0[i].wf());
            }
        }
        assert forall|a: AccountId| #[trigger] listed(new.agreements_creator_map@, a) == ids_of(a1, a, true) by {
            lemma_ids_of_same(a1, a0, a, true);
            assert(listed(old.agreements_creator_map@, a) == ids_of(a0, a, true));
        }
        assert forall|a: AccountId| #[trigger] listed(new.agreements_collaborator_map@, a) == ids_of(
            a1,
            a,
            false,
        ) by {
            lemma_ids_of_same(a1, a0, a, false);
            assert(listed(old.agreements_collaborator_map@, a) == ids_of(a0, a, false));
        }
    }

    /// Where agreement `index` stands in the store.
    fn slot(&self, index: u64) -> (r: usize)
        requires
            self.wf(),
            index < self.next_index(),
        ensures
            r == index,
            r < self.agreements_map@.len(),
            self.agreements()[r as int] == self.agreements_map@[r as int]@,
    {
        proof {
            self.lemma_wf();
        }
        assert(self.agreements_map@.len() == self.agreements().len());
        let n = self.agreements_map.len();
        assert(index < n);
        index as usize
    }

    /// Records the signature `sign` of `caller` at time `now` on agreement `index`, given
    /// the host's `verdict` on it: the status becomes finalized once every signer has
    /// signed, and collecting before that. Only a listed signer may sign, and a second
    /// signature of the same signer replaces the first. Nothing changes on a failure.
    pub fn apply_sign(
        &mut self,
        caller: AccountId,
        now: u64,
        index: u64,
        sign: [u8; 64],
        verdict: Result<(), CryptoExtensionErr>,
    ) -> (r: Result<(), PolkasignError>)
        requires
            old(self).wf(),
        ensures
            final(self).wf(),
            old(self).next_index() <= final(self).next_index(),
            r is Err ==> *final(self) == *old(self),
            index >= old(self).next_index() ==> r == Err::<(), PolkasignError>(
                PolkasignError::AgreementNotFound,
            ),
            index < old(self).next_index() && !old(self).agreements()[index as int].signers.contains(
                caller,
            ) ==> r == Err::<(), PolkasignError>(PolkasignError::NotSigner),
            index < old(self).next_index() && old(self).agreements()[index as int].signers.contains(
                caller,
            ) && verdict is Err ==> r == Err::<(), PolkasignError>(PolkasignError::InvalidSignature),
            index < old(self).next_index() && old(self).agreements()[index as int].signers.contains(
                caller,
            ) && verdict is Ok ==> r == Ok::<(), PolkasignError>(()) && updates(
                *old(self),
                *final(self),
                index,
                signed(old(self).agreements()[index as int], sign_record(caller, now, sign)),
            ),
    {
        if index >= self.index {
            return Err(PolkasignError::AgreementNotFound);
        }
        let i = self.slot(index);
        if !self.agreements_map[i].is_signer(&caller) {
            return Err(PolkasignError::NotSigner);
        }
        if verdict.is_err() {
            return Err(PolkasignError::InvalidSignature);
        }
        let ghost old_self = *self;
        let info = SignInfo { sign: sign_bytes(&sign), addr: caller, create_at: now };
        assert(info@ == sign_record(caller, now, sign));
        self.agreements_map[i].record_sign(info);
        proof {
            let ag = signed(old_self.agreements()[index as int], sign_record(caller, now, sign));
            assert(self.agreements() =~= old_self.agreements().update(index as int, ag));
            Polkasign::lemma_update_keeps_wf(old_self, *self, index, ag);
        }
        Ok(())
    }

    /// Attaches `info` for `caller` to agreement `index`; only a signer of the agreement
    /// may attach. Nothing changes on a failure.
    pub fn attach_resource_to_agreement(&mut self, caller: AccountId, index: u64, info: StorageInfo) -> (r:
        Result<(), PolkasignError>)
        requires
            old(self).wf(),
        ensures
            final(self).wf(),
            old(self).next_index() <= final(self).next_index(),
            r is Err ==> *final(self) == *old(self),
            index >= old(self).next_index() ==> r == Err::<(), PolkasignError>(
                PolkasignError::AgreementNotFound,
            ),
            index < old(self).next_index() && !old(self).agreements()[index as int].signers.contains(
                caller,
            ) ==> r == Err::<(), PolkasignError>(PolkasignError::NotSigner),
            index < old(self).next_index() && old(self).agreements()[index as int].signers.contains(
                caller,
            ) ==> r == Ok::<(), PolkasignError>(()) && updates(
                *old(self),
                *final(self),
                index,
                attached(old(self).agreements()[index as int], caller, info),
            ),
    {
        if index >= self.index {
            return Err(PolkasignError::AgreementNotFound);
        }
        let i = self.slot(index);
        if !self.agreements_map[i].is_signer(&caller) {
            return Err(PolkasignError::NotSigner);
        }
        let ghost old_self = *self;
        self.agreements_map[i].attach(caller, info);
        proof {
            let ag = attached(old_self.agreements()[index as int], caller, info);
            assert(self.agreements() =~= old_self.agreements().update(index as int, ag));
            Polkasign::lemma_update_keeps_wf(old_self, *self, index, ag);
        }
        Ok(())
    }

    /// Attaches `info` for `caller` to agreement `index` and records `caller`'s signature
    /// `sign` at time `now`, given the host's `verdict` on it. Both happen or, on any
    /// failure, neither.
    pub fn apply_attach_sign(
        &mut self,
        caller: AccountId,
        now: u64,
        index: u64,
        info: StorageInfo,
        sign: [u8; 64],
        verdict: Result<(), CryptoExtensionErr>,
    ) -> (r: Result<(), PolkasignError>)
        requires
            old(self).wf(),
        ensures
            final(self).wf(),
            old(self).next_index() <= final(self).next_index(),
            r is Err ==> *final(self) == *old(self),
            index >= old(self).next_index() ==> r == Err::<(), PolkasignError>(
                PolkasignError::AgreementNotFound,
            ),
            index < old(self).next_index() && !old(self).agreements()[index as int].signers.contains(
                caller,
            ) ==> r == Err::<(), PolkasignError>(PolkasignError::NotSigner),
            index < old(self).next_index() && old(self).agreements()[index as int].signers.contains(
                caller,
            ) && verdict is Err ==> r == Err::<(), PolkasignError>(PolkasignError::InvalidSignature),
            index < old(self).next_index() && old(self).agreements()[index as int].signers.contains(
                caller,
            ) && verdict is Ok ==> r == Ok::<(), PolkasignError>(()) && updates(
                *old(self),
                *final(self),
                index,
                signed(
                    attached(old(self).agreements()[index as int], caller, info),
                    sign_record(caller, now, sign),
                ),
            ),
    {
        if index >= self.index {
            return Err(PolkasignError::AgreementNotFound);
        }
        let i = self.slot(index);
        if !self.agreements_map[i].is_signer(&caller) {
            return Err(PolkasignError::NotSigner);
        }
        if verdict.is_err() {
            return Err(PolkasignError::InvalidSignature);
        }
        let ghost s0 = *self;
        let attached_ok = self.attach_resource_to_agreement(caller, index, info);
        assert(attached_ok is Ok);
        let ghost s1 = *self;
        let signed_ok = self.apply_sign(caller, now, index, sign, verdict);
        assert(signed_ok is Ok);
        proof {
            let a1 = attached(s0.agreements()[index as int], caller, info);
            let a2 = signed(a1, sign_record(caller, now, sign));
            assert(s1.agreements()[index as int] == a1);
            assert(self.agreements() =~= s0.agreements().update(index as int, a2));
        }
        Ok(())
    }

    /// Opens an agreement on behalf of `caller` at time `now` and records `caller`'s
    /// signature `sign` on it, given the host's `verdict` on it; `caller` must be one of
    /// the signers. Both happen or, on any failure, neither.
    pub fn apply_create_sign(
        &mut self,
        caller: AccountId,
        now: u64,
        params: CreateAgreementParams,
        sign: [u8; 64],
        verdict: Result<(), CryptoExtensionErr>,
    ) -> (r: Result<u64, PolkasignError>)
        requires
            old(self).wf(),
        ensures
            final(self).wf(),
            old(self).next_index() <= final(self).next_index(),
            r is Err ==> *final(self) == *old(self),
            old(self).next_index() == u64::MAX ==> r == Err::<u64, PolkasignError>(
                PolkasignError::IndexOverflow,
            ),
            old(self).next_index() < u64::MAX && !params.signers@.contains(caller) ==> r == Err::<
                u64,
                PolkasignError,
            >(PolkasignError::NotSigner),
            old(self).next_index() < u64::MAX && params.signers@.contains(caller) && verdict is Err
                ==> r == Err::<u64, PolkasignError>(PolkasignError::InvalidSignature),
            old(self).next_index() < u64::MAX && params.signers@.contains(caller) && verdict is Ok
                ==> r == Ok::<u64, PolkasignError>(old(self).next_index()) && creates(
                *old(self),
                *final(self),
                signed(
                    new_agreement(old(self).next_index(), caller, now, params),
                    sign_record(caller, now, sign),
                ),
            ),
    {
        if self.index == u64::MAX {
            return Err(PolkasignError::IndexOverflow);
        }
        if !contains_account(&params.signers, &caller) {
            return Err(PolkasignError::NotSigner);
        }
        if verdict.is_err() {
            return Err(PolkasignError::InvalidSignature);
        }
        let ghost s0 = *self;
        let ghost p = params;
        let index = match self.create_agreement(caller, now, params) {
            Ok(i) => i,
            Err(e) => return Err(e),
        };
        proof {
            self.lemma_wf();
            assert(self.agreements()[index as int] == new_agreement(index, caller, now, p));
        }
        let signed_ok = self.apply_sign(caller, now, index, sign, verdict);
        assert(signed_ok is Ok);
        proof {
            let a1 = new_agreement(index, caller, now, p);
            let a2 = signed(a1, sign_record(caller, now, sign));
            assert(self.agreements() =~= s0.agreements().push(a2));
        }
        Ok(index)
    }
}

impl Polkasign {
    /// Signs agreement `index` as `caller` at time `now`: the host is asked whether
    /// `sign` is valid over the agreement's document hash in `scheme`, and its answer
    /// is applied as `apply_sign` applies it.
    pub fn sign_agreement<E: CryptoExtension>(
        &mut self,
        ext: &E,
        caller: AccountId,
        now: u64,
        index: u64,
        sign: [u8; 64],
        scheme: SignScheme,
    ) -> (r: Result<(), PolkasignError>)
        requires
            old(self).wf(),
        ensures
            final(self).wf(),
            old(self).next_index() <= final(self).next_index(),
            r is Err ==> *final(self) == *old(self),
            index >= old(self).next_index() ==> r == Err::<(), PolkasignError>(
                PolkasignError::AgreementNotFound,
            ),
            index < old(self).next_index() && !old(self).agreements()[index as int].signers.contains(
                caller,
            ) ==> r == Err::<(), PolkasignError>(PolkasignError::NotSigner),
            index < old(self).next_index() && old(self).agreements()[index as int].signers.contains(
                caller,
            ) && !ext.sr25519_accepts(caller.0, signed_message(scheme, old(self).agreements()[index as int].agreement_file.hash.0@), sign)
                ==> r == Err::<(), PolkasignError>(PolkasignError::InvalidSignature),
            index < old(self).next_index() && old(self).agreements()[index as int].signers.contains(
                caller,
            ) && ext.sr25519_accepts(caller.0, signed_message(scheme, old(self).agreements()[index as int].agreement_file.hash.0@), sign)
                ==> r == Ok::<(), PolkasignError>(()) && updates(
                *old(self),
                *final(self),
                index,
                signed(old(self).agreements()[index as int], sign_record(caller, now, sign)),
            ),
    {
        if index >= self.index {
            return Err(PolkasignError::AgreementNotFound);
        }
        let i = self.slot(index);
        if !self.agreements_map[i].is_signer(&caller) {
            return Err(PolkasignError::NotSigner);
        }
        let hash = self.agreements_map[i].agreement_file.hash;
        let verdict = verify_sign(ext, scheme, caller.as_bytes(), hash.as_bytes(), sign);
        self.apply_sign(caller, now, index, sign, verdict)
    }

    /// Attaches `info` for `caller` to agreement `index` and records `caller`'s
    /// signature, which the host checks over the document hash in the framed scheme;
    /// its answer is applied as `apply_attach_sign` applies it.
    pub fn attach_resource_with_sign<E: CryptoExtension>(
        &mut self,
        ext: &E,
        caller: AccountId,
        now: u64,
        index: u64,
        info: StorageInfo,
        sign: [u8; 64],
    ) -> (r: Result<(), PolkasignError>)
        requires
            old(self).wf(),
        ensures
            final(self).wf(),
            old(self).next_index() <= final(self).next_index(),
            r is Err ==> *final(self) == *old(self),
            index >= old(self).next_index() ==> r == Err::<(), PolkasignError>(
                PolkasignError::AgreementNotFound,
            ),
            index < old(self).next_index() && !old(self).agreements()[index as int].signers.contains(
                caller,
            ) ==> r == Err::<(), PolkasignError>(PolkasignError::NotSigner),
            index < old(self).next_index() && old(self).agreements()[index as int].signers.contains(
                caller,
            ) && !ext.sr25519_accepts(caller.0, framed(old(self).agreements()[index as int].agreement_file.hash.0@), sign) ==> r == Err::<
                (),
                PolkasignError,
            >(PolkasignError::InvalidSignature),
            index < old(self).next_index() && old(self).agreements()[index as int].signers.contains(
                caller,
            ) && ext.sr25519_accepts(caller.0, framed(old(self).agreements()[index as int].agreement_file.hash.0@), sign) ==> r == Ok::<
                (),
                PolkasignError,
            >(()) && updates(
                *old(self),
                *final(self),
                index,
                signed(
                    attached(old(self).agreements()[index as int], caller, info),
                    sign_record(caller, now, sign),
                ),
            ),
    {
        if index >= self.index {
            return Err(PolkasignError::AgreementNotFound);
        }
        let i = self.slot(index);
        if !self.agreements_map[i].is_signer(&caller) {
            return Err(PolkasignError::NotSigner);
        }
        let hash = self.agreements_map[i].agreement_file.hash;
        let verdict = verify_sign(
            ext,
            SignScheme::Sr25519Bytes,
            caller.as_bytes(),
            hash.as_bytes(),
            sign,
        );
        self.apply_attach_sign(caller, now, index, info, sign, verdict)
    }

    /// Opens an agreement on behalf of `caller` at time `now` and records `caller`'s
    /// signature on it, which the host checks over the document hash in the framed
    /// scheme; its answer is applied as `apply_create_sign` applies it.
    pub fn create_agreement_with_sign<E: CryptoExtension>(
        &mut self,
        ext: &E,
        caller: AccountId,
        now: u64,
        params: CreateAgreementParams,
        sign: [u8; 64],
    ) -> (r: Result<u64, PolkasignError>)
        requires
            old(self).wf(),
        ensures
            final(self).wf(),
            old(self).next_index() <= final(self).next_index(),
            r is Err ==> *final(self) == *old(self),
            old(self).next_index() == u64::MAX ==> r == Err::<u64, PolkasignError>(
                PolkasignError::IndexOverflow,
            ),
            old(self).next_index() < u64::MAX && !params.signers@.contains(caller) ==> r == Err::<
                u64,
                PolkasignError,
            >(PolkasignError::NotSigner),
            old(self).next_index() < u64::MAX && params.signers@.contains(caller)
                && !ext.sr25519_accepts(caller.0, framed(params.agreement_file.hash.0@), sign) ==> r
                == Err::<u64, PolkasignError>(PolkasignError::InvalidSignature),
            old(self).next_index() < u64::MAX && params.signers@.contains(caller)
                && ext.sr25519_accepts(caller.0, framed(params.agreement_file.hash.0@), sign)
                ==> r == Ok::<u64, PolkasignError>(old(self).next_index()) && creates(
                *old(self),
                *final(self),
                signed(
                    new_agreement(old(self).next_index(), caller, now, params),
                    sign_record(caller, now, sign),
                ),
            ),
    {
        if self.index == u64::MAX {
            return Err(PolkasignError::IndexOverflow);
        }
        if !contains_account(&params.signers, &caller) {
            return Err(PolkasignError::NotSigner);
        }
        let hash = params.agreement_file.hash;
        let verdict = verify_sign(
            ext,
            SignScheme::Sr25519Bytes,
            caller.as_bytes(),
            hash.as_bytes(),
            sign,
        );
        self.apply_create_sign(caller, now, params, sign, verdict)
    }

    /// Checks with the host that `sign` is `caller`'s sr25519 signature over `msg`; a
    /// signature the host rejects fails the call.
    pub fn check_sr25519_sign<E: CryptoExtension>(
        &self,
        ext: &E,
        caller: AccountId,
        msg: [u8; 32],
        sign: [u8; 64],
    ) -> (r: Result<(), PolkasignError>)
        ensures
            r is Ok == ext.sr25519_accepts(caller.0, msg@, sign),
            r is Err ==> r == Err::<(), PolkasignError>(PolkasignError::InvalidSignature),
    {
        match verify_sign(ext, SignScheme::Sr25519, caller.as_bytes(), msg, sign) {
            Ok(()) => Ok(()),
            Err(_) => Err(PolkasignError::InvalidSignature),
        }
    }

    /// Checks with the host that `sign` is `caller`'s sr25519 signature over `msg`
    /// framed as `<Bytes>` msg `</Bytes>`; a signature the host rejects fails the call.
    pub fn check_sr25519_bytes_sign<E: CryptoExtension>(
        &self,
        ext: &E,
        caller: AccountId,
        msg: [u8; 32],
        sign: [u8; 64],
    ) -> (r: Result<(), PolkasignError>)
        ensures
            r is Ok == ext.sr25519_accepts(caller.0, framed(msg@), sign),
            r is Err ==> r == Err::<(), PolkasignError>(PolkasignError::InvalidSignature),
    {
        match verify_sign(ext, SignScheme::Sr25519Bytes, caller.as_bytes(), msg, sign) {
            Ok(()) => Ok(()),
            Err(_) => Err(PolkasignError::InvalidSignature),
        }
    }
}

impl Polkasign {
    /// The client view of agreement `index`.
    pub fn query_agreement_by_id(&self, index: u64) -> (r: Result<AgreementInfoDisplay, PolkasignError>)
        requires
            self.wf(),
        ensures
            index >= self.next_index() ==> r == Err::<AgreementInfoDisplay, PolkasignError>(
                PolkasignError::AgreementNotFound,
            ),
            index < self.next_index() ==> r is Ok && r.unwrap()@ == display_of(
                self.agreements()[index as int],
            ),
    {
        if index >= self.index {
            return Err(PolkasignError::AgreementNotFound);
        }
        let i = self.slot(index);
        Ok(self.agreements_map[i].to_display())
    }

    /// Cuts the page that `params` asks for out of `ids`, a non-empty list of
    /// agreement indices.
    fn page_by_ids(&self, ids: &Vec<u64>, params: &PageParams) -> (r: Result<
        PageResult<AgreementInfoDisplay>,
        PolkasignError,
    >)
        requires
            self.wf(),
            ids@.len() > 0,
            forall|j: int| 0 <= j < ids@.len() ==> #[trigger] ids@[j] < self.next_index(),
        ensures
            params.page_size == 0 ==> r == Err::<PageResult<AgreementInfoDisplay>, PolkasignError>(
                PolkasignError::InvalidPageSize,
            ),
            params.page_size > 0 ==> r is Ok && is_page(r.unwrap(), ids@, self.agreements(), *params),
    {
        proof {
            self.lemma_wf();
        }
        assert(self.agreements_map@.len() == self.agreements().len());
        let n_ids = ids.len();
        let total = n_ids as u64;
        let (start, end, pages) = match cal_pages(params, total) {
            Ok(t) => t,
            Err(PageError::ZeroPageSize) => return Err(PolkasignError::InvalidPageSize),
            Err(PageError::StartOverflow) => (total, total, count_pages(total, params.page_size)),
        };
        let ghost b = page_bounds(params.page_index as nat, params.page_size as nat, total as nat);
        assert((b.0 < b.1) == (start < end));
        assert(start < end ==> b.0 == start && b.1 == end);
        assert(pages == page_count(total as nat, params.page_size as nat));
        let mut data: Vec<AgreementInfoDisplay> = Vec::new();
        let mut k: u64 = start;
        while k < end
            invariant
                start <= k,
                (b.0 < b.1) == (start < end),
                start < end ==> b.0 == start && b.1 == end,
                start < end ==> k <= end,
                start >= end ==> k == start,
                end <= total,
                total == ids@.len(),
                n_ids == ids@.len(),
                self.wf(),
                self.agreements_map@.len() == self.agreements().len(),
                self.agreements().len() == self.next_index(),
                forall|j: int| 0 <= j < ids@.len() ==> #[trigger] ids@[j] < self.next_index(),
                data@.len() == k - start,
                forall|j: int|
                    0 <= j < data@.len() ==> #[trigger] data@[j]@ == display_of(
                        self.agreements()[ids@[start + j] as int],
                    ),
            decreases end - k,
        {
            assert(k < n_ids);
            let kk = k as usize;
            let id = ids[kk];
            assert(id < self.next_index());
            let n = self.agreements_map.len();
            assert(id < n);
            let i = id as usize;
            assert(self.agreements()[i as int] == self.agreements_map@[i as int]@);
            data.push(self.agreements_map[i].to_display());
            k = k + 1;
        }
        let r = PageResult {
            success: true,
            err: "success".to_owned(),
            total,
            pages,
            page_index: params.page_index,
            page_size: params.page_size,
            data,
        };
        proof {
            let ags = self.agreements();
            let want = page_of(ids@, ags, params.page_index, params.page_size);
            if start < end {
                assert(k == end);
                let sub = ids@.subrange(start as int, end as int);
                assert(b.0 == start && b.1 == end);
                assert(want == sub.map_values(|id: u64| display_of(ags[id as int])));
                assert(page_items(r).len() == want.len());
                assert forall|j: int| 0 <= j < want.len() implies page_items(r)[j] == want[j] by {
                    assert(sub[j] == ids@[start + j]);
                    assert(page_items(r)[j] == data@[j]@);
                }
                assert(page_items(r) =~= want);
            } else {
                assert(page_items(r) =~= want);
            }
        }
        Ok(r)
    }

    /// An empty page, for an account that is listed on no agreement.
    fn empty_page() -> (r: PageResult<AgreementInfoDisplay>)
        ensures
            is_page(r, seq![], seq![], PageParams { page_index: 0, page_size: 0 }),
    {
        PageResult {
            success: true,
            err: "success".to_owned(),
            total: 0,
            pages: 0,
            page_index: 0,
            page_size: 0,
            data: Vec::new(),
        }
    }

    /// The page that `page_params` asks for of the agreements that `creator` created,
    /// oldest first. An account that created none gets an empty page whatever it asks
    /// for; otherwise a page size of zero is refused.
    pub fn query_agreement_by_creator(&self, creator: AccountId, page_params: PageParams) -> (r:
        Result<PageResult<AgreementInfoDisplay>, PolkasignError>)
        requires
            self.wf(),
        ensures
            self.creator_index(creator).len() > 0 && page_params.page_size == 0 ==> r == Err::<
                PageResult<AgreementInfoDisplay>,
                PolkasignError,
            >(PolkasignError::InvalidPageSize),
            self.creator_index(creator).len() == 0 || page_params.page_size > 0 ==> r is Ok && is_page(
                r.unwrap(),
                self.creator_index(creator),
                self.agreements(),
                page_params,
            ),
    {
        proof {
            self.lemma_wf();
            lemma_ids_sound(self.agreements(), creator, true);
        }
        match find_entry(&self.agreements_creator_map, &creator) {
            None => {
                let r = Polkasign::empty_page();
                assert(is_page(r, self.creator_index(creator), self.agreements(), page_params));
                Ok(r)
            },
            Some(k) => {
                proof {
                    lemma_listed_at(self.agreements_creator_map@, creator, k as int);
                }
                let ids = &self.agreements_creator_map[k].ids;
                if ids.len() == 0 {
                    let r = Polkasign::empty_page();
                    assert(is_page(r, self.creator_index(creator), self.agreements(), page_params));
                    return Ok(r);
                }
                self.page_by_ids(ids, &page_params)
            },
        }
    }

    /// The page that `page_params` asks for of the agreements that `collaborator` must
    /// sign, oldest first. An account listed on none gets an empty page whatever it
    /// asks for; otherwise a page size of zero is refused.
    pub fn query_agreement_by_collaborator(&self, collaborator: AccountId, page_params: PageParams) -> (r:
        Result<PageResult<AgreementInfoDisplay>, PolkasignError>)
        requires
            self.wf(),
        ensures
            self.collaborator_index(collaborator).len() > 0 && page_params.page_size == 0 ==> r
                == Err::<PageResult<AgreementInfoDisplay>, PolkasignError>(
                PolkasignError::InvalidPageSize,
            ),
            self.collaborator_index(collaborator).len() == 0 || page_params.page_size > 0 ==> r is Ok
                && is_page(
                r.unwrap(),
                self.collaborator_index(collaborator),
                self.agreements(),
                page_params,
            ),
    {
        proof {
            self.lemma_wf();
            lemma_ids_sound(self.agreements(), collaborator, false);
        }
        match find_entry(&self.agreements_collaborator_map, &collaborator) {
            None => {
                let r = Polkasign::empty_page();
                assert(is_page(r, self.collaborator_index(collaborator), self.agreements(), page_params));
                Ok(r)
            },
            Some(k) => {
                proof {
                    lemma_listed_at(self.agreements_collaborator_map@, collaborator, k as int);
                }
                let ids = &self.agreements_collaborator_map[k].ids;
                if ids.len() == 0 {
                    let r = Polkasign::empty_page();
                    assert(is_page(r, self.collaborator_index(collaborator), self.agreements(), page_params));
                    return Ok(r);
                }
                self.page_by_ids(ids, &page_params)
            },
        }
    }
}

/// In a well-formed store, the creator index of `c` lists exactly the agreements that
/// `c` created, and the collaborator index of `c` exactly those that list `c` as a
/// signer, each in increasing order of index.
pub proof fn lemma_index_consistent(s: Polkasign, c: AccountId)
    requires
        s.wf(),
    ensures
        forall|j: int|
            0 <= j < s.creator_index(c).len() ==> {
                let id = #[trigger] s.creator_index(c)[j];
                id < s.next_index() && s.agreements()[id as int].creator == c
            },
        forall|j: int|
            0 <= j < s.collaborator_index(c).len() ==> {
                let id = #[trigger] s.collaborator_index(c)[j];
                id < s.next_index() && s.agreements()[id as int].signers.contains(c)
            },
        forall|i: int|
            0 <= i < s.next_index() ==> (s.creator_index(c).contains(i as u64) <==> (#[trigger] s.agreements()[i]).creator == c),
        forall|i: int|
            0 <= i < s.next_index() ==> (s.collaborator_index(c).contains(i as u64) <==> (#[trigger] s.agreements()[i]).signers.contains(c)),
        forall|i: int, j: int|
            0 <= i < j < s.creator_index(c).len() ==> #[trigger] s.creator_index(c)[i]
                < #[trigger] s.creator_index(c)[j],
        forall|i: int, j: int|
            0 <= i < j < s.collaborator_index(c).len() ==> #[trigger] s.collaborator_index(c)[i]
                < #[trigger] s.collaborator_index(c)[j],
{
    s.lemma_wf();
    lemma_ids_sound(s.agreements(), c, true);
    lemma_ids_sound(s.agreements(), c, false);
    assert forall|i: int| 0 <= i < s.next_index() implies (s.creator_index(c).contains(i as u64) <==> (#[trigger] s.agreements()[i]).creator == c) by {
        lemma_ids_complete(s.agreements(), c, true, i);
    }
    assert forall|i: int| 0 <= i < s.next_index() implies (s.collaborator_index(c).contains(i as u64) <==> (#[trigger] s.agreements()[i]).signers.contains(c)) by {
        lemma_ids_complete(s.agreements(), c, false, i);
    }
}

proof fn lemma_create_chain_index(states: Seq<Polkasign>, ags: Seq<AgreementModel>, k: int)
    requires
        states.len() == ags.len() + 1,
        forall|m: int| 0 <= m < ags.len() ==> creates(states[m], #[trigger] states[m + 1], ags[m]),
        0 <= k < ags.len(),
    ensures
        ags[k].index == states[0].next_index() + k,
    decreases k,
{
    assert(creates(states[k], states[k + 1], ags[k]));
    if k > 0 {
        lemma_create_chain_index(states, ags, k - 1);
        let m = k - 1;
        assert(creates(states[m], states[m + 1], ags[m]));
    }
}

/// Along any run of creations, each from one store to the next, the indices handed out
/// strictly increase, so none repeats; none is that of an agreement already stored.
pub proof fn lemma_create_ids_increase(states: Seq<Polkasign>, ags: Seq<AgreementModel>)
    requires
        states.len() == ags.len() + 1,
        forall|m: int| 0 <= m < ags.len() ==> creates(states[m], #[trigger] states[m + 1], ags[m]),
    ensures
        forall|i: int, j: int| 0 <= i < j < ags.len() ==> #[trigger] ags[i].index < #[trigger] ags[j].index,
        forall|m: int| 0 <= m < ags.len() ==> states[m].next_index() <= #[trigger] ags[m].index,
{
    assert forall|i: int, j: int| 0 <= i < j < ags.len() implies #[trigger] ags[i].index < #[trigger] ags[j].index by {
        lemma_create_chain_index(states, ags, i);
        lemma_create_chain_index(states, ags, j);
    }
    assert forall|m: int| 0 <= m < ags.len() implies states[m].next_index() <= #[trigger] ags[m].index by {
        assert(creates(states[m], states[m + 1], ags[m]));
    }
}

proof fn lemma_next_index_grows(states: Seq<Polkasign>, a: int, b: int)
    requires
        forall|m: int|
            0 <= m < states.len() - 1 ==> states[m].next_index() <= #[trigger] states[m + 1].next_index(),
        0 <= a <= b < states.len(),
    ensures
        states[a].next_index() <= states[b].next_index(),
    decreases b - a,
{
    if a < b {
        lemma_next_index_grows(states, a, b - 1);
        let m = b - 1;
        assert(states[m].next_index() <= states[m + 1].next_index());
    }
}

/// Along any run of calls in which the next index never falls, as the contract of
/// every operation guarantees (a creation raises it by one, every other operation and
/// every failure leaves it), two creations in that run hand out strictly increasing
/// indices: an index is never handed out twice.
pub proof fn lemma_ids_increase_across_calls(
    states: Seq<Polkasign>,
    i: int,
    j: int,
    first: AgreementModel,
    second: AgreementModel,
)
    requires
        forall|m: int|
            0 <= m < states.len() - 1 ==> states[m].next_index() <= #[trigger] states[m + 1].next_index(),
        0 <= i < j,
        j + 1 < states.len(),
        creates(states[i], states[i + 1], first),
        creates(states[j], states[j + 1], second),
    ensures
        first.index < second.index,
{
    lemma_next_index_grows(states, i + 1, j);
}

/// In a well-formed store every stored index is below the next one, so an index
/// handed out by a creation belongs to no agreement stored before it.
pub proof fn lemma_new_index_fresh(old: Polkasign, new: Polkasign, ag: AgreementModel)
    requires
        old.wf(),
        creates(old, new, ag),
    ensures
        forall|i: int| 0 <= i < old.agreements().len() ==> (#[trigger] old.agreements()[i]).index < ag.index,
        old.next_index() < new.next_index(),
{
    old.lemma_wf();
}

/// In a well-formed store, an agreement with at least one signer is finalized exactly
/// when the number of distinct signers that signed reaches the number of signers; its
/// signatures come from distinct listed signers, and it is a draft exactly while it
/// has none.
pub proof fn lemma_threshold(s: Polkasign, i: int)
    requires
        s.wf(),
        0 <= i < s.next_index(),
        s.agreements()[i].signers.len() > 0,
    ensures
        ({
            let ag = s.agreements()[i];
            &&& ag.status == crate::agreement::STATUS_FINALIZED <==> ag.sign_infos.len()
                >= ag.signers.len()
            &&& ag.status == crate::agreement::STATUS_DRAFT <==> ag.sign_infos.len() == 0
            &&& forall|j: int, k: int|
                0 <= j < k < ag.sign_infos.len() ==> #[trigger] ag.sign_infos[j].addr
                    != #[trigger] ag.sign_infos[k].addr
            &&& forall|j: int|
                0 <= j < ag.sign_infos.len() ==> ag.signers.contains(#[trigger] ag.sign_infos[j].addr)
        }),
{
    s.lemma_wf();
    assert(s.agreements()[i].wf());
}

} // verus!
