use vstd::prelude::*;

use crate::types::AccountId;

verus! {

/// No signature collected yet.
pub const STATUS_DRAFT: u8 = 0;

/// Some signatures collected, not yet from every signer.
pub const STATUS_COLLECTING: u8 = 1;

/// Every signer has signed.
pub const STATUS_FINALIZED: u8 = 2;

/// A document or resource: its hash, who attached it, and where it is kept.
#[derive(Debug, Clone, PartialEq, Eq)]
pub struct StorageInfo {
    pub hash: crate::types::Hash,
    pub creator: AccountId,
    /// What it is for, such as a document or a comment.
    pub usage: String,
    /// Which store keeps it, such as ipfs.
    pub save_at: String,
    /// Where it is found.
    pub url: String,
}

impl StorageInfo {
    /// A field-by-field copy.
    pub fn duplicate(&self) -> (r: StorageInfo)
        ensures
            r == *self,
    {
        StorageInfo {
            hash: self.hash,
            creator: self.creator,
            usage: self.usage.clone(),
            save_at: self.save_at.clone(),
            url: self.url.clone(),
        }
    }
}

/// One signer's signature on an agreement.
#[derive(Debug, Clone, PartialEq, Eq)]
pub struct SignInfo {
    pub sign: Vec<u8>,
    pub addr: AccountId,
    pub create_at: u64,
}

/// What a `SignInfo` holds.
pub struct SignRecord {
    pub sign: Seq<u8>,
    pub addr: AccountId,
    pub create_at: u64,
}

impl View for SignInfo {
    type V = SignRecord;

    open spec fn view(&self) -> SignRecord {
        SignRecord { sign: self.sign@, addr: self.addr, create_at: self.create_at }
    }
}

impl SignInfo {
    /// A field-by-field copy.
    pub fn duplicate(&self) -> (r: SignInfo)
        ensures
            r@ == self@,
    {
        let sign = self.sign.clone();
        assert(sign@ =~= self.sign@);
        SignInfo { sign, addr: self.addr, create_at: self.create_at }
    }
}

/// The resources that one signer attached, in the order attached.
#[derive(Debug, Clone, PartialEq, Eq)]
pub struct SignerResources {
    pub addr: AccountId,
    pub items: Vec<StorageInfo>,
}

impl View for SignerResources {
    type V = (AccountId, Seq<StorageInfo>);

    open spec fn view(&self) -> (AccountId, Seq<StorageInfo>) {
        (self.addr, self.items@)
    }
}

/// An agreement: a document that a fixed list of signers must each sign.
#[derive(Debug, Clone, PartialEq, Eq)]
pub struct AgreementInfo {
    pub index: u64,
    pub creator: AccountId,
    pub name: String,
    pub create_at: u64,
    /// One of `STATUS_DRAFT`, `STATUS_COLLECTING`, `STATUS_FINALIZED`.
    pub status: u8,
    pub signers: Vec<AccountId>,
    pub agreement_file: StorageInfo,
    /// At most one signature per signer, in the order first recorded.
    pub sign_infos: Vec<SignInfo>,
    /// Each signer's attached resources, one entry per signer, in the order first attached.
    pub resources: Vec<SignerResources>,
}

/// What an `AgreementInfo` holds.
pub struct AgreementModel {
    pub index: u64,
    pub creator: AccountId,
    pub name: Seq<char>,
    pub create_at: u64,
    pub status: u8,
    pub signers: Seq<AccountId>,
    pub agreement_file: StorageInfo,
    pub sign_infos: Seq<SignRecord>,
    pub resources: Seq<(AccountId, Seq<StorageInfo>)>,
}

impl View for AgreementInfo {
    type V = AgreementModel;

    open spec fn view(&self) -> AgreementModel {
        AgreementModel {
            index: self.index,
            creator: self.creator,
            name: self.name@,
            create_at: self.create_at,
            status: self.status,
            signers: self.signers@,
            agreement_file: self.agreement_file,
            sign_infos: self.sign_infos@.map_values(|s: SignInfo| s@),
            resources: self.resources@.map_values(|r: SignerResources| r@),
        }
    }
}

/// Whether `a` has a signature in `s`.
pub open spec fn has_signed(s: Seq<SignRecord>, a: AccountId) -> bool {
    exists|k: int| 0 <= k < s.len() && #[trigger] s[k].addr == a
}

/// Whether `a` has a resource list in `r`.
pub open spec fn has_resources(r: Seq<(AccountId, Seq<StorageInfo>)>, a: AccountId) -> bool {
    exists|k: int| 0 <= k < r.len() && #[trigger] r[k].0 == a
}

/// `s` with `rec` in place of its signer's earlier record, or appended if there was none.
pub open spec fn with_signature(s: Seq<SignRecord>, rec: SignRecord) -> Seq<SignRecord> {
    if has_signed(s, rec.addr) {
        s.update(choose|k: int| 0 <= k < s.len() && #[trigger] s[k].addr == rec.addr, rec)
    } else {
        s.push(rec)
    }
}

/// `r` with `info` appended to the list of `a`, which is started if there was none.
pub open spec fn with_resource(
    r: Seq<(AccountId, Seq<StorageInfo>)>,
    a: AccountId,
    info: StorageInfo,
) -> Seq<(AccountId, Seq<StorageInfo>)> {
    if has_resources(r, a) {
        let k = choose|k: int| 0 <= k < r.len() && #[trigger] r[k].0 == a;
        r.update(k, (a, r[k].1.push(info)))
    } else {
        r.push((a, seq![info]))
    }
}

/// The status that follows once `signed` distinct signers of `required` have signed.
pub open spec fn status_after(signed: nat, required: nat) -> u8 {
    if signed >= required {
        STATUS_FINALIZED
    } else {
        STATUS_COLLECTING
    }
}

impl AgreementModel {
    /// Each signer has at most one signature, and only listed signers have one.
    pub open spec fn signs_wf(&self) -> bool {
        &&& forall|i: int, j: int|
            0 <= i < j < self.sign_infos.len() ==> #[trigger] self.sign_infos[i].addr
                != #[trigger] self.sign_infos[j].addr
        &&& forall|i: int|
            0 <= i < self.sign_infos.len() ==> self.signers.contains(
                #[trigger] self.sign_infos[i].addr,
            )
    }

    /// Each signer has at most one resource list, and only listed signers have one.
    pub open spec fn resources_wf(&self) -> bool {
        &&& forall|i: int, j: int|
            0 <= i < j < self.resources.len() ==> #[trigger] self.resources[i].0
                != #[trigger] self.resources[j].0
        &&& forall|i: int|
            0 <= i < self.resources.len() ==> self.signers.contains(#[trigger] self.resources[i].0)
    }

    /// The status follows the signatures: a draft has none, and once one is recorded
    /// the agreement is finalized exactly when every signer has signed. An agreement
    /// with no signers can take no signature, so it stays a draft.
    pub open spec fn status_wf(&self) -> bool {
        &&& self.sign_infos.len() == 0 ==> self.status == STATUS_DRAFT
        &&& self.sign_infos.len() > 0 ==> self.status == status_after(
            self.sign_infos.len(),
            self.signers.len(),
        )
    }

    pub open spec fn wf(&self) -> bool {
        &&& self.signs_wf()
        &&& self.resources_wf()
        &&& self.status_wf()
    }
}

/// Whether `a` is in `v`.
pub fn contains_account(v: &Vec<AccountId>, a: &AccountId) -> (r: bool)
    ensures
        r == v@.contains(*a),
{
    let mut i: usize = 0;
    while i < v.len()
        invariant
            0 <= i <= v@.len(),
            forall|j: int| 0 <= j < i ==> v@[j] != *a,
        decreases v@.len() - i,
    {
        if v[i].same_as(a) {
            return true;
        }
        i = i + 1;
    }
    false
}

impl AgreementInfo {
    /// Whether `a` is one of the required signers.
    pub fn is_signer(&self, a: &AccountId) -> (r: bool)
        ensures
            r == self.signers@.contains(*a),
    {
        contains_account(&self.signers, a)
    }

    /// Where the signature of `a` stands, if it has one.
    fn sign_slot(&self, a: &AccountId) -> (r: Option<usize>)
        ensures
            r matches Some(k) ==> k < self.sign_infos@.len() && self.sign_infos@[k as int].addr == *a,
            r is None ==> !has_signed(self@.sign_infos, *a),
    {
        let mut i: usize = 0;
        while i < self.sign_infos.len()
            invariant
                0 <= i <= self.sign_infos@.len(),
                forall|j: int| 0 <= j < i ==> self.sign_infos@[j].addr != *a,
            decreases self.sign_infos@.len() - i,
        {
            if self.sign_infos[i].addr.same_as(a) {
                return Some(i);
            }
            i = i + 1;
        }
        assert forall|k: int| 0 <= k < self@.sign_infos.len() implies #[trigger] self@.sign_infos[k].addr
            != *a by {
            assert(self@.sign_infos[k] == self.sign_infos@[k]@);
        }
        None
    }

    /// Where the resource list of `a` stands, if it has one.
    fn resource_slot(&self, a: &AccountId) -> (r: Option<usize>)
        ensures
            r matches Some(k) ==> k < self.resources@.len() && self.resources@[k as int].addr == *a,
            r is None ==> !has_resources(self@.resources, *a),
    {
        let mut i: usize = 0;
        while i < self.resources.len()
            invariant
                0 <= i <= self.resources@.len(),
                forall|j: int| 0 <= j < i ==> self.resources@[j].addr != *a,
            decreases self.resources@.len() - i,
        {
            if self.resources[i].addr.same_as(a) {
                return Some(i);
            }
            i = i + 1;
        }
        assert forall|k: int| 0 <= k < self@.resources.len() implies #[trigger] self@.resources[k].0
            != *a by {
            assert(self@.resources[k] == self.resources@[k]@);
        }
        None
    }

    /// Records the signature `info` of a listed signer, replacing an earlier one of the
    /// same signer, and moves the status on: finalized once every signer has signed,
    /// collecting before that.
    pub fn record_sign(&mut self, info: SignInfo)
        requires
            old(self)@.wf(),
            old(self)@.signers.contains(info.addr),
        ensures
            final(self)@ == signed(old(self)@, info@),
            final(self)@.wf(),
    {
        let ghost s0 = self@.sign_infos;
        let ghost rec = info@;
        match self.sign_slot(&info.addr) {
            Some(k) => {
                proof {
                    assert(s0[k as int] == self.sign_infos@[k as int]@);
                    assert(s0[k as int].addr == rec.addr);
                    assert(has_signed(s0, rec.addr));
                    let kk = choose|k: int| 0 <= k < s0.len() && #[trigger] s0[k].addr == rec.addr;
                    if kk != k as int {
                        if kk < k as int {
                            assert(s0[kk].addr != s0[k as int].addr);
                        } else {
                            assert(s0[k as int].addr != s0[kk].addr);
                        }
                    }
                }
                self.sign_infos.set(k, info);
                assert(self@.sign_infos =~= s0.update(k as int, rec));
            },
            None => {
                self.sign_infos.push(info);
                assert(self@.sign_infos =~= s0.push(rec));
            },
        }
        if self.sign_infos.len() >= self.signers.len() {
            self.status = STATUS_FINALIZED;
        } else {
            self.status = STATUS_COLLECTING;
        }
        proof {
            let s1 = self@.sign_infos;
            assert forall|i: int, j: int| 0 <= i < j < s1.len() implies #[trigger] s1[i].addr
                != #[trigger] s1[j].addr by {
                if i < s0.len() && j < s0.len() {
                    if s1[i] != s0[i] {
                        assert(s1[i] == rec);
                    }
                    if s1[j] != s0[j] {
                        assert(s1[j] == rec);
                    }
                }
            }
            assert forall|i: int| 0 <= i < s1.len() implies self@.signers.contains(
                #[trigger] s1[i].addr,
            ) by {
                if i < s0.len() && s1[i] == s0[i] {
                } else {
                    assert(s1[i] == rec);
                }
            }
        }
    }
}

impl AgreementInfo {
    /// Appends `info` to the resources of the listed signer `a`.
    pub fn attach(&mut self, a: AccountId, info: StorageInfo)
        requires
            old(self)@.wf(),
            old(self)@.signers.contains(a),
        ensures
            final(self)@ == attached(old(self)@, a, info),
            final(self)@.wf(),
    {
        let ghost r0 = self@.resources;
        match self.resource_slot(&a) {
            Some(k) => {
                proof {
                    assert(r0[k as int] == self.resources@[k as int]@);
                    assert(r0[k as int].0 == a);
                    assert(has_resources(r0, a));
                    let kk = choose|k: int| 0 <= k < r0.len() && #[trigger] r0[k].0 == a;
                    if kk != k as int {
                        if kk < k as int {
                            assert(r0[kk].0 != r0[k as int].0);
                        } else {
                            assert(r0[k as int].0 != r0[kk].0);
                        }
                    }
                }
                self.resources[k].items.push(info);
                assert(self@.resources =~= r0.update(k as int, (a, r0[k as int].1.push(info))));
            },
            None => {
                let mut items: Vec<StorageInfo> = Vec::new();
                items.push(info);
                assert(items@ =~= seq![info]);
                self.resources.push(SignerResources { addr: a, items });
                assert(self@.resources =~= r0.push((a, seq![info])));
            },
        }
        proof {
            let r1 = self@.resources;
            assert forall|i: int, j: int| 0 <= i < j < r1.len() implies #[trigger] r1[i].0
                != #[trigger] r1[j].0 by {
                if i < r0.len() && j < r0.len() {
                    assert(r1[i].0 == r0[i].0);
                    assert(r1[j].0 == r0[j].0);
                }
            }
            assert forall|i: int| 0 <= i < r1.len() implies self@.signers.contains(
                #[trigger] r1[i].0,
            ) by {
                if i < r0.len() {
                    assert(r1[i].0 == r0[i].0);
                }
            }
        }
    }
}

/// An agreement as clients see it: signatures and resources as flat lists.
#[derive(Debug, Clone, PartialEq, Eq)]
pub struct AgreementInfoDisplay {
    pub index: u64,
    pub creator: AccountId,
    pub name: String,
    pub create_at: u64,
    pub status: u8,
    pub signers: Vec<AccountId>,
    pub agreement_file: StorageInfo,
    pub sign_infos: Vec<SignInfo>,
    pub resources: Vec<StorageInfo>,
}

/// What an `AgreementInfoDisplay` holds.
pub struct DisplayModel {
    pub index: u64,
    pub creator: AccountId,
    pub name: Seq<char>,
    pub create_at: u64,
    pub status: u8,
    pub signers: Seq<AccountId>,
    pub agreement_file: StorageInfo,
    pub sign_infos: Seq<SignRecord>,
    pub resources: Seq<StorageInfo>,
}

impl View for AgreementInfoDisplay {
    type V = DisplayModel;

    open spec fn view(&self) -> DisplayModel {
        DisplayModel {
            index: self.index,
            creator: self.creator,
            name: self.name@,
            create_at: self.create_at,
            status: self.status,
            signers: self.signers@,
            agreement_file: self.agreement_file,
            sign_infos: self.sign_infos@.map_values(|s: SignInfo| s@),
            resources: self.resources@,
        }
    }
}

/// The resource lists of all signers, one after the other.
pub open spec fn flatten(r: Seq<(AccountId, Seq<StorageInfo>)>) -> Seq<StorageInfo>
    decreases r.len(),
{
    if r.len() == 0 {
        seq![]
    } else {
        flatten(r.drop_last()) + r.last().1
    }
}

/// How an agreement is shown to clients.
pub open spec fn display_of(a: AgreementModel) -> DisplayModel {
    DisplayModel {
        index: a.index,
        creator: a.creator,
        name: a.name,
        create_at: a.create_at,
        status: a.status,
        signers: a.signers,
        agreement_file: a.agreement_file,
        sign_infos: a.sign_infos,
        resources: flatten(a.resources),
    }
}

impl AgreementInfo {
    /// The client view of this agreement.
    pub fn to_display(&self) -> (r: AgreementInfoDisplay)
        ensures
            r@ == display_of(self@),
    {
        let mut signers: Vec<AccountId> = Vec::new();
        let mut i: usize = 0;
        while i < self.signers.len()
            invariant
                0 <= i <= self.signers@.len(),
                signers@ =~= self.signers@.take(i as int),
            decreases self.signers@.len() - i,
        {
            signers.push(self.signers[i]);
            i = i + 1;
        }
        let mut sign_infos: Vec<SignInfo> = Vec::new();
        let mut i: usize = 0;
        while i < self.sign_infos.len()
            invariant
                0 <= i <= self.sign_infos@.len(),
                sign_infos@.len() == i,
                forall|j: int| 0 <= j < i ==> #[trigger] sign_infos@[j]@ == self.sign_infos@[j]@,
            decreases self.sign_infos@.len() - i,
        {
            let s = self.sign_infos[i].duplicate();
            sign_infos.push(s);
            i = i + 1;
        }
        let mut resources: Vec<StorageInfo> = Vec::new();
        let mut i: usize = 0;
        while i < self.resources.len()
            invariant
                0 <= i <= self.resources@.len(),
                resources@ =~= flatten(self@.resources.take(i as int)),
            decreases self.resources@.len() - i,
        {
            let items = &self.resources[i].items;
            let ghost before = resources@;
            let mut j: usize = 0;
            while j < items.len()
                invariant
                    0 <= j <= items@.len(),
                    resources@ =~= before + items@.take(j as int),
                decreases items@.len() - j,
            {
                resources.push(items[j].duplicate());
                j = j + 1;
            }
            proof {
                let t = self@.resources.take(i + 1);
                assert(t.drop_last() =~= self@.resources.take(i as int));
                assert(t.last().1 == items@);
                assert(items@.take(j as int) =~= items@);
            }
            i = i + 1;
        }
        assert(signers@ =~= self.signers@);
        assert(sign_infos@.map_values(|s: SignInfo| s@) =~= self@.sign_infos);
        assert(self@.resources.take(self.resources@.len() as int) =~= self@.resources);
        AgreementInfoDisplay {
            index: self.index,
            creator: self.creator,
            name: self.name.clone(),
            create_at: self.create_at,
            status: self.status,
            signers,
            agreement_file: self.agreement_file.duplicate(),
            sign_infos,
            resources,
        }
    }
}

/// What a creator hands in to open an agreement.
#[derive(Debug, Clone, PartialEq, Eq)]
pub struct CreateAgreementParams {
    pub name: String,
    pub signers: Vec<AccountId>,
    pub agreement_file: StorageInfo,
}

/// A new agreement number `index`, opened by `caller` at time `now`: a draft with no
/// signatures or resources, whose document is recorded as created by `caller`.
pub open spec fn new_agreement(
    index: u64,
    caller: AccountId,
    now: u64,
    params: CreateAgreementParams,
) -> AgreementModel {
    AgreementModel {
        index,
        creator: caller,
        name: params.name@,
        create_at: now,
        status: STATUS_DRAFT,
        signers: params.signers@,
        agreement_file: StorageInfo { creator: caller, ..params.agreement_file },
        sign_infos: seq![],
        resources: seq![],
    }
}

/// `a` once the signature `rec` is recorded and the status moved on.
pub open spec fn signed(a: AgreementModel, rec: SignRecord) -> AgreementModel {
    AgreementModel {
        sign_infos: with_signature(a.sign_infos, rec),
        status: status_after(with_signature(a.sign_infos, rec).len(), a.signers.len()),
        ..a
    }
}

/// `a` once `info` is attached for the signer `acc`.
pub open spec fn attached(a: AgreementModel, acc: AccountId, info: StorageInfo) -> AgreementModel {
    AgreementModel { resources: with_resource(a.resources, acc, info), ..a }
}

} // verus!
