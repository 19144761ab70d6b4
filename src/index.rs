//! Per-account lists of agreement indices, and what they must agree with.
use vstd::prelude::*;

use crate::agreement::AgreementModel;
use crate::types::AccountId;

verus! {

/// The agreement indices that one account is listed under, oldest first.
#[derive(Debug, Clone, PartialEq, Eq)]
pub struct IdList {
    pub account: AccountId,
    pub ids: Vec<u64>,
}

/// Whether `a` is listed on agreement `ag`: as its creator, or else as one of its signers.
pub open spec fn involves(ag: AgreementModel, a: AccountId, as_creator: bool) -> bool {
    if as_creator {
        ag.creator == a
    } else {
        ag.signers.contains(a)
    }
}

/// The indices of the agreements in `ags` that list `a`, in order.
pub open spec fn ids_of(ags: Seq<AgreementModel>, a: AccountId, as_creator: bool) -> Seq<u64>
    decreases ags.len(),
{
    if ags.len() == 0 {
        seq![]
    } else {
        let rest = ids_of(ags.drop_last(), a, as_creator);
        if involves(ags.last(), a, as_creator) {
            rest.push(ags.last().index)
        } else {
            rest
        }
    }
}

/// Whether `l` has an entry for `a`.
pub open spec fn has_entry(l: Seq<IdList>, a: AccountId) -> bool {
    exists|k: int| 0 <= k < l.len() && #[trigger] l[k].account == a
}

/// The indices that `l` lists for `a`; none if it has no entry for `a`.
pub open spec fn listed(l: Seq<IdList>, a: AccountId) -> Seq<u64> {
    if has_entry(l, a) {
        l[choose|k: int| 0 <= k < l.len() && #[trigger] l[k].account == a].ids@
    } else {
        seq![]
    }
}

/// No account has two entries in `l`.
pub open spec fn entries_unique(l: Seq<IdList>) -> bool {
    forall|i: int, j: int|
        0 <= i < j < l.len() ==> #[trigger] l[i].account != #[trigger] l[j].account
}

/// `l` lists, for each account, exactly the agreements of `ags` that list it.
pub open spec fn index_matches(l: Seq<IdList>, ags: Seq<AgreementModel>, as_creator: bool) -> bool {
    &&& entries_unique(l)
    &&& forall|a: AccountId| #[trigger] listed(l, a) == ids_of(ags, a, as_creator)
}

/// Agreement `i` of `ags` has index `i`.
pub open spec fn numbered(ags: Seq<AgreementModel>) -> bool {
    forall|i: int| 0 <= i < ags.len() ==> (#[trigger] ags[i]).index == i
}

pub(crate) proof fn lemma_listed_at(l: Seq<IdList>, a: AccountId, k: int)
    requires
        entries_unique(l),
        0 <= k < l.len(),
        l[k].account == a,
    ensures
        listed(l, a) == l[k].ids@,
{
    assert(has_entry(l, a));
    let kk = choose|k: int| 0 <= k < l.len() && #[trigger] l[k].account == a;
    if kk < k {
        assert(l[kk].account != l[k].account);
    } else if k < kk {
        assert(l[k].account != l[kk].account);
    }
}

/// Every index listed for `a` is that of an agreement in `ags` that lists `a`, and the
/// indices strictly increase.
pub proof fn lemma_ids_sound(ags: Seq<AgreementModel>, a: AccountId, as_creator: bool)
    requires
        numbered(ags),
    ensures
        forall|j: int|
            0 <= j < ids_of(ags, a, as_creator).len() ==> {
                let id = #[trigger] ids_of(ags, a, as_creator)[j];
                &&& id < ags.len()
                &&& involves(ags[id as int], a, as_creator)
            },
        forall|i: int, j: int|
            0 <= i < j < ids_of(ags, a, as_creator).len() ==> #[trigger] ids_of(
                ags,
                a,
                as_creator,
            )[i] < #[trigger] ids_of(ags, a, as_creator)[j],
    decreases ags.len(),
{
    if ags.len() > 0 {
        let init = ags.drop_last();
        assert forall|i: int| 0 <= i < init.len() implies (#[trigger] init[i]).index == i by {
            assert(init[i] == ags[i]);
        }
        lemma_ids_sound(init, a, as_creator);
        let rest = ids_of(init, a, as_creator);
        let ids = ids_of(ags, a, as_creator);
        assert(ags.last().index == ags.len() - 1);
        assert forall|j: int| 0 <= j < ids.len() implies {
            let id = #[trigger] ids[j];
            &&& id < ags.len()
            &&& involves(ags[id as int], a, as_creator)
        } by {
            if j < rest.len() {
                assert(ids[j] == rest[j]);
                assert(init[rest[j] as int] == ags[rest[j] as int]);
            }
        }
        assert forall|i: int, j: int| 0 <= i < j < ids.len() implies #[trigger] ids[i]
            < #[trigger] ids[j] by {
            if j < rest.len() {
                assert(ids[i] == rest[i] && ids[j] == rest[j]);
            } else {
                assert(ids[i] == rest[i]);
                assert(rest[i] < init.len());
            }
        }
    }
}

/// `s` with `id` appended, unless `id` is already its last element.
pub open spec fn appended(s: Seq<u64>, id: u64) -> Seq<u64> {
    if s.len() > 0 && s.last() == id {
        s
    } else {
        s.push(id)
    }
}

/// Where the entry of `a` stands in `l`, if it has one.
pub(crate) fn find_entry(l: &Vec<IdList>, a: &AccountId) -> (r: Option<usize>)
    ensures
        r matches Some(k) ==> k < l@.len() && l@[k as int].account == *a,
        r is None ==> !has_entry(l@, *a),
{
    let mut i: usize = 0;
    while i < l.len()
        invariant
            0 <= i <= l@.len(),
            forall|j: int| 0 <= j < i ==> l@[j].account != *a,
        decreases l@.len() - i,
    {
        if l[i].account.same_as(a) {
            return Some(i);
        }
        i = i + 1;
    }
    None
}

/// Adds `id` to the entry of `a`, starting one if there is none; an `id` that the
/// entry already ends with is not added twice.
pub(crate) fn add_to_index(l: &mut Vec<IdList>, a: AccountId, id: u64)
    requires
        entries_unique(old(l)@),
    ensures
        entries_unique(final(l)@),
        listed(final(l)@, a) == appended(listed(old(l)@, a), id),
        forall|b: AccountId| b != a ==> #[trigger] listed(final(l)@, b) == listed(old(l)@, b),
{
    let ghost l0 = l@;
    match find_entry(l, &a) {
        Some(k) => {
            proof {
                lemma_listed_at(l0, a, k as int);
            }
            let n = l[k].ids.len();
            if n == 0 || l[k].ids[n - 1] != id {
                l[k].ids.push(id);
            }
            proof {
                let l1 = l@;
                assert forall|i: int, j: int| 0 <= i < j < l1.len() implies #[trigger] l1[i].account
                    != #[trigger] l1[j].account by {
                    assert(l1[i].account == l0[i].account && l1[j].account == l0[j].account);
                }
                lemma_listed_at(l1, a, k as int);
                assert(l1[k as int].ids@ =~= appended(l0[k as int].ids@, id));
                assert forall|b: AccountId| b != a implies #[trigger] listed(l1, b) == listed(l0, b) by {
                    if has_entry(l0, b) {
                        let kb = choose|k: int| 0 <= k < l0.len() && #[trigger] l0[k].account == b;
                        lemma_listed_at(l0, b, kb);
                        assert(l1[kb] == l0[kb]);
                        lemma_listed_at(l1, b, kb);
                    } else {
                        assert(!has_entry(l1, b)) by {
                            if has_entry(l1, b) {
                                let kb = choose|k: int| 0 <= k < l1.len() && #[trigger] l1[k].account == b;
                                assert(l0[kb].account == b);
                            }
                        }
                    }
                }
            }
        },
        None => {
            let mut ids: Vec<u64> = Vec::new();
            ids.push(id);
            l.push(IdList { account: a, ids });
            proof {
                let l1 = l@;
                assert(l1 =~= l0.push(IdList { account: a, ids }));
                assert forall|i: int, j: int| 0 <= i < j < l1.len() implies #[trigger] l1[i].account
                    != #[trigger] l1[j].account by {
                    if j == l0.len() {
                        assert(l0[i].account != a);
                    } else {
                        assert(l1[i] == l0[i] && l1[j] == l0[j]);
                    }
                }
                lemma_listed_at(l1, a, l0.len() as int);
                assert(ids@ =~= seq![id]);
                assert(seq![id] =~= Seq::<u64>::empty().push(id));
                assert forall|b: AccountId| b != a implies #[trigger] listed(l1, b) == listed(l0, b) by {
                    if has_entry(l0, b) {
                        let kb = choose|k: int| 0 <= k < l0.len() && #[trigger] l0[k].account == b;
                        lemma_listed_at(l0, b, kb);
                        assert(l1[kb] == l0[kb]);
                        lemma_listed_at(l1, b, kb);
                    } else {
                        assert(!has_entry(l1, b)) by {
                            if has_entry(l1, b) {
                                let kb = choose|k: int| 0 <= k < l1.len() && #[trigger] l1[k].account == b;
                                if kb < l0.len() {
                                    assert(l0[kb].account == b);
                                }
                            }
                        }
                    }
                }
            }
        },
    }
}

/// `ids_of` over one more agreement.
pub(crate) proof fn lemma_ids_of_push(
    ags: Seq<AgreementModel>,
    ag: AgreementModel,
    a: AccountId,
    as_creator: bool,
)
    ensures
        ids_of(ags.push(ag), a, as_creator) == if involves(ag, a, as_creator) {
            ids_of(ags, a, as_creator).push(ag.index)
        } else {
            ids_of(ags, a, as_creator)
        },
{
    assert(ags.push(ag).drop_last() =~= ags);
}

/// `ids_of` reads only the index, creator and signers of each agreement.
pub(crate) proof fn lemma_ids_of_same(
    ags1: Seq<AgreementModel>,
    ags2: Seq<AgreementModel>,
    a: AccountId,
    as_creator: bool,
)
    requires
        ags1.len() == ags2.len(),
        forall|i: int|
            0 <= i < ags1.len() ==> (#[trigger] ags1[i]).index == ags2[i].index && ags1[i].creator
                == ags2[i].creator && ags1[i].signers == ags2[i].signers,
    ensures
        ids_of(ags1, a, as_creator) == ids_of(ags2, a, as_creator),
    decreases ags1.len(),
{
    if ags1.len() > 0 {
        let i1 = ags1.drop_last();
        let i2 = ags2.drop_last();
        assert forall|i: int| 0 <= i < i1.len() implies (#[trigger] i1[i]).index == i2[i].index
            && i1[i].creator == i2[i].creator && i1[i].signers == i2[i].signers by {
            assert(i1[i] == ags1[i] && i2[i] == ags2[i]);
        }
        lemma_ids_of_same(i1, i2, a, as_creator);
        assert(ags1.last() == ags1[ags1.len() - 1]);
    }
}

/// Each account is listed on an agreement exactly when the agreement lists it.
pub(crate) proof fn lemma_ids_complete(ags: Seq<AgreementModel>, a: AccountId, as_creator: bool, i: int)
    requires
        numbered(ags),
        0 <= i < ags.len(),
    ensures
        ids_of(ags, a, as_creator).contains(i as u64) <==> involves(ags[i], a, as_creator),
    decreases ags.len(),
{
    let init = ags.drop_last();
    let ids = ids_of(ags, a, as_creator);
    let rest = ids_of(init, a, as_creator);
    assert forall|k: int| 0 <= k < init.len() implies (#[trigger] init[k]).index == k by {
        assert(init[k] == ags[k]);
    }
    lemma_ids_sound(init, a, as_creator);
    if i == ags.len() - 1 {
        assert(ags.last().index == i);
        if involves(ags[i], a, as_creator) {
            assert(ids[ids.len() - 1] == i as u64);
        } else {
            assert(ids == rest);
            if rest.contains(i as u64) {
                let k = choose|k: int| 0 <= k < rest.len() && rest[k] == i as u64;
                assert(rest[k] < init.len());
            }
        }
    } else {
        lemma_ids_complete(init, a, as_creator, i);
        assert(init[i] == ags[i]);
        if rest.contains(i as u64) {
            let k = choose|k: int| 0 <= k < rest.len() && rest[k] == i as u64;
            assert(ids[k] == rest[k]);
        }
        if ids.contains(i as u64) {
            let k = choose|k: int| 0 <= k < ids.len() && ids[k] == i as u64;
            if k == rest.len() {
                assert(ags.last().index == ags.len() - 1);
            } else {
                assert(rest[k] == ids[k]);
            }
        }
    }
}

} // verus!
