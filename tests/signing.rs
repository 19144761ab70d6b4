use std::cell::RefCell;

use polkasign::{
    frame_bytes, AccountId, CreateAgreementParams, CryptoExtension, CryptoExtensionErr, PageParams,
    Polkasign, PolkasignError, SignScheme, StorageInfo, STATUS_COLLECTING, STATUS_DRAFT,
    STATUS_FINALIZED,
};

/// A host that accepts exactly one signature, `valid_sign`, whatever the account and
/// message, and records every message it was asked about.
struct MockHost {
    valid_sign: [u8; 64],
    seen: RefCell<Vec<Vec<u8>>>,
}

impl MockHost {
    fn new(valid_sign: [u8; 64]) -> MockHost {
        MockHost { valid_sign, seen: RefCell::new(Vec::new()) }
    }
}

impl CryptoExtension for MockHost {
    fn sr25519_accepts(&self, _account: [u8; 32], _msg: vstd::seq::Seq<u8>, sign: [u8; 64]) -> bool {
        sign == self.valid_sign
    }

    fn fetch_random(&self) -> [u8; 32] {
        [9u8; 32]
    }

    fn verify_sr25519(&self, _account: [u8; 32], msg: [u8; 32], sign: [u8; 64]) -> Result<(), CryptoExtensionErr> {
        self.seen.borrow_mut().push(msg.to_vec());
        if sign == self.valid_sign {
            Ok(())
        } else {
            Err(CryptoExtensionErr::VerifyErr)
        }
    }

    fn verify_sr25519_bytes(&self, _account: [u8; 32], msg: [u8; 47], sign: [u8; 64]) -> Result<(), CryptoExtensionErr> {
        self.seen.borrow_mut().push(msg.to_vec());
        if sign == self.valid_sign {
            Ok(())
        } else {
            Err(CryptoExtensionErr::VerifyErr)
        }
    }
}

const GOOD: [u8; 64] = [5u8; 64];
const BAD: [u8; 64] = [6u8; 64];

fn acct(b: u8) -> AccountId {
    [b; 32].into()
}

fn doc(hash: u8) -> StorageInfo {
    StorageInfo {
        hash: [hash; 32].into(),
        creator: acct(99),
        usage: "doc".to_string(),
        save_at: "ipfs".to_string(),
        url: "http://ipfs.io/xxxx".to_string(),
    }
}

fn params(signers: Vec<AccountId>) -> CreateAgreementParams {
    CreateAgreementParams { name: "deal".to_string(), signers, agreement_file: doc(7) }
}

fn framed(hash: u8) -> Vec<u8> {
    let mut v = b"<Bytes>".to_vec();
    v.extend_from_slice(&[hash; 32]);
    v.extend_from_slice(b"</Bytes>");
    v
}

#[test]
fn single_signer_finalizes() {
    let host = MockHost::new(GOOD);
    let mut s = Polkasign::new(acct(0));
    let id = s.create_agreement(acct(3), 10, params(vec![acct(1)])).unwrap();
    assert_eq!(s.query_agreement_by_id(id).unwrap().status, STATUS_DRAFT);
    s.sign_agreement(&host, acct(1), 20, id, GOOD, SignScheme::Sr25519Bytes).unwrap();
    let a = s.query_agreement_by_id(id).unwrap();
    assert_eq!(a.status, STATUS_FINALIZED);
    assert_eq!(a.sign_infos.len(), 1);
    assert_eq!(a.sign_infos[0].addr, acct(1));
    assert_eq!(a.sign_infos[0].sign, GOOD.to_vec());
    assert_eq!(a.sign_infos[0].create_at, 20);
    assert_eq!(host.seen.borrow().clone(), vec![framed(7)]);
}

#[test]
fn two_signers_collect_then_finalize() {
    let host = MockHost::new(GOOD);
    let mut s = Polkasign::new(acct(0));
    let id = s.create_agreement(acct(3), 10, params(vec![acct(1), acct(2)])).unwrap();
    s.sign_agreement(&host, acct(1), 20, id, GOOD, SignScheme::Sr25519).unwrap();
    assert_eq!(s.query_agreement_by_id(id).unwrap().status, STATUS_COLLECTING);
    s.sign_agreement(&host, acct(2), 21, id, GOOD, SignScheme::Sr25519).unwrap();
    assert_eq!(s.query_agreement_by_id(id).unwrap().status, STATUS_FINALIZED);
    assert_eq!(host.seen.borrow().clone(), vec![vec![7u8; 32], vec![7u8; 32]]);
}

#[test]
fn resigning_does_not_count_twice() {
    let host = MockHost::new(GOOD);
    let mut s = Polkasign::new(acct(0));
    let id = s.create_agreement(acct(3), 10, params(vec![acct(1), acct(2)])).unwrap();
    s.sign_agreement(&host, acct(1), 20, id, GOOD, SignScheme::Sr25519).unwrap();
    s.sign_agreement(&host, acct(1), 30, id, GOOD, SignScheme::Sr25519).unwrap();
    let a = s.query_agreement_by_id(id).unwrap();
    assert_eq!(a.status, STATUS_COLLECTING);
    assert_eq!(a.sign_infos.len(), 1);
    assert_eq!(a.sign_infos[0].create_at, 30);
}

#[test]
fn invalid_signature_changes_nothing() {
    let host = MockHost::new(GOOD);
    let mut s = Polkasign::new(acct(0));
    let id = s.create_agreement(acct(3), 10, params(vec![acct(1), acct(2)])).unwrap();
    s.sign_agreement(&host, acct(1), 20, id, GOOD, SignScheme::Sr25519).unwrap();
    let before = s.query_agreement_by_id(id).unwrap();
    assert_eq!(
        s.sign_agreement(&host, acct(2), 21, id, BAD, SignScheme::Sr25519),
        Err(PolkasignError::InvalidSignature)
    );
    assert_eq!(s.query_agreement_by_id(id).unwrap(), before);
}

#[test]
fn outsider_cannot_sign() {
    let host = MockHost::new(GOOD);
    let mut s = Polkasign::new(acct(0));
    let id = s.create_agreement(acct(3), 10, params(vec![acct(1)])).unwrap();
    assert_eq!(
        s.sign_agreement(&host, acct(4), 20, id, GOOD, SignScheme::Sr25519),
        Err(PolkasignError::NotSigner)
    );
    assert_eq!(s.query_agreement_by_id(id).unwrap().status, STATUS_DRAFT);
    assert!(host.seen.borrow().is_empty());
}

#[test]
fn signing_unknown_agreement_fails() {
    let host = MockHost::new(GOOD);
    let mut s = Polkasign::new(acct(0));
    assert_eq!(
        s.sign_agreement(&host, acct(1), 20, 0, GOOD, SignScheme::Sr25519),
        Err(PolkasignError::AgreementNotFound)
    );
    assert_eq!(s.query_agreement_by_id(0), Err(PolkasignError::AgreementNotFound));
}

#[test]
fn outsider_cannot_attach() {
    let mut s = Polkasign::new(acct(0));
    let id = s.create_agreement(acct(3), 10, params(vec![acct(1)])).unwrap();
    assert_eq!(
        s.attach_resource_to_agreement(acct(4), id, doc(2)),
        Err(PolkasignError::NotSigner)
    );
    assert!(s.query_agreement_by_id(id).unwrap().resources.is_empty());
    assert_eq!(
        s.attach_resource_to_agreement(acct(1), 5, doc(2)),
        Err(PolkasignError::AgreementNotFound)
    );
}

#[test]
fn resources_group_by_signer() {
    let mut s = Polkasign::new(acct(0));
    let id = s.create_agreement(acct(3), 10, params(vec![acct(1), acct(2)])).unwrap();
    s.attach_resource_to_agreement(acct(1), id, doc(11)).unwrap();
    s.attach_resource_to_agreement(acct(2), id, doc(12)).unwrap();
    s.attach_resource_to_agreement(acct(1), id, doc(13)).unwrap();
    let hashes: Vec<[u8; 32]> =
        s.query_agreement_by_id(id).unwrap().resources.iter().map(|r| r.hash.0).collect();
    assert_eq!(hashes, vec![[11u8; 32], [13u8; 32], [12u8; 32]]);
}

#[test]
fn create_records_caller_as_document_creator() {
    let mut s = Polkasign::new(acct(0));
    let id = s.create_agreement(acct(3), 42, params(vec![acct(1)])).unwrap();
    let a = s.query_agreement_by_id(id).unwrap();
    assert_eq!(a.creator, acct(3));
    assert_eq!(a.agreement_file.creator, acct(3));
    assert_eq!(a.create_at, 42);
    assert_eq!(a.index, id);
}

#[test]
fn ids_strictly_increase() {
    let mut s = Polkasign::new(acct(0));
    let a = s.create_agreement(acct(3), 1, params(vec![acct(1)])).unwrap();
    let b = s.create_agreement(acct(4), 2, params(vec![])).unwrap();
    let c = s.create_agreement(acct(3), 3, params(vec![acct(1), acct(1)])).unwrap();
    assert_eq!((a, b, c), (0, 1, 2));
    assert_eq!(s.index(), 3);
}

#[test]
fn indices_match_agreements() {
    let mut s = Polkasign::new(acct(0));
    s.create_agreement(acct(3), 1, params(vec![acct(1)])).unwrap();
    s.create_agreement(acct(4), 2, params(vec![acct(1), acct(2)])).unwrap();
    s.create_agreement(acct(3), 3, params(vec![acct(2), acct(2)])).unwrap();
    let page = PageParams { page_index: 0, page_size: 10 };
    let by3 = s.query_agreement_by_creator(acct(3), page).unwrap();
    assert_eq!(by3.total, 2);
    assert_eq!(by3.data.iter().map(|a| a.index).collect::<Vec<_>>(), vec![0, 2]);
    assert!(by3.data.iter().all(|a| a.creator == acct(3)));
    let with2 = s.query_agreement_by_collaborator(acct(2), page).unwrap();
    assert_eq!(with2.data.iter().map(|a| a.index).collect::<Vec<_>>(), vec![1, 2]);
    assert!(with2.data.iter().all(|a| a.signers.contains(&acct(2))));
}

#[test]
fn paged_query_slices_the_index() {
    let mut s = Polkasign::new(acct(0));
    for t in 0..5u64 {
        s.create_agreement(acct(3), t, params(vec![acct(1)])).unwrap();
    }
    let p = s.query_agreement_by_creator(acct(3), PageParams { page_index: 1, page_size: 2 }).unwrap();
    assert!(p.success);
    assert_eq!(p.err, "success");
    assert_eq!((p.total, p.pages, p.page_index, p.page_size), (5, 3, 1, 2));
    assert_eq!(p.data.iter().map(|a| a.index).collect::<Vec<_>>(), vec![2, 3]);
    let past = s.query_agreement_by_creator(acct(3), PageParams { page_index: 9, page_size: 2 }).unwrap();
    assert!(past.data.is_empty());
    assert_eq!(past.total, 5);
    let huge = s
        .query_agreement_by_collaborator(acct(1), PageParams { page_index: u64::MAX, page_size: 3 })
        .unwrap();
    assert!(huge.data.is_empty());
    assert_eq!(huge.pages, 2);
}

#[test]
fn unknown_account_gets_empty_page() {
    let s = Polkasign::new(acct(0));
    let p = s.query_agreement_by_creator(acct(8), PageParams { page_index: 4, page_size: 0 }).unwrap();
    assert!(p.success);
    assert_eq!((p.total, p.pages, p.page_index, p.page_size), (0, 0, 0, 0));
    assert!(p.data.is_empty());
}

#[test]
fn zero_page_size_query_is_refused() {
    let mut s = Polkasign::new(acct(0));
    s.create_agreement(acct(3), 1, params(vec![acct(1)])).unwrap();
    assert_eq!(
        s.query_agreement_by_creator(acct(3), PageParams { page_index: 0, page_size: 0 }),
        Err(PolkasignError::InvalidPageSize)
    );
    assert_eq!(
        s.query_agreement_by_collaborator(acct(1), PageParams { page_index: 0, page_size: 0 }),
        Err(PolkasignError::InvalidPageSize)
    );
}

#[test]
fn create_with_sign_by_signer() {
    let host = MockHost::new(GOOD);
    let mut s = Polkasign::new(acct(0));
    let id = s.create_agreement_with_sign(&host, acct(1), 5, params(vec![acct(1), acct(2)]), GOOD).unwrap();
    let a = s.query_agreement_by_id(id).unwrap();
    assert_eq!(a.status, STATUS_COLLECTING);
    assert_eq!(a.sign_infos[0].addr, acct(1));
    assert_eq!(host.seen.borrow().clone(), vec![framed(7)]);
    let solo = s.create_agreement_with_sign(&host, acct(1), 6, params(vec![acct(1)]), GOOD).unwrap();
    assert_eq!(s.query_agreement_by_id(solo).unwrap().status, STATUS_FINALIZED);
}

#[test]
fn create_with_sign_failures_change_nothing() {
    let host = MockHost::new(GOOD);
    let mut s = Polkasign::new(acct(0));
    assert_eq!(
        s.create_agreement_with_sign(&host, acct(1), 5, params(vec![acct(1)]), BAD),
        Err(PolkasignError::InvalidSignature)
    );
    assert_eq!(
        s.create_agreement_with_sign(&host, acct(4), 5, params(vec![acct(1)]), GOOD),
        Err(PolkasignError::NotSigner)
    );
    assert_eq!(s.index(), 0);
    let p = s.query_agreement_by_creator(acct(1), PageParams { page_index: 0, page_size: 1 }).unwrap();
    assert_eq!(p.total, 0);
}

#[test]
fn attach_with_sign_does_both_or_neither() {
    let host = MockHost::new(GOOD);
    let mut s = Polkasign::new(acct(0));
    let id = s.create_agreement(acct(3), 1, params(vec![acct(1), acct(2)])).unwrap();
    assert_eq!(
        s.attach_resource_with_sign(&host, acct(1), 2, id, doc(11), BAD),
        Err(PolkasignError::InvalidSignature)
    );
    let a = s.query_agreement_by_id(id).unwrap();
    assert!(a.resources.is_empty());
    assert!(a.sign_infos.is_empty());
    s.attach_resource_with_sign(&host, acct(1), 2, id, doc(11), GOOD).unwrap();
    s.attach_resource_with_sign(&host, acct(2), 3, id, doc(12), GOOD).unwrap();
    let a = s.query_agreement_by_id(id).unwrap();
    assert_eq!(a.resources.len(), 2);
    assert_eq!(a.sign_infos.len(), 2);
    assert_eq!(a.status, STATUS_FINALIZED);
}

#[test]
fn check_signs_through_host() {
    let host = MockHost::new(GOOD);
    let s = Polkasign::new(acct(0));
    assert_eq!(s.check_sr25519_sign(&host, acct(1), [4u8; 32], GOOD), Ok(()));
    assert_eq!(
        s.check_sr25519_sign(&host, acct(1), [4u8; 32], BAD),
        Err(PolkasignError::InvalidSignature)
    );
    assert_eq!(s.check_sr25519_bytes_sign(&host, acct(1), [4u8; 32], GOOD), Ok(()));
    assert_eq!(host.seen.borrow()[0], vec![4u8; 32]);
    assert_eq!(host.seen.borrow()[2], framed(4));
}

#[test]
fn frame_is_forty_seven_bytes() {
    let f = frame_bytes(&[0xabu8; 32]);
    assert_eq!(f.to_vec(), framed(0xab));
    assert_eq!(&f[..7], b"<Bytes>");
    assert_eq!(&f[39..], b"</Bytes>");
}

#[test]
fn status_codes_map_to_results() {
    assert_eq!(CryptoExtensionErr::from_status_code(0), Ok(()));
    assert_eq!(CryptoExtensionErr::from_status_code(1), Err(CryptoExtensionErr::VerifyErr));
}

#[test]
fn account_from_bytes() {
    let a: AccountId = [3u8; 32].into();
    assert_eq!(a.as_bytes(), [3u8; 32]);
    assert!(a.same_as(&acct(3)));
    assert!(!a.same_as(&acct(4)));
    let h: polkasign::types::Hash = [7u8; 32].into();
    assert_eq!(h.as_bytes(), [7u8; 32]);
}

#[test]
fn apply_sign_follows_the_verdict() {
    let mut s = Polkasign::new(acct(0));
    let id = s.create_agreement(acct(3), 1, params(vec![acct(1)])).unwrap();
    assert_eq!(
        s.apply_sign(acct(1), 2, id, GOOD, Err(CryptoExtensionErr::VerifyErr)),
        Err(PolkasignError::InvalidSignature)
    );
    assert_eq!(s.query_agreement_by_id(id).unwrap().status, STATUS_DRAFT);
    assert_eq!(s.apply_sign(acct(2), 2, id, GOOD, Ok(())), Err(PolkasignError::NotSigner));
    assert_eq!(s.apply_sign(acct(1), 2, 9, GOOD, Ok(())), Err(PolkasignError::AgreementNotFound));
    s.apply_sign(acct(1), 2, id, GOOD, Ok(())).unwrap();
    assert_eq!(s.query_agreement_by_id(id).unwrap().status, STATUS_FINALIZED);
}

#[test]
fn apply_attach_sign_does_both_or_neither() {
    let mut s = Polkasign::new(acct(0));
    let id = s.create_agreement(acct(3), 1, params(vec![acct(1), acct(2)])).unwrap();
    let before = s.query_agreement_by_id(id).unwrap();
    assert_eq!(
        s.apply_attach_sign(acct(1), 2, id, doc(11), GOOD, Err(CryptoExtensionErr::VerifyErr)),
        Err(PolkasignError::InvalidSignature)
    );
    assert_eq!(s.query_agreement_by_id(id).unwrap(), before);
    assert_eq!(
        s.apply_attach_sign(acct(4), 2, id, doc(11), GOOD, Ok(())),
        Err(PolkasignError::NotSigner)
    );
    s.apply_attach_sign(acct(1), 2, id, doc(11), GOOD, Ok(())).unwrap();
    let a = s.query_agreement_by_id(id).unwrap();
    assert_eq!(a.resources.len(), 1);
    assert_eq!(a.sign_infos.len(), 1);
    assert_eq!(a.status, STATUS_COLLECTING);
}

#[test]
fn apply_create_sign_follows_the_verdict() {
    let mut s = Polkasign::new(acct(0));
    assert_eq!(
        s.apply_create_sign(acct(1), 2, params(vec![acct(1)]), GOOD, Err(CryptoExtensionErr::VerifyErr)),
        Err(PolkasignError::InvalidSignature)
    );
    assert_eq!(s.index(), 0);
    assert_eq!(
        s.apply_create_sign(acct(5), 2, params(vec![acct(1)]), GOOD, Ok(())),
        Err(PolkasignError::NotSigner)
    );
    let id = s.apply_create_sign(acct(1), 2, params(vec![acct(1)]), GOOD, Ok(())).unwrap();
    let a = s.query_agreement_by_id(id).unwrap();
    assert_eq!(a.status, STATUS_FINALIZED);
    assert_eq!(a.sign_infos[0].create_at, 2);
}

#[test]
fn rejected_attach_with_sign_changes_nothing() {
    let host = MockHost::new(GOOD);
    let mut s = Polkasign::new(acct(0));
    let id = s.create_agreement(acct(3), 1, params(vec![acct(1), acct(2)])).unwrap();
    s.sign_agreement(&host, acct(2), 2, id, GOOD, SignScheme::Sr25519Bytes).unwrap();
    let before = s.query_agreement_by_id(id).unwrap();
    assert_eq!(
        s.attach_resource_with_sign(&host, acct(1), 3, id, doc(11), BAD),
        Err(PolkasignError::InvalidSignature)
    );
    assert_eq!(s.query_agreement_by_id(id).unwrap(), before);
    assert_eq!(host.seen.borrow()[1], framed(7));
}

#[test]
fn rejected_framed_check_fails() {
    let host = MockHost::new(GOOD);
    let s = Polkasign::new(acct(0));
    assert_eq!(
        s.check_sr25519_bytes_sign(&host, acct(1), [4u8; 32], BAD),
        Err(PolkasignError::InvalidSignature)
    );
    assert_eq!(host.seen.borrow().clone(), vec![framed(4)]);
}
