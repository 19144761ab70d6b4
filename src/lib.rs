//! A multi-party agreement signing engine: a creator opens an agreement over a
//! document hash, a fixed list of signers each sign it, and its status moves from
//! draft through collecting to finalized. Signers may attach resources, and clients
//! page through agreements by creator or by signer.
pub mod agreement;
pub mod crypto;
pub mod index;
pub mod page;
pub mod polkasign;
pub mod types;

pub use agreement::{
    AgreementInfo, AgreementInfoDisplay, CreateAgreementParams, SignInfo, SignerResources,
    StorageInfo, STATUS_COLLECTING, STATUS_DRAFT, STATUS_FINALIZED,
};
pub use crypto::{CryptoExtension, CryptoExtensionErr, SignScheme, frame_bytes};
pub use index::IdList;
pub use page::{PageError, PageParams, PageResult, cal_pages, page_helper};
pub use polkasign::{
    CreateAgreementEvent, Polkasign, PolkasignError, UpdateAgreementEvent,
};
pub use types::AccountId;
