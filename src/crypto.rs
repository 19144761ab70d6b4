use vstd::prelude::*;

verus! {

/// The error a signature check of the host reports.
#[derive(Debug, Clone, Copy, PartialEq, Eq, Structural)]
pub enum CryptoExtensionErr {
    VerifyErr,
}

impl CryptoExtensionErr {
    /// Maps a status code of the host's crypto calls: `0` is success, `1` a failed check.
    pub fn from_status_code(status_code: u32) -> (r: Result<(), CryptoExtensionErr>)
        requires
            status_code <= 1,
        ensures
            status_code == 0 ==> r == Ok::<(), CryptoExtensionErr>(()),
            status_code == 1 ==> r == Err::<(), CryptoExtensionErr>(CryptoExtensionErr::VerifyErr),
    {
        if status_code == 0 {
            Ok(())
        } else {
            Err(CryptoExtensionErr::VerifyErr)
        }
    }
}

/// The crypto calls that the host offers to the agreement engine; the host implements
/// it. Both checks answer by the same rule, `sr25519_accepts`, on the bytes they are
/// handed.
pub trait CryptoExtension {
    /// Whether the host takes `sign` as a valid sr25519 signature of `account` over the
    /// bytes `msg`.
    spec fn sr25519_accepts(&self, account: [u8; 32], msg: Seq<u8>, sign: [u8; 64]) -> bool;

    /// Random bytes from the host.
    fn fetch_random(&self) -> [u8; 32];

    /// Checks an sr25519 signature of `account` over the 32 bytes `msg`.
    fn verify_sr25519(&self, account: [u8; 32], msg: [u8; 32], sign: [u8; 64]) -> (r: Result<
        (),
        CryptoExtensionErr,
    >)
        ensures
            r is Ok == self.sr25519_accepts(account, msg@, sign),
    ;

    /// Checks an sr25519 signature of `account` over the framed 47-byte message `msg`.
    fn verify_sr25519_bytes(&self, account: [u8; 32], msg: [u8; 47], sign: [u8; 64]) -> (r: Result<
        (),
        CryptoExtensionErr,
    >)
        ensures
            r is Ok == self.sr25519_accepts(account, msg@, sign),
    ;
}

/// The bytes that a signature in `scheme` is made over, for the 32-byte message `m`.
pub open spec fn signed_message(scheme: SignScheme, m: Seq<u8>) -> Seq<u8> {
    match scheme {
        SignScheme::Sr25519 => m,
        SignScheme::Sr25519Bytes => framed(m),
    }
}

/// How a signature was made.
#[derive(Debug, Clone, Copy, PartialEq, Eq, Structural)]
pub enum SignScheme {
    /// sr25519 over the raw 32-byte hash.
    Sr25519,
    /// sr25519 over the hash framed as `<Bytes>` hash `</Bytes>`.
    Sr25519Bytes,
}

/// The ASCII bytes of `<Bytes>`.
pub open spec fn bytes_prefix() -> Seq<u8> {
    seq![0x3cu8, 0x42u8, 0x79u8, 0x74u8, 0x65u8, 0x73u8, 0x3eu8]
}

/// The ASCII bytes of `</Bytes>`.
pub open spec fn bytes_suffix() -> Seq<u8> {
    seq![0x3cu8, 0x2fu8, 0x42u8, 0x79u8, 0x74u8, 0x65u8, 0x73u8, 0x3eu8]
}

/// The message that a wallet signs in the framed scheme.
pub open spec fn framed(msg: Seq<u8>) -> Seq<u8> {
    bytes_prefix() + msg + bytes_suffix()
}

const BYTES_PRE: [u8; 7] = [0x3c, 0x42, 0x79, 0x74, 0x65, 0x73, 0x3e];

const BYTES_SUB: [u8; 8] = [0x3c, 0x2f, 0x42, 0x79, 0x74, 0x65, 0x73, 0x3e];

/// Frames a 32-byte message as `<Bytes>` message `</Bytes>`.
pub fn frame_bytes(msg: &[u8; 32]) -> (r: [u8; 47])
    ensures
        r@ == framed(msg@),
{
    let pre = BYTES_PRE;
    let sub = BYTES_SUB;
    assert(pre@ == bytes_prefix());
    assert(sub@ == bytes_suffix());
    let mut tmp = [0u8; 47];
    let mut i: usize = 0;
    while i < 7
        invariant
            0 <= i <= 7,
            pre@ == bytes_prefix(),
            forall|j: int| 0 <= j < i ==> tmp@[j] == bytes_prefix()[j],
        decreases 7 - i,
    {
        tmp[i] = pre[i];
        i = i + 1;
    }
    let mut i: usize = 0;
    while i < 32
        invariant
            0 <= i <= 32,
            forall|j: int| 0 <= j < 7 ==> tmp@[j] == bytes_prefix()[j],
            forall|j: int| 0 <= j < i ==> tmp@[7 + j] == msg@[j],
        decreases 32 - i,
    {
        tmp[7 + i] = msg[i];
        i = i + 1;
    }
    let mut i: usize = 0;
    while i < 8
        invariant
            0 <= i <= 8,
            sub@ == bytes_suffix(),
            forall|j: int| 0 <= j < 7 ==> tmp@[j] == bytes_prefix()[j],
            forall|j: int| 0 <= j < 32 ==> tmp@[7 + j] == msg@[j],
            forall|j: int| 0 <= j < i ==> tmp@[39 + j] == bytes_suffix()[j],
        decreases 8 - i,
    {
        tmp[39 + i] = sub[i];
        i = i + 1;
    }
    assert(tmp@ =~= framed(msg@));
    tmp
}

/// Asks the host to check `sign` by `account` over `msg` in the given scheme; in the
/// framed scheme the host is handed `frame_bytes(msg)`.
pub fn verify_sign<E: CryptoExtension>(
    ext: &E,
    scheme: SignScheme,
    account: [u8; 32],
    msg: [u8; 32],
    sign: [u8; 64],
) -> (r: Result<(), CryptoExtensionErr>)
    ensures
        r is Ok == ext.sr25519_accepts(account, signed_message(scheme, msg@), sign),
{
    match scheme {
        SignScheme::Sr25519 => ext.verify_sr25519(account, msg, sign),
        SignScheme::Sr25519Bytes => ext.verify_sr25519_bytes(account, frame_bytes(&msg), sign),
    }
}

} // verus!
