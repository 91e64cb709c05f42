//! Decisions of the secure transport: which errors end a stream, when to
//! retry, how `write_all` advances, and the TLS material, decoded once from
//! PEM and kept for the life of the process.
use vstd::prelude::*;
use vstd::string::StringSliceAdditionalSpecFns;
use crate::config::Config;
use crate::text::{copy_range, find_byte, find_from, find_word, find_word_from, remove_spaces, without_spaces};

verus! {

/// Attempts made for one read, write or flush before giving up.
pub const MAX_RETRIES: usize = 3;

/// Why a session could not be set up.
#[derive(Debug, Clone, Copy, PartialEq, Eq, Structural)]
pub enum Error {
    CACertificateMissing,
    ClientCertificateMissing,
    ClientPrivateKeyMissing,
    DNSLookupFailed,
    SocketConnectionError,
    TLSHandshakeFailed,
    PEMParseError,
}

/// Kind of a failed read or write on an open session.
#[derive(Debug, Clone, Copy, PartialEq, Eq, Structural)]
pub enum IoErrorKind {
    /// The peer ended the stream.
    EndOfStream,
    /// The connection was closed.
    ConnectionClosed,
    /// The other end is gone.
    BrokenPipe,
    /// Anything else; may be transient.
    Other,
}

/// The closed-connection family: such errors end the stream and are never
/// retried.
pub open spec fn ends_stream(kind: IoErrorKind) -> bool {
    kind != IoErrorKind::Other
}

impl IoErrorKind {
    /// True for the closed-connection family.
    pub fn is_end_of_stream(&self) -> (r: bool)
        ensures
            r == ends_stream(*self),
    {
        match self {
            IoErrorKind::Other => false,
            _ => true,
        }
    }
}

/// True for errors that end the stream rather than fail it.
pub fn is_eof_error(error: &IoErrorKind) -> (r: bool)
    ensures
        r == ends_stream(*error),
{
    error.is_end_of_stream()
}

/// Whether to try a failed operation again.
#[derive(Debug, Clone, Copy, PartialEq, Eq, Structural)]
pub enum RetryDecision {
    Retry,
    GiveUp,
}

/// Counts the attempts of one read, write or flush.
pub struct Retries {
    attempts: usize,
}

impl Retries {
    /// Attempts that have failed so far.
    pub closed spec fn failed(&self) -> nat {
        self.attempts as nat
    }

    pub fn new() -> (r: Retries)
        ensures
            r.failed() == 0,
    {
        Retries { attempts: 0 }
    }

    /// One more attempt of a read, write or flush failed: retry unless the
    /// error ends the stream or `MAX_RETRIES` attempts have now failed.
    pub fn on_failure(&mut self, kind: IoErrorKind) -> (r: RetryDecision)
        requires
            old(self).failed() < MAX_RETRIES,
        ensures
            final(self).failed() == old(self).failed() + 1,
            r == if ends_stream(kind) || final(self).failed() >= MAX_RETRIES {
                RetryDecision::GiveUp
            } else {
                RetryDecision::Retry
            },
            r == RetryDecision::Retry ==> final(self).failed() < MAX_RETRIES,
    {
        self.attempts = self.attempts + 1;
        if kind.is_end_of_stream() || self.attempts >= MAX_RETRIES {
            RetryDecision::GiveUp
        } else {
            RetryDecision::Retry
        }
    }
}

/// `write_all` after one write of `n` bytes at `pos` of a `len`-byte buffer:
/// the next position, or `None` when the peer took nothing (or more than was
/// left), which means the connection is gone.
pub fn write_all_advance(pos: usize, len: usize, n: usize) -> (r: Option<usize>)
    requires
        pos <= len,
    ensures
        r == if n == 0 || n > len - pos {
            None::<usize>
        } else {
            Some((pos + n) as usize)
        },
{
    if n == 0 || n > len - pos {
        None
    } else {
        Some(pos + n)
    }
}

/// The base64 text of a PEM block: from the line after the first
/// `-----BEGIN` to the first `-----END`, every whitespace character left
/// out.
pub open spec fn pem_body_of(pem: Seq<u8>) -> Option<Seq<u8>> {
    match find_word_from(pem, "-----BEGIN".spec_bytes(), 0) {
        None => None,
        Some(start) => match find_from(pem, 10u8, start) {
            None => None,
            Some(nl) => match find_word_from(pem, "-----END".spec_bytes(), 0) {
                None => None,
                Some(end) => if nl + 1 <= end {
                    Some(without_spaces(pem.subrange(nl + 1, end)))
                } else {
                    None
                },
            },
        },
    }
}

/// What base64 (standard alphabet, padded) decodes `text` to, if it is
/// valid.
pub uninterp spec fn base64_decoded(text: Seq<u8>) -> Option<Seq<u8>>;

/// The DER bytes of a PEM block.
pub open spec fn pem_decoded(pem: Seq<u8>) -> Option<Seq<u8>> {
    match pem_body_of(pem) {
        Some(b) => base64_decoded(b),
        None => None,
    }
}

/// Relies on base64's `Engine::decode` with the `STANDARD` engine, whose
/// result depends on the input bytes alone.
#[verifier::external_body]
fn base64_decode(text: &[u8]) -> (r: Option<Vec<u8>>)
    ensures
        match r {
            Some(v) => base64_decoded(text@) == Some(v@),
            None => base64_decoded(text@) is None,
        },
{
    base64::Engine::decode(&base64::engine::general_purpose::STANDARD, text).ok()
}

/// Extracts the base64 text of a PEM block; `PEMParseError` when a marker
/// or the line end after `-----BEGIN` is missing, or `-----END` comes first.
pub fn pem_body(pem: &str) -> (r: Result<Vec<u8>, Error>)
    ensures
        match r {
            Ok(b) => pem_body_of(pem.spec_bytes()) == Some(b@),
            Err(e) => pem_body_of(pem.spec_bytes()) is None && e == Error::PEMParseError,
        },
{
    let s = pem.as_bytes();
    let start = match find_word(s, "-----BEGIN".as_bytes(), 0) {
        Some(k) => k,
        None => return Err(Error::PEMParseError),
    };
    let nl = match find_byte(s, 10, start) {
        Some(k) => k,
        None => return Err(Error::PEMParseError),
    };
    let end = match find_word(s, "-----END".as_bytes(), 0) {
        Some(k) => k,
        None => return Err(Error::PEMParseError),
    };
    if nl >= end {
        return Err(Error::PEMParseError);
    }
    let inner = copy_range(s, nl + 1, end);
    Ok(remove_spaces(inner.as_slice()))
}

/// Decodes a PEM block to DER.
pub fn decode_pem(pem: &str) -> (r: Result<Vec<u8>, Error>)
    ensures
        match r {
            Ok(v) => pem_decoded(pem.spec_bytes()) == Some(v@),
            Err(e) => pem_decoded(pem.spec_bytes()) is None && e == Error::PEMParseError,
        },
{
    let body = pem_body(pem)?;
    match base64_decode(body.as_slice()) {
        Some(v) => Ok(v),
        None => Err(Error::PEMParseError),
    }
}

/// Decoded certificates and key for the TLS handshake.
pub struct TlsMaterial {
    /// CA certificate, DER.
    pub ca: Vec<u8>,
    /// Client certificate and private key, DER, under mutual TLS.
    pub client: Option<(Vec<u8>, Vec<u8>)>,
}

/// The material that `config` yields: the CA certificate is required, the
/// client certificate and key only under mutual TLS; each is PEM-decoded.
pub open spec fn material_of(config: Config, mutual: bool) -> Result<
    (Seq<u8>, Option<(Seq<u8>, Seq<u8>)>),
    Error,
> {
    match config.tls_ca {
        None => Err(Error::CACertificateMissing),
        Some(ca) => match pem_decoded(ca.spec_bytes()) {
            None => Err(Error::PEMParseError),
            Some(ca_der) => if !mutual {
                Ok((ca_der, None))
            } else {
                match (config.tls_cert, config.tls_key) {
                    (None, _) => Err(Error::ClientCertificateMissing),
                    (Some(_), None) => Err(Error::ClientPrivateKeyMissing),
                    (Some(c), Some(k)) => match (
                        pem_decoded(c.spec_bytes()),
                        pem_decoded(k.spec_bytes()),
                    ) {
                        (Some(cd), Some(kd)) => Ok((ca_der, Some((cd, kd)))),
                        _ => Err(Error::PEMParseError),
                    },
                }
            },
        },
    }
}

impl TlsMaterial {
    pub open spec fn view_parts(&self) -> (Seq<u8>, Option<(Seq<u8>, Seq<u8>)>) {
        (
            self.ca@,
            match self.client {
                Some((c, k)) => Some((c@, k@)),
                None => None,
            },
        )
    }

    /// Loads and decodes the material that `config` holds.
    pub fn load(config: &Config, mutual: bool) -> (r: Result<TlsMaterial, Error>)
        ensures
            match r {
                Ok(m) => material_of(*config, mutual) == Ok::<_, Error>(m.view_parts()),
                Err(e) => material_of(*config, mutual) == Err::<
                    (Seq<u8>, Option<(Seq<u8>, Seq<u8>)>),
                    Error,
                >(e),
            },
    {
        let ca = match config.tls_ca {
            Some(ca) => ca,
            None => return Err(Error::CACertificateMissing),
        };
        let ca_der = decode_pem(ca)?;
        if !mutual {
            return Ok(TlsMaterial { ca: ca_der, client: None });
        }
        let cert = match config.tls_cert {
            Some(c) => c,
            None => return Err(Error::ClientCertificateMissing),
        };
        let key = match config.tls_key {
            Some(k) => k,
            None => return Err(Error::ClientPrivateKeyMissing),
        };
        let cert_der = decode_pem(cert)?;
        let key_der = decode_pem(key)?;
        Ok(TlsMaterial { ca: ca_der, client: Some((cert_der, key_der)) })
    }
}

/// TLS material decoded on first use and reused for every later session.
pub struct CertificateCache {
    material: Option<TlsMaterial>,
}

impl CertificateCache {
    /// What is cached, if anything.
    pub closed spec fn cached(&self) -> Option<(Seq<u8>, Option<(Seq<u8>, Seq<u8>)>)> {
        match self.material {
            Some(m) => Some(m.view_parts()),
            None => None,
        }
    }

    pub fn new() -> (r: CertificateCache)
        ensures
            r.cached() is None,
    {
        CertificateCache { material: None }
    }

    /// Decodes the material unless it is cached already; a failure caches
    /// nothing, so a later cycle tries again.
    pub fn load(&mut self, config: &Config, mutual: bool) -> (r: Result<(), Error>)
        ensures
            old(self).cached() is Some ==> r is Ok && final(self).cached() == old(self).cached(),
            old(self).cached() is None ==> match material_of(*config, mutual) {
                Ok(m) => r is Ok && final(self).cached() == Some(m),
                Err(e) => r == Err::<(), Error>(e) && final(self).cached() is None,
            },
    {
        if self.material.is_some() {
            return Ok(());
        }
        let m = TlsMaterial::load(config, mutual)?;
        self.material = Some(m);
        Ok(())
    }

    /// The cached material.
    pub fn material(&self) -> (r: Option<&TlsMaterial>)
        ensures
            match r {
                Some(m) => self.cached() == Some(m.view_parts()),
                None => self.cached() is None,
            },
    {
        match &self.material {
            Some(m) => Some(m),
            None => None,
        }
    }
}

} // verus!
