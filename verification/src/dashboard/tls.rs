//! What the files for TLS hold, and the configurations that are made of them.

use rustls::client::WebPkiServerVerifier;
use rustls::{ClientConfig, RootCertStore, ServerConfig};
use std::sync::Arc;
use vstd::prelude::*;
use vstd::string::*;

verus! {

/// What came of opening a file and reading it to its end.
pub enum FileRead {
    Contents(Vec<u8>),
    /// The file could not be opened, for this reason.
    NotOpened(String),
}

/// A private key, in the format that its file names.
#[derive(Debug, Clone, PartialEq, Eq)]
pub enum KeyDer {
    Pkcs1(Vec<u8>),
    Sec1(Vec<u8>),
    Pkcs8(Vec<u8>),
    Other(Vec<u8>),
}

/// What a [`KeyDer`] holds.
#[verifier::ext_equal]
pub enum KeyDerView {
    Pkcs1(Seq<u8>),
    Sec1(Seq<u8>),
    Pkcs8(Seq<u8>),
    Other(Seq<u8>),
}

impl View for KeyDer {
    type V = KeyDerView;

    open spec fn view(&self) -> KeyDerView {
        match self {
            KeyDer::Pkcs1(der) => KeyDerView::Pkcs1(der@),
            KeyDer::Sec1(der) => KeyDerView::Sec1(der@),
            KeyDer::Pkcs8(der) => KeyDerView::Pkcs8(der@),
            KeyDer::Other(der) => KeyDerView::Other(der@),
        }
    }
}

/// Some blocks of bytes by what they hold.
pub open spec fn blocks(v: Seq<Vec<u8>>) -> Seq<Seq<u8>> {
    Seq::new(v.len(), |i: int| v[i]@)
}

/// Some blocks of bytes, or a reason why there are none, by what they hold.
pub open spec fn found_blocks(r: Result<Vec<Vec<u8>>, String>) -> Result<Seq<Seq<u8>>, Seq<char>> {
    match r {
        Ok(v) => Ok(blocks(v@)),
        Err(e) => Err(e@),
    }
}

/// A key, if there is one, or a reason why it cannot be told, by what they hold.
pub open spec fn found_key(r: Result<Option<KeyDer>, String>) -> Result<Option<KeyDerView>, Seq<char>> {
    match r {
        Ok(Some(key)) => Ok(Some(key@)),
        Ok(None) => Ok(None),
        Err(e) => Err(e@),
    }
}

/// The certificates in a PEM file, in DER, or why they cannot be read.
pub uninterp spec fn certificates_in(pem: Seq<u8>) -> Result<Seq<Seq<u8>>, Seq<char>>;

/// `rustls_pemfile::certs` over the bytes of a file: the contents of its certificate sections, or the text of
/// the first error. They are named by [`certificates_in`].
#[verifier::external_body]
fn read_certificates(pem: &[u8]) -> (r: Result<Vec<Vec<u8>>, String>)
    ensures
        found_blocks(r) == certificates_in(pem@),
{
    let mut input: &[u8] = pem;
    match rustls_pemfile::certs(&mut input).collect::<Result<Vec<_>, _>>() {
        Ok(found) => Ok(found.iter().map(|der| der.to_vec()).collect()),
        Err(e) => Err(e.to_string()),
    }
}

/// The revocation lists in a PEM file, in DER, or why they cannot be read.
pub uninterp spec fn revocations_in(pem: Seq<u8>) -> Result<Seq<Seq<u8>>, Seq<char>>;

/// `rustls_pemfile::crls` over the bytes of a file: the contents of its revocation lists, or the text of the
/// first error. They are named by [`revocations_in`].
#[verifier::external_body]
fn read_revocations(pem: &[u8]) -> (r: Result<Vec<Vec<u8>>, String>)
    ensures
        found_blocks(r) == revocations_in(pem@),
{
    let mut input: &[u8] = pem;
    match rustls_pemfile::crls(&mut input).collect::<Result<Vec<_>, _>>() {
        Ok(found) => Ok(found.iter().map(|der| der.to_vec()).collect()),
        Err(e) => Err(e.to_string()),
    }
}

/// The first private key in a PEM file, if it has one, or why it cannot be read.
pub uninterp spec fn key_in(pem: Seq<u8>) -> Result<Option<KeyDerView>, Seq<char>>;

/// `rustls_pemfile::private_key` over the bytes of a file: the first key in it, in the format of its section,
/// or the text of an error that comes before it. It is named by [`key_in`].
#[verifier::external_body]
fn read_key(pem: &[u8]) -> (r: Result<Option<KeyDer>, String>)
    ensures
        found_key(r) == key_in(pem@),
{
    let mut input: &[u8] = pem;
    match rustls_pemfile::private_key(&mut input) {
        Ok(Some(rustls::pki_types::PrivateKeyDer::Pkcs1(key))) => Ok(Some(KeyDer::Pkcs1(key.secret_pkcs1_der().to_vec()))),
        Ok(Some(rustls::pki_types::PrivateKeyDer::Sec1(key))) => Ok(Some(KeyDer::Sec1(key.secret_sec1_der().to_vec()))),
        Ok(Some(rustls::pki_types::PrivateKeyDer::Pkcs8(key))) => Ok(Some(KeyDer::Pkcs8(key.secret_pkcs8_der().to_vec()))),
        Ok(Some(key)) => Ok(Some(KeyDer::Other(key.secret_der().to_vec()))),
        Ok(None) => Ok(None),
        Err(e) => Err(e.to_string()),
    }
}

fn joined(what: &str, path: &str, sep: &str, reason: &str) -> (r: String)
    ensures
        r@ == what@ + path@ + sep@ + reason@,
{
    let mut out = what.to_owned();
    out.append(path);
    out.append(sep);
    out.append(reason);
    out
}

/// What is made of the certificates that were found in a file.
pub open spec fn certs_outcome(path: Seq<char>, found: Result<Seq<Seq<u8>>, Seq<char>>) -> Result<
    Seq<Seq<u8>>,
    Seq<char>,
> {
    match found {
        Ok(ders) => if ders.len() == 0 {
            Err("failed to find any PEM-encoded certificates in "@ + path)
        } else {
            Ok(ders)
        },
        Err(e) => Err("failed to parse certificate file "@ + path + ": "@ + e),
    }
}

/// Takes the certificates that were found in a file; there must be one.
pub fn certs_found(path: &str, found: Result<Vec<Vec<u8>>, String>) -> (r: Result<Vec<Vec<u8>>, String>)
    ensures
        found_blocks(r) == certs_outcome(path@, found_blocks(found)),
{
    match found {
        Ok(ders) => if ders.len() == 0 {
            let mut out = "failed to find any PEM-encoded certificates in ".to_owned();
            out.append(path);
            Err(out)
        } else {
            Ok(ders)
        },
        Err(e) => Err(joined("failed to parse certificate file ", path, ": ", e.as_str())),
    }
}

/// The certificates in a file, or why there are none.
pub open spec fn certs_of(path: Seq<char>, file: FileRead) -> Result<Seq<Seq<u8>>, Seq<char>> {
    match file {
        FileRead::NotOpened(e) => Err("failed to open certificate file "@ + path + ": "@ + e@),
        FileRead::Contents(pem) => certs_outcome(path, certificates_in(pem@)),
    }
}

/// The certificates in a file.
pub fn load_certs(path: &str, file: FileRead) -> (r: Result<Vec<Vec<u8>>, String>)
    ensures
        found_blocks(r) == certs_of(path@, file),
{
    match file {
        FileRead::NotOpened(e) => Err(joined("failed to open certificate file ", path, ": ", e.as_str())),
        FileRead::Contents(pem) => certs_found(path, read_certificates(pem.as_slice())),
    }
}

/// What is made of the revocation lists that were found in a file.
pub open spec fn crls_outcome(path: Seq<char>, found: Result<Seq<Seq<u8>>, Seq<char>>) -> Result<
    Seq<Seq<u8>>,
    Seq<char>,
> {
    match found {
        Ok(ders) => if ders.len() == 0 {
            Err("failed to find a PEM-encoded CRL in "@ + path)
        } else {
            Ok(ders)
        },
        Err(e) => Err("failed to parse CRL file "@ + path + ": "@ + e),
    }
}

/// Takes the revocation lists that were found in a file; there must be one.
pub fn crls_found(path: &str, found: Result<Vec<Vec<u8>>, String>) -> (r: Result<Vec<Vec<u8>>, String>)
    ensures
        found_blocks(r) == crls_outcome(path@, found_blocks(found)),
{
    match found {
        Ok(ders) => if ders.len() == 0 {
            let mut out = "failed to find a PEM-encoded CRL in ".to_owned();
            out.append(path);
            Err(out)
        } else {
            Ok(ders)
        },
        Err(e) => Err(joined("failed to parse CRL file ", path, ": ", e.as_str())),
    }
}

/// The revocation lists in a file, or why there are none.
pub open spec fn crls_of(path: Seq<char>, file: FileRead) -> Result<Seq<Seq<u8>>, Seq<char>> {
    match file {
        FileRead::NotOpened(e) => Err("failed to open CRL file "@ + path + ": "@ + e@),
        FileRead::Contents(pem) => crls_outcome(path, revocations_in(pem@)),
    }
}

/// The revocation lists in a file.
pub fn load_crls(path: &str, file: FileRead) -> (r: Result<Vec<Vec<u8>>, String>)
    ensures
        found_blocks(r) == crls_of(path@, file),
{
    match file {
        FileRead::NotOpened(e) => Err(joined("failed to open CRL file ", path, ": ", e.as_str())),
        FileRead::Contents(pem) => crls_found(path, read_revocations(pem.as_slice())),
    }
}

/// What is made of the key that was found in a file.
pub open spec fn key_outcome(path: Seq<char>, found: Result<Option<KeyDerView>, Seq<char>>) -> Result<
    KeyDerView,
    Seq<char>,
> {
    match found {
        Ok(Some(key)) => Ok(key),
        Ok(None) => Err("no private key found in "@ + path),
        Err(e) => Err("failed to parse key file "@ + path + ": "@ + e),
    }
}

/// A key, or a reason why there is none, by what they hold.
pub open spec fn loaded_key(r: Result<KeyDer, String>) -> Result<KeyDerView, Seq<char>> {
    match r {
        Ok(key) => Ok(key@),
        Err(e) => Err(e@),
    }
}

/// Takes the key that was found in a file; there must be one.
pub fn key_found(path: &str, found: Result<Option<KeyDer>, String>) -> (r: Result<KeyDer, String>)
    ensures
        loaded_key(r) == key_outcome(path@, found_key(found)),
{
    match found {
        Ok(Some(key)) => Ok(key),
        Ok(None) => {
            let mut out = "no private key found in ".to_owned();
            out.append(path);
            Err(out)
        },
        Err(e) => Err(joined("failed to parse key file ", path, ": ", e.as_str())),
    }
}

/// The private key in a file, or why there is none.
pub open spec fn key_of(path: Seq<char>, file: FileRead) -> Result<KeyDerView, Seq<char>> {
    match file {
        FileRead::NotOpened(e) => Err("failed to open key file "@ + path + ": "@ + e@),
        FileRead::Contents(pem) => key_outcome(path, key_in(pem@)),
    }
}

/// The private key in a file.
pub fn load_private_key(path: &str, file: FileRead) -> (r: Result<KeyDer, String>)
    ensures
        loaded_key(r) == key_of(path@, file),
{
    match file {
        FileRead::NotOpened(e) => Err(joined("failed to open key file ", path, ": ", e.as_str())),
        FileRead::Contents(pem) => key_found(path, read_key(pem.as_slice())),
    }
}

/// The certificates of authorities that a verifier trusts: `rustls::RootCertStore`.
#[verifier::external_type_specification]
#[verifier::external_body]
pub struct ExRootCertStore(RootCertStore);

/// What checks the certificate of a server: `rustls::client::WebPkiServerVerifier`.
#[verifier::external_type_specification]
#[verifier::external_body]
pub struct ExWebPkiServerVerifier(WebPkiServerVerifier);

/// How a client speaks TLS: `rustls::ClientConfig`.
#[verifier::external_type_specification]
#[verifier::external_body]
pub struct ExClientConfig(ClientConfig);

/// How a server speaks TLS: `rustls::ServerConfig`.
#[verifier::external_type_specification]
#[verifier::external_body]
pub struct ExServerConfig(ServerConfig);

/// What is kept of an authority's certificate: the name, the key, and the names that it may vouch for, each in
/// DER.
#[verifier::ext_equal]
pub struct AnchorView {
    pub subject: Seq<u8>,
    pub public_key: Seq<u8>,
    pub constraints: Option<Seq<u8>>,
}

/// What a store of authorities holds, in the order in which it was added.
pub uninterp spec fn anchors_in(roots: RootCertStore) -> Seq<AnchorView>;

/// What is kept of an authority's certificate in DER, or why it cannot be trusted.
pub uninterp spec fn anchor_of(der: Seq<u8>) -> Result<AnchorView, Seq<char>>;

/// Some authorities, or a reason why there are none, by what they hold.
pub open spec fn found_roots(r: Result<RootCertStore, String>) -> Result<Seq<AnchorView>, Seq<char>> {
    match r {
        Ok(roots) => Ok(anchors_in(roots)),
        Err(e) => Err(e@),
    }
}

/// Something that was made, or a reason why it was not.
pub open spec fn made<T>(r: Result<T, String>) -> Result<T, Seq<char>> {
    match r {
        Ok(x) => Ok(x),
        Err(e) => Err(e@),
    }
}

/// `rustls::RootCertStore::empty`: it holds nothing.
#[verifier::external_body]
fn no_roots() -> (r: RootCertStore)
    ensures
        anchors_in(r) == Seq::<AnchorView>::empty(),
{
    RootCertStore::empty()
}

/// `rustls::RootCertStore::add`: puts what is kept of the certificate behind what the store holds, or says why
/// that cannot be and leaves the store alone. Which of them, and what is kept, depends on the certificate
/// alone, and is named by [`anchor_of`].
#[verifier::external_body]
fn add_root(roots: &mut RootCertStore, der: Vec<u8>) -> (r: Result<(), String>)
    ensures
        match anchor_of(der@) {
            Ok(anchor) => r is Ok && anchors_in(*final(roots)) == anchors_in(*old(roots)).push(anchor),
            Err(e) => r matches Err(m) && m@ == e && anchors_in(*final(roots)) == anchors_in(*old(roots)),
        },
{
    roots.add(rustls::pki_types::CertificateDer::from(der)).map_err(|e| e.to_string())
}

/// The authorities whose certificates these are, or what is wrong with the first that cannot be trusted.
pub open spec fn anchors_of(ders: Seq<Seq<u8>>) -> Result<Seq<AnchorView>, Seq<char>>
    decreases ders.len(),
{
    if ders.len() == 0 {
        Ok(Seq::empty())
    } else {
        match anchors_of(ders.drop_last()) {
            Err(e) => Err(e),
            Ok(anchors) => match anchor_of(ders.last()) {
                Err(e) => Err(e),
                Ok(anchor) => Ok(anchors.push(anchor)),
            },
        }
    }
}

/// What is made of the certificates of authorities.
pub open spec fn roots_outcome(path: Seq<char>, certs: Result<Seq<Seq<u8>>, Seq<char>>) -> Result<
    Seq<AnchorView>,
    Seq<char>,
> {
    match certs {
        Err(e) => Err(e),
        Ok(ders) => match anchors_of(ders) {
            Ok(anchors) => Ok(anchors),
            Err(e) => Err("failed to add CA certificate from "@ + path + ": "@ + e),
        },
    }
}

proof fn lemma_first_failure(ders: Seq<Seq<u8>>, n: int)
    requires
        0 <= n <= ders.len(),
        anchors_of(ders.take(n)) is Err,
    ensures
        anchors_of(ders) == anchors_of(ders.take(n)),
    decreases ders.len(),
{
    if n == ders.len() {
        assert(ders.take(n) =~= ders);
    } else {
        assert(ders.drop_last().take(n) =~= ders.take(n));
        lemma_first_failure(ders.drop_last(), n);
    }
}

/// Trusts the authorities whose certificates were found in a file; the first that cannot be trusted ends it.
pub fn roots_found(path: &str, certs: Result<Vec<Vec<u8>>, String>) -> (r: Result<RootCertStore, String>)
    ensures
        found_roots(r) == roots_outcome(path@, found_blocks(certs)),
{
    let ders = match certs {
        Ok(ders) => ders,
        Err(e) => {
            return Err(e);
        },
    };
    let ghost all = blocks(ders@);
    let mut roots = no_roots();
    let mut i: usize = 0;
    assert(all.take(0) =~= Seq::empty());
    while i < ders.len()
        invariant
            i <= ders@.len(),
            all == blocks(ders@),
            found_blocks(certs) == Ok::<Seq<Seq<u8>>, Seq<char>>(all),
            anchors_of(all.take(i as int)) == Ok::<Seq<AnchorView>, Seq<char>>(anchors_in(roots)),
        decreases ders.len() - i,
    {
        assert(all.take(i + 1).drop_last() =~= all.take(i as int));
        assert(all.take(i + 1).last() == ders@[i as int]@);
        match add_root(&mut roots, ders[i].clone()) {
            Ok(_) => {},
            Err(e) => {
                proof {
                    lemma_first_failure(all, i + 1);
                }
                return Err(joined("failed to add CA certificate from ", path, ": ", e.as_str()));
            },
        }
        i = i + 1;
    }
    assert(all.take(i as int) =~= all);
    Ok(roots)
}

/// The authorities whose certificates are in a file.
pub fn load_root_store(ca_path: &str, file: FileRead) -> (r: Result<RootCertStore, String>)
    ensures
        found_roots(r) == roots_outcome(ca_path@, certs_of(ca_path@, file)),
{
    roots_found(ca_path, load_certs(ca_path, file))
}

/// `rustls::crypto::CryptoProvider::install_default` with the provider of `ring`: it becomes the provider of the
/// process if that has none yet. Nothing is claimed of it.
#[verifier::external_body]
pub fn ensure_crypto_provider() {
    let _ = rustls::crypto::ring::default_provider().install_default();
}

/// This may come of making a verifier that trusts some authorities and knows some revocation lists.
pub uninterp spec fn may_verify(
    anchors: Seq<AnchorView>,
    crls: Seq<Seq<u8>>,
    built: Result<Arc<WebPkiServerVerifier>, Seq<char>>,
) -> bool;

/// `rustls::client::WebPkiServerVerifier::builder` with `with_crls` and `build`. The verifier takes its
/// algorithms from the provider of the process (that of `ring`, if none was installed), so what comes is not
/// told: [`may_verify`] names what may come. Without an authority it is an error.
#[verifier::external_body]
fn build_verifier(roots: RootCertStore, crls: Vec<Vec<u8>>) -> (r: Result<Arc<WebPkiServerVerifier>, String>)
    ensures
        may_verify(anchors_in(roots), blocks(crls@), made(r)),
        anchors_in(roots).len() == 0 ==> r is Err,
{
    let crls = crls.into_iter().map(rustls::pki_types::CertificateRevocationListDer::from);
    WebPkiServerVerifier::builder(Arc::new(roots)).with_crls(crls).build().map_err(|e| e.to_string())
}

/// This may come of configuring a client that checks servers by a verifier and shows a certificate.
pub uninterp spec fn may_be_client(
    verifier: Arc<WebPkiServerVerifier>,
    certs: Seq<Seq<u8>>,
    key: KeyDerView,
    built: Result<ClientConfig, Seq<char>>,
) -> bool;

/// `rustls::ClientConfig::builder` with a certificate verifier and with `with_client_auth_cert`. The provider of
/// the process (that of `ring`, if none was installed) reads the key, so what comes is not told:
/// [`may_be_client`] names what may come.
#[verifier::external_body]
fn build_client_config(verifier: Arc<WebPkiServerVerifier>, certs: Vec<Vec<u8>>, key: KeyDer) -> (r: Result<
    ClientConfig,
    String,
>)
    ensures
        may_be_client(verifier, blocks(certs@), key@, made(r)),
{
    let key = match key {
        KeyDer::Pkcs1(der) => rustls::pki_types::PrivateKeyDer::Pkcs1(der.into()),
        KeyDer::Sec1(der) => rustls::pki_types::PrivateKeyDer::Sec1(der.into()),
        KeyDer::Pkcs8(der) => rustls::pki_types::PrivateKeyDer::Pkcs8(der.into()),
        KeyDer::Other(der) => rustls::pki_types::PrivateKeyDer::try_from(der)?,
    };
    let certs = certs.into_iter().map(rustls::pki_types::CertificateDer::from).collect();
    let builder = ClientConfig::builder().dangerous().with_custom_certificate_verifier(verifier);
    builder.with_client_auth_cert(certs, key).map_err(|e| e.to_string())
}

/// This may come of configuring a server that shows a certificate and asks for none.
pub uninterp spec fn may_be_server(
    certs: Seq<Seq<u8>>,
    key: KeyDerView,
    built: Result<ServerConfig, Seq<char>>,
) -> bool;

/// `rustls::ServerConfig::builder` with `with_no_client_auth` and `with_single_cert`. The provider of the process
/// (that of `ring`, if none was installed) reads the key, so what comes is not told: [`may_be_server`] names what
/// may come.
#[verifier::external_body]
fn build_server_config(certs: Vec<Vec<u8>>, key: KeyDer) -> (r: Result<ServerConfig, String>)
    ensures
        may_be_server(blocks(certs@), key@, made(r)),
{
    let key = match key {
        KeyDer::Pkcs1(der) => rustls::pki_types::PrivateKeyDer::Pkcs1(der.into()),
        KeyDer::Sec1(der) => rustls::pki_types::PrivateKeyDer::Sec1(der.into()),
        KeyDer::Pkcs8(der) => rustls::pki_types::PrivateKeyDer::Pkcs8(der.into()),
        KeyDer::Other(der) => rustls::pki_types::PrivateKeyDer::try_from(der)?,
    };
    let certs = certs.into_iter().map(rustls::pki_types::CertificateDer::from).collect();
    ServerConfig::builder().with_no_client_auth().with_single_cert(certs, key).map_err(|e| e.to_string())
}

/// What was made, or why it was not, under a heading.
pub open spec fn under<T>(heading: Seq<char>, built: Result<T, Seq<char>>) -> Result<T, Seq<char>> {
    match built {
        Ok(x) => Ok(x),
        Err(e) => Err(heading + e),
    }
}

fn headed(heading: &str, reason: &str) -> (r: String)
    ensures
        r@ == heading@ + reason@,
{
    let mut out = heading.to_owned();
    out.append(reason);
    out
}

/// Takes the verifier that was made.
pub fn verifier_found(built: Result<Arc<WebPkiServerVerifier>, String>) -> (r: Result<Arc<WebPkiServerVerifier>, String>)
    ensures
        made(r) == under("failed to build server certificate verifier: "@, made(built)),
{
    match built {
        Ok(verifier) => Ok(verifier),
        Err(e) => Err(headed("failed to build server certificate verifier: ", e.as_str())),
    }
}

/// Takes the configuration of a client that was made.
pub fn client_config_found(built: Result<ClientConfig, String>) -> (r: Result<ClientConfig, String>)
    ensures
        made(r) == under("failed to build TLS client config: "@, made(built)),
{
    match built {
        Ok(config) => Ok(config),
        Err(e) => Err(headed("failed to build TLS client config: ", e.as_str())),
    }
}

/// Takes the configuration of a server that was made.
pub fn server_config_found(built: Result<ServerConfig, String>) -> (r: Result<ServerConfig, String>)
    ensures
        made(r) == under("failed to build TLS server config: "@, made(built)),
{
    match built {
        Ok(config) => Ok(config),
        Err(e) => Err(headed("failed to build TLS server config: ", e.as_str())),
    }
}

/// What a client may be configured as with a verifier.
pub open spec fn client_with(
    verifier: Arc<WebPkiServerVerifier>,
    certs: Seq<Seq<u8>>,
    key: KeyDerView,
    r: Result<ClientConfig, Seq<char>>,
) -> bool {
    exists|built: Result<ClientConfig, Seq<char>>| #[trigger]
        may_be_client(verifier, certs, key, built) && r == under("failed to build TLS client config: "@, built)
}

/// What a client may be configured as by what is in its files.
pub open spec fn client_of(
    certs: Seq<Seq<u8>>,
    key: KeyDerView,
    anchors: Seq<AnchorView>,
    crls: Seq<Seq<u8>>,
    r: Result<ClientConfig, Seq<char>>,
) -> bool {
    exists|verifier: Result<Arc<WebPkiServerVerifier>, Seq<char>>| #[trigger]
        may_verify(anchors, crls, verifier) && match verifier {
            Err(e) => r == Err::<ClientConfig, Seq<char>>("failed to build server certificate verifier: "@ + e),
            Ok(verifier) => client_with(verifier, certs, key, r),
        }
}

/// What a client may be configured as: the first thing that is missing is told, in the order of its own
/// certificate, its key, the authorities, the revocation lists, the verifier and the configuration.
pub open spec fn client_outcome(
    certs: Result<Seq<Seq<u8>>, Seq<char>>,
    key: Result<KeyDerView, Seq<char>>,
    roots: Result<Seq<AnchorView>, Seq<char>>,
    crls: Result<Seq<Seq<u8>>, Seq<char>>,
    r: Result<ClientConfig, Seq<char>>,
) -> bool {
    match (certs, key, roots, crls) {
        (Err(e), _, _, _) => r == Err::<ClientConfig, Seq<char>>(e),
        (_, Err(e), _, _) => r == Err::<ClientConfig, Seq<char>>(e),
        (_, _, Err(e), _) => r == Err::<ClientConfig, Seq<char>>(e),
        (_, _, _, Err(e)) => r == Err::<ClientConfig, Seq<char>>(e),
        (Ok(certs), Ok(key), Ok(anchors), Ok(crls)) => client_of(certs, key, anchors, crls, r),
    }
}

/// Configures a client by what was found in its files.
pub fn client_config(
    certs: Result<Vec<Vec<u8>>, String>,
    key: Result<KeyDer, String>,
    roots: Result<RootCertStore, String>,
    crls: Result<Vec<Vec<u8>>, String>,
) -> (r: Result<ClientConfig, String>)
    ensures
        client_outcome(found_blocks(certs), loaded_key(key), found_roots(roots), found_blocks(crls), made(r)),
{
    let certs = match certs {
        Ok(certs) => certs,
        Err(e) => {
            return Err(e);
        },
    };
    let key = match key {
        Ok(key) => key,
        Err(e) => {
            return Err(e);
        },
    };
    let roots = match roots {
        Ok(roots) => roots,
        Err(e) => {
            return Err(e);
        },
    };
    let crls = match crls {
        Ok(crls) => crls,
        Err(e) => {
            return Err(e);
        },
    };
    let verifier = build_verifier(roots, crls);
    assert(may_verify(anchors_in(roots), blocks(crls@), made(verifier)));
    match verifier_found(verifier) {
        Err(e) => Err(e),
        Ok(verifier) => {
            let built = build_client_config(verifier, certs, key);
            assert(may_be_client(verifier, blocks(certs@), key@, made(built)));
            client_config_found(built)
        },
    }
}

/// The configuration of a client that shows a certificate, and checks that of the server against an authority
/// and a revocation list.
pub fn load_client_config(
    cert_path: &str,
    cert: FileRead,
    key_path: &str,
    key: FileRead,
    ca_path: &str,
    ca: FileRead,
    crl_path: &str,
    crl: FileRead,
) -> (r: Result<ClientConfig, String>)
    ensures
        client_outcome(
            certs_of(cert_path@, cert),
            key_of(key_path@, key),
            roots_outcome(ca_path@, certs_of(ca_path@, ca)),
            crls_of(crl_path@, crl),
            made(r),
        ),
{
    ensure_crypto_provider();
    client_config(
        load_certs(cert_path, cert),
        load_private_key(key_path, key),
        load_root_store(ca_path, ca),
        load_crls(crl_path, crl),
    )
}

/// What a server for browsers may be configured as by what is in its files.
pub open spec fn server_of(certs: Seq<Seq<u8>>, key: KeyDerView, r: Result<ServerConfig, Seq<char>>) -> bool {
    exists|built: Result<ServerConfig, Seq<char>>| #[trigger]
        may_be_server(certs, key, built) && r == under("failed to build TLS server config: "@, built)
}

/// What a server for browsers may be configured as: the first thing that is missing is told, in the order of
/// its certificate, its key and the configuration. Browsers show no certificate, and are asked for none.
pub open spec fn server_outcome(
    certs: Result<Seq<Seq<u8>>, Seq<char>>,
    key: Result<KeyDerView, Seq<char>>,
    r: Result<ServerConfig, Seq<char>>,
) -> bool {
    match (certs, key) {
        (Err(e), _) => r == Err::<ServerConfig, Seq<char>>(e),
        (_, Err(e)) => r == Err::<ServerConfig, Seq<char>>(e),
        (Ok(certs), Ok(key)) => server_of(certs, key, r),
    }
}

/// Configures a server for browsers by what was found in its files.
pub fn browser_server_config(certs: Result<Vec<Vec<u8>>, String>, key: Result<KeyDer, String>) -> (r: Result<
    ServerConfig,
    String,
>)
    ensures
        server_outcome(found_blocks(certs), loaded_key(key), made(r)),
{
    match certs {
        Err(e) => Err(e),
        Ok(certs) => match key {
            Err(e) => Err(e),
            Ok(key) => {
                let built = build_server_config(certs, key);
                assert(may_be_server(blocks(certs@), key@, made(built)));
                server_config_found(built)
            },
        },
    }
}

/// The configuration of a server for browsers.
pub fn load_browser_server_config(cert_path: &str, cert: FileRead, key_path: &str, key: FileRead) -> (r: Result<
    ServerConfig,
    String,
>)
    ensures
        server_outcome(certs_of(cert_path@, cert), key_of(key_path@, key), made(r)),
{
    ensure_crypto_provider();
    browser_server_config(load_certs(cert_path, cert), load_private_key(key_path, key))
}

} // verus!
