//! What is made of the files for TLS, told by what is in them.

use crate::dashboard::tls::{
    anchor_of, anchors_of, certs_of, certs_outcome, client_outcome, crls_of, crls_outcome, key_of, key_outcome,
    may_be_client, may_be_server, may_verify, roots_outcome, server_outcome, AnchorView, FileRead, KeyDerView,
};
use rustls::client::WebPkiServerVerifier;
use rustls::{ClientConfig, ServerConfig};
use std::sync::Arc;
use vstd::prelude::*;

verus! {

/// What is found in a file is taken as it is, if there is any; otherwise the file is told, and what is wrong with it.
pub proof fn law_found_in_files(
    path: Seq<char>,
    found: Result<Seq<Seq<u8>>, Seq<char>>,
    key: Result<Option<KeyDerView>, Seq<char>>,
)
    ensures
        certs_outcome(path, found) is Ok <==> found is Ok && found->Ok_0.len() > 0,
        crls_outcome(path, found) is Ok <==> found is Ok && found->Ok_0.len() > 0,
        key_outcome(path, key) is Ok <==> key is Ok && key->Ok_0 is Some,
        found is Ok && found->Ok_0.len() > 0 ==> certs_outcome(path, found) == found && crls_outcome(path, found) == found,
        key is Ok && key->Ok_0 is Some ==> key_outcome(path, key)->Ok_0 == key->Ok_0->0,
        found is Ok && found->Ok_0.len() == 0 ==> certs_outcome(path, found)->Err_0
            == "failed to find any PEM-encoded certificates in "@ + path && crls_outcome(path, found)->Err_0
            == "failed to find a PEM-encoded CRL in "@ + path,
        key is Ok && key->Ok_0 is None ==> key_outcome(path, key)->Err_0 == "no private key found in "@ + path,
        found matches Err(e) ==> certs_outcome(path, found)->Err_0 == "failed to parse certificate file "@ + path + ": "@
            + e && crls_outcome(path, found)->Err_0 == "failed to parse CRL file "@ + path + ": "@ + e,
        key matches Err(e) ==> key_outcome(path, key)->Err_0 == "failed to parse key file "@ + path + ": "@ + e,
{
}

/// A file that cannot be opened is told by its own path, with the reason.
pub proof fn law_files_that_cannot_be_opened(path: Seq<char>, reason: String)
    ensures
        certs_of(path, FileRead::NotOpened(reason)) == Err::<Seq<Seq<u8>>, Seq<char>>(
            "failed to open certificate file "@ + path + ": "@ + reason@,
        ),
        crls_of(path, FileRead::NotOpened(reason)) == Err::<Seq<Seq<u8>>, Seq<char>>(
            "failed to open CRL file "@ + path + ": "@ + reason@,
        ),
        key_of(path, FileRead::NotOpened(reason)) == Err::<KeyDerView, Seq<char>>(
            "failed to open key file "@ + path + ": "@ + reason@,
        ),
{
}

/// The first certificate that cannot be trusted.
pub open spec fn is_first_untrusted(ders: Seq<Seq<u8>>, k: int) -> bool {
    &&& 0 <= k < ders.len()
    &&& anchor_of(ders[k]) is Err
    &&& forall|j: int| 0 <= j < k ==> anchor_of(#[trigger] ders[j]) is Ok
}

/// Every authority is trusted, in the order of the certificates, or the first that cannot be is told, with its file.
pub proof fn law_authorities(path: Seq<char>, ders: Seq<Seq<u8>>)
    ensures
        match anchors_of(ders) {
            Ok(anchors) => anchors.len() == ders.len() && forall|i: int|
                0 <= i < ders.len() ==> anchor_of(ders[i]) == Ok::<AnchorView, Seq<char>>(#[trigger] anchors[i]),
            Err(e) => exists|k: int| #[trigger] is_first_untrusted(ders, k) && anchor_of(ders[k])->Err_0 == e,
        },
        roots_outcome(path, Ok(ders)) is Ok <==> anchors_of(ders) is Ok,
        anchors_of(ders) matches Ok(anchors) ==> roots_outcome(path, Ok(ders))->Ok_0 == anchors,
        anchors_of(ders) matches Err(e) ==> roots_outcome(path, Ok(ders))->Err_0 == "failed to add CA certificate from "@
            + path + ": "@ + e,
        forall|e: Seq<char>| #[trigger]
            roots_outcome(path, Err::<Seq<Seq<u8>>, Seq<char>>(e)) == Err::<Seq<AnchorView>, Seq<char>>(e),
    decreases ders.len(),
{
    if ders.len() > 0 {
        let rest = ders.drop_last();
        let n = ders.len() - 1;
        law_authorities(path, rest);
        match anchors_of(rest) {
            Err(e) => {
                let k = choose|k: int| #[trigger] is_first_untrusted(rest, k) && anchor_of(rest[k])->Err_0 == e;
                assert(rest[k] == ders[k]);
                assert forall|j: int| 0 <= j < k implies anchor_of(#[trigger] ders[j]) is Ok by {
                    assert(rest[j] == ders[j]);
                }
                assert(is_first_untrusted(ders, k));
            },
            Ok(anchors) => {
                assert forall|j: int| 0 <= j < n implies anchor_of(#[trigger] ders[j]) == Ok::<AnchorView, Seq<char>>(
                    anchors[j],
                ) by {
                    assert(rest[j] == ders[j]);
                    assert(anchor_of(rest[j]) == Ok::<AnchorView, Seq<char>>(anchors[j]));
                }
                if anchor_of(ders[n]) is Err {
                    assert(is_first_untrusted(ders, n));
                } else {
                    let all = anchors_of(ders)->Ok_0;
                    assert forall|i: int| 0 <= i < ders.len() implies anchor_of(ders[i]) == Ok::<AnchorView, Seq<char>>(
                        #[trigger] all[i],
                    ) by {
                        if i < n {
                            assert(all[i] == anchors[i]);
                            assert(anchor_of(ders[i]) == Ok::<AnchorView, Seq<char>>(anchors[i]));
                        }
                    }
                }
            },
        }
    }
}

/// A client's configuration is made of its own certificate and key, of the authorities and of the revocation lists. The first
/// of these that is missing is told; after that, what came of making the verifier and the configuration.
pub proof fn law_client_configurations(
    certs: Result<Seq<Seq<u8>>, Seq<char>>,
    key: Result<KeyDerView, Seq<char>>,
    roots: Result<Seq<AnchorView>, Seq<char>>,
    crls: Result<Seq<Seq<u8>>, Seq<char>>,
    r: Result<ClientConfig, Seq<char>>,
)
    requires
        client_outcome(certs, key, roots, crls, r),
    ensures
        certs is Err ==> r == Err::<ClientConfig, Seq<char>>(certs->Err_0),
        certs is Ok && key is Err ==> r == Err::<ClientConfig, Seq<char>>(key->Err_0),
        certs is Ok && key is Ok && roots is Err ==> r == Err::<ClientConfig, Seq<char>>(roots->Err_0),
        certs is Ok && key is Ok && roots is Ok && crls is Err ==> r == Err::<ClientConfig, Seq<char>>(crls->Err_0),
        r is Ok ==> {
            &&& certs is Ok && key is Ok && roots is Ok && crls is Ok
            &&& exists|verifier: Arc<WebPkiServerVerifier>| #[trigger]
                verifies(roots->Ok_0, crls->Ok_0, verifier) && may_be_client(
                    verifier,
                    certs->Ok_0,
                    key->Ok_0,
                    r,
                )
        },
{
    if r is Ok {
        let (a, b, c, d) = (certs->Ok_0, key->Ok_0, roots->Ok_0, crls->Ok_0);
        assert(crate::dashboard::tls::client_of(a, b, c, d, r));
        let verifier = choose|verifier: Result<Arc<WebPkiServerVerifier>, Seq<char>>| #[trigger]
            may_verify(c, d, verifier) && match verifier {
                Err(e) => r == Err::<ClientConfig, Seq<char>>("failed to build server certificate verifier: "@ + e),
                Ok(verifier) => crate::dashboard::tls::client_with(verifier, a, b, r),
            };
        let v = verifier->Ok_0;
        assert(verifies(c, d, v));
        let built = choose|built: Result<ClientConfig, Seq<char>>| #[trigger]
            may_be_client(v, a, b, built) && r == crate::dashboard::tls::under(
                "failed to build TLS client config: "@,
                built,
            );
        assert(built == r);
    }
}

/// A verifier may trust these authorities and know these revocation lists.
pub open spec fn verifies(anchors: Seq<AnchorView>, crls: Seq<Seq<u8>>, verifier: Arc<WebPkiServerVerifier>) -> bool {
    may_verify(anchors, crls, Ok(verifier))
}

/// The configuration of a server for browsers is made of its own certificate and key, and of nothing else. The first of them
/// that is missing is told.
pub proof fn law_server_configurations(
    certs: Result<Seq<Seq<u8>>, Seq<char>>,
    key: Result<KeyDerView, Seq<char>>,
    r: Result<ServerConfig, Seq<char>>,
)
    requires
        server_outcome(certs, key, r),
    ensures
        certs is Err ==> r == Err::<ServerConfig, Seq<char>>(certs->Err_0),
        certs is Ok && key is Err ==> r == Err::<ServerConfig, Seq<char>>(key->Err_0),
        r is Ok ==> certs is Ok && key is Ok && may_be_server(certs->Ok_0, key->Ok_0, r),
{
    if r is Ok {
        assert(crate::dashboard::tls::server_of(certs->Ok_0, key->Ok_0, r));
        let built = choose|built: Result<ServerConfig, Seq<char>>| #[trigger]
            may_be_server(certs->Ok_0, key->Ok_0, built) && r == crate::dashboard::tls::under(
                "failed to build TLS server config: "@,
                built,
            );
        assert(built == r);
    }
}

} // verus!
