//! The certificate of the proxy, and the commands that show and install it.
use crate::path::join_path;
#[allow(unused_imports)]
use crate::path::pushed;
#[allow(unused_imports)]
use crate::text::views;
use vstd::prelude::*;

verus! {

/// The file with the certificate, in the directory for it.
pub fn cert_path(ca_dir: &str) -> (res: String)
    ensures
        res@ == pushed(ca_dir@, "ca.crt"@),
{
    join_path(ca_dir, "ca.crt")
}

/// The file with the key, in the directory for it.
pub fn key_path(ca_dir: &str) -> (res: String)
    ensures
        res@ == pushed(ca_dir@, "ca.key"@),
{
    join_path(ca_dir, "ca.key")
}

/// Whether a certificate has to be made: it is made with its key, so both must be there.
pub fn must_generate(cert_exists: bool, key_exists: bool) -> (res: bool)
    ensures
        res == !(cert_exists && key_exists),
{
    !(cert_exists && key_exists)
}

/// The arguments of `openssl` that show the fingerprint of a certificate.
pub fn fingerprint_args(cert_path: &str) -> (res: Vec<String>)
    ensures
        views(res@) == seq![
            "x509"@,
            "-in"@,
            cert_path@,
            "-noout"@,
            "-fingerprint"@,
            "-sha256"@,
        ],
{
    let res = vec![
        "x509".to_owned(),
        "-in".to_owned(),
        cert_path.to_owned(),
        "-noout".to_owned(),
        "-fingerprint".to_owned(),
        "-sha256".to_owned(),
    ];
    assert(views(res@) =~= seq![
        "x509"@,
        "-in"@,
        cert_path@,
        "-noout"@,
        "-fingerprint"@,
        "-sha256"@,
    ]);
    res
}

/// The arguments of `security` that make the system trust a certificate.
pub fn install_args(cert_path: &str) -> (res: Vec<String>)
    ensures
        views(res@) == seq![
            "add-trusted-cert"@,
            "-d"@,
            "-r"@,
            "trustRoot"@,
            "-k"@,
            "/Library/Keychains/System.keychain"@,
            cert_path@,
        ],
{
    let res = vec![
        "add-trusted-cert".to_owned(),
        "-d".to_owned(),
        "-r".to_owned(),
        "trustRoot".to_owned(),
        "-k".to_owned(),
        "/Library/Keychains/System.keychain".to_owned(),
        cert_path.to_owned(),
    ];
    assert(views(res@) =~= seq![
        "add-trusted-cert"@,
        "-d"@,
        "-r"@,
        "trustRoot"@,
        "-k"@,
        "/Library/Keychains/System.keychain"@,
        cert_path@,
    ]);
    res
}

} // verus!
