//! Where the certificate and the private key of a TLS server are kept.

use vstd::prelude::*;

verus! {

/// The files that a TLS configuration is made from.
#[derive(Debug, Clone, Copy)]
pub struct TlsConfig<'a> {
    cert_path: &'a str,
    privkey_path: &'a str,
}

impl<'a> TlsConfig<'a> {
    pub closed spec fn certificate(&self) -> Seq<char> {
        self.cert_path@
    }

    pub closed spec fn private_key(&self) -> Seq<char> {
        self.privkey_path@
    }

    pub fn new(cert_path: &'a str, privkey_path: &'a str) -> (config: TlsConfig<'a>)
        ensures
            config.certificate() == cert_path@,
            config.private_key() == privkey_path@,
    {
        TlsConfig { cert_path, privkey_path }
    }

    /// The path of the certificate chain.
    pub fn cert_path(&self) -> (path: &'a str)
        ensures
            path@ == self.certificate(),
    {
        self.cert_path
    }

    /// The path of the private key.
    pub fn privkey_path(&self) -> (path: &'a str)
        ensures
            path@ == self.private_key(),
    {
        self.privkey_path
    }
}

/// How many private keys a key file may hold: one.
pub fn single_key(keys: usize) -> (ok: bool)
    ensures
        ok == (keys == 1),
{
    keys == 1
}

} // verus!
