//! A stored short link: who owns it, the short identifier, and the long URL.

use vstd::prelude::*;
use vstd::string::StringExecFns;

verus! {

/// The mathematical content of a short link.
pub ghost struct ShortlinkSpec {
    /// The owner's key: an email fingerprint, not a raw address.
    pub owner_email: Seq<char>,
    /// The random short identifier the link is reached by.
    pub link_hash: Seq<char>,
    /// The destination URL.
    pub link_long: Seq<char>,
}

/// Relies on `nanoid::format` with the default URL-safe alphabet: an
/// eight-character random identifier.
#[verifier::external_body]
fn nanoid_8() -> (r: String)
    ensures
        r@.len() == 8,
{
    nanoid::format(nanoid::rngs::default, &nanoid::alphabet::SAFE, 8)
}

/// A stored short link.
#[derive(Debug, Clone)]
pub struct Shortlink {
    owner_email: String,
    link_hash: String,
    link_long: String,
}

impl View for Shortlink {
    type V = ShortlinkSpec;

    closed spec fn view(&self) -> ShortlinkSpec {
        ShortlinkSpec {
            owner_email: self.owner_email@,
            link_hash: self.link_hash@,
            link_long: self.link_long@,
        }
    }
}

impl Shortlink {
    /// Builds a link for an owner with a fresh random eight-character hash.
    pub fn new(link_long: String, owner_email: String) -> (r: Shortlink)
        ensures
            r@.owner_email == owner_email@,
            r@.link_long == link_long@,
            r@.link_hash.len() == 8,
    {
        let link_hash = nanoid_8();
        Shortlink { owner_email, link_hash, link_long }
    }

    /// The owner's key.
    pub fn owner_email(&self) -> (r: &str)
        ensures
            r@ == self@.owner_email,
    {
        self.owner_email.as_str()
    }

    /// The destination URL.
    pub fn link_long(&self) -> (r: &str)
        ensures
            r@ == self@.link_long,
    {
        self.link_long.as_str()
    }

    /// The short identifier.
    pub fn link_hash(&self) -> (r: &str)
        ensures
            r@ == self@.link_hash,
    {
        self.link_hash.as_str()
    }

    /// The full short URL under the given scheme and host.
    pub fn link_short(&self, scheme: &str, host: &str) -> (r: String)
        ensures
            r@ == scheme@ + "://"@ + host@ + "/"@ + self@.link_hash,
    {
        let mut out = scheme.to_owned();
        out.append("://");
        out.append(host);
        out.append("/");
        out.append(self.link_hash.as_str());
        out
    }
}

} // verus!
