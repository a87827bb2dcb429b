//! The identity of a relay configuration.
use vstd::prelude::*;
use vstd::string::StringExecFns;
use crate::text::{bool_text, push_bool};

verus! {

/// What a relay request consists of: remote address, virtual host, path,
/// and the two TLS switches. Two requests name the same relay instance
/// exactly when all five parts are equal.
pub struct ConfigKey {
    pub remote: String,
    pub host: String,
    pub path: String,
    pub tls: bool,
    pub insecure: bool,
}

/// The mathematical value of a key: its five parts.
pub type KeyModel = (Seq<char>, Seq<char>, Seq<char>, bool, bool);

impl View for ConfigKey {
    type V = KeyModel;

    open spec fn view(&self) -> KeyModel {
        (self.remote@, self.host@, self.path@, self.tls, self.insecure)
    }
}

/// The printable form of a key: the five parts joined by `-`.
pub open spec fn key_text(k: KeyModel) -> Seq<char> {
    k.0 + "-"@ + k.1 + "-"@ + k.2 + "-"@ + bool_text(k.3) + "-"@ + bool_text(k.4)
}

impl ConfigKey {
    pub fn new(remote: &str, host: &str, path: &str, tls: bool, insecure: bool) -> (r: ConfigKey)
        ensures
            r@ == (remote@, host@, path@, tls, insecure),
    {
        ConfigKey {
            remote: String::from_str(remote),
            host: String::from_str(host),
            path: String::from_str(path),
            tls,
            insecure,
        }
    }

    /// Whether `self` and `other` name the same relay instance.
    pub fn same_as(&self, other: &ConfigKey) -> (r: bool)
        ensures
            r == (self@ == other@),
    {
        self.tls == other.tls && self.insecure == other.insecure && self.remote == other.remote
            && self.host == other.host && self.path == other.path
    }

    /// The printable form of the key, used in log lines.
    pub fn describe(&self) -> (r: String)
        ensures
            r@ == key_text(self@),
    {
        let mut s = String::from_str(self.remote.as_str());
        s.append("-");
        s.append(self.host.as_str());
        s.append("-");
        s.append(self.path.as_str());
        s.append("-");
        push_bool(&mut s, self.tls);
        s.append("-");
        push_bool(&mut s, self.insecure);
        s
    }

    /// A copy of the key.
    pub fn clone_key(&self) -> (r: ConfigKey)
        ensures
            r@ == self@,
    {
        ConfigKey {
            remote: self.remote.clone(),
            host: self.host.clone(),
            path: self.path.clone(),
            tls: self.tls,
            insecure: self.insecure,
        }
    }
}

} // verus!
