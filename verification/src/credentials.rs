//! Per-host API tokens kept in the user's credentials file.
use vstd::prelude::*;
use crate::table::StrMap;
use crate::text::{join_path, joined, owned};

verus! {

/// The stored tokens, keyed by host URL.
pub struct Credentials {
    pub host_tokens: StrMap<String>,
}

impl Credentials {
    /// No tokens.
    pub fn empty() -> (c: Credentials)
        ensures
            c.host_tokens@ == Map::<Seq<char>, String>::empty(),
    {
        Credentials { host_tokens: StrMap::new() }
    }
}

/// Where the credentials file lives.
pub struct CredentialStore {
    path: String,
}

/// The directory under the user's home directory that holds the
/// credentials file: `.rig`.
pub fn rig_config_dir(home: &str) -> (d: String)
    ensures
        d@ == joined(home@, ".rig"@),
{
    join_path(home, ".rig")
}

impl CredentialStore {
    /// The store under the user's home directory `home`: the file
    /// `.rig/credentials` there.
    pub fn new(home: &str) -> (s: CredentialStore)
        ensures
            s.path()@ == joined(joined(home@, ".rig"@), "credentials"@),
    {
        let dir = rig_config_dir(home);
        CredentialStore { path: join_path(dir.as_str(), "credentials") }
    }

    /// The location of the credentials file.
    pub closed spec fn path(&self) -> String {
        self.path
    }

    /// The location of the credentials file.
    pub fn file(&self) -> (p: &String)
        ensures
            *p == self.path(),
    {
        &self.path
    }

    /// The token stored for `host` in the loaded credentials.
    pub fn get_token(&self, creds: &Credentials, host: &str) -> (t: Option<String>)
        ensures
            t.deep_view() == creds.host_tokens.vmap().get(host@),
    {
        match creds.host_tokens.get(host) {
            Some(t) => Some(t.clone()),
            None => None,
        }
    }

    /// Stores `token` for `host` in the loaded credentials, replacing any
    /// earlier one.
    pub fn set_token(&self, creds: &mut Credentials, host: &str, token: &str)
        ensures
            final(creds).host_tokens.vmap() == old(creds).host_tokens.vmap().insert(host@, token@),
    {
        creds.host_tokens.insert(owned(host), owned(token));
        assert(creds.host_tokens.vmap() =~= old(creds).host_tokens.vmap().insert(host@, token@));
    }
}

/// A token stored for a host is the one read back for it, and storing it
/// leaves the other hosts' tokens as they were.
pub proof fn token_read_after_write(
    before: Map<Seq<char>, Seq<char>>,
    after: Map<Seq<char>, Seq<char>>,
    host: Seq<char>,
    token: Seq<char>,
    other: Seq<char>,
)
    requires
        after == before.insert(host, token),
        other != host,
    ensures
        after.get(host) == Some(token),
        after.get(other) == before.get(other),
{
}

} // verus!
