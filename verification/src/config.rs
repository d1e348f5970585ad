//! How the daemon is set up.
use vstd::prelude::*;

use crate::auth::admitted;
use crate::paths::{join_path, joined_path};

verus! {

#[derive(Debug, Clone, PartialEq, Eq)]
pub struct DaemonConfig {
    /// Address and port to listen on.
    pub bind: String,
    pub state_file: String,
    /// The directory that holds one directory per tag.
    pub snapshot_root: String,
    /// One line of JSON is appended here for each request.
    pub audit_log: String,
    /// The file that holds the bearer token; without one, requests need none.
    pub token_file: Option<String>,
    /// Certificate chain and private key for HTTPS. Without either of them the
    /// daemon serves plain HTTP.
    pub tls_cert: Option<String>,
    pub tls_key: Option<String>,
    /// Where throwaway snapshots of prewarmed sandboxes go.
    pub prewarm_scratch_dir: String,
}

impl DaemonConfig {
    /// The defaults, for data kept under `data_dir`.
    pub fn with_data_dir(data_dir: &str) -> (r: Self)
        ensures
            r.bind@ == "127.0.0.1:8889"@,
            r.state_file@ == "/var/lib/forkd/state.json"@,
            r.snapshot_root@ == joined_path(data_dir@, "snapshots"@),
            r.audit_log@ == "/var/log/forkd/audit.log"@,
            r.token_file is None,
            r.tls_cert is None,
            r.tls_key is None,
            r.prewarm_scratch_dir@ == "/dev/shm/forkd-prewarm"@,
    {
        DaemonConfig {
            bind: "127.0.0.1:8889".to_string(),
            state_file: "/var/lib/forkd/state.json".to_string(),
            snapshot_root: join_path(data_dir, "snapshots"),
            audit_log: "/var/log/forkd/audit.log".to_string(),
            token_file: None,
            tls_cert: None,
            tls_key: None,
            prewarm_scratch_dir: "/dev/shm/forkd-prewarm".to_string(),
        }
    }

    /// The certificate and key to serve HTTPS with; plain HTTP where either is
    /// missing.
    pub fn tls(&self) -> (r: Option<(String, String)>)
        ensures
            match (self.tls_cert, self.tls_key) {
                (Some(c), Some(k)) => r matches Some(p) && p.0@ == c@ && p.1@ == k@,
                _ => r is None,
            },
    {
        match (&self.tls_cert, &self.tls_key) {
            (Some(c), Some(k)) => Some((c.clone(), k.clone())),
            _ => None,
        }
    }

    /// Whether anyone on the network can use the daemon.
    pub open spec fn exposed(self, loopback: bool) -> bool {
        self.token_file is None && !loopback
    }

    /// Whether to warn that anyone on the network can use the daemon.
    pub fn is_exposed(&self, loopback: bool) -> (r: bool)
        ensures
            r == self.exposed(loopback),
    {
        self.token_file.is_none() && !loopback
    }
}

/// A warning is given exactly where the daemon listens beyond its own host and
/// lets every request in, whatever it asks for and whatever it carries. `token`
/// is what the token file holds.
pub proof fn law_warned_exactly_where_everyone_gets_in(
    cfg: DaemonConfig,
    loopback: bool,
    token: Option<Seq<char>>,
)
    requires
        token is Some <==> cfg.token_file is Some,
    ensures
        cfg.exposed(loopback) <==> !loopback && forall|path: Seq<char>, header: Option<Seq<char>>| #[trigger]
            admitted(token, path, header),
{
    if token is Some {
        reveal_strlit("/healthz");
        reveal_strlit("Bearer ");
        let path = Seq::<char>::empty();
        assert("/healthz"@.len() == 8);
        if admitted(token, path, None) {
            crate::auth::law_only_the_token_opens(token->0, path, None);
        }
        assert(!admitted(token, path, None));
    }
}

} // verus!
