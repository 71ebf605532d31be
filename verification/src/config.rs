//! Platform configuration: the single surface an organisation edits to run
//! its own private, branded network. Precedence (highest wins): command-line
//! flags > environment > configuration file > built-in defaults.

use vstd::prelude::*;
use vstd::string::StringExecFns;

use crate::text::{string_of, trim, trimmed};

verus! {

/// Isolation and membership for a network.
#[derive(Debug, Clone)]
pub struct NetworkConfig {
    /// namespace scoping the completion protocol id
    pub id: String,
    /// display name
    pub name: String,
    /// if true, the coordinator requires the join secret on every request
    pub private: bool,
    /// shared bearer secret gating a private network (empty = open)
    pub join_secret: String,
}

#[derive(Debug, Clone)]
pub struct CoordinatorConfig {
    /// URL the client uses to reach the coordinator
    pub url: String,
    /// address the coordinator binds to
    pub listen: String,
}

#[derive(Debug, Clone)]
pub struct RelayConfig {
    /// multiaddr of a relay to reserve a slot on
    pub addr: String,
}

#[derive(Debug, Clone)]
pub struct ClientConfig {
    /// local HTTP address (dashboard + completions endpoint)
    pub http: String,
    /// peer-to-peer listen multiaddr
    pub p2p_listen: String,
    /// max concurrent jobs to serve
    pub capacity: u32,
    /// run as a public circuit-relay server
    pub relay: bool,
}

/// White-label branding surfaced to the dashboard.
#[derive(Debug, Clone)]
pub struct BrandConfig {
    pub product_name: String,
    pub tagline: String,
    pub accent: String,
    pub amber: String,
    pub website: String,
    pub github: String,
    pub support_email: String,
    /// optional logo image URL
    pub logo_url: String,
}

/// The whole platform configuration.
#[derive(Debug, Clone)]
pub struct PlatformConfig {
    pub network: NetworkConfig,
    pub coordinator: CoordinatorConfig,
    pub relay: RelayConfig,
    pub client: ClientConfig,
    pub brand: BrandConfig,
}

fn s(lit: &str) -> (r: String)
    ensures
        r@ == lit@,
{
    String::from_str(lit)
}

impl NetworkConfig {
    pub open spec fn is_default(self) -> bool {
        &&& self.id@ == "public"@
        &&& self.name@ == "p2ptokens"@
        &&& !self.private
        &&& self.join_secret@.len() == 0
    }

}

impl Default for NetworkConfig {
    /// The public network: id `public`, open.
    fn default() -> (r: Self)
        ensures
            r.is_default(),
    {
        let r = NetworkConfig {
            id: s("public"),
            name: s("p2ptokens"),
            private: false,
            join_secret: String::new(),
        };
        r
    }
}

impl CoordinatorConfig {
    pub open spec fn is_default(self) -> bool {
        &&& self.url@ == "https://coordinator.p2ptokens.com"@
        &&& self.listen@ == "127.0.0.1:4000"@
    }

}

impl Default for CoordinatorConfig {
    fn default() -> (r: Self)
        ensures
            r.is_default(),
    {
        CoordinatorConfig {
            url: s("https://coordinator.p2ptokens.com"),
            listen: s("127.0.0.1:4000"),
        }
    }
}

impl RelayConfig {
    pub open spec fn is_default(self) -> bool {
        self.addr@.len() == 0
    }

}

impl Default for RelayConfig {
    fn default() -> (r: Self)
        ensures
            r.is_default(),
    {
        RelayConfig { addr: String::new() }
    }
}

impl ClientConfig {
    pub open spec fn is_default(self) -> bool {
        &&& self.http@ == "127.0.0.1:8080"@
        &&& self.p2p_listen@ == "/ip4/0.0.0.0/tcp/0"@
        &&& self.capacity == 4
        &&& !self.relay
    }

}

impl Default for ClientConfig {
    fn default() -> (r: Self)
        ensures
            r.is_default(),
    {
        ClientConfig {
            http: s("127.0.0.1:8080"),
            p2p_listen: s("/ip4/0.0.0.0/tcp/0"),
            capacity: 4,
            relay: false,
        }
    }
}

impl BrandConfig {
    pub open spec fn is_default(self) -> bool {
        &&& self.product_name@ == "p2ptokens"@
        &&& self.tagline@ == "distributed inference swarm — seed to leech"@
        &&& self.accent@ == "#33ff88"@
        &&& self.amber@ == "#ffb000"@
        &&& self.website@ == "https://p2ptokens.com"@
        &&& self.github@ == "https://github.com/pur4v/p2ptokens"@
        &&& self.support_email@.len() == 0
        &&& self.logo_url@.len() == 0
    }

}

impl Default for BrandConfig {
    fn default() -> (r: Self)
        ensures
            r.is_default(),
    {
        BrandConfig {
            product_name: s("p2ptokens"),
            tagline: s("distributed inference swarm — seed to leech"),
            accent: s("#33ff88"),
            amber: s("#ffb000"),
            website: s("https://p2ptokens.com"),
            github: s("https://github.com/pur4v/p2ptokens"),
            support_email: String::new(),
            logo_url: String::new(),
        }
    }
}

/// The join secret a configuration yields: the trimmed secret of a private
/// network, when non-empty.
pub open spec fn spec_join_secret(net: NetworkConfig) -> Option<Seq<char>> {
    let t = trim(net.join_secret@);
    if net.private && t.len() > 0 {
        Some(t)
    } else {
        None
    }
}

impl PlatformConfig {
    pub open spec fn is_default(self) -> bool {
        &&& self.network.is_default()
        &&& self.coordinator.is_default()
        &&& self.relay.is_default()
        &&& self.client.is_default()
        &&& self.brand.is_default()
    }

    /// Built-in defaults: the public network.

    /// `post` is `self` with the environment overrides applied.
    pub open spec fn env_applied(
        self,
        post: PlatformConfig,
        coordinator: Option<String>,
        network_id: Option<String>,
        join_secret: Option<String>,
    ) -> bool {
        &&& post.coordinator.url == (match coordinator {
            Some(v) => v,
            None => self.coordinator.url,
        })
        &&& post.coordinator.listen == self.coordinator.listen
        &&& post.network.id == (match network_id {
            Some(v) => v,
            None => self.network.id,
        })
        &&& post.network.name == self.network.name
        &&& post.network.join_secret == (match join_secret {
            Some(v) => v,
            None => self.network.join_secret,
        })
        &&& post.network.private == (join_secret is Some || self.network.private)
        &&& post.relay == self.relay
        &&& post.client == self.client
        &&& post.brand == self.brand
    }

    /// Environment overrides (`P2PTOKENS_COORDINATOR`, `P2PTOKENS_NETWORK_ID`,
    /// `P2PTOKENS_JOIN_SECRET`); a join secret also makes the network private.
    pub fn apply_env(
        &mut self,
        coordinator: Option<String>,
        network_id: Option<String>,
        join_secret: Option<String>,
    )
        ensures
            old(self).env_applied(*final(self), coordinator, network_id, join_secret),
    {
        if let Some(v) = coordinator {
            self.coordinator.url = v;
        }
        if let Some(v) = network_id {
            self.network.id = v;
        }
        if let Some(v) = join_secret {
            self.network.join_secret = v;
            self.network.private = true;
        }
    }

    /// Load config: the parsed configuration file when there is one (else the
    /// built-in defaults), then the environment overrides.
    pub fn load(
        file: Option<PlatformConfig>,
        coordinator: Option<String>,
        network_id: Option<String>,
        join_secret: Option<String>,
    ) -> (r: Self)
        ensures
            match file {
                Some(c) => c.env_applied(r, coordinator, network_id, join_secret),
                None => exists|d: PlatformConfig|
                    #[trigger] d.env_applied(r, coordinator, network_id, join_secret)
                        && d.is_default(),
            },
    {
        let mut cfg = match file {
            Some(c) => c,
            None => PlatformConfig::default(),
        };
        let ghost base = cfg;
        cfg.apply_env(coordinator, network_id, join_secret);
        assert(base.env_applied(cfg, coordinator, network_id, join_secret));
        cfg
    }

    /// The join secret, if this is a private network with a non-empty secret.
    pub fn join_secret(&self) -> (r: Option<String>)
        ensures
            match r {
                Some(v) => spec_join_secret(self.network) == Some(v@),
                None => spec_join_secret(self.network) is None,
            },
    {
        let t = trimmed(self.network.join_secret.as_str());
        if self.network.private && t.len() > 0 {
            Some(string_of(t.as_slice()))
        } else {
            None
        }
    }
}

impl Default for PlatformConfig {
    /// Built-in defaults: the public network.
    fn default() -> (r: Self)
        ensures
            r.is_default(),
    {
        PlatformConfig {
            network: NetworkConfig::default(),
            coordinator: CoordinatorConfig::default(),
            relay: RelayConfig::default(),
            client: ClientConfig::default(),
            brand: BrandConfig::default(),
        }
    }
}

} // verus!
