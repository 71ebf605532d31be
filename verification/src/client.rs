//! The client daemon's configuration: which backends to serve from, the
//! daemon's run settings, and the catalogue of models it offers.

use vstd::prelude::*;

use crate::adapters::BackendKind;
use crate::config::{spec_join_secret, BrandConfig, PlatformConfig};
use crate::seeder::{lookup, ModelIndex, ModelServe};
use crate::text::{chars_of, lower, lowercase_chars, str_eq, string_of, trim, trim_chars, trimmed};
use crate::types::{clone_model, ModelCaps, ModelId, ModelOffer};

verus! {

/// The pieces of `s` between commas (one more than the commas).
pub open spec fn comma_pieces(s: Seq<char>) -> Seq<Seq<char>>
    decreases s.len(),
{
    if s.len() == 0 {
        seq![Seq::empty()]
    } else {
        let p = comma_pieces(s.drop_last());
        if s.last() == ',' {
            p.push(Seq::empty())
        } else {
            p.update(p.len() - 1, p.last().push(s.last()))
        }
    }
}

proof fn lemma_comma_pieces_nonempty(s: Seq<char>)
    ensures
        comma_pieces(s).len() >= 1,
    decreases s.len(),
{
    if s.len() > 0 {
        lemma_comma_pieces_nonempty(s.drop_last());
    }
}

/// The trimmed pieces that are not empty, in order.
pub open spec fn kept_items(pieces: Seq<Seq<char>>) -> Seq<Seq<char>>
    decreases pieces.len(),
{
    if pieces.len() == 0 {
        Seq::empty()
    } else {
        let r = kept_items(pieces.drop_last());
        let t = trim(pieces.last());
        if t.len() > 0 {
            r.push(t)
        } else {
            r
        }
    }
}

/// A comma-separated list: its items trimmed, empty ones dropped.
pub open spec fn csv_items(s: Seq<char>) -> Seq<Seq<char>> {
    kept_items(comma_pieces(s))
}

/// Split a comma-separated list into its trimmed, non-empty items.
pub fn split_csv(s: &str) -> (r: Vec<String>)
    ensures
        r@.map_values(|x: String| x@) == csv_items(s@),
{
    let v = chars_of(s);
    let mut done: Vec<Vec<char>> = Vec::new();
    let mut cur: Vec<char> = Vec::new();
    let mut i: usize = 0;
    while i < v.len()
        invariant
            i <= v@.len(),
            done@.map_values(|p: Vec<char>| p@).push(cur@) == comma_pieces(v@.take(i as int)),
        decreases v@.len() - i,
    {
        proof {
            assert(v@.take(i + 1).drop_last() =~= v@.take(i as int));
            lemma_comma_pieces_nonempty(v@.take(i as int));
        }
        if v[i] == ',' {
            let piece = cur;
            cur = Vec::new();
            done.push(piece);
        } else {
            cur.push(v[i]);
        }
        i = i + 1;
        assert(done@.map_values(|p: Vec<char>| p@).push(cur@) =~= comma_pieces(
            v@.take(i as int),
        ));
    }
    done.push(cur);
    assert(v@.take(v@.len() as int) =~= v@);
    assert(done@.map_values(|p: Vec<char>| p@) == comma_pieces(v@));
    let ghost pieces = comma_pieces(v@);
    let mut out: Vec<String> = Vec::new();
    let mut k: usize = 0;
    while k < done.len()
        invariant
            k <= done@.len(),
            done@.map_values(|p: Vec<char>| p@) == pieces,
            out@.map_values(|x: String| x@) == kept_items(pieces.take(k as int)),
        decreases done@.len() - k,
    {
        proof {
            assert(pieces.take(k + 1).drop_last() =~= pieces.take(k as int));
            assert(pieces.take(k + 1).last() == done@[k as int]@);
        }
        let t = trim_chars(done[k].as_slice());
        if t.len() > 0 {
            out.push(string_of(t.as_slice()));
        }
        k = k + 1;
        assert(out@.map_values(|x: String| x@) =~= kept_items(pieces.take(k as int)));
    }
    assert(pieces.take(done@.len() as int) =~= pieces);
    out
}

/// Whether the `P2P_OLLAMA` setting leaves Ollama on: unset, or anything but
/// `0` and `false` in any case. (A non-ASCII character never lower-cases to
/// one of the letters of `false`, so ASCII lower-casing decides the same.)
pub open spec fn ollama_on(v: Option<Seq<char>>) -> bool {
    match v {
        None => true,
        Some(s) => s != "0"@ && lower(s) != "false"@,
    }
}

/// Whether the `P2P_OLLAMA` setting leaves Ollama on.
pub fn ollama_enabled(v: Option<&str>) -> (r: bool)
    ensures
        r == ollama_on(
            match v {
                Some(s) => Some(s@),
                None => None,
            },
        ),
{
    match v {
        None => true,
        Some(s) => {
            let low = lowercase_chars(chars_of(s).as_slice());
            let f = chars_of("false");
            !str_eq(s, "0") && !crate::text::chars_eq(low.as_slice(), f.as_slice())
        },
    }
}

/// Which backends this peer serves from (its own credentials).
#[derive(Debug, Clone, Default)]
pub struct BackendConfig {
    pub ollama: bool,
    pub ollama_url: Option<String>,
    /// a generic chat-completions endpoint at any URL
    pub endpoint_url: Option<String>,
    pub endpoint_key: Option<String>,
    pub endpoint_models: Vec<String>,
    pub anthropic_key: Option<String>,
    pub anthropic_models: Vec<String>,
}

/// The backends a configuration enables, in serving order.
pub open spec fn enabled_backends(bc: BackendConfig) -> Seq<BackendKind> {
    let a = if bc.ollama {
        seq![BackendKind::Ollama]
    } else {
        Seq::empty()
    };
    let b = if bc.endpoint_url is Some && bc.endpoint_models@.len() > 0 {
        a.push(BackendKind::Compat)
    } else {
        a
    };
    if bc.anthropic_key is Some && bc.anthropic_models@.len() > 0 {
        b.push(BackendKind::Anthropic)
    } else {
        b
    }
}

impl BackendConfig {
    /// The configuration given by the environment settings `P2P_OLLAMA`,
    /// `P2P_OLLAMA_URL`, `P2P_ENDPOINT_URL`, `P2P_ENDPOINT_KEY`,
    /// `P2P_ENDPOINT_MODELS`, `ANTHROPIC_API_KEY` and `P2P_ANTHROPIC_MODELS`.
    pub fn from_env(
        ollama: Option<String>,
        ollama_url: Option<String>,
        endpoint_url: Option<String>,
        endpoint_key: Option<String>,
        endpoint_models: Option<String>,
        anthropic_key: Option<String>,
        anthropic_models: Option<String>,
    ) -> (r: BackendConfig)
        ensures
            r.ollama == ollama_on(
                match ollama {
                    Some(s) => Some(s@),
                    None => None,
                },
            ),
            r.ollama_url == ollama_url,
            r.endpoint_url == endpoint_url,
            r.endpoint_key == endpoint_key,
            r.anthropic_key == anthropic_key,
            r.endpoint_models@.map_values(|x: String| x@) == match endpoint_models {
                Some(s) => csv_items(s@),
                None => Seq::empty(),
            },
            r.anthropic_models@.map_values(|x: String| x@) == match anthropic_models {
                Some(s) => csv_items(s@),
                None => Seq::empty(),
            },
    {
        let on = match &ollama {
            Some(s) => ollama_enabled(Some(s.as_str())),
            None => ollama_enabled(None),
        };
        let em = match &endpoint_models {
            Some(s) => split_csv(s.as_str()),
            None => Vec::new(),
        };
        let cm = match &anthropic_models {
            Some(s) => split_csv(s.as_str()),
            None => Vec::new(),
        };
        proof {
            if endpoint_models is None {
                assert(em@.map_values(|x: String| x@) =~= Seq::<Seq<char>>::empty());
            }
            if anthropic_models is None {
                assert(cm@.map_values(|x: String| x@) =~= Seq::<Seq<char>>::empty());
            }
        }
        BackendConfig {
            ollama: on,
            ollama_url,
            endpoint_url,
            endpoint_key,
            endpoint_models: em,
            anthropic_key,
            anthropic_models: cm,
        }
    }

    /// The backends to serve from, in order: Ollama when on, the endpoint
    /// when it has a URL and models, Anthropic when it has a key and models.
    pub fn backends(&self) -> (r: Vec<BackendKind>)
        ensures
            r@ == enabled_backends(*self),
    {
        let mut r: Vec<BackendKind> = Vec::new();
        if self.ollama {
            r.push(BackendKind::Ollama);
        }
        if self.endpoint_url.is_some() && self.endpoint_models.len() > 0 {
            r.push(BackendKind::Compat);
        }
        if self.anthropic_key.is_some() && self.anthropic_models.len() > 0 {
            r.push(BackendKind::Anthropic);
        }
        assert(r@ =~= enabled_backends(*self));
        r
    }
}

/// Runtime configuration of the client daemon.
#[derive(Debug, Clone)]
pub struct RunConfig {
    /// coordinator base URL
    pub coordinator: String,
    /// local HTTP address (chat-completions endpoint and dashboard)
    pub http: String,
    /// peer-to-peer listen multiaddr
    pub p2p_listen: String,
    /// data directory for the persisted identity (None: the per-OS default)
    pub data_dir: Option<String>,
    /// max concurrent jobs to serve
    pub capacity: u32,
    /// run as a public circuit-relay server
    pub relay: bool,
    /// multiaddr of a relay to reserve a slot on
    pub relay_addr: Option<String>,
    /// network namespace, isolating this swarm from other networks
    pub network_id: String,
    /// bearer secret for a private network
    pub join_secret: Option<String>,
    /// branding served to the dashboard
    pub brand: BrandConfig,
}

impl RunConfig {
    /// The daemon settings a platform configuration gives.
    pub fn from_platform(cfg: PlatformConfig) -> (r: RunConfig)
        ensures
            r.coordinator == cfg.coordinator.url,
            r.http == cfg.client.http,
            r.p2p_listen == cfg.client.p2p_listen,
            r.data_dir is None,
            r.capacity == cfg.client.capacity,
            r.relay == cfg.client.relay,
            r.relay_addr == if trim(cfg.relay.addr@).len() > 0 {
                Some(cfg.relay.addr)
            } else {
                None
            },
            r.network_id == cfg.network.id,
            match r.join_secret {
                Some(s) => spec_join_secret(cfg.network) == Some(s@),
                None => spec_join_secret(cfg.network) is None,
            },
            r.brand == cfg.brand,
    {
        let join_secret = cfg.join_secret();
        let relay_addr = if trimmed(cfg.relay.addr.as_str()).len() > 0 {
            Some(cfg.relay.addr)
        } else {
            None
        };
        RunConfig {
            coordinator: cfg.coordinator.url,
            http: cfg.client.http,
            p2p_listen: cfg.client.p2p_listen,
            data_dir: None,
            capacity: cfg.client.capacity,
            relay: cfg.client.relay,
            relay_addr,
            network_id: cfg.network.id,
            join_secret,
            brand: cfg.brand,
        }
    }
}

/// The models a daemon serves, in listing order, each with the position of
/// the backend that listed it (a backend whose listing failed adds none).
pub open spec fn listed_models(listed: Seq<Option<Vec<ModelId>>>) -> Seq<(int, ModelId)>
    decreases listed.len(),
{
    if listed.len() == 0 {
        Seq::empty()
    } else {
        let i = listed.len() - 1;
        listed_models(listed.drop_last()) + match listed.last() {
            Some(v) => v@.map_values(|m: ModelId| (i, m)),
            None => Seq::empty(),
        }
    }
}

/// The backend name of a serving position.
pub open spec fn backend_name(k: BackendKind) -> Seq<char> {
    match k {
        BackendKind::Ollama => "ollama"@,
        BackendKind::Compat => "endpoint"@,
        BackendKind::Anthropic => "anthropic"@,
    }
}

/// What a daemon advertises and how it routes: one offer per listed model,
/// and one routing entry per listed model (the first for a key wins).
pub fn catalog(kinds: &Vec<BackendKind>, listed: Vec<Option<Vec<ModelId>>>) -> (r: (
    Vec<ModelOffer>,
    ModelIndex,
))
    requires
        kinds@.len() == listed@.len(),
    ensures
        ({
            let ms = listed_models(listed@);
            &&& r.0@.len() == ms.len()
            &&& r.1.entries@.len() == ms.len()
            &&& forall|j: int|
                0 <= j < ms.len() ==> {
                    &&& (#[trigger] r.0@[j]).model == ms[j].1
                    &&& r.0@[j].backend@ == backend_name(kinds@[ms[j].0])
                    &&& r.0@[j].caps == ModelCaps::default_spec()
                    &&& r.0@[j].tokens_per_sec_milli == 0
                    &&& r.1.entries@[j].0@ == ms[j].1.spec_key()
                    &&& r.1.entries@[j].1 == (ModelServe { adapter: ms[j].0 as usize, name: ms[j].1.name })
                }
        }),
{
    let mut offers: Vec<ModelOffer> = Vec::new();
    let mut index = ModelIndex::new();
    let mut i: usize = 0;
    while i < listed.len()
        invariant
            i <= listed@.len(),
            kinds@.len() == listed@.len(),
            ({
                let ms = listed_models(listed@.take(i as int));
                &&& offers@.len() == ms.len()
                &&& index.entries@.len() == ms.len()
                &&& forall|j: int|
                    0 <= j < ms.len() ==> {
                        &&& (#[trigger] offers@[j]).model == ms[j].1
                        &&& offers@[j].backend@ == backend_name(kinds@[ms[j].0])
                        &&& offers@[j].caps == ModelCaps::default_spec()
                        &&& offers@[j].tokens_per_sec_milli == 0
                        &&& index.entries@[j].0@ == ms[j].1.spec_key()
                        &&& index.entries@[j].1 == (ModelServe { adapter: ms[j].0 as usize, name: ms[j].1.name })
                    }
            }),
        decreases listed@.len() - i,
    {
        let ghost before = listed_models(listed@.take(i as int));
        proof {
            assert(listed@.take(i + 1).drop_last() =~= listed@.take(i as int));
        }
        match &listed[i] {
            Some(models) => {
                let ghost add = models@.map_values(|m: ModelId| (i as int, m));
                let mut k: usize = 0;
                while k < models.len()
                    invariant
                        i < listed@.len(),
                        kinds@.len() == listed@.len(),
                        k <= models@.len(),
                        add == models@.map_values(|m: ModelId| (i as int, m)),
                        ({
                            let ms = before + add.take(k as int);
                            &&& offers@.len() == ms.len()
                            &&& index.entries@.len() == ms.len()
                            &&& forall|j: int|
                                0 <= j < ms.len() ==> {
                                    &&& (#[trigger] offers@[j]).model == ms[j].1
                                    &&& offers@[j].backend@ == backend_name(kinds@[ms[j].0])
                                    &&& offers@[j].caps == ModelCaps::default_spec()
                                    &&& offers@[j].tokens_per_sec_milli == 0
                                    &&& index.entries@[j].0@ == ms[j].1.spec_key()
                                    &&& index.entries@[j].1 == (ModelServe {
                                        adapter: ms[j].0 as usize,
                                        name: ms[j].1.name,
                                    })
                                }
                        }),
                    decreases models@.len() - k,
                {
                    let m = &models[k];
                    let backend = kinds[i].backend().to_owned();
                    offers.push(
                        ModelOffer {
                            model: clone_model(m),
                            backend,
                            caps: ModelCaps::none(),
                            tokens_per_sec_milli: 0,
                        },
                    );
                    index.entries.push((m.key(), ModelServe { adapter: i, name: m.name.clone() }));
                    k = k + 1;
                    proof {
                        let ms = before + add.take(k as int);
                        assert(ms =~= (before + add.take(k - 1)).push((i as int, *m)));
                    }
                }
                proof {
                    assert(add.take(models@.len() as int) =~= add);
                }
            },
            None => {
                assert(before + Seq::<(int, ModelId)>::empty() =~= before);
            },
        }
        i = i + 1;
    }
    assert(listed@.take(listed@.len() as int) =~= listed@);
    (offers, index)
}

} // verus!
