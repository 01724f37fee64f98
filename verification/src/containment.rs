//! Classification of a parsed reference as local, proxied or external.
//!
//! The classification reflects addressing only: a reference is local when its
//! `host[:port]` is one of the names this registry answers to, and proxied
//! when it is reachable through a configured upstream registry, whether it is
//! addressed by the upstream host itself or by the local alias prefix path.
//! No storage lookup is involved.

use vstd::prelude::*;

use crate::image::{str_eq, ImageReference, RefData, port_part};

verus! {

/// The set of `host[:port]` names this registry process answers to.
pub struct ServerIdentity {
    pub names: Vec<String>,
}

/// One proxied upstream registry: the upstream host it maps from, and the
/// local path prefix under which its images are exposed.
pub struct SingleRegistryProxyConfig {
    pub host_pattern: String,
    pub alias: String,
}

/// The full proxy configuration: one entry per upstream registry.
pub struct RegistryProxiesConfig {
    pub registries: Vec<SingleRegistryProxyConfig>,
}

/// Where an image reference is served from.
#[derive(Clone, Debug, PartialEq, Eq)]
pub enum Containment {
    /// Served directly by this registry's own storage.
    Local,
    /// Reachable through the configured upstream registry with this alias.
    Proxied(String),
    /// Neither of the above.
    External,
}

/// The `host[:port]` address of a reference.
pub open spec fn host_port_of(m: RefData) -> Seq<char> {
    m.host + port_part(m.port)
}

/// The reference is addressed at one of this registry's own names.
pub open spec fn spec_is_local(id: ServerIdentity, m: RefData) -> bool {
    exists|i: int| 0 <= i < id.names@.len() && id.names@[i]@ == host_port_of(m)
}

/// The repository path starts with the entry's alias prefix.
pub open spec fn alias_matches(e: SingleRegistryProxyConfig, m: RefData) -> bool {
    &&& m.repo.len() > e.alias@.len()
    &&& m.repo.take(e.alias@.len() as int) == e.alias@
    &&& m.repo[e.alias@.len() as int] == '/'
}

/// The reference's address is exactly the entry's upstream host.
pub open spec fn host_matches(e: SingleRegistryProxyConfig, m: RefData) -> bool {
    e.host_pattern@ == host_port_of(m)
}

/// The first proxy entry whose alias prefix the repository lies under.
pub open spec fn first_alias_match(rs: Seq<SingleRegistryProxyConfig>, m: RefData) -> Option<
    SingleRegistryProxyConfig,
>
    decreases rs.len(),
{
    if rs.len() == 0 {
        None
    } else if alias_matches(rs[0], m) {
        Some(rs[0])
    } else {
        first_alias_match(rs.skip(1), m)
    }
}

/// The first proxy entry whose upstream host the reference is addressed at.
pub open spec fn first_host_match(rs: Seq<SingleRegistryProxyConfig>, m: RefData) -> Option<
    SingleRegistryProxyConfig,
>
    decreases rs.len(),
{
    if rs.len() == 0 {
        None
    } else if host_matches(rs[0], m) {
        Some(rs[0])
    } else {
        first_host_match(rs.skip(1), m)
    }
}

/// The classification, as a mathematical function of identity, proxy
/// configuration and reference: an image addressed at this registry under a
/// proxy alias path is proxied; any other locally addressed image is local;
/// an image addressed at a configured upstream host is proxied; the rest is
/// external.
pub open spec fn spec_classify(
    id: ServerIdentity,
    proxies: RegistryProxiesConfig,
    m: RefData,
) -> Containment {
    if spec_is_local(id, m) {
        match first_alias_match(proxies.registries@, m) {
            Some(e) => Containment::Proxied(e.alias),
            None => Containment::Local,
        }
    } else {
        match first_host_match(proxies.registries@, m) {
            Some(e) => Containment::Proxied(e.alias),
            None => Containment::External,
        }
    }
}

proof fn lemma_first_alias(rs: Seq<SingleRegistryProxyConfig>, m: RefData, i: int)
    requires
        0 <= i <= rs.len(),
        forall|j: int| 0 <= j < i ==> !alias_matches(rs[j], m),
        i < rs.len() ==> alias_matches(rs[i], m),
    ensures
        first_alias_match(rs, m) == if i < rs.len() {
            Some(rs[i])
        } else {
            None::<SingleRegistryProxyConfig>
        },
    decreases i,
{
    if i > 0 {
        lemma_first_alias(rs.skip(1), m, i - 1);
    }
}

proof fn lemma_first_host(rs: Seq<SingleRegistryProxyConfig>, m: RefData, i: int)
    requires
        0 <= i <= rs.len(),
        forall|j: int| 0 <= j < i ==> !host_matches(rs[j], m),
        i < rs.len() ==> host_matches(rs[i], m),
    ensures
        first_host_match(rs, m) == if i < rs.len() {
            Some(rs[i])
        } else {
            None::<SingleRegistryProxyConfig>
        },
    decreases i,
{
    if i > 0 {
        lemma_first_host(rs.skip(1), m, i - 1);
    }
}

fn alias_match_exec(e: &SingleRegistryProxyConfig, reference: &ImageReference) -> (r: bool)
    ensures
        r == alias_matches(*e, reference@),
{
    let repo = reference.repository.as_str();
    let rl = repo.unicode_len();
    let al = e.alias.as_str().unicode_len();
    if rl <= al {
        return false;
    }
    let pre = repo.substring_char(0, al);
    proof {
        assert(pre@ =~= reference@.repo.take(al as int));
    }
    if !str_eq(pre, e.alias.as_str()) {
        return false;
    }
    repo.get_char(al) == '/'
}

fn is_local_exec(identity: &ServerIdentity, hp: &str, m: Ghost<RefData>) -> (r: bool)
    requires
        hp@ == host_port_of(m@),
    ensures
        r == spec_is_local(*identity, m@),
{
    let n = identity.names.len();
    let mut i: usize = 0;
    while i < n
        invariant
            i <= n,
            n == identity.names@.len(),
            hp@ == host_port_of(m@),
            forall|j: int| 0 <= j < i ==> identity.names@[j]@ != host_port_of(m@),
        decreases n - i,
    {
        if str_eq(identity.names[i].as_str(), hp) {
            return true;
        }
        i += 1;
    }
    false
}

/// Classifies a reference against this registry's identity and proxy
/// configuration.
pub fn classify(
    identity: &ServerIdentity,
    proxies: &RegistryProxiesConfig,
    reference: &ImageReference,
) -> (c: Containment)
    ensures
        c == spec_classify(*identity, *proxies, reference@),
{
    let hp = reference.host_port_string();
    let local = is_local_exec(identity, hp.as_str(), Ghost(reference@));
    let rn = proxies.registries.len();
    if local {
        let mut k: usize = 0;
        while k < rn
            invariant
                k <= rn,
                rn == proxies.registries@.len(),
                spec_is_local(*identity, reference@),
                forall|j: int|
                    0 <= j < k ==> !alias_matches(proxies.registries@[j], reference@),
            decreases rn - k,
        {
            if alias_match_exec(&proxies.registries[k], reference) {
                proof {
                    lemma_first_alias(proxies.registries@, reference@, k as int);
                }
                return Containment::Proxied(proxies.registries[k].alias.clone());
            }
            k += 1;
        }
        proof {
            lemma_first_alias(proxies.registries@, reference@, rn as int);
        }
        Containment::Local
    } else {
        proof {
            assert(!spec_is_local(*identity, reference@));
        }
        let mut k: usize = 0;
        while k < rn
            invariant
                k <= rn,
                rn == proxies.registries@.len(),
                hp@ == host_port_of(reference@),
                !spec_is_local(*identity, reference@),
                forall|j: int| 0 <= j < k ==> !host_matches(proxies.registries@[j], reference@),
            decreases rn - k,
        {
            if str_eq(proxies.registries[k].host_pattern.as_str(), hp.as_str()) {
                proof {
                    lemma_first_host(proxies.registries@, reference@, k as int);
                }
                return Containment::Proxied(proxies.registries[k].alias.clone());
            }
            k += 1;
        }
        proof {
            lemma_first_host(proxies.registries@, reference@, rn as int);
        }
        Containment::External
    }
}

} // verus!
