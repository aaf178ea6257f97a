//! Entries for the ports of services, found by the address of the service.
use crate::kube::services::{self, scheme_of, KubeService, KubeServiceView, ServicePortView};
use crate::network::ipv4::{self, Ipv4Addr};
use crate::text::{self, push_digits, push_viewed, same_text};
use std::collections::HashMap;
use vstd::prelude::*;

verus! {

broadcast use vstd::std_specs::hash::group_hash_axioms;

// ── Entries ─────────────────────────────────────────────

/// One reachable port of a service.
#[derive(Debug)]
pub struct ServiceEntry {
    pub name: String,
    pub namespace: String,
    pub port: u16,
    pub cluster_ip: Ipv4Addr,
}

pub struct ServiceEntryView {
    pub name: Seq<char>,
    pub namespace: Seq<char>,
    pub port: u16,
    pub cluster_ip: Ipv4Addr,
}

impl View for ServiceEntry {
    type V = ServiceEntryView;

    open spec fn view(&self) -> ServiceEntryView {
        ServiceEntryView {
            name: self.name@,
            namespace: self.namespace@,
            port: self.port,
            cluster_ip: self.cluster_ip,
        }
    }
}

impl DeepView for ServiceEntry {
    type V = ServiceEntryView;

    open spec fn deep_view(&self) -> ServiceEntryView {
        self@
    }
}

impl Clone for ServiceEntry {
    fn clone(&self) -> (res: ServiceEntry)
        ensures
            res@ == self@,
    {
        ServiceEntry {
            name: self.name.clone(),
            namespace: self.namespace.clone(),
            port: self.port,
            cluster_ip: self.cluster_ip,
        }
    }
}

/// The short DNS name of a service, such as `nginx.default`.
pub open spec fn short_name(name: Seq<char>, namespace: Seq<char>) -> Seq<char> {
    name + "."@ + namespace
}

/// The URL of an entry; the port is left out where it is the usual one of the scheme.
pub open spec fn entry_url(e: ServiceEntryView) -> Seq<char> {
    let host = services::url_scheme(e.port as int) + "://"@ + short_name(e.name, e.namespace);
    if e.port == 80 || e.port == 443 {
        host
    } else {
        host + ":"@ + text::digits(e.port as nat)
    }
}

/// Where the entry's listener binds: its address and port.
pub open spec fn entry_socket(e: ServiceEntryView) -> Seq<char> {
    ipv4::dotted(e.cluster_ip) + ":"@ + text::digits(e.port as nat)
}

/// The entry is one of the named service.
pub open spec fn entry_is(e: ServiceEntryView, name: Seq<char>, namespace: Seq<char>) -> bool {
    e.name == name && e.namespace == namespace
}

impl ServiceEntry {
    /// Short DNS name: `nginx.default`
    pub fn dns_name(&self) -> (res: String)
        ensures
            res@ == short_name(self@.name, self@.namespace),
    {
        let mut res = self.name.clone();
        res.append(".");
        res.append(self.namespace.as_str());
        res
    }

    pub fn url(&self) -> (res: String)
        ensures
            res@ == entry_url(self@),
    {
        let mut res = String::new();
        res.append(scheme_of(self.port as i32));
        res.append("://");
        res.append(self.dns_name().as_str());
        assert(res@ =~= services::url_scheme(self@.port as int) + "://"@ + short_name(
            self@.name,
            self@.namespace,
        ));
        if !(self.port == 80 || self.port == 443) {
            res.append(":");
            push_digits(&mut res, self.port as u64);
        }
        res
    }

    /// The socket address to listen on.
    pub fn bind_addr(&self) -> (res: String)
        ensures
            res@ == entry_socket(self@),
    {
        let mut res = self.cluster_ip.to_text();
        res.append(":");
        push_digits(&mut res, self.port as u64);
        res
    }

    /// Whether this is an entry of the named service.
    pub fn belongs_to(&self, name: &str, namespace: &str) -> (res: bool)
        ensures
            res == entry_is(self@, name@, namespace@),
    {
        same_text(self.name.as_str(), name) && same_text(self.namespace.as_str(), namespace)
    }
}

/// The address of a service that traffic can be routed to: one that is neither loopback nor
/// unspecified.
pub open spec fn routable(cluster_ip: Seq<char>) -> Option<Ipv4Addr> {
    match ipv4::address(cluster_ip) {
        Some(ip) => if ipv4::loopback(ip) || ipv4::unspecified(ip) {
            None
        } else {
            Some(ip)
        },
        None => None,
    }
}

/// The port number modulo 2^16.
pub open spec fn port_bits(port: i32) -> u16 {
    (port as int % 0x1_0000) as u16
}

/// The entry of one port of a service with the given address.
pub open spec fn entry_of(
    svc: KubeServiceView,
    p: ServicePortView,
    ip: Ipv4Addr,
) -> ServiceEntryView {
    ServiceEntryView {
        name: svc.name,
        namespace: svc.namespace,
        port: port_bits(p.port),
        cluster_ip: ip,
    }
}

/// One entry for each port of a service, in order; none where there is nothing to route to.
pub open spec fn entries_of(svc: KubeServiceView) -> Seq<ServiceEntryView> {
    match routable(svc.cluster_ip) {
        Some(ip) => svc.ports.map_values(|p: ServicePortView| entry_of(svc, p, ip)),
        None => Seq::empty(),
    }
}

/// The entries of all services, in order.
pub open spec fn all_entries(services: Seq<KubeServiceView>) -> Seq<ServiceEntryView>
    decreases services.len(),
{
    if services.len() == 0 {
        Seq::empty()
    } else {
        all_entries(services.drop_last()) + entries_of(services.last())
    }
}

// ── The map ─────────────────────────────────────────────

/// The entries with the given address, in order.
pub open spec fn at_address(entries: Seq<ServiceEntryView>, ip: u32) -> Seq<ServiceEntryView> {
    entries.filter(|e: ServiceEntryView| ipv4::bits(e.cluster_ip) == ip)
}

/// The entries grouped by address.
pub open spec fn grouped(entries: Seq<ServiceEntryView>) -> Map<u32, Seq<ServiceEntryView>> {
    Map::new(|ip: u32| at_address(entries, ip).len() > 0, |ip: u32| at_address(entries, ip))
}

/// Service entries by address, the address as one number.
#[derive(Debug)]
pub struct ServiceMap {
    pub by_ip: HashMap<u32, Vec<ServiceEntry>>,
}

impl View for ServiceMap {
    type V = Map<u32, Seq<ServiceEntryView>>;

    open spec fn view(&self) -> Map<u32, Seq<ServiceEntryView>> {
        Map::new(|ip: u32| self.by_ip@.contains_key(ip), |ip: u32| self.by_ip@[ip].deep_view())
    }
}

proof fn lemma_grouped_push(entries: Seq<ServiceEntryView>, e: ServiceEntryView)
    ensures
        grouped(entries.push(e)) == grouped(entries).insert(
            ipv4::bits(e.cluster_ip),
            at_address(entries, ipv4::bits(e.cluster_ip)).push(e),
        ),
{
    reveal(Seq::filter);
    assert(entries.push(e).drop_last() =~= entries);
    assert(entries.push(e).last() == e);
    assert forall|ip: u32| #[trigger] at_address(entries.push(e), ip) == (if ip == ipv4::bits(e.cluster_ip) {
        at_address(entries, ip).push(e)
    } else {
        at_address(entries, ip)
    }) by {}
    assert(grouped(entries.push(e)) =~= grouped(entries).insert(
        ipv4::bits(e.cluster_ip),
        at_address(entries, ipv4::bits(e.cluster_ip)).push(e),
    ));
}

impl ServiceMap {
    /// A map without entries.
    pub fn new() -> (res: ServiceMap)
        ensures
            res@ == grouped(Seq::empty()),
    {
        let res = ServiceMap { by_ip: HashMap::new() };
        proof {
            reveal(Seq::filter);
            assert(res@ =~= grouped(Seq::empty()));
        }
        res
    }

    /// The number of addresses.
    pub fn len(&self) -> (res: usize)
        ensures
            res == self@.len(),
    {
        assert(self@.dom() =~= self.by_ip@.dom());
        self.by_ip.len()
    }

    /// Whether there is no address at all.
    pub fn is_empty(&self) -> (res: bool)
        ensures
            res == (self@ == Map::<u32, Seq<ServiceEntryView>>::empty()),
    {
        let res = self.by_ip.is_empty();
        proof {
            if res {
                assert(self@ =~= Map::empty());
            } else if self@ == Map::<u32, Seq<ServiceEntryView>>::empty() {
                assert(self@.dom() =~= self.by_ip@.dom());
                assert(self.by_ip@ =~= Map::empty());
            }
        }
        res
    }

    /// The entries at an address, if there are any.
    pub fn get(&self, ip: Ipv4Addr) -> (res: Option<&Vec<ServiceEntry>>)
        ensures
            res is Some <==> self@.contains_key(ipv4::bits(ip)),
            res matches Some(entries) ==> entries.deep_view() == self@[ipv4::bits(ip)],
    {
        self.by_ip.get(&ip.to_bits())
    }

    /// Adds an entry behind those at the same address.
    fn add_entry(&mut self, e: ServiceEntry, Ghost(entries): Ghost<Seq<ServiceEntryView>>)
        requires
            old(self)@ == grouped(entries),
        ensures
            final(self)@ == grouped(entries.push(e@)),
    {
        let ip: u32 = e.cluster_ip.to_bits();
        let ghost before = self@;
        let ghost view = e@;
        let mut list: Vec<ServiceEntry> = match self.by_ip.remove(&ip) {
            Some(list) => list,
            None => Vec::new(),
        };
        proof {
            if before.contains_key(ip) {
                assert(list.deep_view() == before[ip]);
            } else {
                assert(at_address(entries, ip).len() == 0);
                assert(list.deep_view() =~= at_address(entries, ip));
            }
            assert(list.deep_view() == at_address(entries, ip));
        }
        push_viewed(&mut list, e);
        let ghost longer = list.deep_view();
        self.by_ip.insert(ip, list);
        proof {
            lemma_grouped_push(entries, view);
            assert(self@ =~= before.insert(ip, longer));
        }
    }
}

/// The low sixteen bits of a port number.
fn port_number(port: i32) -> (res: u16)
    ensures
        res == port_bits(port),
{
    proof {
        assert(port as u16 == port % 0x1_0000i32 || port % 0x1_0000i32 < 0) by (bit_vector);
    }
    port as u16
}

/// Groups the ports of services by address. Services without an address to route to are left out.
pub fn build_service_map(services: &Vec<KubeService>) -> (res: ServiceMap)
    ensures
        res@ == grouped(all_entries(services.deep_view())),
{
    let mut map = ServiceMap::new();
    let mut i: usize = 0;
    assert(services.deep_view().take(0) =~= Seq::empty());
    while i < services.len()
        invariant
            i <= services@.len(),
            map@ == grouped(all_entries(services.deep_view().take(i as int))),
        decreases services@.len() - i,
    {
        let svc = &services[i];
        let ghost done = all_entries(services.deep_view().take(i as int));
        proof {
            let next = services.deep_view().take(i + 1);
            assert(next.drop_last() =~= services.deep_view().take(i as int));
            assert(next.last() == svc@);
        }
        match routable_address(svc.cluster_ip.as_str()) {
            Some(ip) => {
                let ghost own = entries_of(svc@);
                let mut k: usize = 0;
                assert(done + own.take(0) =~= done);
                while k < svc.ports.len()
                    invariant
                        k <= svc.ports@.len(),
                        routable(svc@.cluster_ip) == Some(ip),
                        own == entries_of(svc@),
                        map@ == grouped(done + own.take(k as int)),
                    decreases svc.ports@.len() - k,
                {
                    let entry = ServiceEntry {
                        name: svc.name.clone(),
                        namespace: svc.namespace.clone(),
                        port: port_number(svc.ports[k].port),
                        cluster_ip: ip,
                    };
                    assert(entry@ == own[k as int]);
                    map.add_entry(entry, Ghost(done + own.take(k as int)));
                    assert((done + own.take(k as int)).push(own[k as int]) =~= done + own.take(k + 1));
                    k += 1;
                }
                assert(own.take(k as int) =~= own);
            },
            None => {
                assert(done + entries_of(svc@) =~= done);
            },
        }
        i += 1;
    }
    assert(services.deep_view().take(i as int) =~= services.deep_view());
    map
}

/// The address that a service's traffic can be routed to.
fn routable_address(cluster_ip: &str) -> (res: Option<Ipv4Addr>)
    ensures
        res == routable(cluster_ip@),
{
    match Ipv4Addr::parse(cluster_ip) {
        Some(ip) => if ip.is_loopback() || ip.is_unspecified() {
            None
        } else {
            Some(ip)
        },
        None => None,
    }
}

/// The map holds an entry of the named service at the address.
pub open spec fn holds_service(
    map: Map<u32, Seq<ServiceEntryView>>,
    ip: u32,
    name: Seq<char>,
    namespace: Seq<char>,
) -> bool {
    &&& map.contains_key(ip)
    &&& exists|k: int| 0 <= k < map[ip].len() && entry_is(#[trigger] map[ip][k], name, namespace)
}

// ── Walking the map ─────────────────────────────────────

/// `keys` names every address of the map exactly once.
pub open spec fn walks(map: Map<u32, Seq<ServiceEntryView>>, keys: Seq<u32>) -> bool {
    &&& keys.no_duplicates()
    &&& forall|ip: u32| #[trigger] keys.contains(ip) <==> map.contains_key(ip)
}

/// The entries at the given addresses, one address after the other.
pub open spec fn listed(
    map: Map<u32, Seq<ServiceEntryView>>,
    keys: Seq<u32>,
) -> Seq<ServiceEntryView>
    decreases keys.len(),
{
    if keys.len() == 0 {
        Seq::empty()
    } else {
        listed(map, keys.drop_last()) + map[keys.last()]
    }
}

/// Appends copies of `from` to `to`.
fn extend_entries(to: &mut Vec<ServiceEntry>, from: &Vec<ServiceEntry>)
    ensures
        final(to).deep_view() == old(to).deep_view() + from.deep_view(),
{
    let mut i: usize = 0;
    assert(to.deep_view() + from.deep_view().take(0) =~= to.deep_view());
    while i < from.len()
        invariant
            i <= from@.len(),
            to.deep_view() == old(to).deep_view() + from.deep_view().take(i as int),
        decreases from@.len() - i,
    {
        push_viewed(to, from[i].clone());
        assert((old(to).deep_view() + from.deep_view().take(i as int)).push(from.deep_view()[i as int])
            =~= old(to).deep_view() + from.deep_view().take(i + 1));
        i += 1;
    }
    assert(from.deep_view().take(i as int) =~= from.deep_view());
}

impl ServiceMap {
    /// All entries, address by address. In which order the addresses come is left open; those of
    /// one address keep their order.
    pub fn entries(&self) -> (res: Vec<ServiceEntry>)
        ensures
            exists|keys: Seq<u32>| #[trigger]
                walks(self@, keys) && res.deep_view() == listed(self@, keys),
    {
        let mut res: Vec<ServiceEntry> = Vec::new();
        let ghost mut keys: Seq<u32> = Seq::empty();
        let ghost pairs = vstd::std_specs::iter::IteratorSpec::remaining(
            &vstd::std_specs::hash::spec_hash_map_iter(&self.by_ip),
        );
        assert(res.deep_view() =~= listed(self@, keys));
        for (ip, list) in it: self.by_ip.iter()
            invariant
                keys.len() == it.index(),
                forall|k: int| 0 <= k < keys.len() ==> keys[k] == *pairs[k].0,
                res.deep_view() == listed(self@, keys),
                it.seq() == pairs,
                pairs == vstd::std_specs::iter::IteratorSpec::remaining(
                    &vstd::std_specs::hash::spec_hash_map_iter(&self.by_ip),
                ),
                pairs.no_duplicates(),
        {
            let ghost i = it.index();
            assert(pairs[i] == (ip, list));
            assert(self.by_ip@.contains_key(*pairs[i].0) && self.by_ip@[*pairs[i].0] == *list);
            extend_entries(&mut res, list);
            proof {
                let before = keys;
                keys = keys.push(*ip);
                assert(keys.drop_last() =~= before);
            }
        }
        proof {
            assert(keys.len() == pairs.len());
            assert forall|i: int, j: int| 0 <= i < j < keys.len() implies keys[i] != keys[j] by {
                assert(self.by_ip@[*pairs[i].0] == *pairs[i].1);
                assert(self.by_ip@[*pairs[j].0] == *pairs[j].1);
                assert(pairs[i] != pairs[j]);
            }
            assert forall|ip: u32| #[trigger] keys.contains(ip) <==> self@.contains_key(ip) by {
                if keys.contains(ip) {
                    let k = choose|k: int| 0 <= k < keys.len() && keys[k] == ip;
                    assert(self.by_ip@.contains_key(*pairs[k].0));
                }
                if self@.contains_key(ip) {
                    assert(pairs.contains((&ip, &self.by_ip@[ip])));
                    let k = choose|k: int| 0 <= k < pairs.len() && pairs[k] == (&ip, &self.by_ip@[ip]);
                    assert(keys[k] == ip);
                }
            }
            assert(walks(self@, keys));
        }
        res
    }
}

proof fn lemma_count_at_address(entries: Seq<ServiceEntryView>, ip: u32, x: ServiceEntryView)
    ensures
        at_address(entries, ip).to_multiset().count(x) == (if ipv4::bits(x.cluster_ip) == ip {
            entries.to_multiset().count(x)
        } else {
            0
        }),
    decreases entries.len(),
{
    reveal(Seq::filter);
    broadcast use vstd::seq_lib::group_to_multiset_ensures;

    if entries.len() > 0 {
        let init = entries.drop_last();
        lemma_count_at_address(init, ip, x);
        assert(entries =~= init.push(entries.last()));
    }
}

proof fn lemma_count_listed(entries: Seq<ServiceEntryView>, keys: Seq<u32>, x: ServiceEntryView)
    requires
        keys.no_duplicates(),
        forall|k: int| 0 <= k < keys.len() ==> grouped(entries).contains_key(#[trigger] keys[k]),
    ensures
        listed(grouped(entries), keys).to_multiset().count(x) == (if keys.contains(ipv4::bits(x.cluster_ip)) {
            entries.to_multiset().count(x)
        } else {
            0
        }),
    decreases keys.len(),
{
    broadcast use vstd::seq_lib::group_to_multiset_ensures;

    let map = grouped(entries);
    let here = ipv4::bits(x.cluster_ip);
    if keys.len() > 0 {
        let init = keys.drop_last();
        let last = keys.last();
        assert forall|k: int| 0 <= k < init.len() implies map.contains_key(#[trigger] init[k]) by {
            assert(init[k] == keys[k]);
        }
        lemma_count_listed(entries, init, x);
        assert(keys[keys.len() - 1] == last);
        lemma_count_at_address(entries, last, x);
        vstd::seq_lib::lemma_multiset_commutative(listed(map, init), map[last]);
        if here == last {
            assert(keys.contains(here));
            assert(!init.contains(here)) by {
                if init.contains(here) {
                    let k = choose|k: int| 0 <= k < init.len() && init[k] == here;
                    assert(keys[k] == keys[keys.len() - 1]);
                }
            }
        } else {
            if keys.contains(here) {
                let k = choose|k: int| 0 <= k < keys.len() && keys[k] == here;
                assert(init[k] == here);
            }
            if init.contains(here) {
                let k = choose|k: int| 0 <= k < init.len() && init[k] == here;
                assert(keys[k] == here);
            }
        }
    }
}

/// The map loses no entry and invents none: in whatever order its addresses are walked, the entries
/// are those of the services, each as often as it occurs there.
pub proof fn law_map_keeps_entries(services: Seq<KubeServiceView>, keys: Seq<u32>)
    requires
        walks(grouped(all_entries(services)), keys),
    ensures
        listed(grouped(all_entries(services)), keys).to_multiset() == all_entries(
            services,
        ).to_multiset(),
{
    let entries = all_entries(services);
    let map = grouped(entries);
    assert forall|k: int| 0 <= k < keys.len() implies map.contains_key(#[trigger] keys[k]) by {
        assert(keys.contains(keys[k]));
    }
    assert forall|x: ServiceEntryView| listed(map, keys).to_multiset().count(x)
        == entries.to_multiset().count(x) by {
        lemma_count_listed(entries, keys, x);
        let here = ipv4::bits(x.cluster_ip);
        if !keys.contains(here) {
            assert(!map.contains_key(here));
            assert(at_address(entries, here).len() == 0);
            lemma_count_at_address(entries, here, x);
            assert(at_address(entries, here).to_multiset().count(x) == 0) by {
                broadcast use vstd::seq_lib::group_to_multiset_ensures;

                assert(at_address(entries, here).to_multiset().len() == 0);
            }
        }
    }
    assert(listed(map, keys).to_multiset() =~= entries.to_multiset());
}

/// Every entry under an address carries that address.
pub proof fn law_entries_stand_at_their_address(services: Seq<KubeServiceView>, ip: u32, k: int)
    requires
        grouped(all_entries(services)).contains_key(ip),
        0 <= k < grouped(all_entries(services))[ip].len(),
    ensures
        ipv4::bits(grouped(all_entries(services))[ip][k].cluster_ip) == ip,
        all_entries(services).contains(grouped(all_entries(services))[ip][k]),
{
    let entries = all_entries(services);
    lemma_filtered(entries, ip);
}

proof fn lemma_filtered(entries: Seq<ServiceEntryView>, ip: u32)
    ensures
        forall|k: int|
            0 <= k < at_address(entries, ip).len() ==> ipv4::bits(
                (#[trigger] at_address(entries, ip)[k]).cluster_ip,
            ) == ip && entries.contains(at_address(entries, ip)[k]),
    decreases entries.len(),
{
    reveal(Seq::filter);
    if entries.len() > 0 {
        let init = entries.drop_last();
        lemma_filtered(init, ip);
        assert forall|k: int| 0 <= k < at_address(entries, ip).len() implies ipv4::bits(
            (#[trigger] at_address(entries, ip)[k]).cluster_ip,
        ) == ip && entries.contains(at_address(entries, ip)[k]) by {
            let x = at_address(entries, ip)[k];
            if k < at_address(init, ip).len() {
                assert(x == at_address(init, ip)[k]);
                let m = choose|m: int| 0 <= m < init.len() && init[m] == x;
                assert(entries[m] == x);
            } else {
                assert(x == entries[entries.len() - 1]);
            }
        }
    }
}

/// Some service with the given name and namespace has a port, and is routed to the address.
pub open spec fn routed_at(
    services: Seq<KubeServiceView>,
    name: Seq<char>,
    namespace: Seq<char>,
    ip: Ipv4Addr,
) -> bool {
    exists|j: int|
        0 <= j < services.len() && (#[trigger] services[j]).name == name && services[j].namespace
            == namespace && services[j].ports.len() > 0 && routable(services[j].cluster_ip) == Some(ip)
}

/// A service with a port that is routed to an address has an entry there.
pub proof fn lemma_service_has_entry(services: Seq<KubeServiceView>, j: int, ip: Ipv4Addr)
    requires
        0 <= j < services.len(),
        services[j].ports.len() > 0,
        routable(services[j].cluster_ip) == Some(ip),
    ensures
        all_entries(services).contains(entry_of(services[j], services[j].ports[0], ip)),
    decreases services.len(),
{
    let init = services.drop_last();
    let e = entry_of(services[j], services[j].ports[0], ip);
    let all = all_entries(services);
    if j == services.len() - 1 {
        assert(entries_of(services.last())[0] == e);
        assert(all[all_entries(init).len() as int] == e);
    } else {
        assert(init[j] == services[j]);
        lemma_service_has_entry(init, j, ip);
        let k = choose|k: int| 0 <= k < all_entries(init).len() && all_entries(init)[k] == e;
        assert(all[k] == e);
    }
}

proof fn lemma_entry_has_service(services: Seq<KubeServiceView>, k: int)
    requires
        0 <= k < all_entries(services).len(),
    ensures
        ({
            let e = all_entries(services)[k];
            routed_at(services, e.name, e.namespace, e.cluster_ip)
        }),
    decreases services.len(),
{
    let init = services.drop_last();
    let e = all_entries(services)[k];
    if k < all_entries(init).len() {
        assert(e == all_entries(init)[k]);
        lemma_entry_has_service(init, k);
        let j = choose|j: int|
            0 <= j < init.len() && (#[trigger] init[j]).name == e.name && init[j].namespace
                == e.namespace && init[j].ports.len() > 0 && routable(init[j].cluster_ip) == Some(
                e.cluster_ip,
            );
        assert(services[j] == init[j]);
    } else {
        let own = entries_of(services.last());
        assert(e == own[k - all_entries(init).len()]);
        assert(services[services.len() - 1] == services.last());
    }
}

proof fn lemma_found_at_address(entries: Seq<ServiceEntryView>, e: ServiceEntryView)
    requires
        entries.contains(e),
    ensures
        at_address(entries, ipv4::bits(e.cluster_ip)).contains(e),
    decreases entries.len(),
{
    reveal(Seq::filter);
    let ip = ipv4::bits(e.cluster_ip);
    let init = entries.drop_last();
    let k = choose|k: int| 0 <= k < entries.len() && entries[k] == e;
    let here = at_address(entries, ip);
    if k == entries.len() - 1 {
        assert(here[here.len() - 1] == e);
    } else {
        assert(init[k] == e);
        lemma_found_at_address(init, e);
        let m = choose|m: int| 0 <= m < at_address(init, ip).len() && at_address(init, ip)[m] == e;
        assert(here[m] == e);
    }
}

/// The map built from a list of services holds a service at an address exactly where a service of
/// that name and namespace, with at least one port, is routed to that address.
pub proof fn law_map_holds_services(
    services: Seq<KubeServiceView>,
    name: Seq<char>,
    namespace: Seq<char>,
    ip: Ipv4Addr,
)
    ensures
        holds_service(grouped(all_entries(services)), ipv4::bits(ip), name, namespace) <==> routed_at(
            services,
            name,
            namespace,
            ip,
        ),
{
    let entries = all_entries(services);
    let map = grouped(entries);
    if routed_at(services, name, namespace, ip) {
        let j = choose|j: int|
            0 <= j < services.len() && (#[trigger] services[j]).name == name && services[j].namespace
                == namespace && services[j].ports.len() > 0 && routable(services[j].cluster_ip)
                == Some(ip);
        let e = entry_of(services[j], services[j].ports[0], ip);
        lemma_service_has_entry(services, j, ip);
        lemma_found_at_address(entries, e);
        let k = choose|k: int| 0 <= k < map[ipv4::bits(ip)].len() && map[ipv4::bits(ip)][k] == e;
        assert(entry_is(map[ipv4::bits(ip)][k], name, namespace));
    }
    if holds_service(map, ipv4::bits(ip), name, namespace) {
        let k = choose|k: int|
            0 <= k < map[ipv4::bits(ip)].len() && entry_is(#[trigger] map[ipv4::bits(ip)][k], name, namespace);
        let e = map[ipv4::bits(ip)][k];
        lemma_filtered(entries, ipv4::bits(ip));
        assert(at_address(entries, ipv4::bits(ip))[k] == e);
        ipv4::law_bits_injective(e.cluster_ip, ip);
        let m = choose|m: int| 0 <= m < entries.len() && entries[m] == e;
        lemma_entry_has_service(services, m);
    }
}

/// A service that is routed to an address adds one entry for each of its ports, in their order, behind
/// the entries of the services before it. Each carries the name, the namespace and the address of the
/// service, and the port, as far as sixteen bits hold it.
pub proof fn law_routed_service_has_entry_per_port(
    services: Seq<KubeServiceView>,
    svc: KubeServiceView,
    ip: Ipv4Addr,
)
    requires
        svc.cluster_ip == ipv4::dotted(ip),
        ip.a != 127,
        ip.a != 0 || ip.b != 0 || ip.c != 0 || ip.d != 0,
    ensures
        ({
            let before = all_entries(services);
            let after = all_entries(services.push(svc));
            &&& after.len() == before.len() + svc.ports.len()
            &&& forall|k: int| 0 <= k < before.len() ==> #[trigger] after[k] == before[k]
            &&& forall|k: int|
                before.len() <= k < after.len() ==> {
                    let port = svc.ports[k - before.len()].port;
                    &&& (#[trigger] after[k]).name == svc.name
                    &&& after[k].namespace == svc.namespace
                    &&& after[k].cluster_ip == ip
                    &&& (port - after[k].port) % 0x1_0000 == 0
                    &&& 0 <= port < 0x1_0000 ==> after[k].port == port
                }
        }),
{
    ipv4::law_dotted_read_back(ip);
    assert(services.push(svc).drop_last() =~= services);
    let before = all_entries(services);
    let after = all_entries(services.push(svc));
    assert forall|k: int| before.len() <= k < after.len() implies {
        let port = svc.ports[k - before.len()].port;
        &&& (#[trigger] after[k]).name == svc.name
        &&& after[k].namespace == svc.namespace
        &&& after[k].cluster_ip == ip
        &&& (port - after[k].port) % 0x1_0000 == 0
        &&& 0 <= port < 0x1_0000 ==> after[k].port == port
    } by {
        let p = svc.ports[k - before.len()];
        assert(after[k] == entries_of(svc)[k - before.len()]);
        assert(after[k] == entry_of(svc, p, ip));
    }
}

/// A service whose address is no IPv4 address, or one of the loopback network, or all zeros, adds no
/// entry.
pub proof fn law_unrouted_service_has_no_entry(
    services: Seq<KubeServiceView>,
    svc: KubeServiceView,
)
    requires
        forall|ip: Ipv4Addr|
            #[trigger] ipv4::dotted(ip) == svc.cluster_ip ==> ip.a == 127 || (ip.a == 0 && ip.b == 0
                && ip.c == 0 && ip.d == 0),
    ensures
        all_entries(services.push(svc)) == all_entries(services),
{
    assert(services.push(svc).drop_last() =~= services);
    if let Some(ip) = ipv4::address(svc.cluster_ip) {
        assert(ipv4::dotted(ip) == svc.cluster_ip);
    }
    assert(all_entries(services) + Seq::empty() =~= all_entries(services));
}

/// Traffic is routed to every IPv4 address but those of the loopback network and the one of all zeros.
pub proof fn law_routable_addresses(ip: Ipv4Addr)
    ensures
        routable(ipv4::dotted(ip)) == (if ip.a == 127 || (ip.a == 0 && ip.b == 0 && ip.c == 0 && ip.d
            == 0) {
            None
        } else {
            Some(ip)
        }),
{
    ipv4::law_dotted_read_back(ip);
}

/// One more entry comes last among those with its address, and leaves those with other addresses
/// alone.
pub proof fn law_entry_joins_its_address(entries: Seq<ServiceEntryView>, e: ServiceEntryView, ip: u32)
    ensures
        grouped(Seq::<ServiceEntryView>::empty()) == Map::<u32, Seq<ServiceEntryView>>::empty(),
        ip == ipv4::bits(e.cluster_ip) ==> grouped(entries.push(e)).contains_key(ip) && grouped(
            entries.push(e),
        )[ip] == (if grouped(entries).contains_key(ip) {
            grouped(entries)[ip].push(e)
        } else {
            seq![e]
        }),
        ip != ipv4::bits(e.cluster_ip) ==> (grouped(entries.push(e)).contains_key(ip) <==> grouped(
            entries,
        ).contains_key(ip)) && (grouped(entries).contains_key(ip) ==> grouped(entries.push(e))[ip]
            == grouped(entries)[ip]),
{
    reveal(Seq::filter);
    assert(entries.push(e).drop_last() =~= entries);
    assert(at_address(entries, ip).len() == 0 ==> at_address(entries, ip).push(e) =~= seq![e]);
    assert(grouped(Seq::<ServiceEntryView>::empty()) =~= Map::empty());
}

/// The map has an entry of a service at an address exactly where one of the entries there carries
/// both the name and the namespace of the service.
pub proof fn law_service_is_found_by_both_names(
    map: Map<u32, Seq<ServiceEntryView>>,
    ip: u32,
    name: Seq<char>,
    namespace: Seq<char>,
)
    ensures
        holds_service(map, ip, name, namespace) <==> map.contains_key(ip) && exists|k: int|
            0 <= k < map[ip].len() && (#[trigger] map[ip][k]).name == name && map[ip][k].namespace
                == namespace,
{
    if map.contains_key(ip) && exists|k: int|
        0 <= k < map[ip].len() && (#[trigger] map[ip][k]).name == name && map[ip][k].namespace
            == namespace {
        let k = choose|k: int|
            0 <= k < map[ip].len() && (#[trigger] map[ip][k]).name == name && map[ip][k].namespace
                == namespace;
        assert(entry_is(map[ip][k], name, namespace));
    }
}

/// The URL of an entry has `<name>.<namespace>` as its host. It is `https` on port 443 and `http` on
/// every other port, and it names the port unless that is 80 or 443.
pub proof fn law_entry_url(e: ServiceEntryView)
    ensures
        e.port == 80 ==> entry_url(e) == "http"@ + "://"@ + (e.name + "."@ + e.namespace),
        e.port == 443 ==> entry_url(e) == "https"@ + "://"@ + (e.name + "."@ + e.namespace),
        e.port != 80 && e.port != 443 ==> entry_url(e) == "http"@ + "://"@ + (e.name + "."@
            + e.namespace) + ":"@ + text::digits(e.port as nat),
{
}

/// The socket address of an entry is the address of its service and its port, separated by a colon.
pub proof fn law_entry_socket(e: ServiceEntryView)
    ensures
        text::split(entry_socket(e), ':') == seq![
            ipv4::dotted(e.cluster_ip),
            text::digits(e.port as nat),
        ],
{
    let host = ipv4::dotted(e.cluster_ip);
    let port = text::digits(e.port as nat);
    let parts = seq![host, port];
    reveal_strlit(":");
    assert(":"@ =~= seq![':']);
    text::law_digits_stand_for_number(e.cluster_ip.a as nat);
    text::law_digits_stand_for_number(e.cluster_ip.b as nat);
    text::law_digits_stand_for_number(e.cluster_ip.c as nat);
    text::law_digits_stand_for_number(e.cluster_ip.d as nat);
    text::law_digits_stand_for_number(e.port as nat);
    assert(!host.contains(':')) by {
        lemma_concat_without(text::digits(e.cluster_ip.a as nat), seq!['.'], ':');
        let two = text::digits(e.cluster_ip.a as nat) + seq!['.'];
        lemma_concat_without(two, text::digits(e.cluster_ip.b as nat), ':');
        let three = two + text::digits(e.cluster_ip.b as nat);
        lemma_concat_without(three, seq!['.'], ':');
        lemma_concat_without(three + seq!['.'], text::digits(e.cluster_ip.c as nat), ':');
        let four = three + seq!['.'] + text::digits(e.cluster_ip.c as nat);
        lemma_concat_without(four, seq!['.'], ':');
        lemma_concat_without(four + seq!['.'], text::digits(e.cluster_ip.d as nat), ':');
    }
    assert(parts.drop_last() =~= seq![host]);
    text::law_join_grows(seq![host], port, seq![':']);
    text::law_join_grows(seq![host], host, seq![':']);
    assert(parts =~= seq![host].push(port));
    assert(entry_socket(e) =~= text::join(parts, seq![':']));
    text::lemma_split_join(parts, ':');
}

proof fn lemma_concat_without(s: Seq<char>, t: Seq<char>, c: char)
    requires
        !s.contains(c),
        !t.contains(c),
    ensures
        !(s + t).contains(c),
{
    let both = s + t;
    if both.contains(c) {
        let k = choose|k: int| 0 <= k < both.len() && both[k] == c;
        if k < s.len() {
            assert(s[k] == c);
        } else {
            assert(t[k - s.len()] == c);
        }
    }
}

} // verus!
