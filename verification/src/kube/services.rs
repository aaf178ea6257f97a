//! Services of a cluster.
use crate::text::{self, join_text, push_decimal, push_viewed};
use vstd::prelude::*;

verus! {

// ── What the cluster lists ──────────────────────────────

/// A port given by number or by name.
#[derive(Debug)]
pub enum IntOrString {
    Int(i32),
    Name(String),
}

pub enum IntOrStringView {
    Int(i32),
    Name(Seq<char>),
}

impl View for IntOrString {
    type V = IntOrStringView;

    open spec fn view(&self) -> IntOrStringView {
        match self {
            IntOrString::Int(i) => IntOrStringView::Int(*i),
            IntOrString::Name(s) => IntOrStringView::Name(s@),
        }
    }
}

impl DeepView for IntOrString {
    type V = IntOrStringView;

    open spec fn deep_view(&self) -> IntOrStringView {
        self@
    }
}

/// One port of a listed service; only the number is always there.
#[derive(Debug)]
pub struct PortSpec {
    pub port: i32,
    pub target_port: Option<IntOrString>,
    pub protocol: Option<String>,
    pub name: Option<String>,
}

pub struct PortSpecView {
    pub port: i32,
    pub target_port: Option<IntOrStringView>,
    pub protocol: Option<Seq<char>>,
    pub name: Option<Seq<char>>,
}

impl View for PortSpec {
    type V = PortSpecView;

    open spec fn view(&self) -> PortSpecView {
        PortSpecView {
            port: self.port,
            target_port: self.target_port.deep_view(),
            protocol: self.protocol.deep_view(),
            name: self.name.deep_view(),
        }
    }
}

impl DeepView for PortSpec {
    type V = PortSpecView;

    open spec fn deep_view(&self) -> PortSpecView {
        self@
    }
}

/// The specification part of a listed service.
#[derive(Debug)]
pub struct ServiceSpec {
    pub service_type: Option<String>,
    pub cluster_ip: Option<String>,
    pub ports: Option<Vec<PortSpec>>,
}

pub struct ServiceSpecView {
    pub service_type: Option<Seq<char>>,
    pub cluster_ip: Option<Seq<char>>,
    pub ports: Option<Seq<PortSpecView>>,
}

impl View for ServiceSpec {
    type V = ServiceSpecView;

    open spec fn view(&self) -> ServiceSpecView {
        ServiceSpecView {
            service_type: self.service_type.deep_view(),
            cluster_ip: self.cluster_ip.deep_view(),
            ports: self.ports.deep_view(),
        }
    }
}

impl DeepView for ServiceSpec {
    type V = ServiceSpecView;

    open spec fn deep_view(&self) -> ServiceSpecView {
        self@
    }
}

/// A service object as the cluster lists it, any part of which may be missing.
#[derive(Debug)]
pub struct ServiceObject {
    pub name: Option<String>,
    pub namespace: Option<String>,
    pub spec: Option<ServiceSpec>,
}

pub struct ServiceObjectView {
    pub name: Option<Seq<char>>,
    pub namespace: Option<Seq<char>>,
    pub spec: Option<ServiceSpecView>,
}

impl View for ServiceObject {
    type V = ServiceObjectView;

    open spec fn view(&self) -> ServiceObjectView {
        ServiceObjectView {
            name: self.name.deep_view(),
            namespace: self.namespace.deep_view(),
            spec: self.spec.deep_view(),
        }
    }
}

impl DeepView for ServiceObject {
    type V = ServiceObjectView;

    open spec fn deep_view(&self) -> ServiceObjectView {
        self@
    }
}

// ── Services with every gap filled ──────────────────────

#[derive(Debug)]
pub struct ServicePort {
    pub port: i32,
    pub target_port: String,
    pub protocol: String,
    pub name: Option<String>,
}

pub struct ServicePortView {
    pub port: i32,
    pub target_port: Seq<char>,
    pub protocol: Seq<char>,
    pub name: Option<Seq<char>>,
}

impl View for ServicePort {
    type V = ServicePortView;

    open spec fn view(&self) -> ServicePortView {
        ServicePortView {
            port: self.port,
            target_port: self.target_port@,
            protocol: self.protocol@,
            name: self.name.deep_view(),
        }
    }
}

impl DeepView for ServicePort {
    type V = ServicePortView;

    open spec fn deep_view(&self) -> ServicePortView {
        self@
    }
}

impl Clone for ServicePort {
    fn clone(&self) -> (res: ServicePort)
        ensures
            res@ == self@,
    {
        ServicePort {
            port: self.port,
            target_port: self.target_port.clone(),
            protocol: self.protocol.clone(),
            name: self.name.clone(),
        }
    }
}

#[derive(Debug)]
pub struct KubeService {
    pub name: String,
    pub namespace: String,
    pub service_type: String,
    pub cluster_ip: String,
    pub ports: Vec<ServicePort>,
}

pub struct KubeServiceView {
    pub name: Seq<char>,
    pub namespace: Seq<char>,
    pub service_type: Seq<char>,
    pub cluster_ip: Seq<char>,
    pub ports: Seq<ServicePortView>,
}

impl View for KubeService {
    type V = KubeServiceView;

    open spec fn view(&self) -> KubeServiceView {
        KubeServiceView {
            name: self.name@,
            namespace: self.namespace@,
            service_type: self.service_type@,
            cluster_ip: self.cluster_ip@,
            ports: self.ports.deep_view(),
        }
    }
}

impl DeepView for KubeService {
    type V = KubeServiceView;

    open spec fn deep_view(&self) -> KubeServiceView {
        self@
    }
}

impl Clone for KubeService {
    fn clone(&self) -> (res: KubeService)
        ensures
            res@ == self@,
    {
        KubeService {
            name: self.name.clone(),
            namespace: self.namespace.clone(),
            service_type: self.service_type.clone(),
            cluster_ip: self.cluster_ip.clone(),
            ports: self.ports.clone(),
        }
    }
}

/// A port as the table shows it, such as `8080/TCP`.
pub open spec fn port_label(p: ServicePortView) -> Seq<char> {
    text::decimal(p.port as int) + "/"@ + p.protocol
}

/// The labels of ports, separated by commas.
pub open spec fn ports_text(ports: Seq<ServicePortView>) -> Seq<char> {
    text::join(ports.map_values(|p: ServicePortView| port_label(p)), ", "@)
}

/// `https` on port 443, `http` on every other port.
pub open spec fn url_scheme(port: int) -> Seq<char> {
    if port == 443 {
        "https"@
    } else {
        "http"@
    }
}

/// The scheme of a URL to the given port.
pub fn scheme_of(port: i32) -> (res: &'static str)
    ensures
        res@ == url_scheme(port as int),
{
    if port == 443 {
        "https"
    } else {
        "http"
    }
}

impl KubeService {
    /// A human-friendly port summary like "8080/TCP, 443/TCP"
    pub fn ports_display(&self) -> (res: String)
        ensures
            res@ == ports_text(self@.ports),
    {
        let mut labels: Vec<String> = Vec::new();
        let mut i: usize = 0;
        let ghost all = self@.ports.map_values(|p: ServicePortView| port_label(p));
        assert(labels.deep_view() =~= all.take(0));
        while i < self.ports.len()
            invariant
                i <= self.ports@.len(),
                all == self@.ports.map_values(|p: ServicePortView| port_label(p)),
                labels.deep_view() == all.take(i as int),
            decreases self.ports@.len() - i,
        {
            let mut label = String::new();
            push_decimal(&mut label, self.ports[i].port as i64);
            label.append("/");
            label.append(self.ports[i].protocol.as_str());
            assert(label@ =~= all[i as int]);
            push_viewed(&mut labels, label);
            assert(all.take(i as int).push(all[i as int]) =~= all.take(i + 1));
            i += 1;
        }
        assert(all.take(i as int) =~= all);
        join_text(&labels, ", ")
    }

    /// The first HTTP-ish url you'd try in a browser
    pub fn local_url(&self, ip: &str) -> (res: Option<String>)
        ensures
            res.deep_view() == (if self@.ports.len() == 0 {
                None
            } else {
                Some(
                    url_scheme(self@.ports[0].port as int) + "://"@ + ip@ + ":"@ + text::decimal(
                        self@.ports[0].port as int,
                    ),
                )
            }),
    {
        if self.ports.len() == 0 {
            return None;
        }
        let port = self.ports[0].port;
        let mut url = String::new();
        url.append(scheme_of(port));
        url.append("://");
        url.append(ip);
        url.append(":");
        push_decimal(&mut url, port as i64);
        proof {
            let expected = url_scheme(port as int) + "://"@ + ip@ + ":"@ + text::decimal(port as int);
            assert(url@ =~= expected);
        }
        Some(url)
    }
}

// ── From listed objects to services ─────────────────────

/// A value, or a fallback where there is none.
pub open spec fn or_else(value: Option<Seq<char>>, fallback: Seq<char>) -> Seq<char> {
    match value {
        Some(v) => v,
        None => fallback,
    }
}

/// A copy of the text, or of the fallback where there is none.
pub fn text_or(value: &Option<String>, fallback: &str) -> (res: String)
    ensures
        res@ == or_else(value.deep_view(), fallback@),
{
    match value {
        Some(v) => v.clone(),
        None => fallback.to_string(),
    }
}

/// A port with its gaps filled: the target is the port itself, the protocol TCP.
pub open spec fn port_of(p: PortSpecView) -> ServicePortView {
    ServicePortView {
        port: p.port,
        target_port: match p.target_port {
            Some(IntOrStringView::Int(i)) => text::decimal(i as int),
            Some(IntOrStringView::Name(s)) => s,
            None => text::decimal(p.port as int),
        },
        protocol: or_else(p.protocol, "TCP"@),
        name: p.name,
    }
}

/// A listed object as a service, if it has a name and a specification.
pub open spec fn service_of(object: ServiceObjectView) -> Option<KubeServiceView> {
    match (object.spec, object.name) {
        (Some(spec), Some(name)) => Some(
            KubeServiceView {
                name,
                namespace: or_else(object.namespace, "default"@),
                service_type: or_else(spec.service_type, "ClusterIP"@),
                cluster_ip: or_else(spec.cluster_ip, "-"@),
                ports: match spec.ports {
                    Some(ports) => ports.map_values(|p: PortSpecView| port_of(p)),
                    None => Seq::empty(),
                },
            },
        ),
        _ => None,
    }
}

fn number_text(i: i32) -> (res: String)
    ensures
        res@ == text::decimal(i as int),
{
    let mut res = String::new();
    push_decimal(&mut res, i as i64);
    assert(res@ =~= text::decimal(i as int));
    res
}

fn fill_port(p: &PortSpec) -> (res: ServicePort)
    ensures
        res@ == port_of(p@),
{
    let target_port = match &p.target_port {
        Some(IntOrString::Int(i)) => number_text(*i),
        Some(IntOrString::Name(s)) => s.clone(),
        None => number_text(p.port),
    };
    ServicePort {
        port: p.port,
        target_port,
        protocol: text_or(&p.protocol, "TCP"),
        name: p.name.clone(),
    }
}

fn fill_ports(ports: &Vec<PortSpec>) -> (res: Vec<ServicePort>)
    ensures
        res.deep_view() == ports.deep_view().map_values(|p: PortSpecView| port_of(p)),
{
    let mut res: Vec<ServicePort> = Vec::new();
    let mut i: usize = 0;
    let ghost all = ports.deep_view().map_values(|p: PortSpecView| port_of(p));
    assert(res.deep_view() =~= all.take(0));
    while i < ports.len()
        invariant
            i <= ports@.len(),
            all == ports.deep_view().map_values(|p: PortSpecView| port_of(p)),
            res.deep_view() == all.take(i as int),
        decreases ports@.len() - i,
    {
        let port = fill_port(&ports[i]);
        push_viewed(&mut res, port);
        assert(all.take(i as int).push(all[i as int]) =~= all.take(i + 1));
        i += 1;
    }
    assert(all.take(i as int) =~= all);
    res
}

fn fill_service(object: &ServiceObject) -> (res: Option<KubeService>)
    ensures
        res.deep_view() == service_of(object@),
{
    match (&object.spec, &object.name) {
        (Some(spec), Some(name)) => {
            let ports = match &spec.ports {
                Some(ports) => fill_ports(ports),
                None => Vec::new(),
            };
            proof {
                assert(spec.ports is None ==> ports.deep_view() =~= Seq::empty());
            }
            Some(
                KubeService {
                    name: name.clone(),
                    namespace: text_or(&object.namespace, "default"),
                    service_type: text_or(&spec.service_type, "ClusterIP"),
                    cluster_ip: text_or(&spec.cluster_ip, "-"),
                    ports,
                },
            )
        },
        _ => None,
    }
}

/// The services among the listed objects, in order: those with a name and a specification.
pub open spec fn services_of(objects: Seq<ServiceObjectView>) -> Seq<KubeServiceView> {
    objects.filter_map(|object: ServiceObjectView| service_of(object))
}

/// The services in a cluster's answer to a listing; a failed listing stays that failure.
pub fn list_services(listed: Result<Vec<ServiceObject>, String>) -> (res: Result<
    Vec<KubeService>,
    String,
>)
    ensures
        listed matches Ok(objects) ==> res matches Ok(services) && services.deep_view()
            == services_of(objects.deep_view()),
        listed matches Err(e) ==> res == Err::<Vec<KubeService>, String>(e),
{
    let objects = match listed {
        Ok(objects) => objects,
        Err(e) => return Err(e),
    };
    let mut res: Vec<KubeService> = Vec::new();
    let mut i: usize = 0;
    let ghost f = |object: ServiceObjectView| service_of(object);
    assert(objects.deep_view().take(0) =~= Seq::empty());
    assert(res.deep_view() =~= Seq::empty());
    while i < objects.len()
        invariant
            i <= objects@.len(),
            f == (|object: ServiceObjectView| service_of(object)),
            res.deep_view() == objects.deep_view().take(i as int).filter_map(f),
        decreases objects@.len() - i,
    {
        proof {
            let next = objects.deep_view().take(i + 1);
            assert(next.drop_last() =~= objects.deep_view().take(i as int));
            assert(next.last() == objects@[i as int]@);
        }
        match fill_service(&objects[i]) {
            Some(service) => push_viewed(&mut res, service),
            None => {},
        }
        i += 1;
    }
    assert(objects.deep_view().take(i as int) =~= objects.deep_view());
    Ok(res)
}

// ── Laws ────────────────────────────────────────────────

/// One more object with a name and a specification is one more service, behind those before it: with
/// its own name and ports, in their order, and with its namespace, type and address, where `default`,
/// `ClusterIP` and `-` stand for what is missing.
pub proof fn law_named_object_is_listed(
    objects: Seq<ServiceObjectView>,
    object: ServiceObjectView,
    name: Seq<char>,
    spec: ServiceSpecView,
)
    requires
        object.name == Some(name),
        object.spec == Some(spec),
    ensures
        ({
            let before = services_of(objects);
            let after = services_of(objects.push(object));
            let svc = after.last();
            &&& after.len() == before.len() + 1
            &&& after.drop_last() == before
            &&& svc.name == name
            &&& object.namespace matches Some(namespace) ==> svc.namespace == namespace
            &&& object.namespace is None ==> svc.namespace == "default"@
            &&& spec.service_type matches Some(kind) ==> svc.service_type == kind
            &&& spec.service_type is None ==> svc.service_type == "ClusterIP"@
            &&& spec.cluster_ip matches Some(ip) ==> svc.cluster_ip == ip
            &&& spec.cluster_ip is None ==> svc.cluster_ip == "-"@
            &&& spec.ports is None ==> svc.ports.len() == 0
            &&& spec.ports matches Some(ports) ==> svc.ports.len() == ports.len() && forall|i: int|
                0 <= i < ports.len() ==> {
                    &&& (#[trigger] svc.ports[i]).port == ports[i].port
                    &&& svc.ports[i].name == ports[i].name
                    &&& ports[i].protocol matches Some(protocol) ==> svc.ports[i].protocol
                        == protocol
                    &&& ports[i].protocol is None ==> svc.ports[i].protocol == "TCP"@
                    &&& ports[i].target_port matches Some(IntOrStringView::Int(n))
                        ==> svc.ports[i].target_port == text::decimal(n as int)
                    &&& ports[i].target_port matches Some(IntOrStringView::Name(s))
                        ==> svc.ports[i].target_port == s
                    &&& ports[i].target_port is None ==> svc.ports[i].target_port == text::decimal(
                        ports[i].port as int,
                    )
                }
        }),
{
    reveal(Seq::filter_map);
    assert(objects.push(object).drop_last() =~= objects);
    let before = services_of(objects);
    let after = services_of(objects.push(object));
    assert(after =~= before.push(service_of(object).unwrap()));
    assert(after.drop_last() =~= before);
}

/// An object without a name or without a specification is no service, and no objects are no services.
pub proof fn law_nameless_object_is_left_out(
    objects: Seq<ServiceObjectView>,
    object: ServiceObjectView,
)
    requires
        object.name is None || object.spec is None,
    ensures
        services_of(objects.push(object)) == services_of(objects),
        services_of(Seq::empty()).len() == 0,
{
    reveal(Seq::filter_map);
    assert(objects.push(object).drop_last() =~= objects);
    assert(services_of(objects.push(object)) =~= services_of(objects));
}

/// The summary names every port as its number, a slash and its protocol, in order, with a comma and a
/// space between neighbours, and is empty where there is no port.
pub proof fn law_ports_summary(ports: Seq<ServicePortView>, p: ServicePortView)
    ensures
        ports_text(Seq::empty()).len() == 0,
        ports_text(seq![p]) == text::decimal(p.port as int) + "/"@ + p.protocol,
        ports.len() > 0 ==> ports_text(ports.push(p)) == ports_text(ports) + ", "@ + (text::decimal(
            p.port as int,
        ) + "/"@ + p.protocol),
{
    let label = |p: ServicePortView| port_label(p);
    let labels = ports.map_values(label);
    text::law_join_grows(labels, port_label(p), ", "@);
    assert(Seq::<ServicePortView>::empty().map_values(label) =~= Seq::empty());
    assert(seq![p].map_values(label) =~= seq![port_label(p)]);
    assert(ports.push(p).map_values(label) =~= labels.push(port_label(p)));
}

/// The scheme is `https` on port 443 alone.
pub proof fn law_scheme(port: int)
    ensures
        port == 443 ==> url_scheme(port) == "https"@,
        port != 443 ==> url_scheme(port) == "http"@,
{
}

} // verus!
