//! The server with a store and CAs in memory.
use ca_server::dialogue::{Reply, Request};
use ca_server::error::{Incident, ServerError};
use ca_server::messages::{
    ChildRequest, Csr, EntitlementClass, Entitlements, IssuanceRequest, IssuanceResponse,
    IssuedCert, PublicKey, ResourceLimit, RevocationRequest, RevocationResponse, ServiceUri,
    SigningCert,
};
use ca_server::operation::{Flow, Operation};
use ca_server::server::CaServer;
use ca_server::types::{
    ta_handle, AddChildRequest, AddParentRequest, CaEvent, CaInit, CertAuth, ChildAuthRequest,
    ChildCaInfo, Command, Handle, IdCert, KeyId, NewCa, ParentCaContact, RepoInfo, ResourceSet,
    Token, UpdateChildRequest, CA_NS, DFLT_CLASS, TA_NAME,
};
use ca_server::uri::HttpsUri;
use chrono::Duration;
use rpki::uri::Rsync;
use std::collections::BTreeMap;
use std::str::FromStr;

fn handle(name: &str) -> Handle {
    Handle { name: name.to_string() }
}

fn rsync(text: &str) -> Rsync {
    Rsync::from_str(text).unwrap()
}

fn https(text: &str) -> HttpsUri {
    HttpsUri::from_string(text.to_string()).unwrap()
}

fn repo_info(base_uri: &str) -> RepoInfo {
    RepoInfo {
        base_uri: rsync(base_uri),
        rpki_notify: https("https://localhost/repo/notifcation.xml"),
    }
}

fn no_limit() -> ResourceLimit {
    ResourceLimit { asn: None, v4: None, v6: None }
}

fn resources(v4: &str) -> ResourceSet {
    ResourceSet { asn: String::new(), v4: v4.to_string(), v6: String::new() }
}

/// What the store in memory knows of a CA.
#[derive(Default)]
struct Entry {
    version: u64,
    children: BTreeMap<String, String>,
    parents: Vec<String>,
    entitled: Option<String>,
    keys: Vec<String>,
    certified: Vec<(Handle, IssuanceRequest)>,
    csr_open: bool,
    to_revoke: Vec<String>,
    received: u64,
    to_publish: bool,
}

/// A store, CAs and a signer in memory.
#[derive(Default)]
struct World {
    cas: BTreeMap<String, Entry>,
    broken: Vec<String>,
    log: Vec<String>,
    steps: Vec<String>,
}

impl World {
    fn ca(&self, name: &str) -> Result<CertAuth, String> {
        if self.broken.iter().any(|broken| broken == name) {
            return Err(format!("cannot read {}", name));
        }
        match self.cas.get(name) {
            Some(entry) => Ok(CertAuth {
                handle: handle(name),
                version: entry.version,
                id_cert: IdCert { encoded: format!("cert of {}", name) },
                id_key: KeyId { id: format!("key of {}", name) },
            }),
            None => Err(format!("no such CA: {}", name)),
        }
    }

    /// The latest state of a CA that was handed out, which must be the one
    /// that is worked on.
    fn entry(&mut self, ca: &CertAuth) -> &mut Entry {
        let entry = self.cas.get_mut(&ca.handle.name).unwrap();
        assert_eq!(ca.version, entry.version);
        entry
    }

    fn entitlements(&mut self, ca: &CertAuth, child: &Handle) -> Result<Entitlements, String> {
        match self.entry(ca).children.get(&child.name) {
            Some(v4) => Ok(Entitlements {
                classes: vec![EntitlementClass {
                    class_name: DFLT_CLASS.to_string(),
                    issuer: SigningCert {
                        uri: rsync("rsync://localhost/repo/ta.cer"),
                        cert: "ta cert".into(),
                    },
                    resources: resources(v4),
                    not_after: 0,
                    issued: vec![],
                }],
            }),
            None => Err(format!("unknown child: {}", child.name)),
        }
    }

    fn process(&mut self, ca: &CertAuth, command: &Command) -> Result<Vec<CaEvent>, String> {
        let version = ca.version;
        let entry = self.entry(ca);
        let details: Vec<&str> = match command {
            Command::Publish { ca: target } => {
                assert_eq!(&ca.handle, target);
                if entry.to_publish {
                    entry.to_publish = false;
                    vec!["published"]
                } else {
                    vec![]
                }
            }
            Command::ChildAdd { child, resources, .. } => {
                if entry.children.contains_key(&child.name) {
                    return Err(format!("duplicate child: {}", child.name));
                }
                entry.children.insert(child.name.clone(), resources.v4.clone());
                vec!["child added"]
            }
            Command::ChildUpdate { child, req, .. } => {
                let known = entry.children.get_mut(&child.name);
                match (known, &req.resources) {
                    (None, _) => return Err(format!("unknown child: {}", child.name)),
                    (Some(v4), Some(new)) if *v4 != new.v4 => {
                        *v4 = new.v4.clone();
                        vec!["child updated"]
                    }
                    _ => vec![],
                }
            }
            Command::ChildShrink { grace, .. } => {
                assert_eq!(&Duration::seconds(0), grace);
                vec!["child shrunk"]
            }
            Command::ChildCertify { child, req, .. } => {
                if !entry.children.contains_key(&child.name) {
                    return Err(format!("unknown child: {}", child.name));
                }
                assert_eq!(DFLT_CLASS, req.class_name);
                entry.keys.push(req.csr.public_key.spki.clone());
                entry.certified.push((child.clone(), copy(req)));
                vec!["certificate issued"]
            }
            Command::ChildRevokeKey { req, .. } => {
                entry.keys.retain(|key| *key != req.key);
                vec!["key revoked"]
            }
            Command::AddParent { parent, contact, .. } => {
                assert_eq!(&ParentCaContact::Embedded, contact);
                entry.parents.push(parent.name.clone());
                vec!["parent added"]
            }
            Command::KeyRollInit { max_age, .. } => {
                if *max_age == Duration::seconds(0) { vec!["key roll begun"] } else { vec![] }
            }
            Command::KeyRollActivate { staging, .. } => {
                if *staging == Duration::seconds(0) { vec!["key activated"] } else { vec![] }
            }
            Command::KeyRollFinish { response, .. } => {
                entry.to_revoke.retain(|key| *key != response.key);
                vec!["key roll finished"]
            }
            Command::UpdateEntitlements { entitlements, .. } => {
                let v4 = entitlements.classes[0].resources.v4.clone();
                if entry.entitled.as_ref() == Some(&v4) {
                    vec![]
                } else {
                    entry.entitled = Some(v4);
                    entry.csr_open = true;
                    vec!["resource class added", "certificate requested"]
                }
            }
            Command::UpdateRcvdCert { class_name, received, .. } => {
                assert_eq!(DFLT_CLASS, class_name);
                assert_eq!(&resources("10.0.0.0/16"), &received.resources);
                entry.csr_open = false;
                entry.received += 1;
                vec!["key activated"]
            }
        };
        Ok(details
            .into_iter()
            .map(|details| CaEvent { version, details: details.to_string() })
            .collect())
    }

    fn perform(&mut self, request: Request<'_>) -> Reply {
        let (step, reply) = match request {
            Request::OpenStore(dir, ns) => {
                assert_eq!(CA_NS, ns);
                let res = if dir == "/dev/null" { Err("no directory".to_string()) } else { Ok(()) };
                (format!("open {} {}", dir, ns), Reply::StoreOpened(res))
            }
            Request::Listen => ("listen".to_string(), Reply::Listening),
            Request::Has(ca) => {
                (format!("has {}", ca.name), Reply::Has(self.cas.contains_key(&ca.name)))
            }
            Request::List => {
                let all = self.cas.keys().map(|name| handle(name)).collect();
                ("list".to_string(), Reply::Handles(all))
            }
            Request::Latest(ca) => (format!("load {}", ca.name), Reply::Ca(self.ca(&ca.name))),
            Request::Init(new) => {
                let handle = match new {
                    NewCa::TrustAnchor { handle, .. } => handle.clone(),
                    NewCa::Embedded { handle, .. } => handle.clone(),
                };
                let step = format!("init {}", handle.name);
                (step, Reply::Init(Ok(CaInit { handle, details: "first".to_string() })))
            }
            Request::Add(init) => {
                self.cas.insert(init.handle.name.clone(), Entry::default());
                (format!("add {}", init.handle.name), Reply::Added(Ok(())))
            }
            Request::Process(ca, command) => {
                let res = self.process(ca, command);
                (format!("process {}", ca.handle.name), Reply::Events(res))
            }
            Request::Update(ca, state, events) => {
                assert_eq!(ca, &state.handle);
                self.entry(state).version += 1;
                let step = format!("update {} with {} events", ca.name, events.len());
                (step, Reply::Ca(self.ca(&ca.name)))
            }
            Request::Child(ca, child) => {
                let res = match self.entry(ca).children.get(&child.name) {
                    Some(v4) => Ok(ChildCaInfo { id_cert: None, resources: resources(v4) }),
                    None => Err(format!("unknown child: {}", child.name)),
                };
                (format!("child {}", child.name), Reply::Child(res))
            }
            Request::Entitlements(ca, child) => {
                let res = self.entitlements(ca, child);
                (format!("entitlements of {}", child.name), Reply::Entitlements(res))
            }
            Request::Issuance(ca, child, class_name, key) => {
                let v4 = self.entry(ca).children[&child.name].clone();
                assert_eq!(Some(&key.spki), self.entry(ca).keys.last());
                let res = IssuanceResponse {
                    class_name: class_name.clone(),
                    issuer: SigningCert {
                        uri: rsync("rsync://localhost/repo/ta.cer"),
                        cert: "ta cert".into(),
                    },
                    resources: resources(&v4),
                    issued: IssuedCert {
                        uri: rsync("rsync://localhost/repo/ta/child.cer"),
                        limit: no_limit(),
                        resources: resources(&v4),
                        cert: "child cert".into(),
                    },
                };
                (format!("issued to {}", child.name), Reply::Issuance(Ok(res)))
            }
            Request::Parents(ca) => {
                let parents = self.entry(ca).parents.clone();
                let res = if ca.handle.name == TA_NAME {
                    Err("a trust anchor has no parents".to_string())
                } else {
                    Ok(parents.iter().map(|name| handle(name)).collect())
                };
                (format!("parents of {}", ca.handle.name), Reply::Parents(res))
            }
            Request::Contact(ca, parent) => {
                let known = self.entry(ca).parents.contains(&parent.name);
                let res = if known {
                    Ok(ParentCaContact::Embedded)
                } else {
                    Err(format!("unknown parent: {}", parent.name))
                };
                (format!("contact {}", parent.name), Reply::Contact(res))
            }
            Request::Revocations(ca, _) => {
                let keys = self.entry(ca).to_revoke.clone();
                let res = keys.into_iter().map(revocation).collect();
                (format!("revocations of {}", ca.handle.name), Reply::Revocations(res))
            }
            Request::CertRequests(ca, _) => {
                let open = self.entry(ca).csr_open;
                let res = if open { vec![issuance("child key")] } else { vec![] };
                (format!("requests of {}", ca.handle.name), Reply::CertRequests(res))
            }
            Request::RandomToken => {
                ("token".to_string(), Reply::Token(Token { value: "123".to_string() }))
            }
            Request::Log(incident) => {
                self.log.push(format!("{:?}", incident));
                ("log".to_string(), Reply::Logged)
            }
            _ => panic!("no messages here"),
        };
        self.steps.push(step);
        reply
    }

    fn run<O: Operation>(&mut self, mut operation: O) -> O::Output {
        self.steps.clear();
        loop {
            let reply = self.perform(operation.request());
            assert!(operation.admits(&reply));
            match operation.resume(reply) {
                Flow::Pending(next) => operation = next,
                Flow::Done(output) => return output,
            }
        }
    }

    fn with_ta() -> World {
        let mut world = World::default();
        let ta_uri = https("https://localhost/ta/ta.cer");
        let ta_aia = rsync("rsync://localhost/repo/ta.cer");
        let info = repo_info("rsync://localhost/repo/ta/");
        world.run(CaServer.init_ta(info, ta_aia, vec![ta_uri])).unwrap();
        world
    }

    fn with_child() -> World {
        let mut world = World::with_ta();
        let info = repo_info("rsync://localhost/repo/ca/");
        let token = Token { value: "child".to_string() };
        world.run(CaServer.init_ca(&handle("child"), token, info)).unwrap();
        let req = AddChildRequest {
            handle: handle("child"),
            resources: resources("10.0.0.0/16"),
            auth: ChildAuthRequest::Embedded,
        };
        let contact =
            world.run(CaServer.ta_add_child(req, &https("https://localhost/"))).unwrap();
        let parent = AddParentRequest { handle: ta_handle(), contact };
        world.run(CaServer.ca_add_parent(handle("child"), parent)).unwrap();
        world
    }
}

fn copy(req: &IssuanceRequest) -> IssuanceRequest {
    IssuanceRequest {
        class_name: req.class_name.clone(),
        limit: ResourceLimit {
            asn: req.limit.asn.clone(),
            v4: req.limit.v4.clone(),
            v6: req.limit.v6.clone(),
        },
        csr: Csr { public_key: req.csr.public_key.clone(), encoded: req.csr.encoded.clone() },
    }
}

fn revocation(key: String) -> RevocationRequest {
    RevocationRequest { class_name: DFLT_CLASS.to_string(), key }
}

fn issuance(key: &str) -> IssuanceRequest {
    IssuanceRequest {
        class_name: DFLT_CLASS.to_string(),
        limit: no_limit(),
        csr: Csr { public_key: PublicKey { spki: key.to_string() }, encoded: "csr".into() },
    }
}

fn update(v4: Option<&str>, force: bool) -> UpdateChildRequest {
    UpdateChildRequest { id_cert: None, resources: v4.map(resources), force }
}

#[test]
fn add_ta() {
    let mut world = World::default();
    let server = world.run(CaServer::build("/tmp/cas".to_string())).unwrap();
    assert_eq!(vec!["open /tmp/cas cas", "listen"], world.steps);

    let repo_info = repo_info("rsync://localhost/repo/ta/");
    let ta_uri = https("https://localhost/ta/ta.cer");
    let ta_aia = rsync("rsync://localhost/repo/ta.cer");

    assert!(world.run(server.get_trust_anchor()).is_err());

    world.run(server.init_ta(repo_info, ta_aia, vec![ta_uri])).unwrap();

    assert!(world.run(server.get_trust_anchor()).is_ok());
}

#[test]
fn init_ta() {
    let mut world = World::default();
    let server = CaServer;

    // Create TA
    let ta_uri = https("https://localhost/tal/ta.cer");
    let ta_aia = rsync("rsync://localhost/repo/ta.cer");
    let ta_repo_info = repo_info("rsync://localhost/repo/ta/");
    world.run(server.init_ta(ta_repo_info, ta_aia, vec![ta_uri])).unwrap();

    // Create child CA
    let child_handle = handle("child");
    let child_token = Token { value: "child".to_string() };
    let child_rs = resources("10.0.0.0/16");
    let ca_repo_info = repo_info("rsync://localhost/repo/ca/");
    world.run(server.init_ca(&child_handle, child_token, ca_repo_info)).unwrap();

    // Add child to TA
    let req = AddChildRequest {
        handle: child_handle.clone(),
        resources: child_rs,
        auth: ChildAuthRequest::Embedded,
    };
    let contact = world.run(server.ta_add_child(req, &https("https://localhost/"))).unwrap();
    assert_eq!(ParentCaContact::Embedded, contact);

    // Add TA as parent to child CA
    let parent = AddParentRequest { handle: ta_handle(), contact };
    world.run(server.ca_add_parent(child_handle.clone(), parent)).unwrap();

    // Get resource entitlements for child and let it process: no change in
    // the TA, a resource class and a certificate request in the child. Then
    // the certificate is issued and goes to the child.
    let ta_version = world.ca(TA_NAME).unwrap().version;
    let entitlements = world.run(server.list(&ta_handle(), &child_handle)).unwrap();
    assert_eq!("all", entitlements.classes[0].class_name);
    assert_eq!(ta_version, world.ca(TA_NAME).unwrap().version);

    world.run(server.get_updates_from_parent(&child_handle, &ta_handle())).unwrap();
    assert!(world.steps.contains(&"update child with 2 events".to_string())); // rc and csr
    assert_eq!(1, world.cas["child"].received);
    assert_eq!(vec!["child key"], world.cas[TA_NAME].keys);

    // What the TA was asked to certify is what the child has requested
    let (handle, request) = world.cas.get_mut(TA_NAME).unwrap().certified.remove(0);
    assert_eq!(child_handle, handle);
    assert_eq!("all", request.class_name);
    assert_eq!(no_limit(), request.limit);

    // Send the same certificate request from the child to the TA
    let request = IssuanceRequest {
        class_name: DFLT_CLASS.to_string(),
        limit: request.limit,
        csr: request.csr,
    };
    let response = world.run(server.issue(&ta_handle(), &child_handle, request)).unwrap();
    let (handle, request) = world.cas.get_mut(TA_NAME).unwrap().certified.remove(0);
    assert_eq!(child_handle, handle);
    assert_eq!(DFLT_CLASS, request.class_name);
    assert_eq!(no_limit(), request.limit);
    assert_eq!(DFLT_CLASS, response.class_name);
    assert_eq!(resources("10.0.0.0/16"), response.issued.resources);
}

#[test]
fn store_that_cannot_be_opened() {
    let mut world = World::default();
    let res = world.run(CaServer::build("/dev/null".to_string()));
    assert_eq!(Err(ServerError::AggregateStoreError("no directory".to_string())), res);
    assert_eq!(vec!["open /dev/null cas"], world.steps);
}

#[test]
fn trust_anchor_is_initialised_once() {
    let mut world = World::default();
    assert_eq!(
        Err(ServerError::TrustAnchorNotInitialisedError),
        world.run(CaServer.get_trust_anchor())
    );
    let mut world = World::with_ta();
    let res = world.run(CaServer.init_ta(
        repo_info("rsync://localhost/repo/ta/"),
        rsync("rsync://localhost/repo/ta.cer"),
        vec![],
    ));
    assert_eq!(Err(ServerError::TrustAnchorInitialisedError), res);
    assert_eq!(vec!["has ta"], world.steps);
}

#[test]
fn ca_is_initialised_once() {
    let mut world = World::with_child();
    let info = repo_info("rsync://localhost/repo/ca/");
    let token = Token { value: "child".to_string() };
    let res = world.run(CaServer.init_ca(&handle("child"), token, info));
    assert_eq!(Err(ServerError::DuplicateCa("child".to_string())), res);
    assert_eq!("child", world.run(CaServer.get_ca(&handle("child"))).unwrap().handle.name);
    assert_eq!(
        Err(ServerError::UnknownCa("nobody".to_string())),
        world.run(CaServer.get_ca(&handle("nobody")))
    );
}

#[test]
fn cas_are_listed() {
    let mut world = World::with_child();
    let list = world.run(CaServer.cas());
    let names: Vec<&str> = list.cas.iter().map(|ca| ca.name.name.as_str()).collect();
    assert_eq!(vec!["child", "ta"], names);
    assert_eq!("123", world.run(CaServer.random_token()).value);
}

#[test]
fn listed_cas_are_those_created() {
    let names = |world: &mut World| -> Vec<String> {
        let list = world.run(CaServer.cas());
        list.cas.into_iter().map(|ca| ca.name.name).collect()
    };
    let mut world = World::default();
    assert!(names(&mut world).is_empty());
    let create = |world: &mut World, name: &str| {
        let token = Token { value: "t".to_string() };
        let info = repo_info("rsync://localhost/repo/ca/");
        world.run(CaServer.init_ca(&handle(name), token, info))
    };
    create(&mut world, "one").unwrap();
    assert_eq!(vec!["one"], names(&mut world));
    assert!(create(&mut world, "one").is_err());
    assert!(world.run(CaServer.get_ca(&handle("two"))).is_err());
    assert!(world.run(CaServer.republish(&handle("two"))).is_err());
    world.run(CaServer.republish_all()).unwrap();
    world.run(CaServer.get_updates_for_all_cas()).unwrap();
    assert_eq!(vec!["one"], names(&mut world));
    let info = repo_info("rsync://localhost/repo/ta/");
    let ta_aia = rsync("rsync://localhost/repo/ta.cer");
    world.run(CaServer.init_ta(info, ta_aia, vec![])).unwrap();
    assert_eq!(vec!["one", "ta"], names(&mut world));
}

#[test]
fn added_child_is_shown() {
    let mut world = World::with_ta();
    let child = handle("late");
    assert_eq!(Ok(None), world.run(CaServer.ta_show_child(&child)));
    let req = AddChildRequest {
        handle: child.clone(),
        resources: resources("10.4.0.0/16"),
        auth: ChildAuthRequest::Embedded,
    };
    world.run(CaServer.ta_add_child(req, &https("https://localhost/"))).unwrap();
    let info = world.run(CaServer.ta_show_child(&child)).unwrap().unwrap();
    assert_eq!(resources("10.4.0.0/16"), info.resources);
    world.run(CaServer.ta_update_child(child.clone(), update(Some("10.5.0.0/16"), true))).unwrap();
    world.run(CaServer.republish_all()).unwrap();
    let info = world.run(CaServer.ta_show_child(&child)).unwrap().unwrap();
    assert_eq!(resources("10.5.0.0/16"), info.resources);
}

#[test]
fn republish_is_a_no_op_without_changes() {
    let mut world = World::with_ta();
    world.run(CaServer.republish(&ta_handle())).unwrap();
    assert_eq!(vec!["load ta", "process ta"], world.steps);

    world.cas.get_mut(TA_NAME).unwrap().to_publish = true;
    world.run(CaServer.republish(&ta_handle())).unwrap();
    assert_eq!(vec!["load ta", "process ta", "update ta with 1 events"], world.steps);

    let res = world.run(CaServer.republish(&handle("nobody")));
    assert_eq!(Err(ServerError::AggregateStoreError("no such CA: nobody".to_string())), res);
}

#[test]
fn republish_all_goes_on_past_failures() {
    let mut world = World::with_child();
    world.broken.push("child".to_string());
    world.run(CaServer.republish_all()).unwrap();
    assert_eq!(vec!["list", "load child", "log", "load ta", "process ta"], world.steps);
    let error = ServerError::AggregateStoreError("cannot read child".to_string());
    assert_eq!(vec![format!("{:?}", Incident::Publishing(handle("child"), error))], world.log);
}

#[test]
fn child_is_added_with_its_identity() {
    let mut world = World::with_ta();
    let req = AddChildRequest {
        handle: handle("remote"),
        resources: resources("10.1.0.0/16"),
        auth: ChildAuthRequest::Rfc8183(ChildRequest {
            tag: Some("tag".to_string()),
            child_handle: handle("me"),
            id_cert: IdCert { encoded: "id".to_string() },
        }),
    };
    let base = https("https://localhost:3000/");
    match world.run(CaServer.ta_add_child(req, &base)).unwrap() {
        ParentCaContact::Rfc6492(response) => {
            assert_eq!(Some("tag".to_string()), response.tag);
            assert_eq!("cert of ta", response.id_cert.encoded);
            assert_eq!("ta", response.parent_handle.name);
            assert_eq!("remote", response.child_handle.name);
            assert_eq!(
                ServiceUri::Https(https("https://localhost:3000/rfc6492/ta")),
                response.service_uri
            );
        }
        ParentCaContact::Embedded => panic!("expected a remote contact"),
    }
}

#[test]
fn child_is_not_added_without_trust_anchor_or_twice() {
    let mut world = World::default();
    let req = || AddChildRequest {
        handle: handle("child"),
        resources: resources("10.0.0.0/16"),
        auth: ChildAuthRequest::Embedded,
    };
    let base = https("https://localhost/");
    assert_eq!(
        Err(ServerError::TrustAnchorNotInitialisedError),
        world.run(CaServer.ta_add_child(req(), &base))
    );
    let mut world = World::with_child();
    assert_eq!(
        Err(ServerError::CertAuth("duplicate child: child".to_string())),
        world.run(CaServer.ta_add_child(req(), &base))
    );
}

#[test]
fn uri_of_the_trust_anchor_must_be_a_uri() {
    let req = AddChildRequest {
        handle: handle("remote"),
        resources: resources("10.1.0.0/16"),
        auth: ChildAuthRequest::Rfc8183(ChildRequest {
            tag: None,
            child_handle: handle("me"),
            id_cert: IdCert { encoded: "id".to_string() },
        }),
    };
    let state = |name: &str| CertAuth {
        handle: handle(name),
        version: 0,
        id_cert: IdCert { encoded: String::new() },
        id_key: KeyId { id: String::new() },
    };
    let mut operation = CaServer.ta_add_child(req, &https("https://localhost/"));
    for reply in vec![Reply::Ca(Ok(state("ta"))), Reply::Events(Ok(vec![]))] {
        assert!(operation.admits(&reply));
        operation = match operation.resume(reply) {
            Flow::Pending(next) => next,
            Flow::Done(_) => panic!("not done yet"),
        };
    }
    assert!(matches!(operation.request(), Request::Update(_, _, events) if events.is_empty()));
    assert!(!operation.admits(&Reply::Ca(Ok(state("a name")))));
    assert!(operation.admits(&Reply::Ca(Ok(state("ta")))));
    assert!(operation.admits(&Reply::Ca(Err("disk full".to_string()))));
}

#[test]
fn child_is_shown() {
    let mut world = World::default();
    assert_eq!(
        Err(ServerError::TrustAnchorNotInitialisedError),
        world.run(CaServer.ta_show_child(&handle("child")))
    );
    let mut world = World::with_child();
    let info = world.run(CaServer.ta_show_child(&handle("child"))).unwrap().unwrap();
    assert_eq!(resources("10.0.0.0/16"), info.resources);
    assert_eq!(Ok(None), world.run(CaServer.ta_show_child(&handle("nobody"))));
}

#[test]
fn child_is_updated() {
    let mut world = World::with_child();
    let child = || handle("child");
    world.run(CaServer.ta_update_child(child(), update(None, true))).unwrap();
    assert_eq!(vec!["load ta", "process ta"], world.steps);

    world.run(CaServer.ta_update_child(child(), update(Some("10.2.0.0/16"), false))).unwrap();
    assert_eq!(vec!["load ta", "process ta", "update ta with 1 events"], world.steps);

    world.run(CaServer.ta_update_child(child(), update(Some("10.3.0.0/16"), true))).unwrap();
    assert_eq!(
        vec![
            "load ta",
            "process ta",
            "update ta with 1 events",
            "process ta",
            "update ta with 1 events"
        ],
        world.steps
    );

    let res = world.run(CaServer.ta_update_child(handle("nobody"), update(None, false)));
    assert_eq!(Err(ServerError::CertAuth("unknown child: nobody".to_string())), res);
}

#[test]
fn keys_are_rolled() {
    let mut world = World::with_child();
    let child = || handle("child");
    world.run(CaServer.ca_keyroll_init(child(), Duration::seconds(3600))).unwrap();
    assert_eq!(vec!["load child", "process child"], world.steps);
    world.run(CaServer.ca_keyroll_init(child(), Duration::seconds(0))).unwrap();
    assert_eq!(vec!["load child", "process child", "update child with 1 events"], world.steps);
    world.run(CaServer.ca_keyroll_activate(child(), Duration::seconds(86400))).unwrap();
    assert_eq!(vec!["load child", "process child"], world.steps);
    world.run(CaServer.ca_keyroll_activate(child(), Duration::seconds(0))).unwrap();
    assert_eq!(vec!["load child", "process child", "update child with 1 events"], world.steps);
    assert_eq!(
        Err(ServerError::UnknownCa("nobody".to_string())),
        world.run(CaServer.ca_keyroll_init(handle("nobody"), Duration::seconds(0)))
    );
    let parent = AddParentRequest { handle: ta_handle(), contact: ParentCaContact::Embedded };
    assert_eq!(
        Err(ServerError::UnknownCa("nobody".to_string())),
        world.run(CaServer.ca_add_parent(handle("nobody"), parent))
    );
}

#[test]
fn revocation_is_granted() {
    let mut world = World::with_child();
    world.cas.get_mut(TA_NAME).unwrap().keys.push("old".to_string());
    let res = world.run(CaServer.revoke(
        &ta_handle(),
        handle("child"),
        revocation("old".to_string()),
    ));
    let expected =
        RevocationResponse { class_name: DFLT_CLASS.to_string(), key: "old".to_string() };
    assert_eq!(Ok(expected), res);
    assert!(world.cas[TA_NAME].keys.is_empty());
    assert_eq!(
        Err(ServerError::UnknownCa("nobody".to_string())),
        world.run(CaServer.revoke(
            &handle("nobody"),
            handle("child"),
            revocation("old".to_string())
        ))
    );
}

#[test]
fn revocations_from_an_embedded_parent() {
    let mut world = World::with_child();
    let requests = vec![revocation("a".to_string()), revocation("b".to_string())];
    let responses =
        world.run(CaServer.send_revoke_requests(&handle("child"), &ta_handle(), requests)).unwrap();
    let keys: Vec<&str> = responses.iter().map(|response| response.key.as_str()).collect();
    assert_eq!(vec!["a", "b"], keys);
    assert_eq!(
        vec![
            "load child",
            "contact ta",
            "load ta",
            "process ta",
            "update ta with 1 events",
            "process ta",
            "update ta with 1 events"
        ],
        world.steps
    );
    let res = world.run(CaServer.send_revoke_requests(&handle("child"), &handle("x"), vec![]));
    assert_eq!(Err(ServerError::CertAuth("unknown parent: x".to_string())), res);
}

#[test]
fn requests_go_out_revocations_first() {
    let mut world = World::with_child();
    world.cas.get_mut("child").unwrap().to_revoke.push("old".to_string());
    world.cas.get_mut("child").unwrap().csr_open = true;
    world.run(CaServer.send_requests(&handle("child"), &ta_handle())).unwrap();
    assert_eq!(
        vec![
            "load child",
            "revocations of child",
            "load child",
            "contact ta",
            "load ta",
            "process ta",
            "update ta with 1 events",
            "process child",
            "update child with 1 events",
            "load child",
            "requests of child",
            "contact ta",
            "load ta",
            "process ta",
            "update ta with 1 events",
            "issued to child",
            "process child",
            "update child with 1 events",
        ],
        world.steps
    );
    assert!(world.cas["child"].to_revoke.is_empty());
    assert_eq!(1, world.cas["child"].received);
}

#[test]
fn unchanged_entitlements_send_nothing() {
    let mut world = World::with_child();
    world.run(CaServer.get_updates_from_parent(&handle("child"), &ta_handle())).unwrap();
    assert_eq!(1, world.cas["child"].received);
    world.run(CaServer.get_updates_from_parent(&handle("child"), &ta_handle())).unwrap();
    assert_eq!(
        vec![
            "load child",
            "contact ta",
            "load ta",
            "entitlements of child",
            "load child",
            "process child"
        ],
        world.steps
    );
    assert_eq!(1, world.cas["child"].received);
}

#[test]
fn all_cas_are_updated() {
    let mut world = World::with_child();
    let info = repo_info("rsync://localhost/repo/ca/");
    let token = Token { value: "t".to_string() };
    world.run(CaServer.init_ca(&handle("aaa"), token, info)).unwrap();
    let contact = ParentCaContact::Embedded;
    let parent = AddParentRequest { handle: ta_handle(), contact };
    world.run(CaServer.ca_add_parent(handle("aaa"), parent)).unwrap();
    let info = repo_info("rsync://localhost/repo/ca/");
    let token = Token { value: "t".to_string() };
    world.run(CaServer.init_ca(&handle("bbb"), token, info)).unwrap();
    world.broken.push("bbb".to_string());

    world.run(CaServer.get_updates_for_all_cas()).unwrap();
    assert_eq!(
        vec![
            "list",
            "load aaa",
            "parents of aaa",
            "load aaa",
            "contact ta",
            "load ta",
            "entitlements of aaa",
            "log",
            "load bbb",
            "load child",
            "parents of child"
        ],
        world.steps[..11]
    );
    assert_eq!(vec!["load ta", "parents of ta"], world.steps[world.steps.len() - 2..]);
    assert_eq!(1, world.cas["child"].received);
    let error = ServerError::CertAuth("unknown child: aaa".to_string());
    assert_eq!(vec![format!("{:?}", Incident::Refreshing(handle("aaa"), error))], world.log);
}

#[test]
fn looking_changes_nothing() {
    let mut world = World::with_child();
    let versions = |world: &World| (world.cas[TA_NAME].version, world.cas["child"].version);
    let before = versions(&world);
    world.run(CaServer.get_trust_anchor()).unwrap();
    world.run(CaServer.get_ca(&handle("child"))).unwrap();
    world.run(CaServer.list(&ta_handle(), &handle("child"))).unwrap();
    world.run(CaServer.ta_show_child(&handle("child"))).unwrap();
    world.run(CaServer.cas());
    assert_eq!(before, versions(&world));
    assert_eq!(
        Err(ServerError::CertAuth("unknown child: nobody".to_string())),
        world.run(CaServer.list(&ta_handle(), &handle("nobody")))
    );
}

#[test]
fn only_the_default_class_is_issued() {
    let ta = || CertAuth {
        handle: ta_handle(),
        version: 0,
        id_cert: IdCert { encoded: String::new() },
        id_key: KeyId { id: String::new() },
    };
    let mut request = issuance("key");
    let operation = CaServer.issue(&ta_handle(), &handle("child"), issuance("key"));
    assert!(operation.admits(&Reply::Ca(Ok(ta()))));
    request.class_name = "other".to_string();
    let operation = CaServer.issue(&ta_handle(), &handle("child"), request);
    assert!(!operation.admits(&Reply::Ca(Ok(ta()))));
    assert!(operation.admits(&Reply::Ca(Err("gone".to_string()))));
    match operation.resume(Reply::Ca(Err("gone".to_string()))) {
        Flow::Done(res) => {
            assert_eq!(Err(ServerError::TrustAnchorNotInitialisedError), res)
        }
        Flow::Pending(_) => panic!("expected an error"),
    }
}

#[test]
fn failures_of_the_store_and_of_cas_are_reported() {
    let create = || {
        CaServer.init_ca(
            &handle("child"),
            Token { value: "t".to_string() },
            repo_info("rsync://localhost/repo/ca/"),
        )
    };
    let made = |operation: ca_server::store::Create| match operation.resume(Reply::Has(false)) {
        Flow::Pending(next) => next,
        Flow::Done(_) => panic!("not done yet"),
    };
    match made(create()).resume(Reply::Init(Err("no key".to_string()))) {
        Flow::Done(res) => assert_eq!(Err(ServerError::CertAuth("no key".to_string())), res),
        Flow::Pending(_) => panic!("expected an error"),
    }
    let init = CaInit { handle: handle("child"), details: "first".to_string() };
    match made(create()).resume(Reply::Init(Ok(init))) {
        Flow::Pending(next) => match next.resume(Reply::Added(Err("disk full".to_string()))) {
            Flow::Done(res) => assert_eq!(
                Err(ServerError::AggregateStoreError("disk full".to_string())),
                res
            ),
            Flow::Pending(_) => panic!("expected an error"),
        },
        Flow::Done(_) => panic!("not done yet"),
    }
}
