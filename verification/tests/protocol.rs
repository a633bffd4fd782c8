//! Messages between parents and children.
use bytes::Bytes;
use ca_server::dialogue::{Reply, Request};
use ca_server::error::{Incident, ServerError, ServerResult};
use ca_server::messages::{
    Content, Csr, Entitlements, IssuanceRequest, IssuanceResponse, IssuedCert, Message,
    NotPerformedResponse, ParentResponse, PublicKey, Qry, Res, ResourceLimit, RevocationRequest,
    RevocationResponse, ServiceUri, SignedMessage, SigningCert,
};
use ca_server::operation::{Flow, Operation};
use ca_server::server::CaServer;
use ca_server::types::{
    ta_handle, CaEvent, CertAuth, Command, Handle, IdCert, KeyId, ParentCaContact, ResourceSet,
};
use ca_server::uri::HttpsUri;
use rpki::uri::Rsync;
use std::str::FromStr;

fn handle(name: &str) -> Handle {
    Handle { name: name.to_string() }
}

fn ca(name: &str, version: u64) -> CertAuth {
    CertAuth {
        handle: handle(name),
        version,
        id_cert: IdCert { encoded: format!("cert of {}", name) },
        id_key: KeyId { id: format!("key of {}", name) },
    }
}

fn loaded(name: &str, version: u64) -> Reply {
    Reply::Ca(Ok(ca(name, version)))
}

fn event(details: &str) -> CaEvent {
    CaEvent { version: 0, details: details.to_string() }
}

fn events() -> Reply {
    Reply::Events(Ok(vec![event("changed")]))
}

fn signed() -> SignedMessage {
    SignedMessage { encoded: Bytes::from("signed") }
}

fn revocation(key: &str) -> RevocationRequest {
    RevocationRequest { class_name: "all".to_string(), key: key.to_string() }
}

fn granted(key: &str) -> RevocationResponse {
    RevocationResponse { class_name: "all".to_string(), key: key.to_string() }
}

fn no_resources() -> ResourceSet {
    ResourceSet { asn: String::new(), v4: String::new(), v6: String::new() }
}

fn issuance(class_name: &str) -> IssuanceRequest {
    IssuanceRequest {
        class_name: class_name.to_string(),
        limit: ResourceLimit { asn: None, v4: None, v6: None },
        csr: Csr {
            public_key: PublicKey { spki: "spki".to_string() },
            encoded: Bytes::from("csr"),
        },
    }
}

fn issued(class_name: &str) -> IssuanceResponse {
    IssuanceResponse {
        class_name: class_name.to_string(),
        issuer: SigningCert {
            uri: Rsync::from_str("rsync://localhost/repo/ta.cer").unwrap(),
            cert: Bytes::from("ta cert"),
        },
        resources: no_resources(),
        issued: IssuedCert {
            uri: Rsync::from_str("rsync://localhost/repo/ta/child.cer").unwrap(),
            limit: ResourceLimit { asn: None, v4: None, v6: None },
            resources: no_resources(),
            cert: Bytes::from("child cert"),
        },
    }
}

fn query(content: Content) -> Message {
    Message { sender: "child".to_string(), recipient: "ta".to_string(), content }
}

fn verified(content: Content) -> Reply {
    Reply::Verified(Ok(query(content)))
}

fn contact() -> ParentResponse {
    ParentResponse {
        tag: None,
        id_cert: IdCert { encoded: "cert of parent".to_string() },
        parent_handle: handle("their parent"),
        child_handle: handle("their child"),
        service_uri: ServiceUri::Https(
            HttpsUri::from_string("https://localhost/rfc6492/parent".to_string()).unwrap(),
        ),
    }
}

fn remote() -> Reply {
    Reply::Contact(Ok(ParentCaContact::Rfc6492(contact())))
}

fn none() -> String {
    "no".to_string()
}

fn describe(request: Request<'_>) -> String {
    match request {
        Request::Latest(ca) => format!("load {}", ca.name),
        Request::Process(ca, command) => match command {
            Command::ChildCertify { ca: target, child, req } => {
                format!("certify {} {} {} {}", ca.version, target.name, child.name, req.class_name)
            }
            Command::ChildRevokeKey { ca: target, child, req } => {
                format!("revoke {} {} {} {}", ca.version, target.name, child.name, req.key)
            }
            Command::KeyRollFinish { ca: target, parent, response } => {
                format!("finish {} {} {} {}", ca.version, target.name, parent.name, response.key)
            }
            Command::UpdateRcvdCert { ca: target, parent, class_name, received } => {
                assert_eq!(Bytes::from("child cert"), received.cert);
                format!("receive {} {} {} {}", ca.version, target.name, parent.name, class_name)
            }
            Command::UpdateEntitlements { ca: target, parent, .. } => {
                format!("entitled {} {} {}", ca.version, target.name, parent.name)
            }
            _ => panic!("no such command here"),
        },
        Request::Update(ca, state, events) => {
            format!("update {} {} {}", ca.name, state.version, events.len())
        }
        Request::Entitlements(_, child) => format!("entitlements of {}", child.name),
        Request::Issuance(ca, child, class_name, key) => {
            format!("issued {} {} {} {}", ca.version, child.name, class_name, key.spki)
        }
        Request::Contact(_, parent) => format!("contact {}", parent.name),
        Request::Revocations(ca, parent) => {
            format!("revocations {} {}", ca.handle.name, parent.name)
        }
        Request::CertRequests(ca, parent) => format!("requests {} {}", ca.handle.name, parent.name),
        Request::Verify(ca, _) => format!("verify for {}", ca.handle.name),
        Request::SignResponse(ca, msg) => {
            let kind = match &msg.content {
                Content::Res(Res::List(_)) => "list",
                Content::Res(Res::Issue(_)) => "issue",
                Content::Res(Res::Revoke(response)) => {
                    assert_eq!(&granted("k"), response);
                    "revoke"
                }
                _ => panic!("not an answer"),
            };
            format!("sign {} {} {} {}", ca.version, msg.sender, msg.recipient, kind)
        }
        Request::Sign(key, msg) => {
            let kind = match &msg.content {
                Content::Qry(Qry::List) => "list".to_string(),
                Content::Qry(Qry::Issue(req)) => format!("issue {}", req.class_name),
                Content::Qry(Qry::Revoke(req)) => format!("revoke {}", req.key),
                Content::Res(_) => panic!("not a query"),
            };
            format!("sign with {}, {} to {}: {}", key.id, msg.sender, msg.recipient, kind)
        }
        Request::Post(uri, content_type, body) => {
            format!("post {} {} {}", uri, content_type, String::from_utf8(body.to_vec()).unwrap())
        }
        Request::Decode(body, strict) => {
            format!("decode {} {}", String::from_utf8(body.to_vec()).unwrap(), strict)
        }
        Request::Validate(_, id_cert) => format!("validate under {}", id_cert.encoded),
        Request::Open(_) => "open".to_string(),
        Request::Log(incident) => format!("log {:?}", incident),
        _ => panic!("no such request here"),
    }
}

/// Runs an operation to its end with these replies.
fn run<O: Operation>(operation: O, replies: Vec<Reply>) -> (Vec<String>, O::Output) {
    let mut requests = vec![];
    let mut flow = Flow::Pending(operation);
    for reply in replies {
        flow = match flow {
            Flow::Pending(operation) => {
                requests.push(describe(operation.request()));
                assert!(operation.admits(&reply));
                operation.resume(reply)
            }
            Flow::Done(_) => panic!("done too early"),
        };
    }
    match flow {
        Flow::Done(output) => (requests, output),
        Flow::Pending(operation) => panic!("still waits: {}", describe(operation.request())),
    }
}

/// Runs an operation up to the request after these replies.
fn run_to<O: Operation>(operation: O, replies: Vec<Reply>) -> O {
    let mut operation = operation;
    for reply in replies {
        assert!(operation.admits(&reply));
        operation = match operation.resume(reply) {
            Flow::Pending(next) => next,
            Flow::Done(_) => panic!("done too early"),
        };
    }
    operation
}

/// The replies of an exchange that goes well.
fn answer(res: Res) -> Vec<Reply> {
    vec![
        Reply::Signed(Ok(Bytes::from("query"))),
        Reply::Posted(Ok(Bytes::from("hi there"))),
        Reply::Decoded(Ok(signed())),
        Reply::Validated(Ok(())),
        Reply::Opened(Ok(res)),
    ]
}

fn list_from_remote(replies: Vec<Reply>) -> (Vec<String>, ServerResult<()>) {
    let mut all = vec![loaded("ca", 1), remote(), loaded("ca", 1)];
    all.extend(replies);
    run(CaServer.get_updates_from_parent(&handle("ca"), &handle("parent")), all)
}

fn custom(text: &str) -> ServerError {
    ServerError::Custom(text.to_string())
}

#[test]
fn unverified_message_is_refused() {
    let replies = vec![loaded("ta", 0), Reply::Verified(Err("bad signature".to_string()))];
    let (requests, res) = run(CaServer.rfc6492(&ta_handle(), signed()), replies);
    assert_eq!(Err(ServerError::CertAuth("bad signature".to_string())), res);
    assert_eq!(vec!["load ta", "verify for ta"], requests);

    let replies = vec![Reply::Ca(Err("gone".to_string()))];
    let (_, res) = run(CaServer.rfc6492(&ta_handle(), signed()), replies);
    assert_eq!(Err(ServerError::AggregateStoreError("gone".to_string())), res);
}

#[test]
fn list_query_is_answered() {
    let replies = vec![
        loaded("ta", 0),
        verified(Content::Qry(Qry::List)),
        loaded("ta", 0),
        Reply::Entitlements(Ok(Entitlements { classes: vec![] })),
        loaded("ta", 0),
        Reply::Signed(Ok(Bytes::from("answer"))),
    ];
    let (requests, res) = run(CaServer.rfc6492(&ta_handle(), signed()), replies);
    assert_eq!(Ok(Bytes::from("answer")), res);
    assert_eq!(
        vec![
            "load ta",
            "verify for ta",
            "load ta",
            "entitlements of child",
            "load ta",
            "sign 0 child ta list"
        ],
        requests
    );
}

#[test]
fn issue_query_is_answered() {
    let replies = vec![
        loaded("ta", 0),
        verified(Content::Qry(Qry::Issue(issuance("all")))),
        loaded("ta", 0),
        events(),
        loaded("ta", 1),
        Reply::Issuance(Ok(issued("all"))),
        loaded("ta", 1),
        Reply::Signed(Ok(Bytes::from("answer"))),
    ];
    let (requests, res) = run(CaServer.rfc6492(&ta_handle(), signed()), replies);
    assert_eq!(Ok(Bytes::from("answer")), res);
    assert_eq!(
        vec![
            "load ta",
            "verify for ta",
            "load ta",
            "certify 0 ta child all",
            "update ta 0 1",
            "issued 1 child all spki",
            "load ta",
            "sign 1 child ta issue"
        ],
        requests
    );
}

#[test]
fn revoke_query_is_answered_by_any_ca() {
    let replies = vec![
        loaded("ca", 0),
        verified(Content::Qry(Qry::Revoke(revocation("k")))),
        loaded("ca", 0),
        events(),
        loaded("ca", 1),
        loaded("ca", 1),
        Reply::Signed(Err("no key".to_string())),
    ];
    let (requests, res) = run(CaServer.rfc6492(&handle("ca"), signed()), replies);
    assert_eq!(Err(ServerError::CertAuth("no key".to_string())), res);
    assert_eq!(
        vec![
            "load ca",
            "verify for ca",
            "load ca",
            "revoke 0 ca child k",
            "update ca 0 1",
            "load ca",
            "sign 1 child ta revoke"
        ],
        requests
    );
}

#[test]
fn answers_are_not_answered() {
    let replies = vec![loaded("ta", 0), verified(Content::Res(Res::Revoke(granted("k"))))];
    let (_, res) = run(CaServer.rfc6492(&ta_handle(), signed()), replies);
    assert_eq!(Err(custom("Unsupported RFC6492 message")), res);
}

#[test]
fn only_the_trust_anchor_lists_and_issues() {
    let operation = run_to(CaServer.rfc6492(&handle("ca"), signed()), vec![loaded("ca", 0)]);
    assert!(!operation.admits(&verified(Content::Qry(Qry::List))));
    assert!(!operation.admits(&verified(Content::Qry(Qry::Issue(issuance("all"))))));
    assert!(operation.admits(&verified(Content::Qry(Qry::Revoke(revocation("k"))))));

    let operation = run_to(
        CaServer.rfc6492(&ta_handle(), signed()),
        vec![loaded("ta", 0), verified(Content::Qry(Qry::Issue(issuance("other"))))],
    );
    assert!(!operation.admits(&loaded("ta", 0)));
}

#[test]
fn replies_of_another_kind_are_not_admitted() {
    let operation = CaServer.rfc6492(&ta_handle(), signed());
    assert!(!operation.admits(&Reply::Logged));
    assert!(!operation.admits(&Reply::Has(true)));
    assert!(operation.admits(&Reply::Ca(Err(none()))));
}

#[test]
fn entitlements_from_a_remote_parent() {
    let mut replies = answer(Res::List(Entitlements { classes: vec![] }));
    replies.push(loaded("ca", 1));
    replies.push(Reply::Events(Ok(vec![])));
    let (requests, res) = list_from_remote(replies);
    assert_eq!(Ok(()), res);
    assert_eq!(
        vec![
            "load ca",
            "contact parent",
            "load ca",
            "sign with key of ca, their child to their parent: list",
            "post https://localhost/rfc6492/parent application/rpki-updown query",
            "decode hi there false",
            "validate under cert of parent",
            "open",
            "load ca",
            "entitled 1 ca parent"
        ],
        requests
    );
}

#[test]
fn refused_list_query() {
    let refusal = NotPerformedResponse { text: "1101: no".to_string() };
    let (_, res) = list_from_remote(answer(Res::NotPerformed(refusal)));
    assert_eq!(Err(custom("Not performed: 1101: no")), res);
    let (_, res) = list_from_remote(answer(Res::Revoke(granted("k"))));
    assert_eq!(Err(custom("Got unexpected response to list query")), res);
    let (_, res) = list_from_remote(answer(Res::Issue(issued("all"))));
    assert_eq!(Err(custom("Got unexpected response to list query")), res);
}

#[test]
fn failed_exchanges() {
    let (_, res) = list_from_remote(vec![Reply::Signed(Err("no key".to_string()))]);
    assert_eq!(Err(custom("no key")), res);

    let signed_query = || Reply::Signed(Ok(Bytes::from("query")));
    let posted = || Reply::Posted(Ok(Bytes::from("hi there")));
    let (_, res) =
        list_from_remote(vec![signed_query(), Reply::Posted(Err("no route".to_string()))]);
    assert_eq!(Err(ServerError::HttpClientError("no route".to_string())), res);

    let (requests, res) = list_from_remote(vec![
        signed_query(),
        posted(),
        Reply::Decoded(Err("not DER".to_string())),
        Reply::Logged,
    ]);
    assert_eq!(Err(custom("not DER")), res);
    let logged = Incident::UnparsableResponse("aGkgdGhlcmU=".to_string());
    assert_eq!(Some(&format!("log {:?}", logged)), requests.last());

    let (requests, res) = list_from_remote(vec![
        signed_query(),
        posted(),
        Reply::Decoded(Ok(signed())),
        Reply::Validated(Err("wrong key".to_string())),
        Reply::Logged,
    ]);
    assert_eq!(Err(custom("wrong key")), res);
    let logged = Incident::InvalidResponse("aGkgdGhlcmU=".to_string());
    assert_eq!(Some(&format!("log {:?}", logged)), requests.last());

    let (_, res) = list_from_remote(vec![
        signed_query(),
        posted(),
        Reply::Decoded(Ok(signed())),
        Reply::Validated(Ok(())),
        Reply::Opened(Err("a query".to_string())),
    ]);
    assert_eq!(Err(custom("a query")), res);
}

#[test]
fn unparsable_answers_are_logged_in_base64() {
    let cases: Vec<(&[u8], &str)> = vec![
        (b"", ""),
        (b"f", "Zg=="),
        (b"fo", "Zm8="),
        (b"foo", "Zm9v"),
        (b"foobar", "Zm9vYmFy"),
        (b"\xfb\xff\xbf\x00", "+/+/AA=="),
    ];
    for (body, text) in cases {
        let replies = vec![
            loaded("ca", 1),
            remote(),
            loaded("ca", 1),
            Reply::Signed(Ok(Bytes::from("query"))),
            Reply::Posted(Ok(Bytes::from(body))),
            Reply::Decoded(Err("not DER".to_string())),
        ];
        let operation = CaServer.get_updates_from_parent(&handle("ca"), &handle("parent"));
        let operation = run_to(operation, replies);
        let logged = Incident::UnparsableResponse(text.to_string());
        assert_eq!(format!("log {:?}", logged), describe(operation.request()));
    }
}

#[test]
fn entitlements_without_ca_or_parent() {
    let operation = CaServer.get_updates_from_parent(&handle("ca"), &handle("parent"));
    let (_, res) = run(operation, vec![Reply::Ca(Err(none()))]);
    assert_eq!(Err(ServerError::UnknownCa("ca".to_string())), res);
    let operation = CaServer.get_updates_from_parent(&handle("ca"), &handle("parent"));
    let (_, res) = run(operation, vec![loaded("ca", 0), Reply::Contact(Err(none()))]);
    assert_eq!(Err(ServerError::CertAuth(none())), res);
    let (_, res) = list_from_remote_with_lost_ca();
    assert_eq!(Err(ServerError::AggregateStoreError(none())), res);
}

fn list_from_remote_with_lost_ca() -> (Vec<String>, ServerResult<()>) {
    run(
        CaServer.get_updates_from_parent(&handle("ca"), &handle("parent")),
        vec![loaded("ca", 0), remote(), Reply::Ca(Err(none()))],
    )
}

#[test]
fn remote_revocations_never_fail() {
    let keys = ["a", "b", "c", "d", "e"];
    let requests: Vec<RevocationRequest> = keys.iter().map(|key| revocation(key)).collect();
    let mut replies = vec![loaded("ca", 1), remote()];
    let refusal = NotPerformedResponse { text: "no".to_string() };
    replies.extend(answer(Res::Revoke(granted("a"))));
    replies.extend(answer(Res::NotPerformed(refusal)));
    replies.push(Reply::Logged);
    replies.extend(answer(Res::List(Entitlements { classes: vec![] })));
    replies.push(Reply::Logged);
    replies.extend(answer(Res::Issue(issued("all"))));
    replies.push(Reply::Logged);
    replies.push(Reply::Signed(Err("no key".to_string())));
    replies.push(Reply::Logged);
    let operation = CaServer.send_revoke_requests(&handle("ca"), &handle("parent"), requests);
    let (steps, res) = run(operation, replies);
    assert_eq!(Ok(vec![granted("a")]), res);
    assert_eq!("sign with key of ca, their child to their parent: revoke e", steps[steps.len() - 2]);
    let logged: Vec<String> =
        steps.into_iter().filter(|step| step.starts_with("log")).collect();
    let refusal = NotPerformedResponse { text: "no".to_string() };
    assert_eq!(
        vec![
            format!("log {:?}", Incident::NotPerformed(refusal)),
            format!("log {:?}", Incident::ListForRevoke),
            format!("log {:?}", Incident::IssueForRevoke),
            format!("log {:?}", Incident::SendingRevoke(custom("no key"))),
        ],
        logged
    );
}

#[test]
fn remote_certificates_are_received() {
    let mut replies = vec![
        loaded("ca", 1),
        Reply::Revocations(vec![revocation("old")]),
        loaded("ca", 1),
        remote(),
    ];
    replies.extend(answer(Res::Revoke(granted("old"))));
    replies.extend(vec![events(), loaded("ca", 2), loaded("ca", 2)]);
    replies.push(Reply::CertRequests(vec![
        issuance("all"),
        issuance("two"),
        issuance("three"),
        issuance("four"),
        issuance("five"),
    ]));
    replies.push(remote());
    replies.push(Reply::Signed(Err("no key".to_string())));
    replies.push(Reply::Logged);
    let refusal = NotPerformedResponse { text: "no".to_string() };
    replies.extend(answer(Res::NotPerformed(refusal)));
    replies.push(Reply::Logged);
    replies.extend(answer(Res::List(Entitlements { classes: vec![] })));
    replies.push(Reply::Logged);
    replies.extend(answer(Res::Revoke(granted("k"))));
    replies.push(Reply::Logged);
    replies.extend(answer(Res::Issue(issued("their class"))));
    replies.extend(vec![events(), loaded("ca", 3)]);
    let (steps, res) = run(CaServer.send_requests(&handle("ca"), &handle("parent")), replies);
    assert_eq!(Ok(()), res);
    let told: Vec<&str> = steps
        .iter()
        .map(|step| step.as_str())
        .filter(|step| !step.starts_with("post") && !step.starts_with("decode"))
        .filter(|step| !step.starts_with("validate") && !step.starts_with("open"))
        .collect();
    let sending = format!("log {:?}", Incident::SendingCsr(custom("no key")));
    let refusal = NotPerformedResponse { text: "no".to_string() };
    let refused = format!("log {:?}", Incident::NotPerformed(refusal));
    assert_eq!(
        vec![
            "load ca",
            "revocations ca parent",
            "load ca",
            "contact parent",
            "sign with key of ca, their child to their parent: revoke old",
            "finish 1 ca parent old",
            "update ca 1 1",
            "load ca",
            "requests ca parent",
            "contact parent",
            "sign with key of ca, their child to their parent: issue all",
            sending.as_str(),
            "sign with key of ca, their child to their parent: issue two",
            refused.as_str(),
            "sign with key of ca, their child to their parent: issue three",
            "log ListForIssue",
            "sign with key of ca, their child to their parent: issue four",
            "log RevokeForIssue",
            "sign with key of ca, their child to their parent: issue five",
            "receive 2 ca parent their class",
            "update ca 2 1",
        ],
        told
    );
}

#[test]
fn failed_revocations_stop_the_requests() {
    let replies = vec![
        loaded("ca", 1),
        Reply::Revocations(vec![revocation("a"), revocation("b")]),
        loaded("ca", 1),
        Reply::Contact(Ok(ParentCaContact::Embedded)),
        loaded("parent", 5),
        events(),
        loaded("parent", 6),
        Reply::Events(Err("unknown key".to_string())),
    ];
    let (steps, res) = run(CaServer.send_requests(&handle("ca"), &handle("parent")), replies);
    assert_eq!(Err(ServerError::CertAuth("unknown key".to_string())), res);
    assert_eq!("revoke 6 parent ca b", steps.last().unwrap());
}

#[test]
fn failed_updates_are_reported() {
    let replies = vec![
        loaded("ta", 0),
        verified(Content::Qry(Qry::Issue(issuance("all")))),
        loaded("ta", 0),
        events(),
        Reply::Ca(Err("disk full".to_string())),
    ];
    let (_, res) = run(CaServer.rfc6492(&ta_handle(), signed()), replies);
    assert_eq!(Err(ServerError::AggregateStoreError("disk full".to_string())), res);
}
