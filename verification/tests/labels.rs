use prometheus_metrics::event::{Request, Response, Uri, UriError};
use prometheus_metrics::labels::{
    LabelSet, OutboundLabels, PodOwner, RequestLabels, ResponseLabels,
};

fn request(outbound: bool, uri: &str) -> Request {
    Request { outbound, uri: Uri::parse(uri).unwrap() }
}

fn text<L: LabelSet>(labels: &L) -> String {
    let mut f = String::new();
    labels.fmt(&mut f);
    f
}

fn outbound_text(labels: &OutboundLabels) -> String {
    let mut f = String::new();
    labels.fmt(&mut f);
    f
}

#[test]
fn authority_of_an_absolute_uri() {
    let uri = Uri::parse("http://user@example.org:80/hello/world?a=b").unwrap();
    assert_eq!(uri.authority_part(), Some("user@example.org:80".to_string()));
}

#[test]
fn authority_of_an_authority() {
    let uri = Uri::parse("example.org:443").unwrap();
    assert_eq!(uri.authority_part(), Some("example.org:443".to_string()));
}

#[test]
fn authority_that_is_a_star() {
    let uri = Uri::parse("http://*/").unwrap();
    assert_eq!(uri.authority_part(), Some("*".to_string()));
}

#[test]
fn no_authority_in_a_relative_uri() {
    let uri = Uri::parse("/hello/world").unwrap();
    assert_eq!(uri.authority_part(), None);
    let uri = Uri::parse("*").unwrap();
    assert_eq!(uri.authority_part(), None);
}

#[test]
fn what_is_not_a_uri_is_refused() {
    assert_eq!(Uri::parse("").unwrap_err(), UriError);
    assert_eq!(Uri::parse("http://").unwrap_err(), UriError);
    assert_eq!(Uri::parse("hello world").unwrap_err(), UriError);
}

#[test]
fn request_labels_of_an_inbound_request() {
    let labels = RequestLabels::new(&request(false, "http://example.org/x"));
    assert_eq!(
        labels,
        RequestLabels { outbound_labels: None, authority: "example.org".to_string() }
    );
    assert_eq!(text(&labels), "authority=\"example.org\",direction=\"inbound\"");
}

#[test]
fn request_labels_of_an_outbound_request() {
    let labels = RequestLabels::new(&request(true, "http://example.org/x"));
    assert_eq!(
        labels,
        RequestLabels {
            outbound_labels: Some(OutboundLabels { dst: None, namespace: None }),
            authority: "example.org".to_string(),
        }
    );
    assert_eq!(text(&labels), "authority=\"example.org\",direction=\"outbound\"");
}

#[test]
fn request_without_authority_has_an_empty_one() {
    let labels = RequestLabels::new(&request(false, "/x"));
    assert_eq!(labels.authority, "");
    assert_eq!(text(&labels), "authority=\"\",direction=\"inbound\"");
}

#[test]
fn destination_follows_the_direction() {
    let labels = RequestLabels {
        outbound_labels: Some(OutboundLabels {
            dst: Some(PodOwner::Deployment("web".to_string())),
            namespace: Some("prod".to_string()),
        }),
        authority: "a".to_string(),
    };
    assert_eq!(
        text(&labels),
        "authority=\"a\",direction=\"outbound\",dst_namespace=\"prod\",dst_deployment=\"web\""
    );
}

#[test]
fn destination_labels() {
    let dst = || Some(PodOwner::ReplicaSet("rs".to_string()));
    let namespace = || Some("ns".to_string());
    let both = OutboundLabels { dst: dst(), namespace: namespace() };
    assert_eq!(outbound_text(&both), "dst_namespace=\"ns\",dst_replica_set=\"rs\"");
    let only_dst = OutboundLabels { dst: dst(), namespace: None };
    assert_eq!(outbound_text(&only_dst), "dst_replica_set=\"rs\"");
    let only_namespace = OutboundLabels { dst: None, namespace: namespace() };
    assert_eq!(outbound_text(&only_namespace), "dst_namespace=\"ns\"");
    assert_eq!(outbound_text(&OutboundLabels::default()), "");
}

#[test]
fn only_the_default_destination_is_empty() {
    assert!(OutboundLabels::default().is_empty());
    assert!(!OutboundLabels { dst: None, namespace: Some(String::new()) }.is_empty());
    assert!(!OutboundLabels { dst: Some(PodOwner::Job(String::new())), namespace: None }
        .is_empty());
}

#[test]
fn pod_owners() {
    let text = |owner: PodOwner| {
        let mut f = "dst_".to_string();
        owner.fmt(&mut f);
        f
    };
    assert_eq!(text(PodOwner::Deployment("a".to_string())), "dst_deployment=\"a\"");
    assert_eq!(text(PodOwner::Job("b".to_string())), "dst_job=\"b\",");
    assert_eq!(text(PodOwner::ReplicaSet("c".to_string())), "dst_replica_set=\"c\"");
    assert_eq!(
        text(PodOwner::ReplicationController("d".to_string())),
        "dst_replication_controller=\"d\""
    );
}

#[test]
fn response_labels() {
    let response = Response { request: request(false, "http://example.org/"), status: 404 };
    let labels = ResponseLabels::new(&response, None);
    assert_eq!(
        text(&labels),
        "authority=\"example.org\",direction=\"inbound\",status_code=\"404\""
    );
    let labels = ResponseLabels::new(&response, Some(4294967295));
    assert_eq!(
        text(&labels),
        "authority=\"example.org\",direction=\"inbound\",status_code=\"404\"\
         grpc_status_code=\"4294967295\""
    );
}

#[test]
fn keys_tell_labels_apart() {
    let owner = |dst| RequestLabels {
        outbound_labels: Some(OutboundLabels { dst, namespace: None }),
        authority: "a".to_string(),
    };
    let deployment = owner(Some(PodOwner::Deployment("x".to_string())));
    let job = owner(Some(PodOwner::Job("x".to_string())));
    let none = owner(None);
    assert_ne!(deployment.to_key(), job.to_key());
    assert_ne!(deployment.to_key(), none.to_key());
    assert_eq!(job.to_key(), owner(Some(PodOwner::Job("x".to_string()))).to_key());
    let response = ResponseLabels {
        request_labels: none.clone(),
        status_code: 200,
        grpc_status_code: None,
    };
    let grpc = ResponseLabels {
        request_labels: none.clone(),
        status_code: 200,
        grpc_status_code: Some(0),
    };
    assert_ne!(response.to_key(), none.to_key());
    assert_ne!(response.to_key(), grpc.to_key());
}
