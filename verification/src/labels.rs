//! The labels under which a value is kept, and the text that they print as.
use crate::event::{text_view, Request, Response};
use crate::index::{LabelKey, LabelKeyView};
use crate::text::{decimal, fmt_decimal};
use vstd::prelude::*;

verus! {

/// The owner of the pod to which a request is sent.
#[derive(Clone, Debug, PartialEq, Eq, Hash)]
pub enum PodOwner {
    /// The deployment to which this request is being sent.
    Deployment(String),
    /// The job to which this request is being sent.
    Job(String),
    /// The replica set to which this request is being sent.
    ReplicaSet(String),
    /// The replication controller to which this request is being sent.
    ReplicationController(String),
}

/// The value of a `PodOwner`.
pub enum PodOwnerView {
    Deployment(Seq<char>),
    Job(Seq<char>),
    ReplicaSet(Seq<char>),
    ReplicationController(Seq<char>),
}

impl View for PodOwner {
    type V = PodOwnerView;

    open spec fn view(&self) -> PodOwnerView {
        match self {
            PodOwner::Deployment(s) => PodOwnerView::Deployment(s@),
            PodOwner::Job(s) => PodOwnerView::Job(s@),
            PodOwner::ReplicaSet(s) => PodOwnerView::ReplicaSet(s@),
            PodOwner::ReplicationController(s) => PodOwnerView::ReplicationController(s@),
        }
    }
}

impl PodOwnerView {
    /// The text of the owner label. A job's text ends with a comma.
    pub open spec fn text(self) -> Seq<char> {
        match self {
            PodOwnerView::Deployment(s) => "deployment=\""@ + s + "\""@,
            PodOwnerView::Job(s) => "job=\""@ + s + "\","@,
            PodOwnerView::ReplicaSet(s) => "replica_set=\""@ + s + "\""@,
            PodOwnerView::ReplicationController(s) => "replication_controller=\""@ + s + "\""@,
        }
    }
}

impl PodOwner {
    /// Appends the owner label.
    pub fn fmt(&self, f: &mut String)
        ensures
            final(f)@ == old(f)@ + self@.text(),
            *self matches PodOwner::Deployment(s) ==> final(f)@ == old(f)@ + "deployment=\""@ + s@
                + "\""@,
            *self matches PodOwner::Job(s) ==> final(f)@ == old(f)@ + "job=\""@ + s@ + "\","@,
            *self matches PodOwner::ReplicaSet(s) ==> final(f)@ == old(f)@ + "replica_set=\""@ + s@
                + "\""@,
            *self matches PodOwner::ReplicationController(s) ==> final(f)@ == old(f)@
                + "replication_controller=\""@ + s@ + "\""@,
    {
        match self {
            PodOwner::Deployment(s) => {
                f.append("deployment=\"");
                f.append(s.as_str());
                f.append("\"");
            },
            PodOwner::Job(s) => {
                f.append("job=\"");
                f.append(s.as_str());
                f.append("\",");
            },
            PodOwner::ReplicaSet(s) => {
                f.append("replica_set=\"");
                f.append(s.as_str());
                f.append("\"");
            },
            PodOwner::ReplicationController(s) => {
                f.append("replication_controller=\"");
                f.append(s.as_str());
                f.append("\"");
            },
        }
        assert(f@ =~= old(f)@ + self@.text());
    }
}

impl PodOwnerView {
    /// The owner's kind and name.
    pub open spec fn key(self) -> (u8, Seq<char>) {
        match self {
            PodOwnerView::Deployment(s) => (0, s),
            PodOwnerView::Job(s) => (1, s),
            PodOwnerView::ReplicaSet(s) => (2, s),
            PodOwnerView::ReplicationController(s) => (3, s),
        }
    }
}

impl PodOwner {
    /// The owner's kind and name.
    fn to_key(&self) -> (key: (u8, String))
        ensures
            key.deep_view() == self@.key(),
    {
        match self {
            PodOwner::Deployment(s) => (0, s.clone()),
            PodOwner::Job(s) => (1, s.clone()),
            PodOwner::ReplicaSet(s) => (2, s.clone()),
            PodOwner::ReplicationController(s) => (3, s.clone()),
        }
    }
}

/// Labels on the destination of an outbound request.
#[derive(Clone, Debug, PartialEq, Eq, Hash)]
pub struct OutboundLabels {
    /// The owner of the destination pod.
    pub dst: Option<PodOwner>,
    /// The namespace to which this request is being sent (if applicable).
    pub namespace: Option<String>,
}

/// The value of `OutboundLabels`.
pub struct OutboundLabelsView {
    pub dst: Option<PodOwnerView>,
    pub namespace: Option<Seq<char>>,
}

impl View for OutboundLabels {
    type V = OutboundLabelsView;

    open spec fn view(&self) -> OutboundLabelsView {
        OutboundLabelsView {
            dst: match self.dst {
                Some(dst) => Some(dst@),
                None => None,
            },
            namespace: text_view(self.namespace),
        }
    }
}

impl OutboundLabelsView {
    /// Whether nothing is known of the destination.
    pub open spec fn is_empty(self) -> bool {
        self.namespace is None && self.dst is None
    }

    /// The text of the destination's labels.
    pub open spec fn text(self) -> Seq<char> {
        match (self.namespace, self.dst) {
            (Some(ns), Some(dst)) => "dst_namespace=\""@ + ns + "\",dst_"@ + dst.text(),
            (None, Some(dst)) => "dst_"@ + dst.text(),
            (Some(ns), None) => "dst_namespace=\""@ + ns + "\""@,
            (None, None) => Seq::empty(),
        }
    }

    /// The owner and the namespace.
    pub open spec fn key(self) -> (Option<(u8, Seq<char>)>, Option<Seq<char>>) {
        (
            match self.dst {
                Some(dst) => Some(dst.key()),
                None => None,
            },
            self.namespace,
        )
    }
}

impl Default for OutboundLabels {
    fn default() -> (labels: Self)
        ensures
            labels@ == (OutboundLabelsView { dst: None, namespace: None }),
            labels.dst is None,
            labels.namespace is None,
    {
        OutboundLabels { dst: None, namespace: None }
    }
}

impl OutboundLabels {
    /// Whether nothing is known of the destination.
    pub fn is_empty(&self) -> (empty: bool)
        ensures
            empty == self@.is_empty(),
            empty <==> self.namespace is None && self.dst is None,
    {
        self.namespace.is_none() && self.dst.is_none()
    }

    /// Appends the destination's labels.
    pub fn fmt(&self, f: &mut String)
        ensures
            final(f)@ == old(f)@ + self@.text(),
            match (self.namespace, self.dst) {
                (Some(ns), Some(dst)) => final(f)@ == old(f)@ + "dst_namespace=\""@ + ns@
                    + "\",dst_"@ + dst@.text(),
                (None, Some(dst)) => final(f)@ == old(f)@ + "dst_"@ + dst@.text(),
                (Some(ns), None) => final(f)@ == old(f)@ + "dst_namespace=\""@ + ns@ + "\""@,
                (None, None) => final(f)@ == old(f)@,
            },
    {
        match (&self.namespace, &self.dst) {
            (Some(ns), Some(dst)) => {
                f.append("dst_namespace=\"");
                f.append(ns.as_str());
                f.append("\",dst_");
                dst.fmt(f);
            },
            (None, Some(dst)) => {
                f.append("dst_");
                dst.fmt(f);
            },
            (Some(ns), None) => {
                f.append("dst_namespace=\"");
                f.append(ns.as_str());
                f.append("\"");
            },
            (None, None) => {},
        }
        assert(f@ =~= old(f)@ + self@.text());
    }

    /// The owner and the namespace.
    fn to_key(&self) -> (key: (Option<(u8, String)>, Option<String>))
        ensures
            key.deep_view() == self@.key(),
    {
        let dst = match &self.dst {
            Some(dst) => Some(dst.to_key()),
            None => None,
        };
        (dst, self.namespace.clone())
    }
}

/// A set of labels that values can be kept under.
pub trait LabelSet: View + Sized {
    /// The values of the labels, as a key.
    spec fn key(labels: Self::V) -> LabelKeyView;

    /// The text of the labels.
    spec fn text(labels: Self::V) -> Seq<char>;

    /// Labels of which the keys agree are the same.
    proof fn lemma_key_determines(a: Self::V, b: Self::V)
        requires
            Self::key(a) == Self::key(b),
        ensures
            a == b,
    ;

    /// The values of the labels, as a key.
    fn to_key(&self) -> (key: LabelKey)
        ensures
            key.deep_view() == Self::key(self@),
    ;

    /// Appends the text of the labels.
    fn fmt(&self, f: &mut String)
        ensures
            final(f)@ == old(f)@ + Self::text(self@),
    ;
}

/// The labels of request metrics.
#[derive(Clone, Debug, PartialEq, Eq, Hash)]
pub struct RequestLabels {
    /// Labels on the destination, where the request is outbound.
    pub outbound_labels: Option<OutboundLabels>,
    /// The value of the `:authority` (HTTP/2) or `Host` (HTTP/1.1) header of
    /// the request.
    pub authority: String,
}

/// The value of `RequestLabels`.
pub struct RequestLabelsView {
    pub outbound_labels: Option<OutboundLabelsView>,
    pub authority: Seq<char>,
}

impl View for RequestLabels {
    type V = RequestLabelsView;

    open spec fn view(&self) -> RequestLabelsView {
        RequestLabelsView {
            outbound_labels: match self.outbound_labels {
                Some(outbound) => Some(outbound@),
                None => None,
            },
            authority: self.authority@,
        }
    }
}

impl RequestLabelsView {
    /// The labels of a request: an outbound request has labels on its
    /// destination, of which nothing is known; a request without an authority
    /// has an empty one.
    pub open spec fn of(request: Request) -> RequestLabelsView {
        RequestLabelsView {
            outbound_labels: if request.outbound {
                Some(OutboundLabelsView { dst: None, namespace: None })
            } else {
                None
            },
            authority: match request.uri@ {
                Some(authority) => authority,
                None => Seq::empty(),
            },
        }
    }

    /// The text of the direction of a request and of its destination.
    pub open spec fn direction_text(self) -> Seq<char> {
        match self.outbound_labels {
            Some(outbound) => "direction=\"outbound\""@ + (if outbound.is_empty() {
                ""@
            } else {
                ","@
            }) + outbound.text(),
            None => "direction=\"inbound\""@,
        }
    }

    /// The text of the labels.
    pub open spec fn text(self) -> Seq<char> {
        "authority=\""@ + self.authority + "\","@ + self.direction_text()
    }

    /// The values of the labels, as a key.
    pub open spec fn key(self) -> LabelKeyView {
        (
            self.authority,
            match self.outbound_labels {
                Some(outbound) => Some(outbound.key()),
                None => None,
            },
            None,
        )
    }
}

impl RequestLabels {
    /// The labels of a request.
    pub fn new(req: &Request) -> (labels: Self)
        ensures
            labels@ == RequestLabelsView::of(*req),
            req.uri@ matches Some(authority) ==> labels.authority@ == authority,
            req.uri@ is None ==> labels.authority@.len() == 0,
            labels.outbound_labels is Some <==> req.outbound,
            labels.outbound_labels matches Some(outbound) ==> outbound.dst is None
                && outbound.namespace is None,
            labels@.authority == labels.authority@,
            labels@.outbound_labels is Some <==> req.outbound,
    {
        let outbound_labels = if req.is_outbound() {
            Some(OutboundLabels::default())
        } else {
            None
        };
        let authority = match req.uri.authority_part() {
            Some(authority) => authority,
            None => String::new(),
        };
        RequestLabels { outbound_labels, authority }
    }
}

impl LabelSet for RequestLabels {
    open spec fn key(labels: RequestLabelsView) -> LabelKeyView {
        labels.key()
    }

    open spec fn text(labels: RequestLabelsView) -> Seq<char> {
        labels.text()
    }

    proof fn lemma_key_determines(a: RequestLabelsView, b: RequestLabelsView) {
    }

    fn to_key(&self) -> LabelKey {
        let outbound = match &self.outbound_labels {
            Some(outbound) => Some(outbound.to_key()),
            None => None,
        };
        (self.authority.clone(), outbound, None)
    }

    fn fmt(&self, f: &mut String)
        ensures
            match self.outbound_labels {
                Some(outbound) => final(f)@ == old(f)@ + "authority=\""@ + self.authority@ + "\","@
                    + "direction=\"outbound\""@ + (if outbound.dst is None && outbound.namespace
                    is None {
                    Seq::empty()
                } else {
                    ","@ + outbound@.text()
                }),
                None => final(f)@ == old(f)@ + "authority=\""@ + self.authority@ + "\","@
                    + "direction=\"inbound\""@,
            },
    {
        f.append("authority=\"");
        f.append(self.authority.as_str());
        f.append("\",");
        match &self.outbound_labels {
            Some(outbound) => {
                f.append("direction=\"outbound\"");
                f.append(if !outbound.is_empty() { "," } else { "" });
                outbound.fmt(f);
            },
            None => {
                f.append("direction=\"inbound\"");
            },
        }
        proof {
            reveal_strlit("");
        }
        assert(f@ =~= old(f)@ + self@.text());
    }
}

/// The labels of response metrics.
#[derive(Clone, Debug, PartialEq, Eq, Hash)]
pub struct ResponseLabels {
    /// The labels of the request that is answered.
    pub request_labels: RequestLabels,
    /// The HTTP status code of the response.
    pub status_code: u16,
    /// The value of the grpc-status trailer. Only applicable to response
    /// metrics for gRPC responses.
    pub grpc_status_code: Option<u32>,
}

/// The value of `ResponseLabels`.
pub struct ResponseLabelsView {
    pub request_labels: RequestLabelsView,
    pub status_code: u16,
    pub grpc_status_code: Option<u32>,
}

impl View for ResponseLabels {
    type V = ResponseLabelsView;

    open spec fn view(&self) -> ResponseLabelsView {
        ResponseLabelsView {
            request_labels: self.request_labels@,
            status_code: self.status_code,
            grpc_status_code: self.grpc_status_code,
        }
    }
}

impl ResponseLabelsView {
    /// The labels of a response with the given gRPC status.
    pub open spec fn of(response: Response, grpc_status_code: Option<u32>) -> ResponseLabelsView {
        ResponseLabelsView {
            request_labels: RequestLabelsView::of(response.request),
            status_code: response.status,
            grpc_status_code,
        }
    }

    /// The text of the labels. No comma stands before the gRPC status.
    pub open spec fn text(self) -> Seq<char> {
        self.request_labels.text() + ",status_code=\""@ + decimal(self.status_code as nat) + "\""@
            + (match self.grpc_status_code {
            Some(status) => "grpc_status_code=\""@ + decimal(status as nat) + "\""@,
            None => Seq::empty(),
        })
    }

    /// The values of the labels, as a key.
    pub open spec fn key(self) -> LabelKeyView {
        let request = self.request_labels.key();
        (request.0, request.1, Some((self.status_code, self.grpc_status_code)))
    }
}

impl ResponseLabels {
    /// The labels of a response with the given gRPC status.
    pub fn new(rsp: &Response, grpc_status_code: Option<u32>) -> (labels: Self)
        ensures
            labels@ == ResponseLabelsView::of(*rsp, grpc_status_code),
            labels.status_code == rsp.status,
            labels.grpc_status_code == grpc_status_code,
            rsp.request.uri@ matches Some(authority) ==> labels.request_labels.authority@
                == authority,
            rsp.request.uri@ is None ==> labels.request_labels.authority@.len() == 0,
            labels.request_labels.outbound_labels is Some <==> rsp.request.outbound,
            labels.request_labels.outbound_labels matches Some(outbound) ==> outbound.dst is None
                && outbound.namespace is None,
            labels@.status_code == rsp.status,
            labels@.grpc_status_code == grpc_status_code,
            labels@.request_labels.authority == labels.request_labels.authority@,
            labels@.request_labels.outbound_labels is Some <==> rsp.request.outbound,
    {
        let request_labels = RequestLabels::new(&rsp.request);
        ResponseLabels { request_labels, status_code: rsp.status, grpc_status_code }
    }
}

impl LabelSet for ResponseLabels {
    open spec fn key(labels: ResponseLabelsView) -> LabelKeyView {
        labels.key()
    }

    open spec fn text(labels: ResponseLabelsView) -> Seq<char> {
        labels.text()
    }

    proof fn lemma_key_determines(a: ResponseLabelsView, b: ResponseLabelsView) {
        <RequestLabels as LabelSet>::lemma_key_determines(a.request_labels, b.request_labels);
    }

    fn to_key(&self) -> LabelKey {
        let request = self.request_labels.to_key();
        (request.0, request.1, Some((self.status_code, self.grpc_status_code)))
    }

    fn fmt(&self, f: &mut String)
        ensures
            match self.grpc_status_code {
                Some(status) => final(f)@ == old(f)@ + self.request_labels@.text()
                    + ",status_code=\""@ + decimal(self.status_code as nat) + "\""@
                    + "grpc_status_code=\""@ + decimal(status as nat) + "\""@,
                None => final(f)@ == old(f)@ + self.request_labels@.text() + ",status_code=\""@
                    + decimal(self.status_code as nat) + "\""@,
            },
    {
        self.request_labels.fmt(f);
        f.append(",status_code=\"");
        fmt_decimal(self.status_code as u64, f);
        f.append("\"");
        match self.grpc_status_code {
            Some(status) => {
                f.append("grpc_status_code=\"");
                fmt_decimal(status as u64, f);
                f.append("\"");
            },
            None => {},
        }
        assert(f@ =~= old(f)@ + self@.text());
    }
}

} // verus!
