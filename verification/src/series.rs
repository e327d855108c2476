//! Label sets can be told apart by their text.
use crate::labels::{
    LabelSet, OutboundLabelsView, PodOwnerView, RequestLabels, RequestLabelsView, ResponseLabels,
    ResponseLabelsView,
};
use crate::text::{decimal, law_decimal};
use vstd::prelude::*;

verus! {

/// Whether a text holds no double quote.
pub open spec fn plain(text: Seq<char>) -> bool {
    forall|i: int| 0 <= i < text.len() ==> #[trigger] text[i] != '"'
}

/// Whether the name of an owner holds no double quote.
pub open spec fn plain_owner(owner: PodOwnerView) -> bool {
    match owner {
        PodOwnerView::Deployment(s) => plain(s),
        PodOwnerView::Job(s) => plain(s),
        PodOwnerView::ReplicaSet(s) => plain(s),
        PodOwnerView::ReplicationController(s) => plain(s),
    }
}

/// Whether what is known of a destination holds no double quote.
pub open spec fn plain_destination(labels: OutboundLabelsView) -> bool {
    &&& labels.dst matches Some(dst) ==> plain_owner(dst)
    &&& labels.namespace matches Some(namespace) ==> plain(namespace)
}

/// Whether the labels of a request hold no double quote.
pub open spec fn plain_request(labels: RequestLabelsView) -> bool {
    &&& plain(labels.authority)
    &&& labels.outbound_labels matches Some(outbound) ==> plain_destination(outbound)
}

/// The text of a double quote.
spec fn quote() -> Seq<char> {
    seq!['"']
}

/// Whether `text` can follow the labels of a request.
spec fn is_tail(text: Seq<char>) -> bool {
    text.len() == 0 || text.len() > 1 && text[0] == ',' && text[1] == 's'
}

/// What follows the same text is the same.
proof fn lemma_cancel(head: Seq<char>, x: Seq<char>, y: Seq<char>)
    requires
        head + x == head + y,
    ensures
        x == y,
{
    assert(x =~= (head + x).skip(head.len() as int));
    assert(y =~= (head + y).skip(head.len() as int));
}

/// Where texts without a double quote are followed by one, they end at the same
/// place.
proof fn lemma_quoted(a: Seq<char>, x: Seq<char>, b: Seq<char>, y: Seq<char>)
    requires
        plain(a),
        plain(b),
        a + quote() + x == b + quote() + y,
    ensures
        a == b,
        x == y,
{
    let left = a + quote() + x;
    let right = b + quote() + y;
    assert(left[a.len() as int] == '"');
    assert(right[b.len() as int] == '"');
    if a.len() < b.len() {
        assert(right[a.len() as int] == b[a.len() as int]);
    }
    if b.len() < a.len() {
        assert(left[b.len() as int] == a[b.len() as int]);
    }
    assert(a =~= left.take(a.len() as int));
    assert(b =~= right.take(b.len() as int));
    lemma_cancel(a + quote(), x, y);
}

/// A quoted text after some head ends at the same place.
proof fn lemma_field(
    head: Seq<char>,
    a: Seq<char>,
    x: Seq<char>,
    b: Seq<char>,
    y: Seq<char>,
)
    requires
        plain(a),
        plain(b),
        head + a + quote() + x == head + b + quote() + y,
    ensures
        a == b,
        x == y,
{
    assert(head + a + quote() + x =~= head + (a + quote() + x));
    assert(head + b + quote() + y =~= head + (b + quote() + y));
    lemma_cancel(head, a + quote() + x, b + quote() + y);
    lemma_quoted(a, x, b, y);
}

/// The literals that end with a double quote, or start with one.
proof fn lemma_literals()
    ensures
        "\""@ == quote(),
        "\","@ == quote() + ","@,
        "\",dst_"@ == quote() + ",dst_"@,
{
    reveal_strlit("\"");
    reveal_strlit("\",");
    reveal_strlit(",");
    reveal_strlit("\",dst_");
    reveal_strlit(",dst_");
    assert("\""@ =~= quote());
    assert("\","@ =~= quote() + ","@);
    assert("\",dst_"@ =~= quote() + ",dst_"@);
}

/// The head of the text of an owner.
spec fn owner_head(owner: PodOwnerView) -> Seq<char> {
    match owner {
        PodOwnerView::Deployment(_) => "deployment=\""@,
        PodOwnerView::Job(_) => "job=\""@,
        PodOwnerView::ReplicaSet(_) => "replica_set=\""@,
        PodOwnerView::ReplicationController(_) => "replication_controller=\""@,
    }
}

/// The name of an owner.
spec fn owner_name(owner: PodOwnerView) -> Seq<char> {
    match owner {
        PodOwnerView::Deployment(s) => s,
        PodOwnerView::Job(s) => s,
        PodOwnerView::ReplicaSet(s) => s,
        PodOwnerView::ReplicationController(s) => s,
    }
}

/// The end of the text of an owner.
spec fn owner_end(owner: PodOwnerView) -> Seq<char> {
    match owner {
        PodOwnerView::Job(_) => ","@,
        _ => Seq::empty(),
    }
}

/// The text of an owner is its head, its quoted name, and its end.
proof fn lemma_owner_parts(owner: PodOwnerView, x: Seq<char>)
    ensures
        owner.text() + x == owner_head(owner) + owner_name(owner) + quote() + (owner_end(owner)
            + x),
{
    lemma_literals();
    assert(owner.text() + x =~= owner_head(owner) + owner_name(owner) + quote() + (owner_end(owner)
        + x));
}

/// The kind of an owner is seen at the head of its text.
proof fn lemma_owner_kind(a: PodOwnerView, x: Seq<char>, b: PodOwnerView, y: Seq<char>)
    requires
        owner_head(a) + x == owner_head(b) + y,
    ensures
        owner_head(a) == owner_head(b),
        owner_end(a) == owner_end(b),
        owner_name(a) == owner_name(b) ==> a == b,
{
    reveal_strlit("deployment=\"");
    reveal_strlit("job=\"");
    reveal_strlit("replica_set=\"");
    reveal_strlit("replication_controller=\"");
    let left = owner_head(a) + x;
    let right = owner_head(b) + y;
    assert(left[0] == owner_head(a)[0]);
    assert(right[0] == owner_head(b)[0]);
    if owner_head(a)[0] == 'r' && owner_head(b)[0] == 'r' {
        assert(left[7] == owner_head(a)[7]);
        assert(right[7] == owner_head(b)[7]);
    }
}

/// An owner is known from its text, and ends where it ends.
proof fn lemma_owner(a: PodOwnerView, x: Seq<char>, b: PodOwnerView, y: Seq<char>)
    requires
        plain_owner(a),
        plain_owner(b),
        a.text() + x == b.text() + y,
    ensures
        a == b,
        x == y,
{
    lemma_owner_parts(a, x);
    lemma_owner_parts(b, y);
    let after_a = owner_name(a) + quote() + (owner_end(a) + x);
    let after_b = owner_name(b) + quote() + (owner_end(b) + y);
    assert(a.text() + x =~= owner_head(a) + after_a);
    assert(b.text() + y =~= owner_head(b) + after_b);
    lemma_owner_kind(a, after_a, b, after_b);
    lemma_field(
        owner_head(a),
        owner_name(a),
        owner_end(a) + x,
        owner_name(b),
        owner_end(b) + y,
    );
    lemma_cancel(owner_end(a), x, y);
}

/// What stands after the namespace of a destination.
spec fn after_namespace(labels: OutboundLabelsView, x: Seq<char>) -> Seq<char> {
    match labels.dst {
        Some(dst) => ",dst_"@ + (dst.text() + x),
        None => x,
    }
}

/// The text of a destination is its quoted namespace and what stands after it,
/// or its owner.
proof fn lemma_destination_parts(labels: OutboundLabelsView, x: Seq<char>)
    ensures
        labels.namespace matches Some(ns) ==> labels.text() + x == "dst_namespace=\""@ + ns
            + quote() + after_namespace(labels, x),
        labels.namespace is None && labels.dst is Some ==> labels.text() + x == "dst_"@ + (
        labels.dst->0.text() + x),
        labels.namespace is None && labels.dst is None ==> labels.text() + x == x,
{
    lemma_literals();
    match (labels.namespace, labels.dst) {
        (Some(ns), Some(dst)) => {
            assert(labels.text() + x =~= "dst_namespace=\""@ + ns + quote() + after_namespace(
                labels,
                x,
            ));
        },
        (Some(ns), None) => {
            assert(labels.text() + x =~= "dst_namespace=\""@ + ns + quote() + after_namespace(
                labels,
                x,
            ));
        },
        (None, Some(dst)) => {
            assert(labels.text() + x =~= "dst_"@ + (dst.text() + x));
        },
        (None, None) => {
            assert(labels.text() + x =~= x);
        },
    }
}

/// The start of the text of a destination says whether its namespace is known,
/// and whether its owner is.
proof fn lemma_destination_start(labels: OutboundLabelsView, x: Seq<char>)
    requires
        is_tail(x),
    ensures
        ({
            let text = labels.text() + x;
            &&& labels.namespace is Some ==> text.len() > 4 && text[0] == 'd' && text[4] == 'n'
            &&& labels.namespace is None && labels.dst is Some ==> text.len() > 4 && text[0] == 'd'
                && text[4] != 'n'
            &&& labels.namespace is None && labels.dst is None ==> text == x
        }),
{
    reveal_strlit("dst_namespace=\"");
    reveal_strlit("dst_");
    reveal_strlit("deployment=\"");
    reveal_strlit("job=\"");
    reveal_strlit("replica_set=\"");
    reveal_strlit("replication_controller=\"");
    lemma_destination_parts(labels, x);
    let text = labels.text() + x;
    if labels.namespace is Some {
        assert(text[0] == "dst_namespace=\""@[0]);
        assert(text[4] == "dst_namespace=\""@[4]);
    } else if labels.dst is Some {
        let dst = labels.dst->0;
        lemma_owner_parts(dst, x);
        assert(text[0] == "dst_"@[0]);
        assert(text[4] == (dst.text() + x)[0]);
        assert((dst.text() + x)[0] == owner_head(dst)[0]);
    }
}

/// What stands after the namespace says whether the owner is known.
proof fn lemma_after_namespace(labels: OutboundLabelsView, x: Seq<char>)
    requires
        is_tail(x),
    ensures
        labels.dst is Some ==> after_namespace(labels, x).len() > 1 && after_namespace(
            labels,
            x,
        )[1] == 'd',
        labels.dst is None ==> after_namespace(labels, x) == x,
{
    reveal_strlit(",dst_");
}

/// A destination is known from its text, and ends where it ends.
proof fn lemma_destination(
    a: OutboundLabelsView,
    x: Seq<char>,
    b: OutboundLabelsView,
    y: Seq<char>,
)
    requires
        plain_destination(a),
        plain_destination(b),
        is_tail(x),
        is_tail(y),
        a.text() + x == b.text() + y,
    ensures
        a == b,
        x == y,
{
    lemma_destination_parts(a, x);
    lemma_destination_parts(b, y);
    lemma_destination_start(a, x);
    lemma_destination_start(b, y);
    if a.namespace is Some {
        let after_a = after_namespace(a, x);
        let after_b = after_namespace(b, y);
        lemma_field("dst_namespace=\""@, a.namespace->0, after_a, b.namespace->0, after_b);
        lemma_after_namespace(a, x);
        lemma_after_namespace(b, y);
        if a.dst is Some {
            lemma_cancel(",dst_"@, a.dst->0.text() + x, b.dst->0.text() + y);
            lemma_owner(a.dst->0, x, b.dst->0, y);
        }
    } else if a.dst is Some {
        lemma_cancel("dst_"@, a.dst->0.text() + x, b.dst->0.text() + y);
        lemma_owner(a.dst->0, x, b.dst->0, y);
    }
}

/// What stands after the direction of an outbound request.
spec fn after_direction(outbound: OutboundLabelsView, x: Seq<char>) -> Seq<char> {
    if outbound.namespace is None && outbound.dst is None {
        x
    } else {
        ","@ + (outbound.text() + x)
    }
}

/// What stands after the authority of a request.
spec fn after_authority(labels: RequestLabelsView, x: Seq<char>) -> Seq<char> {
    match labels.outbound_labels {
        Some(outbound) => "direction=\"outbound\""@ + after_direction(outbound, x),
        None => "direction=\"inbound\""@ + x,
    }
}

/// The text of a request's labels is the quoted authority and what stands after
/// it.
proof fn lemma_request_parts(labels: RequestLabelsView, x: Seq<char>)
    ensures
        labels.text() + x == "authority=\""@ + labels.authority + quote() + (","@
            + after_authority(labels, x)),
{
    lemma_literals();
    reveal_strlit("");
    match labels.outbound_labels {
        Some(outbound) => {
            assert(labels.direction_text() + x =~= after_authority(labels, x));
        },
        None => {
            assert(labels.direction_text() + x =~= after_authority(labels, x));
        },
    }
    assert(labels.text() + x =~= "authority=\""@ + labels.authority + (quote() + ","@) + (
    labels.direction_text() + x));
    assert(labels.text() + x =~= "authority=\""@ + labels.authority + quote() + (","@
        + after_authority(labels, x)));
}

/// The direction of a request is seen in its text.
proof fn lemma_direction(a: RequestLabelsView, x: Seq<char>, b: RequestLabelsView, y: Seq<char>)
    requires
        after_authority(a, x) == after_authority(b, y),
    ensures
        a.outbound_labels is Some <==> b.outbound_labels is Some,
{
    reveal_strlit("direction=\"outbound\"");
    reveal_strlit("direction=\"inbound\"");
    assert(a.outbound_labels is Some <==> after_authority(a, x)[11] == 'o');
    assert(b.outbound_labels is Some <==> after_authority(b, y)[11] == 'o');
}

/// What stands after the direction says whether anything is known of the
/// destination.
proof fn lemma_after_direction(outbound: OutboundLabelsView, x: Seq<char>)
    requires
        is_tail(x),
    ensures
        outbound.namespace is Some || outbound.dst is Some ==> after_direction(outbound, x).len()
            > 1 && after_direction(outbound, x)[1] == 'd',
        outbound.namespace is None && outbound.dst is None ==> after_direction(outbound, x) == x,
{
    reveal_strlit(",");
    lemma_destination_start(outbound, x);
    if outbound.namespace is Some || outbound.dst is Some {
        assert(after_direction(outbound, x)[1] == (outbound.text() + x)[0]);
    }
}

/// The labels of a request are known from their text, and end where they end.
proof fn lemma_request(a: RequestLabelsView, x: Seq<char>, b: RequestLabelsView, y: Seq<char>)
    requires
        plain_request(a),
        plain_request(b),
        is_tail(x),
        is_tail(y),
        a.text() + x == b.text() + y,
    ensures
        a == b,
        x == y,
{
    lemma_request_parts(a, x);
    lemma_request_parts(b, y);
    lemma_field(
        "authority=\""@,
        a.authority,
        ","@ + after_authority(a, x),
        b.authority,
        ","@ + after_authority(b, y),
    );
    lemma_cancel(","@, after_authority(a, x), after_authority(b, y));
    lemma_direction(a, x, b, y);
    if a.outbound_labels is Some {
        let to_a = a.outbound_labels->0;
        let to_b = b.outbound_labels->0;
        lemma_cancel(
            "direction=\"outbound\""@,
            after_direction(to_a, x),
            after_direction(to_b, y),
        );
        lemma_after_direction(to_a, x);
        lemma_after_direction(to_b, y);
        if to_a.namespace is Some || to_a.dst is Some {
            lemma_cancel(","@, to_a.text() + x, to_b.text() + y);
            lemma_destination(to_a, x, to_b, y);
        }
    } else {
        lemma_cancel("direction=\"inbound\""@, x, y);
    }
}

/// Different labels of requests have different texts, where no value holds a
/// double quote.
pub proof fn law_request_text_determines(a: RequestLabelsView, b: RequestLabelsView)
    requires
        plain_request(a),
        plain_request(b),
    ensures
        <RequestLabels as LabelSet>::text(a) == <RequestLabels as LabelSet>::text(b) <==> a == b,
{
    if a.text() == b.text() {
        lemma_request(a, Seq::empty(), b, Seq::empty());
    }
}

/// The text of the gRPC status of a response.
spec fn grpc_text(grpc_status: Option<u32>) -> Seq<char> {
    match grpc_status {
        Some(status) => "grpc_status_code=\""@ + decimal(status as nat) + quote(),
        None => Seq::empty(),
    }
}

/// What stands after the labels of the request of a response.
spec fn after_request(labels: ResponseLabelsView) -> Seq<char> {
    ",status_code=\""@ + decimal(labels.status_code as nat) + quote() + grpc_text(
        labels.grpc_status_code,
    )
}

/// The text of a response's labels is that of the labels of its request and what
/// stands after it.
proof fn lemma_response_parts(labels: ResponseLabelsView)
    ensures
        labels.text() == labels.request_labels.text() + after_request(labels),
        is_tail(after_request(labels)),
{
    lemma_literals();
    reveal_strlit(",status_code=\"");
    assert(labels.text() =~= labels.request_labels.text() + after_request(labels));
    assert(after_request(labels)[0] == ",status_code=\""@[0]);
    assert(after_request(labels)[1] == ",status_code=\""@[1]);
}

/// The decimal text of a number holds no double quote, and different numbers
/// have different ones.
proof fn lemma_decimal_plain(a: nat, b: nat)
    ensures
        plain(decimal(a)),
        decimal(a) == decimal(b) ==> a == b,
{
    law_decimal(a);
    law_decimal(b);
}

/// Different labels of responses have different texts, where no value holds a
/// double quote.
pub proof fn law_response_text_determines(a: ResponseLabelsView, b: ResponseLabelsView)
    requires
        plain_request(a.request_labels),
        plain_request(b.request_labels),
    ensures
        <ResponseLabels as LabelSet>::text(a) == <ResponseLabels as LabelSet>::text(b) <==> a == b,
{
    if a.text() == b.text() {
        lemma_response_parts(a);
        lemma_response_parts(b);
        lemma_request(a.request_labels, after_request(a), b.request_labels, after_request(b));
        lemma_decimal_plain(a.status_code as nat, b.status_code as nat);
        lemma_decimal_plain(b.status_code as nat, a.status_code as nat);
        lemma_field(
            ",status_code=\""@,
            decimal(a.status_code as nat),
            grpc_text(a.grpc_status_code),
            decimal(b.status_code as nat),
            grpc_text(b.grpc_status_code),
        );
        if a.grpc_status_code is Some && b.grpc_status_code is Some {
            let x = a.grpc_status_code->0 as nat;
            let y = b.grpc_status_code->0 as nat;
            lemma_decimal_plain(x, y);
            lemma_decimal_plain(y, x);
            let head = "grpc_status_code=\""@;
            let none = Seq::<char>::empty();
            assert(grpc_text(a.grpc_status_code) =~= head + decimal(x) + quote() + none);
            assert(grpc_text(b.grpc_status_code) =~= head + decimal(y) + quote() + none);
            lemma_field(head, decimal(x), none, decimal(y), none);
        } else {
            reveal_strlit("grpc_status_code=\"");
        }
    }
}

} // verus!
