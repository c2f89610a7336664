use vstd::prelude::*;
use crate::errors::DeliveryError;
use crate::models::{clone_strings, SendEmailRequest};

verus! {

/// Lifecycle of an outbound message; `Sent` and `Failed` are terminal.
#[derive(Clone, Copy, Debug, PartialEq, Eq, Structural)]
pub enum DeliveryStatus {
    Queued,
    Sent,
    Failed,
}

/// An accepted send request, identified by a locally generated tracking id
/// that exists whatever the delivery outcome turns out to be.
pub struct OutboundMessage {
    pub id: String,
    pub to: Vec<String>,
    pub cc: Vec<String>,
    pub bcc: Vec<String>,
    pub subject: String,
    pub body: String,
    pub status: DeliveryStatus,
}

/// What the remote server answered to the delivery handoff.
#[derive(Clone, Copy, Debug, PartialEq, Eq, Structural)]
pub enum RemoteDeliveryOutcome {
    /// The message was accepted for delivery.
    Accepted,
    /// A recipient or the message itself was rejected.
    RejectedByServer,
    /// The delivery session could not be opened.
    ConnectionFailed,
}

/// Relies on uuid::Uuid::new_v4 and its hyphenated rendering: 36 characters.
/// The value is random; nothing else is promised of it.
#[verifier::external_body]
fn new_tracking_id() -> (r: String)
    ensures
        r@.len() == 36,
{
    uuid::Uuid::new_v4().to_string()
}

/// Validates a send request and stamps it with a tracking id. The only
/// rejection is an empty primary recipient list, and a rejected request
/// gets no tracking id. Everything else becomes a `Queued` message whose
/// delivery outcome is handed back through [`complete_send`].
pub fn prepare_send(req: &SendEmailRequest) -> (r: Result<OutboundMessage, DeliveryError>)
    ensures
        (r is Err) == (req.to@.len() == 0),
        r is Err ==> r == Err::<OutboundMessage, DeliveryError>(DeliveryError::NoRecipients),
        r is Ok ==> ({
            let m = r->Ok_0;
            &&& m.to.deep_view() == req.to.deep_view()
            &&& m.cc.deep_view() == (match req.cc {
                Some(v) => v.deep_view(),
                None => Seq::<Seq<char>>::empty(),
            })
            &&& m.bcc.deep_view() == (match req.bcc {
                Some(v) => v.deep_view(),
                None => Seq::<Seq<char>>::empty(),
            })
            &&& m.subject@ == req.subject@
            &&& m.body@ == req.body@
            &&& m.status == DeliveryStatus::Queued
            &&& m.id@.len() == 36
        }),
{
    if req.to.len() == 0 {
        return Err(DeliveryError::NoRecipients);
    }
    let id = new_tracking_id();
    let cc = match &req.cc {
        Some(v) => clone_strings(v),
        None => Vec::new(),
    };
    let bcc = match &req.bcc {
        Some(v) => clone_strings(v),
        None => Vec::new(),
    };
    proof {
        if req.cc is None {
            assert(cc.deep_view() =~= Seq::<Seq<char>>::empty());
        }
        if req.bcc is None {
            assert(bcc.deep_view() =~= Seq::<Seq<char>>::empty());
        }
    }
    Ok(
        OutboundMessage {
            id,
            to: clone_strings(&req.to),
            cc,
            bcc,
            subject: req.subject.clone(),
            body: req.body.clone(),
            status: DeliveryStatus::Queued,
        },
    )
}

/// Maps the remote outcome of one handoff. Acceptance makes the message
/// `Sent` and returns its tracking id; a rejection makes it terminally
/// `Failed`; an unreachable server leaves it `Queued` (the caller may retry;
/// this pipeline never retries a delivery itself, since a duplicate send is
/// worse than a surfaced error). A message in a terminal status is never
/// handed back here.
pub fn complete_send(msg: OutboundMessage, outcome: RemoteDeliveryOutcome) -> (r: (
    OutboundMessage,
    Result<String, DeliveryError>,
))
    requires
        msg.status == DeliveryStatus::Queued,
    ensures
        r.0.id@ == msg.id@,
        r.0.to.deep_view() == msg.to.deep_view(),
        r.0.subject@ == msg.subject@,
        r.0.body@ == msg.body@,
        outcome == RemoteDeliveryOutcome::Accepted ==> r.0.status == DeliveryStatus::Sent && (
        r.1 matches Ok(t) && t@ == msg.id@),
        outcome == RemoteDeliveryOutcome::RejectedByServer ==> r.0.status == DeliveryStatus::Failed
            && r.1 == Err::<String, DeliveryError>(DeliveryError::Rejected),
        outcome == RemoteDeliveryOutcome::ConnectionFailed ==> r.0.status
            == DeliveryStatus::Queued && r.1 == Err::<String, DeliveryError>(
            DeliveryError::Unreachable,
        ),
{
    match outcome {
        RemoteDeliveryOutcome::Accepted => {
            let tracking = msg.id.clone();
            let m = OutboundMessage { status: DeliveryStatus::Sent, ..msg };
            (m, Ok(tracking))
        },
        RemoteDeliveryOutcome::RejectedByServer => {
            let m = OutboundMessage { status: DeliveryStatus::Failed, ..msg };
            (m, Err(DeliveryError::Rejected))
        },
        RemoteDeliveryOutcome::ConnectionFailed => (msg, Err(DeliveryError::Unreachable)),
    }
}

/// The address list as it appears on a header line: comma-separated.
pub open spec fn joined(addrs: Seq<Seq<char>>) -> Seq<char>
    decreases addrs.len(),
{
    if addrs.len() == 0 {
        Seq::empty()
    } else if addrs.len() == 1 {
        addrs[0]
    } else {
        joined(addrs.drop_last()) + ", "@ + addrs.last()
    }
}

/// The deterministic wire form of an outbound message: fixed header lines,
/// comma-joined recipients, blank line, body.
pub open spec fn compose_spec(
    from: Seq<char>,
    to: Seq<Seq<char>>,
    cc: Seq<Seq<char>>,
    subject: Seq<char>,
    body: Seq<char>,
) -> Seq<char> {
    "From: "@ + from + "\r\nTo: "@ + joined(to) + "\r\nCc: "@ + joined(cc) + "\r\nSubject: "@
        + subject + "\r\n\r\n"@ + body
}

/// Appends the comma-joined address list.
fn append_joined(out: &mut String, addrs: &Vec<String>)
    ensures
        final(out)@ == old(out)@ + joined(addrs.deep_view()),
{
    let ghost dv = addrs.deep_view();
    let mut i: usize = 0;
    while i < addrs.len()
        invariant
            i <= addrs@.len(),
            dv == addrs.deep_view(),
            dv.len() == addrs@.len(),
            out@ == old(out)@ + joined(dv.take(i as int)),
        decreases addrs@.len() - i,
    {
        proof {
            assert(dv.take(i as int + 1).drop_last() =~= dv.take(i as int));
            assert(dv.take(i as int + 1).last() == dv[i as int]);
            assert(dv.take(i as int + 1)[0] == dv[0]);
            reveal_strlit(", ");
        }
        if i > 0 {
            out.append(", ");
        }
        out.append(addrs[i].as_str());
        proof {
            assert(out@ =~= old(out)@ + joined(dv.take(i as int + 1)));
        }
        i = i + 1;
    }
    proof {
        assert(dv.take(dv.len() as int) =~= dv);
    }
}

/// Renders [`compose_spec`] for a message.
pub fn compose_message(from: &str, msg: &OutboundMessage) -> (r: String)
    ensures
        r@ == compose_spec(from@, msg.to.deep_view(), msg.cc.deep_view(), msg.subject@, msg.body@),
{
    let mut out = String::new();
    out.append("From: ");
    out.append(from);
    out.append("\r\nTo: ");
    append_joined(&mut out, &msg.to);
    out.append("\r\nCc: ");
    append_joined(&mut out, &msg.cc);
    out.append("\r\nSubject: ");
    out.append(msg.subject.as_str());
    out.append("\r\n\r\n");
    out.append(msg.body.as_str());
    proof {
        assert(out@ =~= compose_spec(
            from@,
            msg.to.deep_view(),
            msg.cc.deep_view(),
            msg.subject@,
            msg.body@,
        ));
    }
    out
}

} // verus!
