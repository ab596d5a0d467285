//! The pipeline worker: per-message processing (receive, resolve, decode,
//! encode, publish, acknowledge) and a sequential model of a worker's run.
//!
//! A worker's two suspension points — waiting for a message, and waiting for
//! the broker's delivery confirmation — and the evaluation of the operation
//! itself happen outside this crate.  They enter the model as the fields of
//! a `WorkerInput`: the message, the result value the runtime produced for
//! it, and whether the broker confirmed the publish.  For every value of
//! those inputs, what the worker publishes, commits and reports is a proved
//! function, `spec_outcome`; in particular the commit discipline — an input
//! offset is acknowledged exactly when its response was confirmed published
//! — holds whatever the broker does.

use vstd::prelude::*;
use vstd::multiset::Multiset;
use vstd::seq_lib::lemma_multiset_commutative;
use vstd::slice::slice_to_vec;

use crate::request::DecodeError;
use crate::request::NumberText;
use crate::request::RequestV;
use crate::request::parse_request;
use crate::request::spec_parse_request;
use crate::response::PayloadResponse;
use crate::response::ResultValue;
use crate::response::spec_encode_response;
use crate::response::spec_result_bytes;
use crate::topic::Topic;
use crate::topic::UnknownChannel;
use crate::topic::spec_from_name;

verus! {

/// One message as the broker hands it over: its offset within the partition,
/// the channel identity it arrived on, and the raw payload bytes.
pub struct InboundMessage {
    pub offset: u64,
    pub topic: Vec<u8>,
    pub payload: Vec<u8>,
}

/// Everything one pipeline iteration depends on.  `eval` is the result value
/// the runtime computed for the decoded request (it is ignored when decoding
/// fails), and `publish_ok` is the broker's verdict on the publish attempt
/// (ignored when nothing is published).  Fixing them as inputs lets every
/// downstream fact be proved for each of their values.
pub struct WorkerInput {
    pub msg: InboundMessage,
    pub eval: ResultValue,
    pub publish_ok: bool,
}

/// What failed while handling one message, for the operator-visible report.
/// Decode failures keep their exact kind; collapsing them would hide whether
/// the producer, the schema or the transport is at fault.
#[derive(Clone, Copy, PartialEq, Eq, Structural, Debug)]
pub enum FailureKind {
    /// The message arrived on a channel identity the registry does not know.
    UnknownChannelName,
    /// The payload did not decode under the channel's schema.
    Decode(DecodeError),
    /// The broker did not confirm delivery of the response.
    Publish,
}

/// An operator-visible failure report: the kind, the channel identity and
/// payload length that identify the offending message, the request id when
/// one was decoded, and the input offset concerned.
pub struct FailureReport {
    pub kind: FailureKind,
    pub topic: Vec<u8>,
    pub payload_len: usize,
    pub id: Option<u128>,
    pub offset: u64,
}

/// Spec-level image of a `FailureReport`.
pub struct ReportV {
    pub kind: FailureKind,
    pub topic: Seq<u8>,
    pub payload_len: usize,
    pub id: Option<u128>,
    pub offset: u64,
}

impl View for FailureReport {
    type V = ReportV;

    open spec fn view(&self) -> ReportV {
        ReportV {
            kind: self.kind,
            topic: self.topic@,
            payload_len: self.payload_len,
            id: self.id,
            offset: self.offset,
        }
    }
}

/// One record to publish: the output channel and the encoded payload.
pub struct OutboundRecord {
    pub topic: Topic,
    pub payload: Vec<u8>,
}

/// Spec-level image of an `OutboundRecord`.
pub struct RecordV {
    pub topic: Topic,
    pub payload: Seq<u8>,
}

impl View for OutboundRecord {
    type V = RecordV;

    open spec fn view(&self) -> RecordV {
        RecordV { topic: self.topic, payload: self.payload@ }
    }
}

/// How one pipeline iteration ended.
pub enum MessageOutcome {
    /// The response was published and confirmed; the input offset is to be
    /// acknowledged.
    Completed { record: OutboundRecord, offset: u64 },
    /// The response was built and sent but the broker did not confirm it;
    /// the offset is deliberately left unacknowledged so the broker will
    /// redeliver the message.
    PublishFailed { record: OutboundRecord, report: FailureReport },
    /// The message could not be resolved or decoded; it is reported and
    /// dropped, and its offset left unacknowledged.
    Skipped { report: FailureReport },
}

/// Spec-level image of a `MessageOutcome`.
pub enum OutcomeV {
    Completed { record: RecordV, offset: u64 },
    PublishFailed { record: RecordV, report: ReportV },
    Skipped { report: ReportV },
}

impl View for MessageOutcome {
    type V = OutcomeV;

    open spec fn view(&self) -> OutcomeV {
        match self {
            MessageOutcome::Completed { record, offset } => OutcomeV::Completed {
                record: record@,
                offset: *offset,
            },
            MessageOutcome::PublishFailed { record, report } => OutcomeV::PublishFailed {
                record: record@,
                report: report@,
            },
            MessageOutcome::Skipped { report } => OutcomeV::Skipped { report: report@ },
        }
    }
}

/// The decode phase of one iteration: registry resolution, then the
/// channel's schema.
pub open spec fn spec_decoded(inp: WorkerInput) -> Result<
    (Topic, RequestV),
    FailureKind,
> {
    match spec_from_name(inp.msg.topic@) {
        Err(UnknownChannel) => Err(FailureKind::UnknownChannelName),
        Ok(t) => match spec_parse_request(t, inp.msg.payload@) {
            Err(e) => Err(FailureKind::Decode(e)),
            Ok(req) => Ok((t, req)),
        },
    }
}

/// The report built for a failure on this input.
pub open spec fn spec_report(inp: WorkerInput, kind: FailureKind, id: Option<u128>) -> ReportV {
    ReportV {
        kind,
        topic: inp.msg.topic@,
        payload_len: inp.msg.payload@.len() as usize,
        id,
        offset: inp.msg.offset,
    }
}

/// The whole iteration as a function of its input: what is published, what
/// is reported, and whether the offset is acknowledged.  The id decoded from
/// the input payload reappears unchanged in the encoded response; the
/// response goes to the output channel the registry fixed for the input
/// channel.
pub open spec fn spec_outcome(inp: WorkerInput) -> OutcomeV {
    match spec_decoded(inp) {
        Err(kind) => OutcomeV::Skipped { report: spec_report(inp, kind, None::<u128>) },
        Ok((t, req)) => {
            let record = RecordV {
                topic: t,
                payload: spec_encode_response(req.id, inp.eval),
            };
            if inp.publish_ok {
                OutcomeV::Completed { record, offset: inp.msg.offset }
            } else {
                OutcomeV::PublishFailed {
                    record,
                    report: spec_report(inp, FailureKind::Publish, Some(req.id)),
                }
            }
        },
    }
}

/// Copies a result value; the copy renders to the same bytes.
fn copy_result_value(v: &ResultValue) -> (r: ResultValue)
    ensures
        spec_result_bytes(r) == spec_result_bytes(*v),
{
    match v {
        ResultValue::Number(t) => ResultValue::Number(
            NumberText { bytes: slice_to_vec(t.bytes.as_slice()) },
        ),
        ResultValue::Null => ResultValue::Null,
    }
}

/// Runs one pipeline iteration on one input, computing exactly
/// `spec_outcome`.  Together with that function's shape this carries the
/// per-message guarantees: the offset is acknowledged exactly when the
/// response was confirmed published; a decode or registry failure publishes
/// nothing, acknowledges nothing, and reports the failure with its exact
/// kind; and a published response carries the input's id unchanged.
pub fn process_message(inp: &WorkerInput) -> (r: MessageOutcome)
    ensures
        r@ == spec_outcome(*inp),
{
    let topic = match Topic::from_name(inp.msg.topic.as_slice()) {
        Ok(t) => t,
        Err(UnknownChannel) => {
            return MessageOutcome::Skipped {
                report: FailureReport {
                    kind: FailureKind::UnknownChannelName,
                    topic: slice_to_vec(inp.msg.topic.as_slice()),
                    payload_len: inp.msg.payload.len(),
                    id: None,
                    offset: inp.msg.offset,
                },
            };
        },
    };
    let request = match parse_request(&topic, inp.msg.payload.as_slice()) {
        Ok(req) => req,
        Err(e) => {
            return MessageOutcome::Skipped {
                report: FailureReport {
                    kind: FailureKind::Decode(e),
                    topic: slice_to_vec(inp.msg.topic.as_slice()),
                    payload_len: inp.msg.payload.len(),
                    id: None,
                    offset: inp.msg.offset,
                },
            };
        },
    };
    let response = PayloadResponse::new(request.id, copy_result_value(&inp.eval));
    let payload = response.encode();
    let record = OutboundRecord { topic, payload };
    if inp.publish_ok {
        MessageOutcome::Completed { record, offset: inp.msg.offset }
    } else {
        MessageOutcome::PublishFailed {
            record,
            report: FailureReport {
                kind: FailureKind::Publish,
                topic: slice_to_vec(inp.msg.topic.as_slice()),
                payload_len: inp.msg.payload.len(),
                id: Some(request.id),
                offset: inp.msg.offset,
            },
        }
    }
}

/// The confirmed publishes of a run, in order: one record per input whose
/// message decoded and whose publish the broker confirmed.
pub open spec fn spec_published(inputs: Seq<WorkerInput>) -> Seq<RecordV>
    decreases inputs.len(),
{
    if inputs.len() == 0 {
        Seq::empty()
    } else {
        match spec_outcome(inputs[0]) {
            OutcomeV::Completed { record, .. } => seq![record] + spec_published(
                inputs.drop_first(),
            ),
            _ => spec_published(inputs.drop_first()),
        }
    }
}

/// The acknowledged input offsets of a run, in input order: exactly the
/// offsets of the completed messages, so no acknowledged offset ever
/// precedes its publish confirmation.
pub open spec fn spec_committed(inputs: Seq<WorkerInput>) -> Seq<u64>
    decreases inputs.len(),
{
    if inputs.len() == 0 {
        Seq::empty()
    } else {
        match spec_outcome(inputs[0]) {
            OutcomeV::Completed { offset, .. } => seq![offset] + spec_committed(
                inputs.drop_first(),
            ),
            _ => spec_committed(inputs.drop_first()),
        }
    }
}

/// The failure reports of a run, in order.
pub open spec fn spec_reports(inputs: Seq<WorkerInput>) -> Seq<ReportV>
    decreases inputs.len(),
{
    if inputs.len() == 0 {
        Seq::empty()
    } else {
        match spec_outcome(inputs[0]) {
            OutcomeV::Completed { .. } => spec_reports(inputs.drop_first()),
            OutcomeV::PublishFailed { report, .. } => seq![report] + spec_reports(
                inputs.drop_first(),
            ),
            OutcomeV::Skipped { report } => seq![report] + spec_reports(inputs.drop_first()),
        }
    }
}

/// Everything observable a worker's run leaves behind.
pub struct WorkerLog {
    pub published: Vec<OutboundRecord>,
    pub committed: Vec<u64>,
    pub reports: Vec<FailureReport>,
}

/// A run's observables distribute over splitting the inputs: handling `a`
/// then `b` publishes, commits and reports exactly the concatenation of what
/// each part yields on its own.  This is the heart of the worker-count
/// equivalence below.
pub proof fn lemma_run_concat(a: Seq<WorkerInput>, b: Seq<WorkerInput>)
    ensures
        spec_published(a + b) == spec_published(a) + spec_published(b),
        spec_committed(a + b) == spec_committed(a) + spec_committed(b),
        spec_reports(a + b) == spec_reports(a) + spec_reports(b),
    decreases a.len(),
{
    if a.len() == 0 {
        assert(a + b =~= b);
        assert(spec_published(a) + spec_published(b) =~= spec_published(b));
        assert(spec_committed(a) + spec_committed(b) =~= spec_committed(b));
        assert(spec_reports(a) + spec_reports(b) =~= spec_reports(b));
    } else {
        lemma_run_concat(a.drop_first(), b);
        assert((a + b)[0] == a[0]);
        assert((a + b).drop_first() =~= a.drop_first() + b);
        assert(spec_published(a + b) =~= spec_published(a) + spec_published(b));
        assert(spec_committed(a + b) =~= spec_committed(a) + spec_committed(b));
        assert(spec_reports(a + b) =~= spec_reports(a) + spec_reports(b));
    }
}

/// Runs a whole sequence of inputs through the pipeline, one message at a
/// time, strictly in order, computing exactly the three run functions.
pub fn run_worker(inputs: &Vec<WorkerInput>) -> (log: WorkerLog)
    ensures
        log.published@.map_values(|r: OutboundRecord| r@) == spec_published(inputs@),
        log.committed@ == spec_committed(inputs@),
        log.reports@.map_values(|r: FailureReport| r@) == spec_reports(inputs@),
{
    let mut published: Vec<OutboundRecord> = Vec::new();
    let mut committed: Vec<u64> = Vec::new();
    let mut reports: Vec<FailureReport> = Vec::new();
    let mut i: usize = 0;
    while i < inputs.len()
        invariant
            0 <= i <= inputs@.len(),
            published@.map_values(|r: OutboundRecord| r@) == spec_published(
                inputs@.take(i as int),
            ),
            committed@ == spec_committed(inputs@.take(i as int)),
            reports@.map_values(|r: FailureReport| r@) == spec_reports(inputs@.take(i as int)),
        decreases inputs@.len() - i,
    {
        let ghost inp = inputs@[i as int];
        let ghost done = inputs@.take(i as int);
        let ghost one = seq![inputs@[i as int]];
        proof {
            assert(inputs@.take(i as int + 1) =~= done + one);
            lemma_run_concat(done, one);
            assert(one.drop_first() =~= Seq::<WorkerInput>::empty());
            assert(spec_published(Seq::<WorkerInput>::empty()) == Seq::<RecordV>::empty());
            assert(spec_committed(Seq::<WorkerInput>::empty()) == Seq::<u64>::empty());
            assert(spec_reports(Seq::<WorkerInput>::empty()) == Seq::<ReportV>::empty());
            assert(one[0] == inp);
        }
        let outcome = process_message(&inputs[i]);
        match outcome {
            MessageOutcome::Completed { record, offset } => {
                let ghost recv = record@;
                let ghost oldpub = published@;
                let ghost oldcom = committed@;
                published.push(record);
                committed.push(offset);
                proof {
                    assert(spec_outcome(inp) == OutcomeV::Completed { record: recv, offset });
                    assert(spec_published(one) =~= seq![recv]);
                    assert(spec_committed(one) =~= seq![offset]);
                    assert(spec_reports(one) =~= Seq::<ReportV>::empty());
                    assert(published@.map_values(|r: OutboundRecord| r@) =~= oldpub.map_values(
                        |r: OutboundRecord| r@,
                    ) + seq![recv]);
                    assert(committed@ =~= oldcom + seq![offset]);
                    assert(reports@.map_values(|r: FailureReport| r@) =~= reports@.map_values(
                        |r: FailureReport| r@,
                    ) + Seq::<ReportV>::empty());
                }
            },
            MessageOutcome::PublishFailed { record: _, report } => {
                let ghost repv = report@;
                let ghost oldrep = reports@;
                reports.push(report);
                proof {
                    assert(spec_outcome(inp) is PublishFailed);
                    assert(spec_outcome(inp)->PublishFailed_report == repv);
                    assert(spec_published(one) =~= Seq::<RecordV>::empty());
                    assert(spec_committed(one) =~= Seq::<u64>::empty());
                    assert(spec_reports(one) =~= seq![repv]);
                    assert(reports@.map_values(|r: FailureReport| r@) =~= oldrep.map_values(
                        |r: FailureReport| r@,
                    ) + seq![repv]);
                    assert(published@.map_values(|r: OutboundRecord| r@) =~= published@.map_values(
                        |r: OutboundRecord| r@,
                    ) + Seq::<RecordV>::empty());
                    assert(committed@ =~= committed@ + Seq::<u64>::empty());
                }
            },
            MessageOutcome::Skipped { report } => {
                let ghost repv = report@;
                let ghost oldrep = reports@;
                reports.push(report);
                proof {
                    assert(spec_outcome(inp) is Skipped);
                    assert(spec_outcome(inp)->Skipped_report == repv);
                    assert(spec_published(one) =~= Seq::<RecordV>::empty());
                    assert(spec_committed(one) =~= Seq::<u64>::empty());
                    assert(spec_reports(one) =~= seq![repv]);
                    assert(reports@.map_values(|r: FailureReport| r@) =~= oldrep.map_values(
                        |r: FailureReport| r@,
                    ) + seq![repv]);
                    assert(published@.map_values(|r: OutboundRecord| r@) =~= published@.map_values(
                        |r: OutboundRecord| r@,
                    ) + Seq::<RecordV>::empty());
                    assert(committed@ =~= committed@ + Seq::<u64>::empty());
                }
            },
        }
        i = i + 1;
    }
    proof {
        assert(inputs@.take(inputs@.len() as int) =~= inputs@);
    }
    WorkerLog { published, committed, reports }
}

/// Whether an input's message resolves and decodes.
pub open spec fn spec_decode_ok(inp: WorkerInput) -> bool {
    spec_decoded(inp) is Ok
}

/// Acknowledge-after-publish, per message: the input offset is committed
/// exactly when the message decoded and the broker confirmed the publish.
/// A failed publish leaves the offset uncommitted — the message will be
/// redelivered — and a successful one leaves it committed.
pub proof fn lemma_commit_iff_confirmed_publish(inp: WorkerInput)
    ensures
        spec_committed(seq![inp]) == if spec_decode_ok(inp) && inp.publish_ok {
            seq![inp.msg.offset]
        } else {
            Seq::<u64>::empty()
        },
        spec_outcome(inp) is Completed <==> spec_decode_ok(inp) && inp.publish_ok,
{
    let one = seq![inp];
    assert(one.drop_first() =~= Seq::<WorkerInput>::empty());
    assert(spec_committed(Seq::<WorkerInput>::empty()) == Seq::<u64>::empty());
    assert(one[0] == inp);
    if spec_outcome(inp) is Completed {
        assert(spec_outcome(inp)->Completed_offset == inp.msg.offset);
        assert(spec_committed(one) =~= seq![inp.msg.offset]);
    } else {
        assert(spec_committed(one) =~= Seq::<u64>::empty());
    }
}

/// A published response propagates the decoded id: whenever anything is
/// handed to the broker for this input, its bytes are the encoding of the
/// input payload's own id with the evaluated result, on the input channel's
/// fixed output channel.
pub proof fn lemma_response_preserves_id(inp: WorkerInput)
    requires
        spec_decoded(inp) is Ok,
    ensures
        ({
            let (t, req) = spec_decoded(inp)->Ok_0;
            let record = match spec_outcome(inp) {
                OutcomeV::Completed { record, .. } => record,
                OutcomeV::PublishFailed { record, .. } => record,
                OutcomeV::Skipped { .. } => arbitrary(),
            };
            record.topic == t && record.payload == spec_encode_response(req.id, inp.eval)
        }),
{
}

/// One input sequence, divided among any number of workers in order: the
/// concatenation of the parts.
pub open spec fn concat_all(parts: Seq<Seq<WorkerInput>>) -> Seq<WorkerInput>
    decreases parts.len(),
{
    if parts.len() == 0 {
        Seq::empty()
    } else {
        concat_all(parts.drop_last()) + parts.last()
    }
}

/// What a pool publishes over all its workers, as a collection without
/// order: across workers no delivery order is promised.
pub open spec fn pool_published(parts: Seq<Seq<WorkerInput>>) -> Multiset<RecordV>
    decreases parts.len(),
{
    if parts.len() == 0 {
        Multiset::empty()
    } else {
        pool_published(parts.drop_last()).add(spec_published(parts.last()).to_multiset())
    }
}

/// An empty run publishes the empty collection.
proof fn lemma_published_empty_multiset()
    ensures
        spec_published(Seq::<WorkerInput>::empty()).to_multiset() == Multiset::<RecordV>::empty(),
{
    broadcast use vstd::seq_lib::group_to_multiset_ensures;
    broadcast use vstd::multiset::group_multiset_axioms;

    let e = spec_published(Seq::<WorkerInput>::empty());
    assert(e == Seq::<RecordV>::empty());
    assert forall|r: RecordV| e.to_multiset().count(r) == 0 by {
        if e.to_multiset().count(r) > 0 {
            assert(e.contains(r));
        }
    }
    assert(e.to_multiset() =~= Multiset::<RecordV>::empty());
}

/// Worker-count equivalence: however the input set is divided among
/// workers — all to one worker, or split across several — the records
/// published over all workers together are exactly the records one worker
/// publishes on the whole set.  Order across workers is not preserved;
/// content is.
pub proof fn lemma_pool_content_equivalence(parts: Seq<Seq<WorkerInput>>)
    ensures
        pool_published(parts) == spec_published(concat_all(parts)).to_multiset(),
    decreases parts.len(),
{
    if parts.len() == 0 {
        lemma_published_empty_multiset();
    } else {
        let front = parts.drop_last();
        let last = parts.last();
        lemma_pool_content_equivalence(front);
        lemma_run_concat(concat_all(front), last);
        lemma_multiset_commutative(spec_published(concat_all(front)), spec_published(last));
        assert(pool_published(parts) =~= spec_published(concat_all(parts)).to_multiset());
    }
}

} // verus!
