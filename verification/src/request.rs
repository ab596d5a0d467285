//! The request decoder: the channel-specific input wire schema, and its
//! parser.  The wire format is JSON; the subtraction channel's payload is an
//! object with exactly the members `id` (an unsigned 128-bit integer) and
//! `operands` (an array of numbers), in either order.  Unknown or repeated
//! members are rejected as malformed.  Decoding is a pure function of the
//! input bytes: each executable step is proved to compute its spec-level
//! twin, so the same bytes always yield the same request or the same error.

use vstd::prelude::*;
use vstd::slice::slice_to_vec;

use crate::scan::digits_val;
use crate::scan::digits_val_exec;
use crate::scan::is_digit;
use crate::scan::is_number_token;
use crate::scan::lemma_digits_end_bounds;
use crate::scan::lemma_scan_number_bounds;
use crate::scan::lemma_scan_number_token;
use crate::scan::lemma_skip_ws_bounds;
use crate::scan::match_at;
use crate::scan::match_at_exec;
use crate::scan::scan_number;
use crate::scan::scan_number_exec;
use crate::scan::scan_uint;
use crate::scan::skip_ws;
use crate::scan::skip_ws_exec;
use crate::topic::Topic;

verus! {

/// A required member of the input payload schema.
#[derive(Clone, Copy, PartialEq, Eq, Structural, Debug)]
pub enum RequiredField {
    Id,
    Operands,
}

/// Why a payload failed to decode.  The three kinds are kept apart on
/// purpose: a syntax error, a missing member and too few operands point at
/// different upstream problems, and the reports built from them must let an
/// operator tell which one occurred.
#[derive(Clone, Copy, PartialEq, Eq, Structural, Debug)]
pub enum DecodeError {
    /// The bytes are not a well-formed payload of the channel's schema.
    Malformed,
    /// The payload is well formed but a required member is absent.  An empty
    /// object reports the members in schema order, so `id` first.
    MissingField(RequiredField),
    /// The operand array is shorter than the channel's operation needs.
    Arity { found: usize },
}

/// The text of one JSON number token, kept as the bytes that appeared on the
/// wire.  The numeric value is only ever given meaning by the caller that
/// evaluates the operation; this crate moves the token around unchanged.
pub struct NumberText {
    pub bytes: Vec<u8>,
}

impl View for NumberText {
    type V = Seq<u8>;

    open spec fn view(&self) -> Seq<u8> {
        self.bytes@
    }
}

impl NumberText {
    /// Whether the bytes form exactly one number token of the grammar.
    pub open spec fn wf(&self) -> bool {
        is_number_token(self@)
    }

    /// Wraps a byte string after checking that it is one whole number token.
    pub fn new(bytes: Vec<u8>) -> (r: Option<NumberText>)
        ensures
            r is Some <==> is_number_token(bytes@),
            r is Some ==> r->0@ == bytes@ && r->0.wf(),
    {
        let n = bytes.len();
        match scan_number_exec(bytes.as_slice(), 0) {
            Some(k) if k == n => Some(NumberText { bytes }),
            _ => None,
        }
    }
}

/// An operation together with the operands decoded for it.  A variant is
/// added here, plus its decode rule, to extend the processor; evaluation
/// order and wire formats stay untouched.
pub enum Operation {
    /// Subtraction: left operand minus right operand.
    Minus(NumberText, NumberText),
}

impl Operation {
    /// Every operand is one whole number token; the decoder only builds
    /// operations that satisfy this.
    pub open spec fn wf(&self) -> bool {
        match self {
            Operation::Minus(l, r) => l.wf() && r.wf(),
        }
    }
}

/// Spec-level image of an `Operation`.
pub enum OperationV {
    Minus(Seq<u8>, Seq<u8>),
}

impl View for Operation {
    type V = OperationV;

    open spec fn view(&self) -> OperationV {
        match self {
            Operation::Minus(l, r) => OperationV::Minus(l@, r@),
        }
    }
}

/// One decoded unit of work: the caller's correlation id, propagated to the
/// response unchanged, and the operation to evaluate.
pub struct Request {
    pub id: u128,
    pub op: Operation,
}

impl Request {
    /// The operation's operands are well-formed number tokens.
    pub open spec fn wf(&self) -> bool {
        self.op.wf()
    }
}

/// Spec-level image of a `Request`.
pub struct RequestV {
    pub id: u128,
    pub op: OperationV,
}

impl View for Request {
    type V = RequestV;

    open spec fn view(&self) -> RequestV {
        RequestV { id: self.id, op: self.op@ }
    }
}

/// The raw payload of the subtraction schema before the arity rule is
/// applied: the id and every operand that appeared, in order.
pub struct PayloadRequest {
    pub id: u128,
    pub operands: Vec<NumberText>,
}

/// Spec-level image of a `PayloadRequest`.
pub struct PayloadV {
    pub id: u128,
    pub operands: Seq<Seq<u8>>,
}

impl View for PayloadRequest {
    type V = PayloadV;

    open spec fn view(&self) -> PayloadV {
        PayloadV { id: self.id, operands: self.operands@.map_values(|t: NumberText| t@) }
    }
}

/// One parsed member of the payload object.
pub enum MemberV {
    IdVal(u128),
    Ops(Seq<Seq<u8>>),
}

/// The member key `"id"`, quotes included.
pub open spec fn key_id() -> Seq<u8> {
    seq![34u8, 105u8, 100u8, 34u8]
}

/// The member key `"operands"`, quotes included.
pub open spec fn key_operands() -> Seq<u8> {
    seq![34u8, 111u8, 112u8, 101u8, 114u8, 97u8, 110u8, 100u8, 115u8, 34u8]
}

/// Parses the non-empty tail of an operand array starting at the first
/// number: number (ws `,` ws number)* ws `]`.  Returns the operand texts in
/// order and the index just past the closing bracket.
pub open spec fn spec_parse_elems(s: Seq<u8>, i: int) -> Result<(Seq<Seq<u8>>, int), DecodeError>
    decreases s.len() - i,
    when 0 <= i <= s.len()
{
    match scan_number(s, i) {
        None => Err(DecodeError::Malformed),
        Some(k) => {
            proof {
                lemma_scan_number_bounds(s, i);
            }
            let tok = s.subrange(i, k);
            let j = skip_ws(s, k);
            proof {
                lemma_skip_ws_bounds(s, k);
            }
            if j < s.len() && s[j] == 44 {
                let n = skip_ws(s, j + 1);
                proof {
                    lemma_skip_ws_bounds(s, j + 1);
                }
                match spec_parse_elems(s, n) {
                    Ok(p) => Ok((seq![tok] + p.0, p.1)),
                    Err(e) => Err(e),
                }
            } else if j < s.len() && s[j] == 93 {
                Ok((seq![tok], j + 1))
            } else {
                Err(DecodeError::Malformed)
            }
        },
    }
}

/// Parses a whole operand array at `i`: `[` ws `]`, or `[` ws elements.
pub open spec fn spec_parse_array(s: Seq<u8>, i: int) -> Result<(Seq<Seq<u8>>, int), DecodeError> {
    if 0 <= i < s.len() && s[i] == 91 {
        let j = skip_ws(s, i + 1);
        if j < s.len() && s[j] == 93 {
            Ok((Seq::empty(), j + 1))
        } else {
            spec_parse_elems(s, j)
        }
    } else {
        Err(DecodeError::Malformed)
    }
}

/// Parses one object member at `i`: a known key, ws `:` ws, and the value
/// form that key demands.  An unrecognised key is malformed; an id value
/// above the 128-bit range is malformed, as the schema's integer type cannot
/// carry it.
pub open spec fn spec_parse_member(s: Seq<u8>, i: int) -> Result<(MemberV, int), DecodeError> {
    if match_at(s, i, key_id()) {
        let j = skip_ws(s, i + 4);
        if j < s.len() && s[j] == 58 {
            let v = skip_ws(s, j + 1);
            match scan_uint(s, v) {
                None => Err(DecodeError::Malformed),
                Some(k) => if digits_val(s, v, k) > u128::MAX {
                    Err(DecodeError::Malformed)
                } else {
                    Ok((MemberV::IdVal(digits_val(s, v, k) as u128), k))
                },
            }
        } else {
            Err(DecodeError::Malformed)
        }
    } else if match_at(s, i, key_operands()) {
        let j = skip_ws(s, i + 10);
        if j < s.len() && s[j] == 58 {
            let v = skip_ws(s, j + 1);
            match spec_parse_array(s, v) {
                Ok(p) => Ok((MemberV::Ops(p.0), p.1)),
                Err(e) => Err(e),
            }
        } else {
            Err(DecodeError::Malformed)
        }
    } else {
        Err(DecodeError::Malformed)
    }
}

/// Which required member a one-member object lacks.
pub open spec fn spec_missing_after(m: MemberV) -> DecodeError {
    match m {
        MemberV::IdVal(_) => DecodeError::MissingField(RequiredField::Operands),
        MemberV::Ops(_) => DecodeError::MissingField(RequiredField::Id),
    }
}

/// Joins the two parsed members into a payload; two of the same kind mean a
/// repeated key, which the schema rejects.
pub open spec fn spec_combine_members(m1: MemberV, m2: MemberV) -> Result<PayloadV, DecodeError> {
    match (m1, m2) {
        (MemberV::IdVal(id), MemberV::Ops(ops)) => Ok(PayloadV { id, operands: ops }),
        (MemberV::Ops(ops), MemberV::IdVal(id)) => Ok(PayloadV { id, operands: ops }),
        _ => Err(DecodeError::Malformed),
    }
}

/// Parses a whole payload: ws `{` ws members ws `}` ws, with exactly the two
/// required members in either order and nothing after the object.
pub open spec fn spec_parse_payload(s: Seq<u8>) -> Result<PayloadV, DecodeError> {
    let i0 = skip_ws(s, 0);
    if i0 < s.len() && s[i0] == 123 {
        let i1 = skip_ws(s, i0 + 1);
        if i1 < s.len() && s[i1] == 125 {
            Err(DecodeError::MissingField(RequiredField::Id))
        } else {
            match spec_parse_member(s, i1) {
                Err(e) => Err(e),
                Ok((m1, i2)) => {
                    let i3 = skip_ws(s, i2);
                    if i3 < s.len() && s[i3] == 44 {
                        let i4 = skip_ws(s, i3 + 1);
                        match spec_parse_member(s, i4) {
                            Err(e) => Err(e),
                            Ok((m2, i5)) => {
                                let i6 = skip_ws(s, i5);
                                if i6 < s.len() && s[i6] == 125 && skip_ws(s, i6 + 1) == s.len() {
                                    spec_combine_members(m1, m2)
                                } else {
                                    Err(DecodeError::Malformed)
                                }
                            },
                        }
                    } else if i3 < s.len() && s[i3] == 125 {
                        if skip_ws(s, i3 + 1) == s.len() {
                            Err(spec_missing_after(m1))
                        } else {
                            Err(DecodeError::Malformed)
                        }
                    } else {
                        Err(DecodeError::Malformed)
                    }
                },
            }
        }
    } else {
        Err(DecodeError::Malformed)
    }
}

/// The decoder's whole contract: what `parse_request` returns for every
/// channel and every byte string.  The subtraction channel decodes the
/// payload schema, demands at least two operands, and silently ignores any
/// operands past the first two — a deliberately lenient rule, documented
/// here rather than tightened into an error.
pub open spec fn spec_parse_request(topic: Topic, s: Seq<u8>) -> Result<RequestV, DecodeError> {
    match topic {
        Topic::Minus => match spec_parse_payload(s) {
            Err(e) => Err(e),
            Ok(p) => if p.operands.len() < 2 {
                Err(DecodeError::Arity { found: p.operands.len() as usize })
            } else {
                Ok(RequestV { id: p.id, op: OperationV::Minus(p.operands[0], p.operands[1]) })
            },
        },
    }
}

/// The member key `"id"` as runtime bytes.
fn key_id_vec() -> (r: Vec<u8>)
    ensures
        r@ == key_id(),
{
    let mut r: Vec<u8> = Vec::new();
    r.push(34u8);
    r.push(105u8);
    r.push(100u8);
    r.push(34u8);
    proof {
        assert(r@ =~= key_id());
    }
    r
}

/// The member key `"operands"` as runtime bytes.
fn key_operands_vec() -> (r: Vec<u8>)
    ensures
        r@ == key_operands(),
{
    let mut r: Vec<u8> = Vec::new();
    r.push(34u8);
    r.push(111u8);
    r.push(112u8);
    r.push(101u8);
    r.push(114u8);
    r.push(97u8);
    r.push(110u8);
    r.push(100u8);
    r.push(115u8);
    r.push(34u8);
    proof {
        assert(r@ =~= key_operands());
    }
    r
}

/// Runtime twin of `spec_parse_elems`.
fn parse_elems(s: &[u8], i: usize) -> (r: Result<(Vec<NumberText>, usize), DecodeError>)
    requires
        i <= s@.len(),
    ensures
        match r {
            Ok(p) => spec_parse_elems(s@, i as int) == Ok::<(Seq<Seq<u8>>, int), DecodeError>(
                (p.0@.map_values(|t: NumberText| t@), p.1 as int),
            ) && p.1 <= s@.len() && (forall|m: int|
                0 <= m < p.0@.len() ==> (#[trigger] p.0@[m]).wf()),
            Err(e) => spec_parse_elems(s@, i as int) == Err::<(Seq<Seq<u8>>, int), DecodeError>(e),
        },
    decreases s@.len() - i,
{
    match scan_number_exec(s, i) {
        None => Err(DecodeError::Malformed),
        Some(k) => {
            let tok = NumberText { bytes: slice_to_vec(&s[i..k]) };
            proof {
                lemma_scan_number_token(s@, i as int, k as int);
                assert(tok.wf());
            }
            let j = skip_ws_exec(s, k);
            if j < s.len() && s[j] == 44 {
                let n = skip_ws_exec(s, j + 1);
                match parse_elems(s, n) {
                    Ok((mut v, end)) => {
                        let ghost oldv = v@;
                        v.insert(0, tok);
                        proof {
                            oldv.insert_ensures(0, tok);
                            assert(v@.map_values(|t: NumberText| t@) =~= seq![
                                s@.subrange(i as int, k as int),
                            ] + oldv.map_values(|t: NumberText| t@));
                        }
                        Ok((v, end))
                    },
                    Err(e) => Err(e),
                }
            } else if j < s.len() && s[j] == 93 {
                let mut v: Vec<NumberText> = Vec::new();
                v.push(tok);
                proof {
                    assert(v@.map_values(|t: NumberText| t@) =~= seq![
                        s@.subrange(i as int, k as int),
                    ]);
                }
                Ok((v, j + 1))
            } else {
                Err(DecodeError::Malformed)
            }
        },
    }
}

/// Runtime twin of `spec_parse_array`.
fn parse_array(s: &[u8], i: usize) -> (r: Result<(Vec<NumberText>, usize), DecodeError>)
    requires
        i <= s@.len(),
    ensures
        match r {
            Ok(p) => spec_parse_array(s@, i as int) == Ok::<(Seq<Seq<u8>>, int), DecodeError>(
                (p.0@.map_values(|t: NumberText| t@), p.1 as int),
            ) && p.1 <= s@.len() && (forall|m: int|
                0 <= m < p.0@.len() ==> (#[trigger] p.0@[m]).wf()),
            Err(e) => spec_parse_array(s@, i as int) == Err::<(Seq<Seq<u8>>, int), DecodeError>(e),
        },
{
    if i < s.len() && s[i] == 91 {
        let j = skip_ws_exec(s, i + 1);
        if j < s.len() && s[j] == 93 {
            let v: Vec<NumberText> = Vec::new();
            proof {
                assert(v@.map_values(|t: NumberText| t@) =~= Seq::<Seq<u8>>::empty());
            }
            Ok((v, j + 1))
        } else {
            parse_elems(s, j)
        }
    } else {
        Err(DecodeError::Malformed)
    }
}

/// One parsed member at runtime.
enum Member {
    IdVal(u128),
    Ops(Vec<NumberText>),
}

impl Member {
    spec fn wf(&self) -> bool {
        match self {
            Member::IdVal(_) => true,
            Member::Ops(v) => forall|m: int| 0 <= m < v@.len() ==> (#[trigger] v@[m]).wf(),
        }
    }

    spec fn view_member(&self) -> MemberV {
        match self {
            Member::IdVal(v) => MemberV::IdVal(*v),
            Member::Ops(v) => MemberV::Ops(v@.map_values(|t: NumberText| t@)),
        }
    }
}

/// Runtime twin of `spec_parse_member`.
fn parse_member(s: &[u8], i: usize) -> (r: Result<(Member, usize), DecodeError>)
    requires
        i <= s@.len(),
    ensures
        match r {
            Ok(p) => spec_parse_member(s@, i as int) == Ok::<(MemberV, int), DecodeError>(
                (p.0.view_member(), p.1 as int),
            ) && p.1 <= s@.len() && p.0.wf(),
            Err(e) => spec_parse_member(s@, i as int) == Err::<(MemberV, int), DecodeError>(e),
        },
{
    let n = s.len();
    let kid = key_id_vec();
    let kops = key_operands_vec();
    if match_at_exec(s, i, kid.as_slice()) {
        proof {
            assert(i + 4 <= n);
        }
        let j = skip_ws_exec(s, i + 4);
        if j < s.len() && s[j] == 58 {
            let v = skip_ws_exec(s, j + 1);
            match scan_uint_exec(s, v) {
                None => Err(DecodeError::Malformed),
                Some(k) => {
                    proof {
                        lemma_uint_digits(s@, v as int, k as int);
                    }
                    match digits_val_exec(s, v, k) {
                        None => Err(DecodeError::Malformed),
                        Some(val) => Ok((Member::IdVal(val), k)),
                    }
                },
            }
        } else {
            Err(DecodeError::Malformed)
        }
    } else if match_at_exec(s, i, kops.as_slice()) {
        proof {
            assert(i + 10 <= n);
        }
        let j = skip_ws_exec(s, i + 10);
        if j < s.len() && s[j] == 58 {
            let v = skip_ws_exec(s, j + 1);
            match parse_array(s, v) {
                Ok((ops, end)) => Ok((Member::Ops(ops), end)),
                Err(e) => Err(e),
            }
        } else {
            Err(DecodeError::Malformed)
        }
    } else {
        Err(DecodeError::Malformed)
    }
}

/// Every byte of a scanned unsigned-integer token is a digit.
proof fn lemma_uint_digits(s: Seq<u8>, i: int, k: int)
    requires
        0 <= i <= s.len(),
        scan_uint(s, i) == Some(k),
    ensures
        i <= k <= s.len(),
        forall|m: int| i <= m < k ==> is_digit(#[trigger] s[m]),
{
    if i < s.len() && s[i] == 48 {
    } else {
        lemma_digits_end_bounds(s, i);
    }
}

/// Runtime twin of `scan_uint`.
fn scan_uint_exec(s: &[u8], i: usize) -> (r: Option<usize>)
    requires
        i <= s@.len(),
    ensures
        match r {
            Some(k) => scan_uint(s@, i as int) == Some(k as int) && i <= k <= s@.len(),
            None => scan_uint(s@, i as int) is None,
        },
{
    if i < s.len() && s[i] == 48 {
        Some(i + 1)
    } else if i < s.len() && 48 <= s[i] && s[i] <= 57 {
        proof {
            lemma_digits_end_bounds(s@, i as int);
        }
        Some(crate::scan::digits_end_exec(s, i))
    } else {
        None
    }
}

/// Runtime twin of `spec_parse_payload`.
pub fn parse_payload(s: &[u8]) -> (r: Result<PayloadRequest, DecodeError>)
    ensures
        match r {
            Ok(p) => spec_parse_payload(s@) == Ok::<PayloadV, DecodeError>(p@) && (forall|m: int|
                0 <= m < p.operands@.len() ==> (#[trigger] p.operands@[m]).wf()),
            Err(e) => spec_parse_payload(s@) == Err::<PayloadV, DecodeError>(e),
        },
{
    let i0 = skip_ws_exec(s, 0);
    if !(i0 < s.len() && s[i0] == 123) {
        return Err(DecodeError::Malformed);
    }
    let i1 = skip_ws_exec(s, i0 + 1);
    if i1 < s.len() && s[i1] == 125 {
        return Err(DecodeError::MissingField(RequiredField::Id));
    }
    let (m1, i2) = match parse_member(s, i1) {
        Ok(p) => p,
        Err(e) => {
            return Err(e);
        },
    };
    let i3 = skip_ws_exec(s, i2);
    if i3 < s.len() && s[i3] == 44 {
        let i4 = skip_ws_exec(s, i3 + 1);
        let (m2, i5) = match parse_member(s, i4) {
            Ok(p) => p,
            Err(e) => {
                return Err(e);
            },
        };
        let i6 = skip_ws_exec(s, i5);
        if i6 < s.len() && s[i6] == 125 && skip_ws_exec(s, i6 + 1) == s.len() {
            match (m1, m2) {
                (Member::IdVal(id), Member::Ops(ops)) => Ok(PayloadRequest { id, operands: ops }),
                (Member::Ops(ops), Member::IdVal(id)) => Ok(PayloadRequest { id, operands: ops }),
                _ => Err(DecodeError::Malformed),
            }
        } else {
            Err(DecodeError::Malformed)
        }
    } else if i3 < s.len() && s[i3] == 125 {
        if skip_ws_exec(s, i3 + 1) == s.len() {
            match m1 {
                Member::IdVal(_) => Err(DecodeError::MissingField(RequiredField::Operands)),
                Member::Ops(_) => Err(DecodeError::MissingField(RequiredField::Id)),
            }
        } else {
            Err(DecodeError::Malformed)
        }
    } else {
        Err(DecodeError::Malformed)
    }
}

/// Decodes one inbound payload against the schema of the channel it arrived
/// on.  Pure and deterministic: the result is fixed by the channel and the
/// bytes, as `spec_parse_request` states, so decoding twice agrees, an
/// operand array of length zero or one always comes back as the arity
/// error, and no operand is ever substituted with a default.
pub fn parse_request(topic: &Topic, payload: &[u8]) -> (r: Result<Request, DecodeError>)
    ensures
        match r {
            Ok(req) => spec_parse_request(*topic, payload@) == Ok::<RequestV, DecodeError>(req@)
                && req.wf(),
            Err(e) => spec_parse_request(*topic, payload@) == Err::<RequestV, DecodeError>(e),
        },
{
    match topic {
        Topic::Minus => {
            let mut p = match parse_payload(payload) {
                Ok(p) => p,
                Err(e) => {
                    return Err(e);
                },
            };
            if p.operands.len() < 2 {
                return Err(DecodeError::Arity { found: p.operands.len() });
            }
            let left = p.operands.remove(0);
            let right = p.operands.remove(0);
            Ok(Request { id: p.id, op: Operation::Minus(left, right) })
        },
    }
}

/// Decoding is deterministic: two results that both satisfy
/// `parse_request`'s contract for the same channel and the same bytes are
/// the same value — the same request, or the same error kind.  The contract
/// pins the result to `spec_parse_request`, a function of the channel and
/// the bytes alone, so repeated decodes cannot disagree.
pub proof fn lemma_decode_deterministic(
    topic: Topic,
    s: Seq<u8>,
    r1: Result<RequestV, DecodeError>,
    r2: Result<RequestV, DecodeError>,
)
    requires
        r1 == spec_parse_request(topic, s),
        r2 == spec_parse_request(topic, s),
    ensures
        r1 == r2,
{
}

/// A payload whose operand array holds fewer than two entries always
/// decodes, on the subtraction channel, to the arity error carrying the
/// count that was found — never to a request with a substituted default
/// operand.
pub proof fn lemma_short_operands_arity(s: Seq<u8>)
    requires
        spec_parse_payload(s) is Ok,
        spec_parse_payload(s)->Ok_0.operands.len() < 2,
    ensures
        spec_parse_request(Topic::Minus, s) == Err::<RequestV, DecodeError>(
            DecodeError::Arity { found: spec_parse_payload(s)->Ok_0.operands.len() as usize },
        ),
{
}

} // verus!
