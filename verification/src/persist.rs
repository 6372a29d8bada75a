//! Durable record formats: the checkpoint of a long-running task and the
//! byte codecs for it and for task metadata.  Values round-trip exactly
//! through their encodings, and a checkpoint carries a digest of its partial
//! result that verification recomputes.

use vstd::prelude::*;
use vstd::bytes::{
    lemma_auto_spec_u128_to_from_le_bytes, lemma_auto_spec_u32_to_from_le_bytes,
    lemma_auto_spec_u64_to_from_le_bytes, spec_u128_from_le_bytes, spec_u128_to_le_bytes,
    spec_u32_from_le_bytes, spec_u32_to_le_bytes, spec_u64_from_le_bytes, spec_u64_to_le_bytes,
    u128_from_le_bytes, u128_to_le_bytes, u32_from_le_bytes, u32_to_le_bytes, u64_from_le_bytes,
    u64_to_le_bytes,
};
use sha2::Digest;
use crate::task::{MetaView, TaskMetadata, TaskStatus};

verus! {

/// The largest decimal magnitude: one beyond what 96 bits hold.
pub const MAX_DECIMAL_MAGNITUDE: u128 = 0x1000000000000000000000000;

/// The largest decimal scale.
pub const MAX_DECIMAL_SCALE: u32 = 28;

/// A decimal number carried as plain values: sign, 96-bit magnitude, and
/// the power of ten it is divided by.  Partial results are kept this way so
/// that resumed checkpoints never drift.
#[derive(Clone, Copy, PartialEq, Eq, Structural, Debug)]
pub struct DecimalValue {
    pub negative: bool,
    pub magnitude: u128,
    pub scale: u32,
}

impl DecimalValue {
    pub open spec fn wf(&self) -> bool {
        &&& self.magnitude < 0x1000000000000000000000000
    &&& self.scale <= 28
    }
}

/// The name of what sha2's Sha256 returns for given bytes.
pub uninterp spec fn sha256_of(data: Seq<u8>) -> Seq<u8>;

/// Relies on sha2's Sha256: the digest depends on the input bytes alone and
/// is 32 bytes long.
#[verifier::external_body]
pub fn sha256(data: &[u8]) -> (r: Vec<u8>)
    ensures
        r@ == sha256_of(data@),
        r@.len() == 32,
{
    sha2::Sha256::digest(data).to_vec()
}

/// Whether two byte strings hold the same bytes.
pub fn bytes_eq(a: &[u8], b: &[u8]) -> (r: bool)
    ensures
        r == (a@ == b@),
{
    if a.len() != b.len() {
        return false;
    }
    let mut i: usize = 0;
    while i < a.len()
        invariant
            i <= a@.len(),
            a@.len() == b@.len(),
            forall|j: int| 0 <= j < i ==> a@[j] == b@[j],
        decreases a@.len() - i,
    {
        if a[i] != b[i] {
            return false;
        }
        i = i + 1;
    }
    proof {
        assert(a@ =~= b@);
    }
    true
}

/// Appends all of `src` to `out`.
pub fn append_bytes(out: &mut Vec<u8>, src: &[u8])
    ensures
        final(out)@ == old(out)@ + src@,
{
    let mut i: usize = 0;
    proof {
        assert(out@ =~= old(out)@ + src@.take(0));
    }
    while i < src.len()
        invariant
            i <= src@.len(),
            out@ == old(out)@ + src@.take(i as int),
        decreases src@.len() - i,
    {
        out.push(src[i]);
        proof {
            assert(out@ =~= old(out)@ + src@.take(i + 1));
        }
        i = i + 1;
    }
    proof {
        assert(src@.take(src@.len() as int) =~= src@);
    }
}

/// The byte encoding of a decimal: sign, magnitude, scale.
pub open spec fn spec_encode_decimal(d: DecimalValue) -> Seq<u8> {
    seq![if d.negative { 1u8 } else { 0u8 }] + spec_u128_to_le_bytes(d.magnitude)
        + spec_u32_to_le_bytes(d.scale)
}

/// Encodes a decimal into 21 bytes.
pub fn encode_decimal(d: &DecimalValue) -> (r: Vec<u8>)
    ensures
        r@ == spec_encode_decimal(*d),
        r@.len() == 21,
{
    proof {
        lemma_auto_spec_u128_to_from_le_bytes();
        lemma_auto_spec_u32_to_from_le_bytes();
    }
    let mut out: Vec<u8> = Vec::new();
    if d.negative {
        out.push(1);
    } else {
        out.push(0);
    }
    let mag = u128_to_le_bytes(d.magnitude);
    append_bytes(&mut out, mag.as_slice());
    let sc = u32_to_le_bytes(d.scale);
    append_bytes(&mut out, sc.as_slice());
    proof {
        assert(out@ =~= spec_encode_decimal(*d));
    }
    out
}

/// A durable snapshot of a long-running task's partial progress.
pub struct PersistedCheckpoint {
    pub task_id: u128,
    pub current_iteration: u64,
    pub total_iterations: u64,
    pub partial_result: DecimalValue,
    pub last_checkpoint: u64,
    pub integrity_hash: Vec<u8>,
}

/// The abstract value of a checkpoint.
pub ghost struct CheckpointView {
    pub task_id: u128,
    pub current_iteration: u64,
    pub total_iterations: u64,
    pub partial_result: DecimalValue,
    pub last_checkpoint: u64,
    pub integrity_hash: Seq<u8>,
}

impl View for PersistedCheckpoint {
    type V = CheckpointView;

    open spec fn view(&self) -> CheckpointView {
        CheckpointView {
            task_id: self.task_id,
            current_iteration: self.current_iteration,
            total_iterations: self.total_iterations,
            partial_result: self.partial_result,
            last_checkpoint: self.last_checkpoint,
            integrity_hash: self.integrity_hash@,
        }
    }
}

/// What every checkpoint satisfies.
pub open spec fn checkpoint_wf(c: CheckpointView) -> bool {
    &&& c.current_iteration <= c.total_iterations
    &&& c.partial_result.wf()
    &&& c.integrity_hash.len() == 32
}

impl PersistedCheckpoint {
    pub open spec fn wf(&self) -> bool {
        checkpoint_wf(self@)
    }

    /// A copy with the same abstract value.
    pub fn duplicate(&self) -> (r: PersistedCheckpoint)
        ensures
            r@ == self@,
    {
        let mut hash: Vec<u8> = Vec::new();
        append_bytes(&mut hash, self.integrity_hash.as_slice());
        proof {
            assert(hash@ =~= self.integrity_hash@);
        }
        PersistedCheckpoint {
            task_id: self.task_id,
            current_iteration: self.current_iteration,
            total_iterations: self.total_iterations,
            partial_result: self.partial_result,
            last_checkpoint: self.last_checkpoint,
            integrity_hash: hash,
        }
    }
}

/// The byte encoding of a checkpoint.
pub open spec fn spec_encode_checkpoint(c: CheckpointView) -> Seq<u8> {
    spec_u128_to_le_bytes(c.task_id) + spec_u64_to_le_bytes(c.current_iteration)
        + spec_u64_to_le_bytes(c.total_iterations) + spec_encode_decimal(c.partial_result)
        + spec_u64_to_le_bytes(c.last_checkpoint) + c.integrity_hash
}

/// The checkpoint a byte string holds, when it holds one.
pub open spec fn spec_decode_checkpoint(b: Seq<u8>) -> Option<CheckpointView> {
    if b.len() != 93 {
        None
    } else {
        let sign = b[32];
        let c = CheckpointView {
            task_id: spec_u128_from_le_bytes(b.subrange(0, 16)),
            current_iteration: spec_u64_from_le_bytes(b.subrange(16, 24)),
            total_iterations: spec_u64_from_le_bytes(b.subrange(24, 32)),
            partial_result: DecimalValue {
                negative: sign == 1,
                magnitude: spec_u128_from_le_bytes(b.subrange(33, 49)),
                scale: spec_u32_from_le_bytes(b.subrange(49, 53)),
            },
            last_checkpoint: spec_u64_from_le_bytes(b.subrange(53, 61)),
            integrity_hash: b.subrange(61, 93),
        };
        if sign <= 1 && checkpoint_wf(c) {
            Some(c)
        } else {
            None
        }
    }
}

/// Encodes a checkpoint into 93 bytes.
pub fn encode_checkpoint(c: &PersistedCheckpoint) -> (r: Vec<u8>)
    requires
        c.wf(),
    ensures
        r@ == spec_encode_checkpoint(c@),
        r@.len() == 93,
{
    proof {
        lemma_auto_spec_u128_to_from_le_bytes();
        lemma_auto_spec_u64_to_from_le_bytes();
    }
    let mut out: Vec<u8> = Vec::new();
    let id = u128_to_le_bytes(c.task_id);
    append_bytes(&mut out, id.as_slice());
    let cur = u64_to_le_bytes(c.current_iteration);
    append_bytes(&mut out, cur.as_slice());
    let total = u64_to_le_bytes(c.total_iterations);
    append_bytes(&mut out, total.as_slice());
    let dec = encode_decimal(&c.partial_result);
    append_bytes(&mut out, dec.as_slice());
    let last = u64_to_le_bytes(c.last_checkpoint);
    append_bytes(&mut out, last.as_slice());
    append_bytes(&mut out, c.integrity_hash.as_slice());
    proof {
        assert(out@ =~= spec_encode_checkpoint(c@));
    }
    out
}

/// Decodes a checkpoint; malformed bytes yield nothing.
pub fn decode_checkpoint(b: &[u8]) -> (r: Option<PersistedCheckpoint>)
    ensures
        match r {
            Some(c) => spec_decode_checkpoint(b@) == Some(c@) && c.wf(),
            None => spec_decode_checkpoint(b@) is None,
        },
{
    if b.len() != 93 {
        return None;
    }
    let task_id = u128_from_le_bytes(&b[0..16]);
    let current_iteration = u64_from_le_bytes(&b[16..24]);
    let total_iterations = u64_from_le_bytes(&b[24..32]);
    let sign = b[32];
    let magnitude = u128_from_le_bytes(&b[33..49]);
    let scale = u32_from_le_bytes(&b[49..53]);
    let last_checkpoint = u64_from_le_bytes(&b[53..61]);
    if sign > 1 || magnitude >= MAX_DECIMAL_MAGNITUDE || scale > MAX_DECIMAL_SCALE
        || current_iteration > total_iterations {
        return None;
    }
    let mut hash: Vec<u8> = Vec::new();
    append_bytes(&mut hash, &b[61..93]);
    proof {
        assert(hash@ =~= b@.subrange(61, 93));
    }
    let c = PersistedCheckpoint {
        task_id,
        current_iteration,
        total_iterations,
        partial_result: DecimalValue { negative: sign == 1, magnitude, scale },
        last_checkpoint,
        integrity_hash: hash,
    };
    Some(c)
}

/// A value written and read back is the same value: decoding inverts
/// encoding on every well-formed checkpoint.
pub proof fn lemma_checkpoint_roundtrip(c: CheckpointView)
    requires
        checkpoint_wf(c),
    ensures
        spec_decode_checkpoint(spec_encode_checkpoint(c)) == Some(c),
{
    lemma_auto_spec_u128_to_from_le_bytes();
    lemma_auto_spec_u64_to_from_le_bytes();
    lemma_auto_spec_u32_to_from_le_bytes();
    let e = spec_encode_checkpoint(c);
    assert(e.len() == 93);
    assert(e.subrange(0, 16) =~= spec_u128_to_le_bytes(c.task_id));
    assert(e.subrange(16, 24) =~= spec_u64_to_le_bytes(c.current_iteration));
    assert(e.subrange(24, 32) =~= spec_u64_to_le_bytes(c.total_iterations));
    assert(e[32] == if c.partial_result.negative { 1u8 } else { 0u8 });
    assert(e.subrange(33, 49) =~= spec_u128_to_le_bytes(c.partial_result.magnitude));
    assert(e.subrange(49, 53) =~= spec_u32_to_le_bytes(c.partial_result.scale));
    assert(e.subrange(53, 61) =~= spec_u64_to_le_bytes(c.last_checkpoint));
    assert(e.subrange(61, 93) =~= c.integrity_hash);
    let d = spec_decode_checkpoint(e).unwrap();
    assert(d.partial_result == c.partial_result);
    assert(d =~= c);
}

/// A checkpoint over a partial result, stamped with the digest that
/// verification recomputes.
pub fn make_checkpoint(
    task_id: u128,
    current_iteration: u64,
    total_iterations: u64,
    partial_result: DecimalValue,
    now_ms: u64,
) -> (r: PersistedCheckpoint)
    requires
        current_iteration <= total_iterations,
        partial_result.wf(),
    ensures
        r.wf(),
        r@.task_id == task_id,
        r@.current_iteration == current_iteration,
        r@.total_iterations == total_iterations,
        r@.partial_result == partial_result,
        r@.last_checkpoint == now_ms,
        r@.integrity_hash == sha256_of(spec_encode_decimal(partial_result)),
{
    let body = encode_decimal(&partial_result);
    let hash = sha256(body.as_slice());
    PersistedCheckpoint {
        task_id,
        current_iteration,
        total_iterations,
        partial_result,
        last_checkpoint: now_ms,
        integrity_hash: hash,
    }
}

/// Whether the stored digest matches one recomputed over the partial
/// result.
pub fn verify_checkpoint(c: &PersistedCheckpoint) -> (r: bool)
    ensures
        r == (c@.integrity_hash == sha256_of(spec_encode_decimal(c@.partial_result))),
{
    let body = encode_decimal(&c.partial_result);
    let hash = sha256(body.as_slice());
    bytes_eq(c.integrity_hash.as_slice(), hash.as_slice())
}

/// The code a lifecycle state is stored as.
pub open spec fn status_code(s: TaskStatus) -> u8 {
    match s {
        TaskStatus::Cancelled => 0u8,
        TaskStatus::Completed => 1u8,
        TaskStatus::Queued => 2u8,
        TaskStatus::Running => 3u8,
        TaskStatus::Failed => 4u8,
        TaskStatus::Paused => 5u8,
    }
}

/// The lifecycle state a stored code stands for.
pub open spec fn status_from_code(b: u8) -> TaskStatus {
    if b == 0 {
        TaskStatus::Cancelled
    } else if b == 1 {
        TaskStatus::Completed
    } else if b == 2 {
        TaskStatus::Queued
    } else if b == 3 {
        TaskStatus::Running
    } else if b == 4 {
        TaskStatus::Failed
    } else {
        TaskStatus::Paused
    }
}

fn status_to_byte(s: TaskStatus) -> (r: u8)
    ensures
        r == status_code(s),
{
    match s {
        TaskStatus::Cancelled => 0,
        TaskStatus::Completed => 1,
        TaskStatus::Queued => 2,
        TaskStatus::Running => 3,
        TaskStatus::Failed => 4,
        TaskStatus::Paused => 5,
    }
}

fn status_from_byte(b: u8) -> (r: TaskStatus)
    ensures
        r == status_from_code(b),
{
    if b == 0 {
        TaskStatus::Cancelled
    } else if b == 1 {
        TaskStatus::Completed
    } else if b == 2 {
        TaskStatus::Queued
    } else if b == 3 {
        TaskStatus::Running
    } else if b == 4 {
        TaskStatus::Failed
    } else {
        TaskStatus::Paused
    }
}

/// The encoding of an optional timestamp: a presence byte, then the value
/// or zero.
pub open spec fn spec_encode_opt_u64(o: Option<u64>) -> Seq<u8> {
    match o {
        None => seq![0u8] + spec_u64_to_le_bytes(0),
        Some(v) => seq![1u8] + spec_u64_to_le_bytes(v),
    }
}

/// The encoding of a dependency list, front to back.
pub open spec fn spec_encode_ids(ds: Seq<u128>) -> Seq<u8>
    decreases ds.len(),
{
    if ds.len() == 0 {
        Seq::empty()
    } else {
        spec_u128_to_le_bytes(ds.first()) + spec_encode_ids(ds.drop_first())
    }
}

proof fn lemma_encode_ids_push(ds: Seq<u128>, x: u128)
    ensures
        spec_encode_ids(ds.push(x)) == spec_encode_ids(ds) + spec_u128_to_le_bytes(x),
    decreases ds.len(),
{
    lemma_auto_spec_u128_to_from_le_bytes();
    if ds.len() == 0 {
        assert(ds.push(x).first() == x);
        assert(ds.push(x).drop_first() =~= ds);
        assert(spec_encode_ids(ds) =~= Seq::<u8>::empty());
        assert(spec_encode_ids(ds.push(x)) =~= spec_encode_ids(ds) + spec_u128_to_le_bytes(x));
    } else {
        assert(ds.push(x).first() == ds.first());
        assert(ds.push(x).drop_first() =~= ds.drop_first().push(x));
        lemma_encode_ids_push(ds.drop_first(), x);
        assert(spec_encode_ids(ds.push(x)) =~= spec_encode_ids(ds) + spec_u128_to_le_bytes(x));
    }
}

proof fn lemma_encode_ids_len(ds: Seq<u128>)
    ensures
        spec_encode_ids(ds).len() == 16 * ds.len(),
    decreases ds.len(),
{
    lemma_auto_spec_u128_to_from_le_bytes();
    if ds.len() > 0 {
        lemma_encode_ids_len(ds.drop_first());
    }
}

/// The dependency list held in `b`, one identifier per 16 bytes.
pub open spec fn spec_decode_ids(b: Seq<u8>) -> Seq<u128>
    decreases b.len(),
{
    if b.len() < 16 {
        Seq::empty()
    } else {
        seq![spec_u128_from_le_bytes(b.take(16))] + spec_decode_ids(b.skip(16))
    }
}

proof fn lemma_ids_roundtrip(ds: Seq<u128>)
    ensures
        spec_decode_ids(spec_encode_ids(ds)) == ds,
    decreases ds.len(),
{
    lemma_auto_spec_u128_to_from_le_bytes();
    lemma_encode_ids_len(ds);
    if ds.len() == 0 {
        assert(spec_decode_ids(spec_encode_ids(ds)) =~= ds);
    } else {
        let e = spec_encode_ids(ds);
        lemma_encode_ids_len(ds.drop_first());
        assert(e.take(16) =~= spec_u128_to_le_bytes(ds.first()));
        assert(e.skip(16) =~= spec_encode_ids(ds.drop_first()));
        lemma_ids_roundtrip(ds.drop_first());
        assert(spec_decode_ids(e) =~= ds);
    }
}

/// The byte encoding of task metadata.
pub open spec fn spec_encode_meta(m: MetaView) -> Seq<u8> {
    spec_u128_to_le_bytes(m.id) + spec_u64_to_le_bytes(m.submitted_at) + spec_encode_opt_u64(
        m.started_at,
    ) + spec_encode_opt_u64(m.completed_at) + seq![if m.gpu_compatible { 1u8 } else { 0u8 }]
        + seq![status_code(m.status)] + spec_u64_to_le_bytes(m.complexity) + seq![m.priority]
        + spec_u64_to_le_bytes(m.dependencies.len() as u64) + spec_encode_ids(m.dependencies)
}

/// The optional timestamp held at `off`: a clean presence byte, a zeroed
/// absent value.
pub open spec fn spec_decode_opt_u64(b: Seq<u8>, off: int) -> Option<Option<u64>> {
    let tag = b[off];
    let v = spec_u64_from_le_bytes(b.subrange(off + 1, off + 9));
    if tag == 0 && v == 0 {
        Some(None)
    } else if tag == 1 {
        Some(Some(v))
    } else {
        None
    }
}

/// The metadata a byte string holds, when it holds one.
pub open spec fn spec_decode_meta(b: Seq<u8>) -> Option<MetaView> {
    if b.len() < 61 {
        None
    } else {
        let n = spec_u64_from_le_bytes(b.subrange(53, 61));
        if b.len() != 61 + 16 * (n as int) || b[42] > 1 || b[43] > 5
            || spec_decode_opt_u64(b, 24) is None || spec_decode_opt_u64(b, 33) is None {
            None
        } else {
            Some(
                MetaView {
                    id: spec_u128_from_le_bytes(b.subrange(0, 16)),
                    submitted_at: spec_u64_from_le_bytes(b.subrange(16, 24)),
                    started_at: spec_decode_opt_u64(b, 24).unwrap(),
                    completed_at: spec_decode_opt_u64(b, 33).unwrap(),
                    dependencies: spec_decode_ids(b.skip(61)),
                    gpu_compatible: b[42] == 1,
                    status: status_from_code(b[43]),
                    complexity: spec_u64_from_le_bytes(b.subrange(44, 52)),
                    priority: b[52],
                },
            )
        }
    }
}

fn append_opt_u64(out: &mut Vec<u8>, o: Option<u64>)
    ensures
        final(out)@ == old(out)@ + spec_encode_opt_u64(o),
{
    proof {
        lemma_auto_spec_u64_to_from_le_bytes();
    }
    match o {
        None => {
            out.push(0);
            let z = u64_to_le_bytes(0);
            append_bytes(out, z.as_slice());
        },
        Some(v) => {
            out.push(1);
            let b = u64_to_le_bytes(v);
            append_bytes(out, b.as_slice());
        },
    }
    proof {
        assert(out@ =~= old(out)@ + spec_encode_opt_u64(o));
    }
}

/// Encodes task metadata.
pub fn encode_metadata(m: &TaskMetadata) -> (r: Vec<u8>)
    ensures
        r@ == spec_encode_meta(m@),
{
    proof {
        lemma_auto_spec_u128_to_from_le_bytes();
        lemma_auto_spec_u64_to_from_le_bytes();
    }
    let mut out: Vec<u8> = Vec::new();
    let id = u128_to_le_bytes(m.id);
    append_bytes(&mut out, id.as_slice());
    let sub = u64_to_le_bytes(m.submitted_at);
    append_bytes(&mut out, sub.as_slice());
    append_opt_u64(&mut out, m.started_at);
    append_opt_u64(&mut out, m.completed_at);
    if m.gpu_compatible {
        out.push(1);
    } else {
        out.push(0);
    }
    out.push(status_to_byte(m.status));
    let cx = u64_to_le_bytes(m.complexity);
    append_bytes(&mut out, cx.as_slice());
    out.push(m.priority);
    let n = u64_to_le_bytes(m.dependencies.len() as u64);
    append_bytes(&mut out, n.as_slice());
    let ghost head = out@;
    let mut i: usize = 0;
    proof {
        assert(m@.dependencies.take(0) =~= Seq::<u128>::empty());
        assert(out@ =~= head + spec_encode_ids(m@.dependencies.take(0)));
    }
    while i < m.dependencies.len()
        invariant
            i <= m.dependencies@.len(),
            out@ == head + spec_encode_ids(m@.dependencies.take(i as int)),
            m@.dependencies == m.dependencies@,
        decreases m.dependencies@.len() - i,
    {
        let d = u128_to_le_bytes(m.dependencies[i]);
        append_bytes(&mut out, d.as_slice());
        proof {
            lemma_encode_ids_push(m@.dependencies.take(i as int), m@.dependencies[i as int]);
            assert(m@.dependencies.take(i + 1) =~= m@.dependencies.take(i as int).push(
                m@.dependencies[i as int],
            ));
        }
        i = i + 1;
    }
    proof {
        assert(m@.dependencies.take(m@.dependencies.len() as int) =~= m@.dependencies);
        assert(out@ =~= spec_encode_meta(m@));
    }
    out
}

fn read_opt_u64(b: &[u8], off: usize) -> (r: Option<Option<u64>>)
    requires
        off + 9 <= b@.len(),
    ensures
        r == spec_decode_opt_u64(b@, off as int),
{
    let tag = b[off];
    let v = u64_from_le_bytes(&b[off + 1..off + 9]);
    if tag == 0 && v == 0 {
        Some(None)
    } else if tag == 1 {
        Some(Some(v))
    } else {
        None
    }
}

/// Decodes task metadata; malformed bytes yield nothing.
pub fn decode_metadata(b: &[u8]) -> (r: Option<TaskMetadata>)
    ensures
        match r {
            Some(m) => spec_decode_meta(b@) == Some(m@),
            None => spec_decode_meta(b@) is None,
        },
{
    if b.len() < 61 {
        return None;
    }
    let n = u64_from_le_bytes(&b[53..61]);
    let body = b.len() - 61;
    if body % 16 != 0 || (body / 16) as u64 != n {
        proof {
            assert(b@.len() != 61 + 16 * (n as int)) by (nonlinear_arith)
                requires
                    b@.len() >= 61,
                    body == b@.len() - 61,
                    body % 16 != 0 || (body / 16) as u64 != n,
            ;
        }
        return None;
    }
    proof {
        assert(b@.len() == 61 + 16 * (n as int)) by (nonlinear_arith)
            requires
                b@.len() >= 61,
                body == b@.len() - 61,
                body % 16 == 0,
                (body / 16) as u64 == n,
        ;
    }
    let gpu = b[42];
    let st = b[43];
    if gpu > 1 || st > 5 {
        return None;
    }
    let started_at = match read_opt_u64(b, 24) {
        Some(o) => o,
        None => {
            return None;
        },
    };
    let completed_at = match read_opt_u64(b, 33) {
        Some(o) => o,
        None => {
            return None;
        },
    };
    let id = u128_from_le_bytes(&b[0..16]);
    let submitted_at = u64_from_le_bytes(&b[16..24]);
    let complexity = u64_from_le_bytes(&b[44..52]);
    let priority = b[52];
    let count = body / 16;
    let blen = b.len();
    let mut deps: Vec<u128> = Vec::new();
    let mut i: usize = 0;
    let ghost dep_bytes = b@.skip(61);
    proof {
        assert(deps@ =~= Seq::<u128>::empty());
        assert(dep_bytes.skip(0) =~= dep_bytes);
        assert(deps@ + spec_decode_ids(dep_bytes.skip(0)) =~= spec_decode_ids(dep_bytes));
    }
    while i < count
        invariant
            i <= count,
            count == (b@.len() - 61) / 16,
            b@.len() == 61 + 16 * count,
            blen == b@.len(),
            dep_bytes == b@.skip(61),
            spec_decode_ids(dep_bytes) == deps@ + spec_decode_ids(dep_bytes.skip(16 * i as int)),
            deps@.len() == i,
        decreases count - i,
    {
        proof {
            assert(16 * (i as int) + 16 <= 16 * (count as int)) by (nonlinear_arith)
                requires
                    i < count,
            ;
            assert(16 * (i as int) <= b@.len());
            assert(61 + 16 * (i as int) + 16 <= b@.len());
        }
        let off = 61 + 16 * i;
        let d = u128_from_le_bytes(&b[off..off + 16]);
        proof {
            let rest = dep_bytes.skip(16 * i as int);
            assert(rest.len() == b@.len() - 61 - 16 * (i as int)) by {
                assert(dep_bytes.len() == b@.len() - 61);
            }
            assert(rest.len() >= 16);
            assert(rest.take(16) =~= b@.subrange(off as int, off as int + 16));
            assert(rest.skip(16) =~= dep_bytes.skip(16 * (i + 1) as int));
            assert(spec_decode_ids(rest) == seq![d] + spec_decode_ids(
                dep_bytes.skip(16 * (i + 1) as int),
            ));
        }
        deps.push(d);
        proof {
            assert(deps@ + spec_decode_ids(dep_bytes.skip(16 * (i + 1) as int))
                =~= deps@.drop_last() + (seq![d] + spec_decode_ids(
                dep_bytes.skip(16 * (i + 1) as int),
            )));
        }
        i = i + 1;
    }
    proof {
        assert(dep_bytes.skip(16 * count as int).len() == 0) by {
            assert(dep_bytes.len() == 16 * count as int);
        }
        assert(spec_decode_ids(dep_bytes.skip(16 * count as int)) =~= Seq::<u128>::empty());
        assert(deps@ =~= spec_decode_ids(dep_bytes));
    }
    let m = TaskMetadata {
        id,
        submitted_at,
        started_at,
        completed_at,
        dependencies: deps,
        gpu_compatible: gpu == 1,
        status: status_from_byte(st),
        complexity,
        priority,
    };
    proof {
        assert(spec_decode_meta(b@) == Some(m@));
    }
    Some(m)
}

/// A value written and read back is the same value: decoding inverts
/// encoding on every metadata record.
pub proof fn lemma_metadata_roundtrip(m: MetaView)
    requires
        m.dependencies.len() <= u64::MAX,
    ensures
        spec_decode_meta(spec_encode_meta(m)) == Some(m),
{
    lemma_auto_spec_u128_to_from_le_bytes();
    assert((m.dependencies.len() as u64) as int == m.dependencies.len() as int);
    lemma_auto_spec_u64_to_from_le_bytes();
    lemma_encode_ids_len(m.dependencies);
    let e = spec_encode_meta(m);
    assert(e.len() == 61 + 16 * m.dependencies.len());
    assert(e.subrange(0, 16) =~= spec_u128_to_le_bytes(m.id));
    assert(e.subrange(16, 24) =~= spec_u64_to_le_bytes(m.submitted_at));
    assert(e.subrange(24, 33) =~= spec_encode_opt_u64(m.started_at));
    assert(e.subrange(33, 42) =~= spec_encode_opt_u64(m.completed_at));
    assert(e[42] == if m.gpu_compatible { 1u8 } else { 0u8 });
    assert(e[43] == status_code(m.status));
    assert(e.subrange(44, 52) =~= spec_u64_to_le_bytes(m.complexity));
    assert(e[52] == m.priority);
    assert(e.subrange(53, 61) =~= spec_u64_to_le_bytes(m.dependencies.len() as u64));
    assert(e.skip(61) =~= spec_encode_ids(m.dependencies));
    lemma_ids_roundtrip(m.dependencies);
    assert(e.subrange(25int, 33int) =~= spec_encode_opt_u64(m.started_at).subrange(1, 9));
    assert(e.subrange(34int, 42int) =~= spec_encode_opt_u64(m.completed_at).subrange(1, 9));
    match m.started_at {
        None => {
            assert(spec_encode_opt_u64(m.started_at).subrange(1, 9) =~= spec_u64_to_le_bytes(0));
        },
        Some(v) => {
            assert(spec_encode_opt_u64(m.started_at).subrange(1, 9) =~= spec_u64_to_le_bytes(v));
        },
    }
    match m.completed_at {
        None => {
            assert(spec_encode_opt_u64(m.completed_at).subrange(1, 9) =~= spec_u64_to_le_bytes(
                0,
            ));
        },
        Some(v) => {
            assert(spec_encode_opt_u64(m.completed_at).subrange(1, 9) =~= spec_u64_to_le_bytes(
                v,
            ));
        },
    }
    let d = spec_decode_meta(e).unwrap();
    assert(d =~= m);
}

} // verus!
