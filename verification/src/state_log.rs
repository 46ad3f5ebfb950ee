//! State logs: the file `HLOG` followed by records of three little-endian
//! `u64`s (a step count and the least and greatest head position seen),
//! and the ranges that a picture of them spans.
use vstd::prelude::*;

verus! {

/// The bytes that a state log starts with.
pub open spec fn magic() -> Seq<u8> {
    seq![72u8, 76u8, 79u8, 71u8]
}

/// The size of a record in bytes.
pub const RECORD_BYTES: usize = 24;

/// The number that bytes stand for, least significant first.
pub open spec fn le_value(b: Seq<u8>) -> nat
    decreases b.len(),
{
    if b.len() == 0 {
        0
    } else {
        b[0] as nat + 256 * le_value(b.drop_first())
    }
}

/// `256` to the power `n`.
pub open spec fn pow256(n: nat) -> nat
    decreases n,
{
    if n == 0 {
        1
    } else {
        256 * pow256((n - 1) as nat)
    }
}

/// One record: step count, least and greatest head position.
pub struct LogRecord {
    pub steps: u64,
    pub min_pos: u64,
    pub max_pos: u64,
}

/// The record at position `k` of a log's bytes.
pub open spec fn record_at(b: Seq<u8>, k: int) -> (nat, nat, nat) {
    let o = 4 + 24 * k;
    (le_value(b.subrange(o, o + 8)), le_value(b.subrange(o + 8, o + 16)), le_value(b.subrange(o + 16, o + 24)))
}

/// Why a log cannot be read.
#[derive(Debug, Clone, Copy, PartialEq, Eq, Structural)]
pub enum LogError {
    /// The file does not start with `HLOG`.
    NotAStateLog,
}

proof fn lemma_pow256_positive(n: nat)
    ensures
        pow256(n) >= 1,
    decreases n,
{
    if n > 0 {
        lemma_pow256_positive((n - 1) as nat);
    }
}

proof fn lemma_le_value_bound(b: Seq<u8>)
    ensures
        le_value(b) < pow256(b.len()),
    decreases b.len(),
{
    if b.len() > 0 {
        lemma_le_value_bound(b.drop_first());
        let rest = le_value(b.drop_first());
        let p = pow256((b.len() - 1) as nat);
        assert(b[0] as nat + 256 * rest < 256 * p) by (nonlinear_arith)
            requires
                rest < p,
                b[0] < 256,
        ;
    }
}

/// The number that eight bytes from `at` stand for, least significant
/// first.
fn le_u64(b: &[u8], at: usize) -> (r: u64)
    requires
        at + 8 <= b@.len(),
    ensures
        r as nat == le_value(b@.subrange(at as int, at + 8)),
{
    let ghost s = b@.subrange(at as int, at + 8);
    proof {
        lemma_le_value_bound(s);
        assert(pow256(8) == 0x1_0000_0000_0000_0000) by {
            reveal_with_fuel(pow256, 9);
        }
    }
    let mut v: u64 = 0;
    let mut i: usize = 8;
    while i > 0
        invariant
            i <= 8,
            at + 8 <= b.len(),
            s == b@.subrange(at as int, at + 8),
            v as nat == le_value(s.subrange(i as int, 8)),
            le_value(s) < 0x1_0000_0000_0000_0000,
        decreases i,
    {
        let ghost tail = s.subrange(i as int, 8);
        let ghost next = s.subrange(i - 1, 8);
        assert(next.drop_first() =~= tail);
        assert(next[0] == b@[at + i - 1]);
        proof {
            lemma_le_value_bound(next);
            lemma_le_prefix_bound(s, (i - 1) as int);
            lemma_pow256_positive((i - 1) as nat);
            assert(s.subrange(i - 1, s.len() as int) == next);
            let lv = le_value(next);
            let pp = pow256((i - 1) as nat);
            assert(lv <= lv * pp) by (nonlinear_arith)
                requires
                    pp >= 1,
                    lv >= 0,
            ;
            assert(le_value(next) == next[0] as nat + 256 * le_value(tail));
            assert(le_value(next) < 0x1_0000_0000_0000_0000);
            assert(v as nat * 256 + b@[at + i - 1] as nat == le_value(next));
        }
        v = v * 256 + b[at + i - 1] as u64;
        i = i - 1;
    }
    assert(s.subrange(0, 8) =~= s);
    v
}

/// The value of the last bytes of a sequence is at most the value of all
/// of it.
proof fn lemma_le_prefix_bound(s: Seq<u8>, i: int)
    requires
        0 <= i <= s.len(),
    ensures
        le_value(s.subrange(i, s.len() as int)) * pow256(i as nat) <= le_value(s),
    decreases i,
{
    if i > 0 {
        lemma_le_prefix_bound(s.drop_first(), i - 1);
        assert(s.drop_first().subrange(i - 1, s.drop_first().len() as int) =~= s.subrange(i, s.len() as int));
        let a = le_value(s.subrange(i, s.len() as int));
        let p = pow256((i - 1) as nat);
        let d = le_value(s.drop_first());
        assert(a * (256 * p) <= s[0] as nat + 256 * d) by (nonlinear_arith)
            requires
                a * p <= d,
                a >= 0,
                p >= 0,
        ;
        assert(pow256(i as nat) == 256 * p);
        assert(le_value(s) == s[0] as nat + 256 * d);
        assert(a * pow256(i as nat) == a * (256 * p));
    } else {
        assert(s.subrange(0, s.len() as int) =~= s);
        assert(pow256(0) == 1);
        assert(le_value(s) * 1 == le_value(s));
    }
}

/// Reads a state log: `HLOG`, then every complete record, in order; bytes
/// after the last complete record are left unread.
pub fn parse_state_log(b: &[u8]) -> (r: Result<Vec<LogRecord>, LogError>)
    ensures
        (b@.len() < 4 || b@.subrange(0, 4) != magic()) ==> r == Err::<Vec<LogRecord>, LogError>(LogError::NotAStateLog),
        (b@.len() >= 4 && b@.subrange(0, 4) == magic()) ==> (r matches Ok(recs) && recs@.len() == (b@.len() - 4) / 24
            && forall|k: int|
            0 <= k < recs@.len() ==> (#[trigger] recs@[k].steps as nat, recs@[k].min_pos as nat, recs@[k].max_pos as nat)
                == record_at(b@, k)),
{
    if b.len() < 4 || b[0] != 72 || b[1] != 76 || b[2] != 79 || b[3] != 71 {
        proof {
            if b@.len() >= 4 && b@.subrange(0, 4) == magic() {
                assert(b@[0] == b@.subrange(0, 4)[0]);
                assert(b@[1] == b@.subrange(0, 4)[1]);
                assert(b@[2] == b@.subrange(0, 4)[2]);
                assert(b@[3] == b@.subrange(0, 4)[3]);
            }
        }
        return Err(LogError::NotAStateLog);
    }
    assert(b@.subrange(0, 4) =~= magic());
    let n = (b.len() - 4) / 24;
    let mut recs: Vec<LogRecord> = Vec::new();
    let mut k: usize = 0;
    while k < n
        invariant
            k <= n,
            n == (b@.len() - 4) / 24,
            b@.len() >= 4,
            recs@.len() == k,
            forall|j: int|
                0 <= j < k ==> (#[trigger] recs@[j].steps as nat, recs@[j].min_pos as nat, recs@[j].max_pos as nat)
                    == record_at(b@, j),
        decreases n - k,
    {
        assert(4 + 24 * k + 24 <= b@.len()) by (nonlinear_arith)
            requires
                k < n,
                n == (b@.len() - 4) / 24,
                b@.len() >= 4,
        ;
        assert(b@.len() == b.len());
        let o = 4 + 24 * k;
        let steps = le_u64(b, o);
        let min_pos = le_u64(b, o + 8);
        let max_pos = le_u64(b, o + 16);
        recs.push(LogRecord { steps, min_pos, max_pos });
        k = k + 1;
    }
    Ok(recs)
}

/// The step counts and head positions that the records span: least and
/// greatest step count, least position and greatest position.
pub open spec fn spans(recs: Seq<LogRecord>, lo_steps: u64, hi_steps: u64, lo_pos: u64, hi_pos: u64) -> bool {
    &&& forall|k: int|
        0 <= k < recs.len() ==> lo_steps <= (#[trigger] recs[k]).steps <= hi_steps && lo_pos <= recs[k].min_pos
            && recs[k].max_pos <= hi_pos
    &&& exists|k: int| 0 <= k < recs.len() && (#[trigger] recs[k]).steps == lo_steps
    &&& exists|k: int| 0 <= k < recs.len() && (#[trigger] recs[k]).steps == hi_steps
    &&& exists|k: int| 0 <= k < recs.len() && (#[trigger] recs[k]).min_pos == lo_pos
    &&& exists|k: int| 0 <= k < recs.len() && (#[trigger] recs[k]).max_pos == hi_pos
}

/// The ranges of a log: `None` for a log without records.
pub fn log_ranges(recs: &Vec<LogRecord>) -> (r: Option<(u64, u64, u64, u64)>)
    ensures
        recs@.len() == 0 <==> r is None,
        r matches Some((a, b, c, d)) ==> spans(recs@, a, b, c, d),
{
    if recs.len() == 0 {
        return None;
    }
    let mut lo_steps = recs[0].steps;
    let mut hi_steps = recs[0].steps;
    let mut lo_pos = recs[0].min_pos;
    let mut hi_pos = recs[0].max_pos;
    let mut k: usize = 1;
    assert(recs@.take(1)[0] == recs@[0]);
    while k < recs.len()
        invariant
            1 <= k <= recs@.len(),
            spans(recs@.take(k as int), lo_steps, hi_steps, lo_pos, hi_pos),
        decreases recs.len() - k,
    {
        let ghost before = recs@.take(k as int);
        let r = &recs[k as usize];
        if r.steps < lo_steps {
            lo_steps = r.steps;
        }
        if r.steps > hi_steps {
            hi_steps = r.steps;
        }
        if r.min_pos < lo_pos {
            lo_pos = r.min_pos;
        }
        if r.max_pos > hi_pos {
            hi_pos = r.max_pos;
        }
        proof {
            let after = recs@.take(k + 1);
            assert(after == before.push(recs@[k as int]));
            assert forall|j: int| 0 <= j < after.len() implies lo_steps <= (#[trigger] after[j]).steps <= hi_steps
                && lo_pos <= after[j].min_pos && after[j].max_pos <= hi_pos by {
                if j < k {
                    assert(after[j] == before[j]);
                }
            }
            let w1 = if lo_steps == recs@[k as int].steps { k as int } else { choose|j: int| 0 <= j < before.len() && (#[trigger] before[j]).steps == lo_steps };
            assert(after[w1].steps == lo_steps);
            let w2 = if hi_steps == recs@[k as int].steps { k as int } else { choose|j: int| 0 <= j < before.len() && (#[trigger] before[j]).steps == hi_steps };
            assert(after[w2].steps == hi_steps);
            let w3 = if lo_pos == recs@[k as int].min_pos { k as int } else { choose|j: int| 0 <= j < before.len() && (#[trigger] before[j]).min_pos == lo_pos };
            assert(after[w3].min_pos == lo_pos);
            let w4 = if hi_pos == recs@[k as int].max_pos { k as int } else { choose|j: int| 0 <= j < before.len() && (#[trigger] before[j]).max_pos == hi_pos };
            assert(after[w4].max_pos == hi_pos);
        }
        k = k + 1;
    }
    assert(recs@.take(k as int) =~= recs@);
    Some((lo_steps, hi_steps, lo_pos, hi_pos))
}

} // verus!
