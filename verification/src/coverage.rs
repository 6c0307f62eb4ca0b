//! Edge-coverage bitmaps, FNV-1a hashing and exit classification.
//!
//! One run of the virtual machine yields an ordered trace of instruction
//! pointers.  The trace is folded into an AFL-style edge signal over a
//! fixed-size bitmap, and into a 64-bit path id used for deduplication.

use vstd::prelude::*;

verus! {

use vstd::string::StringSliceAdditionalSpecFns;

/// Number of slots in an edge-coverage bitmap (a power of two).
pub const MAP_SIZE: usize = 65536;

/// One FNV-1a step: xor the value in, then multiply by the 64-bit FNV prime
/// (wrapping).
pub open spec fn fnv64_step(h: u64, v: u64) -> u64 {
    vstd::wrapping::u64_specs::wrapping_mul(h ^ v, 0x100000001b3u64)
}

/// FNV-1a fold over a byte sequence, starting from hash state `h`.
pub open spec fn fnv64_bytes_from(h: u64, s: Seq<u8>) -> u64
    decreases s.len(),
{
    if s.len() == 0 {
        h
    } else {
        fnv64_bytes_from(fnv64_step(h, s[0] as u64), s.drop_first())
    }
}

/// 64-bit FNV-1a hash of a byte sequence.
pub open spec fn fnv64_bytes(s: Seq<u8>) -> u64 {
    fnv64_bytes_from(0xcbf29ce484222325u64, s)
}

/// One 32-bit FNV-1a step.
pub open spec fn fnv32_step(h: u32, v: u32) -> u32 {
    vstd::wrapping::u32_specs::wrapping_mul(h ^ v, 0x01000193u32)
}

/// 32-bit FNV-1a fold over a byte sequence, starting from hash state `h`.
pub open spec fn fnv32_bytes_from(h: u32, s: Seq<u8>) -> u32
    decreases s.len(),
{
    if s.len() == 0 {
        h
    } else {
        fnv32_bytes_from(fnv32_step(h, s[0] as u32), s.drop_first())
    }
}

/// 32-bit FNV-1a hash of a byte sequence.
pub open spec fn fnv32_bytes(s: Seq<u8>) -> u32 {
    fnv32_bytes_from(0x811c9dc5u32, s)
}

/// FNV-1a fold over a trace of 32-bit instruction pointers, starting from
/// hash state `h`.
pub open spec fn path_id_from(h: u64, s: Seq<u32>) -> u64
    decreases s.len(),
{
    if s.len() == 0 {
        h
    } else {
        path_id_from(fnv64_step(h, s[0] as u64), s.drop_first())
    }
}

/// The path id of an execution trace: an FNV-1a fold over its 32-bit words.
/// A pure function of the trace, so equal traces always yield equal ids.
pub open spec fn path_id_spec(s: Seq<u32>) -> u64 {
    path_id_from(0xcbf29ce484222325u64, s)
}

/// 64-bit FNV-1a hash of a byte vector.
pub fn hash64(bytes: &Vec<u8>) -> (r: u64)
    ensures
        r == fnv64_bytes(bytes@),
{
    let mut h: u64 = 0xcbf29ce484222325u64;
    let mut i: usize = 0;
    proof {
        assert(bytes@.skip(0) =~= bytes@);
    }
    while i < bytes.len()
        invariant
            i <= bytes@.len(),
            fnv64_bytes(bytes@) == fnv64_bytes_from(h, bytes@.skip(i as int)),
        decreases bytes@.len() - i,
    {
        proof {
            assert(bytes@.skip(i as int).len() > 0);
            assert(bytes@.skip(i as int)[0] == bytes@[i as int]);
            assert(bytes@.skip(i as int).drop_first() =~= bytes@.skip(i + 1));
        }
        h = (h ^ (bytes[i] as u64)).wrapping_mul(0x100000001b3u64);
        i = i + 1;
    }
    proof {
        assert(bytes@.skip(i as int) =~= Seq::<u8>::empty());
    }
    h
}

/// 32-bit FNV-1a hash of a byte vector.
pub fn hash32(bytes: &Vec<u8>) -> (r: u32)
    ensures
        r == fnv32_bytes(bytes@),
{
    let mut h: u32 = 0x811c9dc5u32;
    let mut i: usize = 0;
    proof {
        assert(bytes@.skip(0) =~= bytes@);
    }
    while i < bytes.len()
        invariant
            i <= bytes@.len(),
            fnv32_bytes(bytes@) == fnv32_bytes_from(h, bytes@.skip(i as int)),
        decreases bytes@.len() - i,
    {
        proof {
            assert(bytes@.skip(i as int).len() > 0);
            assert(bytes@.skip(i as int)[0] == bytes@[i as int]);
            assert(bytes@.skip(i as int).drop_first() =~= bytes@.skip(i + 1));
        }
        h = (h ^ (bytes[i] as u32)).wrapping_mul(0x01000193u32);
        i = i + 1;
    }
    proof {
        assert(bytes@.skip(i as int) =~= Seq::<u8>::empty());
    }
    h
}

/// 64-bit FNV-1a hash of a string's bytes.  Used to fingerprint canonical
/// forms of symbolic conditions.
pub fn hash_string(value: &str) -> (r: u64)
    ensures
        r == fnv64_bytes(value.spec_bytes()),
{
    let bytes = value.as_bytes();
    let mut h: u64 = 0xcbf29ce484222325u64;
    let mut i: usize = 0;
    proof {
        assert(bytes@.skip(0) =~= bytes@);
    }
    while i < bytes.len()
        invariant
            bytes@ == value.spec_bytes(),
            i <= bytes@.len(),
            fnv64_bytes(bytes@) == fnv64_bytes_from(h, bytes@.skip(i as int)),
        decreases bytes@.len() - i,
    {
        proof {
            assert(bytes@.skip(i as int).len() > 0);
            assert(bytes@.skip(i as int)[0] == bytes@[i as int]);
            assert(bytes@.skip(i as int).drop_first() =~= bytes@.skip(i + 1));
        }
        h = (h ^ (bytes[i] as u64)).wrapping_mul(0x100000001b3u64);
        i = i + 1;
    }
    proof {
        assert(bytes@.skip(i as int) =~= Seq::<u8>::empty());
    }
    h
}

/// The location id of a visited point: the run's base id xored with the
/// instruction pointer.
pub open spec fn cur_location(base_id: u64, pc: u64) -> u64 {
    base_id ^ pc
}

/// The bitmap slot of the edge from the previous location to this one.
pub open spec fn edge_slot(cur: u64, prev_loc: u64) -> int {
    ((cur ^ prev_loc) & 0xffffu64) as int
}

/// One step of the edge-coverage fold: bump the slot of the edge into `pc`
/// (saturating) and shift the location register.
pub open spec fn coverage_step(map: Seq<u8>, prev_loc: u64, base_id: u64, pc: u64) -> (Seq<u8>, u64) {
    let cur = cur_location(base_id, pc);
    let idx = edge_slot(cur, prev_loc);
    let bumped = if map[idx] == 255 {
        map
    } else {
        map.update(idx, (map[idx] + 1) as u8)
    };
    (bumped, cur >> 1u64)
}

/// The edge-coverage fold over a whole trace.
pub open spec fn coverage_fold(map: Seq<u8>, prev_loc: u64, base_id: u64, pcs: Seq<u64>) -> (
    Seq<u8>,
    u64,
)
    decreases pcs.len(),
{
    if pcs.len() == 0 {
        (map, prev_loc)
    } else {
        let (m, p) = coverage_step(map, prev_loc, base_id, pcs[0]);
        coverage_fold(m, p, base_id, pcs.drop_first())
    }
}

/// Whether bitmap slot `i` is touched by the fold over `pcs`.
pub open spec fn slot_touched(prev_loc: u64, base_id: u64, pcs: Seq<u64>, i: int) -> bool
    decreases pcs.len(),
{
    if pcs.len() == 0 {
        false
    } else {
        let cur = cur_location(base_id, pcs[0]);
        edge_slot(cur, prev_loc) == i || slot_touched(cur >> 1u64, base_id, pcs.drop_first(), i)
    }
}

/// Every edge lands inside the bitmap.
pub proof fn lemma_edge_slot_bound(cur: u64, prev_loc: u64)
    ensures
        0 <= edge_slot(cur, prev_loc) < MAP_SIZE,
{
    assert(((cur ^ prev_loc) & 0xffffu64) < 65536) by (bit_vector);
}

/// The location register after folding a whole trace.
pub open spec fn prev_fold(prev_loc: u64, base_id: u64, pcs: Seq<u64>) -> u64
    decreases pcs.len(),
{
    if pcs.len() == 0 {
        prev_loc
    } else {
        prev_fold(cur_location(base_id, pcs[0]) >> 1u64, base_id, pcs.drop_first())
    }
}

/// The location register of the fold does not depend on the bitmap.
pub proof fn lemma_fold_prev(map: Seq<u8>, prev_loc: u64, base_id: u64, pcs: Seq<u64>)
    ensures
        coverage_fold(map, prev_loc, base_id, pcs).1 == prev_fold(prev_loc, base_id, pcs),
    decreases pcs.len(),
{
    if pcs.len() > 0 {
        let (m, p) = coverage_step(map, prev_loc, base_id, pcs[0]);
        lemma_fold_prev(m, p, base_id, pcs.drop_first());
    }
}

/// Folding one more point is one step after folding the rest.
pub proof fn lemma_fold_snoc(map: Seq<u8>, prev_loc: u64, base_id: u64, pcs: Seq<u64>, x: u64)
    ensures
        coverage_fold(map, prev_loc, base_id, pcs.push(x)) == coverage_step(
            coverage_fold(map, prev_loc, base_id, pcs).0,
            coverage_fold(map, prev_loc, base_id, pcs).1,
            base_id,
            x,
        ),
    decreases pcs.len(),
{
    if pcs.len() == 0 {
        assert(pcs.push(x)[0] == x);
        assert(pcs.push(x).drop_first() =~= Seq::<u64>::empty());
        let (m, p) = coverage_step(map, prev_loc, base_id, x);
        assert(coverage_fold(m, p, base_id, Seq::<u64>::empty()) == (m, p));
        assert(coverage_fold(map, prev_loc, base_id, pcs) == (map, prev_loc));
    } else {
        let (m, p) = coverage_step(map, prev_loc, base_id, pcs[0]);
        assert(pcs.push(x)[0] == pcs[0]);
        assert(pcs.push(x).drop_first() =~= pcs.drop_first().push(x));
        assert(coverage_fold(map, prev_loc, base_id, pcs) == coverage_fold(
            m,
            p,
            base_id,
            pcs.drop_first(),
        ));
        lemma_fold_snoc(m, p, base_id, pcs.drop_first(), x);
    }
}

/// A slot is touched by a trace extended with one point exactly when the
/// shorter trace touches it or the new edge lands on it.
pub proof fn lemma_touched_snoc(prev_loc: u64, base_id: u64, pcs: Seq<u64>, x: u64, i: int)
    ensures
        slot_touched(prev_loc, base_id, pcs.push(x), i) <==> (slot_touched(prev_loc, base_id, pcs, i)
            || edge_slot(cur_location(base_id, x), prev_fold(prev_loc, base_id, pcs)) == i),
    decreases pcs.len(),
{
    if pcs.len() == 0 {
        assert(pcs.push(x)[0] == x);
        assert(pcs.push(x).drop_first() =~= Seq::<u64>::empty());
        assert(!slot_touched(
            cur_location(base_id, x) >> 1u64,
            base_id,
            Seq::<u64>::empty(),
            i,
        ));
        assert(!slot_touched(prev_loc, base_id, pcs, i));
        assert(prev_fold(prev_loc, base_id, pcs) == prev_loc);
    } else {
        assert(pcs.push(x)[0] == pcs[0]);
        assert(pcs.push(x).drop_first() =~= pcs.drop_first().push(x));
        assert(slot_touched(prev_loc, base_id, pcs, i) <==> (edge_slot(
            cur_location(base_id, pcs[0]),
            prev_loc,
        ) == i || slot_touched(
            cur_location(base_id, pcs[0]) >> 1u64,
            base_id,
            pcs.drop_first(),
            i,
        )));
        assert(prev_fold(prev_loc, base_id, pcs) == prev_fold(
            cur_location(base_id, pcs[0]) >> 1u64,
            base_id,
            pcs.drop_first(),
        ));
        lemma_touched_snoc(
            cur_location(base_id, pcs[0]) >> 1u64,
            base_id,
            pcs.drop_first(),
            x,
            i,
        );
    }
}

/// The fold leaves every untouched slot exactly as it was; in particular a
/// zeroed bitmap stays zero wherever the trace did not reach.
pub proof fn lemma_untouched_slot_unchanged(
    map: Seq<u8>,
    prev_loc: u64,
    base_id: u64,
    pcs: Seq<u64>,
    i: int,
)
    requires
        map.len() == MAP_SIZE,
        0 <= i < map.len(),
        !slot_touched(prev_loc, base_id, pcs, i),
    ensures
        coverage_fold(map, prev_loc, base_id, pcs).0.len() == map.len(),
        coverage_fold(map, prev_loc, base_id, pcs).0[i] == map[i],
    decreases pcs.len(),
{
    if pcs.len() > 0 {
        let (m, p) = coverage_step(map, prev_loc, base_id, pcs[0]);
        lemma_edge_slot_bound(cur_location(base_id, pcs[0]), prev_loc);
        assert(m.len() == map.len());
        assert(m[i] == map[i]);
        lemma_untouched_slot_unchanged(m, p, base_id, pcs.drop_first(), i);
    }
}

/// Zero every slot of a bitmap, keeping its length.
pub fn reset_map(map: &mut Vec<u8>)
    ensures
        final(map)@.len() == old(map)@.len(),
        forall|i: int| 0 <= i < final(map)@.len() ==> final(map)@[i] == 0,
{
    let n = map.len();
    let mut i: usize = 0;
    while i < n
        invariant
            n == map@.len(),
            i <= n,
            forall|j: int| 0 <= j < i ==> map@[j] == 0,
        decreases n - i,
    {
        map.set(i, 0);
        i = i + 1;
    }
}

/// Fold a trace into the per-run bitmap and OR it into the cumulative bitmap.
///
/// The per-run bitmap follows `coverage_fold` exactly.  The cumulative bitmap
/// only ever grows: a touched slot is raised to at least 1 and no slot is
/// ever lowered.
pub fn update_edge_coverage(
    map: &mut Vec<u8>,
    cumulative: &mut Vec<u8>,
    prev_loc: &mut u64,
    base_id: u64,
    pcs: &Vec<u64>,
)
    requires
        old(map)@.len() == MAP_SIZE,
        old(cumulative)@.len() == MAP_SIZE,
    ensures
        final(map)@.len() == MAP_SIZE,
        final(cumulative)@.len() == MAP_SIZE,
        (final(map)@, *final(prev_loc)) == coverage_fold(old(map)@, *old(prev_loc), base_id, pcs@),
        forall|i: int| 0 <= i < MAP_SIZE ==> old(cumulative)@[i] <= final(cumulative)@[i],
        forall|i: int|
            0 <= i < MAP_SIZE && slot_touched(*old(prev_loc), base_id, pcs@, i)
                ==> final(cumulative)@[i] == (if old(cumulative)@[i] == 0 {
                1u8
            } else {
                old(cumulative)@[i]
            }),
        forall|i: int|
            0 <= i < MAP_SIZE && !slot_touched(*old(prev_loc), base_id, pcs@, i)
                ==> final(cumulative)@[i] == old(cumulative)@[i],
{
    let ghost prev0: u64 = *prev_loc;
    let ghost map0: Seq<u8> = map@;
    let ghost cum0: Seq<u8> = cumulative@;
    let n = pcs.len();
    let mut k: usize = 0;
    proof {
        assert(pcs@.take(0) =~= Seq::<u64>::empty());
    }
    while k < n
        invariant
            n == pcs@.len(),
            k <= n,
            map@.len() == MAP_SIZE,
            cumulative@.len() == MAP_SIZE,
            map0.len() == MAP_SIZE,
            cum0.len() == MAP_SIZE,
            (map@, *prev_loc) == coverage_fold(map0, prev0, base_id, pcs@.take(k as int)),
            forall|i: int| 0 <= i < MAP_SIZE ==> cum0[i] <= cumulative@[i],
            forall|i: int|
                0 <= i < MAP_SIZE && slot_touched(prev0, base_id, pcs@.take(k as int), i)
                    ==> cumulative@[i] == (if cum0[i] == 0 {
                    1u8
                } else {
                    cum0[i]
                }),
            forall|i: int|
                0 <= i < MAP_SIZE && !slot_touched(prev0, base_id, pcs@.take(k as int), i)
                    ==> cumulative@[i] == cum0[i],
        decreases n - k,
    {
        let ghost done = pcs@.take(k as int);
        let ghost map_pre = map@;
        let ghost cum_pre = cumulative@;
        let ghost prev_pre = *prev_loc;
        let pc = pcs[k];
        let cur = base_id ^ pc;
        let idx64: u64 = (cur ^ *prev_loc) & 0xffffu64;
        proof {
            assert(((cur ^ prev_pre) & 0xffffu64) < 65536) by (bit_vector);
        }
        let idx: usize = idx64 as usize;
        let slot = map[idx];
        if slot != 255 {
            map.set(idx, slot + 1);
        }
        let cslot = cumulative[idx];
        if cslot < 1 {
            cumulative.set(idx, 1);
        }
        *prev_loc = cur >> 1u64;
        k = k + 1;
        proof {
            assert(pcs@.take(k as int) =~= done.push(pc));
            lemma_fold_snoc(map0, prev0, base_id, done, pc);
            lemma_fold_prev(map0, prev0, base_id, done);
            assert(idx as int == edge_slot(cur, prev_pre));
            assert(map@ =~= coverage_step(map_pre, prev_pre, base_id, pc).0);
            assert((map@, *prev_loc) == coverage_fold(map0, prev0, base_id, pcs@.take(k as int)));
            assert forall|i: int|
                0 <= i < MAP_SIZE && slot_touched(prev0, base_id, pcs@.take(k as int), i) implies
                cumulative@[i] == (if cum0[i] == 0 {
                1u8
            } else {
                cum0[i]
            }) by {
                lemma_touched_snoc(prev0, base_id, done, pc, i);
                if slot_touched(prev0, base_id, done, i) {
                    assert(cum_pre[i] == (if cum0[i] == 0 {
                        1u8
                    } else {
                        cum0[i]
                    }));
                    assert(cum_pre[i] >= 1);
                } else {
                    assert(edge_slot(cur_location(base_id, pc), prev_fold(prev0, base_id, done))
                        == i);
                    assert(prev_fold(prev0, base_id, done) == prev_pre);
                    assert(i == idx as int);
                    assert(cum_pre[i] == cum0[i]);
                }
            }
            assert forall|i: int|
                0 <= i < MAP_SIZE && !slot_touched(prev0, base_id, pcs@.take(k as int), i) implies
                cumulative@[i] == cum0[i] by {
                lemma_touched_snoc(prev0, base_id, done, pc, i);
                assert(prev_fold(prev0, base_id, done) == prev_pre);
                assert(i != idx as int);
                assert(cumulative@[i] == cum_pre[i]);
            }
        }
    }
    proof {
        assert(pcs@.take(k as int) =~= pcs@);
    }
}

/// Kinds of outcome the virtual machine reports for one execution.
#[derive(Clone, Copy, Debug, PartialEq, Eq, Structural)]
pub enum OutcomeKind {
    Success,
    MoveAbort,
    OutOfGas,
    OtherError,
    InvariantViolation,
    Panic,
}

/// The verdict of one run as the feedback loop sees it.
#[derive(Clone, Copy, Debug, PartialEq, Eq, Structural)]
pub enum ExitKind {
    Pass,
    Crash,
}

/// Classify one completed run.
///
/// Ordinary failures (aborts, out of gas, generic errors) are expected and
/// count as `Ok`; invariant violations and panics always count as `Crash`;
/// any runtime issue from the tracer escalates the run to `Crash`.
pub fn classify_exit(vm_succeeded: bool, outcome: &OutcomeKind, has_runtime_issue: bool) -> (r:
    ExitKind)
    ensures
        r == ExitKind::Crash <==> (has_runtime_issue || (!vm_succeeded && (*outcome
            == OutcomeKind::InvariantViolation || *outcome == OutcomeKind::Panic))),
{
    if has_runtime_issue {
        ExitKind::Crash
    } else if vm_succeeded {
        ExitKind::Pass
    } else {
        match outcome {
            OutcomeKind::InvariantViolation => ExitKind::Crash,
            OutcomeKind::Panic => ExitKind::Crash,
            _ => ExitKind::Pass,
        }
    }
}

/// Whether any byte of `map` in `[lo, hi)` is nonzero.
pub open spec fn any_covered(map: Seq<u8>, lo: int, hi: int) -> bool {
    exists|j: int| lo <= j < hi && map[j] != 0
}

/// How many whole segments of size `sz` (the last may be shorter) contain a
/// nonzero byte, counting segments `[0, seg)`.
pub open spec fn covered_segments_upto(map: Seq<u8>, sz: nat, seg: nat) -> nat
    decreases seg,
{
    if seg == 0 {
        0
    } else {
        let lo = (seg - 1) * sz;
        let hi = if seg * sz > map.len() {
            map.len() as int
        } else {
            (seg * sz) as int
        };
        covered_segments_upto(map, sz, (seg - 1) as nat) + if any_covered(map, lo as int, hi) {
            1nat
        } else {
            0nat
        }
    }
}

/// The number of segments of size `sz` needed to cover `len` bytes.
pub open spec fn num_segments_spec(len: nat, sz: nat) -> nat {
    if len % sz == 0 {
        len / sz
    } else {
        len / sz + 1
    }
}

/// Count the fixed-size segments of a coverage map that contain any coverage.
pub fn count_covered_segments(coverage_map: &Vec<u8>, segment_size: usize) -> (r: usize)
    requires
        segment_size > 0,
    ensures
        r == covered_segments_upto(
            coverage_map@,
            segment_size as nat,
            num_segments_spec(coverage_map@.len(), segment_size as nat),
        ),
{
    let len = coverage_map.len();
    let q = len / segment_size;
    let num_segments = if len % segment_size == 0 {
        q
    } else {
        proof {
            assert(q < usize::MAX) by (nonlinear_arith)
                requires
                    segment_size > 0,
                    len % segment_size != 0,
                    q == len / segment_size,
                    len <= usize::MAX,
            ;
        }
        q + 1
    };
    let mut covered: usize = 0;
    let mut seg: usize = 0;
    while seg < num_segments
        invariant
            segment_size > 0,
            len == coverage_map@.len(),
            num_segments == num_segments_spec(len as nat, segment_size as nat),
            seg <= num_segments,
            covered == covered_segments_upto(coverage_map@, segment_size as nat, seg as nat),
            covered <= seg,
        decreases num_segments - seg,
    {
        proof {
            assert(seg * segment_size < len) by (nonlinear_arith)
                requires
                    segment_size > 0,
                    seg < num_segments,
                    num_segments == num_segments_spec(len as nat, segment_size as nat),
            ;
        }
        let lo = seg * segment_size;
        let remaining = len - lo;
        let hi = if remaining < segment_size {
            len
        } else {
            lo + segment_size
        };
        proof {
            assert(hi as int == (if (seg + 1) * segment_size > len {
                len as int
            } else {
                ((seg + 1) * segment_size) as int
            })) by (nonlinear_arith)
                requires
                    segment_size > 0,
                    lo == seg * segment_size,
                    remaining == len - lo,
                    hi == (if remaining < segment_size {
                        len as int
                    } else {
                        lo + segment_size
                    }),
            ;
        }
        let mut j = lo;
        let mut found = false;
        while j < hi
            invariant
                lo <= j <= hi,
                hi <= coverage_map@.len(),
                found == any_covered(coverage_map@, lo as int, j as int),
            decreases hi - j,
        {
            if coverage_map[j] != 0 {
                found = true;
            }
            j = j + 1;
        }
        if found {
            covered = covered + 1;
        }
        seg = seg + 1;
        proof {
            assert(covered == covered_segments_upto(coverage_map@, segment_size as nat, seg as nat));
        }
    }
    covered
}


/// The coverage base id of a direct call: the 64-bit FNV-1a hash of the
/// module address bytes, then the module name's bytes, then the function
/// name's bytes.  The base-id width is pinned to 64 bits.
#[verifier::loop_isolation(false)]
pub fn base_id_for_entry(
    module_address: &Vec<u8>,
    module_name: &str,
    function_name: &str,
) -> (r: u64)
    ensures
        r == fnv64_bytes(
            module_address@ + module_name.spec_bytes() + function_name.spec_bytes(),
        ),
{
    let mut buf: Vec<u8> = Vec::new();
    let mut i: usize = 0;
    while i < module_address.len()
        invariant
            i <= module_address@.len(),
            buf@ =~= module_address@.take(i as int),
        decreases module_address@.len() - i,
    {
        buf.push(module_address[i]);
        i = i + 1;
    }
    proof {
        assert(buf@ =~= module_address@);
    }
    let name_bytes = module_name.as_bytes();
    let mut j: usize = 0;
    while j < name_bytes.len()
        invariant
            name_bytes@ == module_name.spec_bytes(),
            j <= name_bytes@.len(),
            buf@ =~= module_address@ + name_bytes@.take(j as int),
        decreases name_bytes@.len() - j,
    {
        buf.push(name_bytes[j]);
        j = j + 1;
    }
    proof {
        assert(buf@ =~= module_address@ + module_name.spec_bytes());
    }
    let fn_bytes = function_name.as_bytes();
    let mut k: usize = 0;
    while k < fn_bytes.len()
        invariant
            fn_bytes@ == function_name.spec_bytes(),
            k <= fn_bytes@.len(),
            buf@ =~= module_address@ + module_name.spec_bytes() + fn_bytes@.take(k as int),
        decreases fn_bytes@.len() - k,
    {
        buf.push(fn_bytes[k]);
        k = k + 1;
    }
    proof {
        assert(buf@ =~= module_address@ + module_name.spec_bytes()
            + function_name.spec_bytes());
    }
    hash64(&buf)
}

/// The coverage base id of a compiled script: the 64-bit FNV-1a hash of
/// its code bytes.
pub fn base_id_for_script(code: &Vec<u8>) -> (r: u64)
    ensures
        r == fnv64_bytes(code@),
{
    hash64(code)
}

/// Whether any shift in the run lost high bits: the OR over the per-shift
/// flags the virtual machine reports, updated whatever the exit kind.
pub fn any_lost_bits(flags: &Vec<bool>) -> (r: bool)
    ensures
        r == (exists|i: int| 0 <= i < flags@.len() && flags@[i]),
{
    let mut i: usize = 0;
    let mut any = false;
    while i < flags.len()
        invariant
            i <= flags@.len(),
            any == (exists|j: int| 0 <= j < i && flags@[j]),
        decreases flags@.len() - i,
    {
        if flags[i] {
            any = true;
        }
        i = i + 1;
    }
    any
}

/// Coverage reset: a run starting from a zeroed bitmap leaves every slot
/// its trace does not touch at zero.
pub proof fn lemma_run_untouched_slots_zero(prev_loc: u64, base_id: u64, pcs: Seq<u64>, i: int)
    requires
        0 <= i < MAP_SIZE,
        !slot_touched(prev_loc, base_id, pcs, i),
    ensures
        coverage_fold(
            Seq::new(MAP_SIZE as nat, |j: int| 0u8),
            prev_loc,
            base_id,
            pcs,
        ).0[i] == 0,
{
    lemma_untouched_slot_unchanged(
        Seq::new(MAP_SIZE as nat, |j: int| 0u8),
        prev_loc,
        base_id,
        pcs,
        i,
    );
}

/// The path id is a pure function of the trace: equal traces always get
/// equal ids, in any run and any process.
pub proof fn lemma_path_id_deterministic(t1: Seq<u32>, t2: Seq<u32>)
    requires
        t1 == t2,
    ensures
        path_id_spec(t1) == path_id_spec(t2),
{
}

} // verus!
