//! A reference evaluator for the committee script under Tapscript rules,
//! used to state what a finalised witness achieves. It covers the opcodes
//! that the committee script uses; signature validity is a parameter, and the
//! control block's commitment is not checked.
use vstd::prelude::*;

use crate::script::{
    committee_ops, member_ops, members_ops, weight_sum, ScriptOp, OP_ADD, OP_CHECKSIG, OP_ELSE,
    OP_ENDIF, OP_GREATERTHANOREQUAL, OP_IF, OP_SWAP,
};
use crate::MAX_BTC_INT;

verus! {

/// A stack element: raw bytes from the witness or a pushed key, or a number.
pub enum StackItem {
    Data(Seq<u8>),
    Int(int),
}

/// Evaluator state: the stack (top last) and the `OP_IF` condition stack.
pub struct ExecState {
    pub stack: Seq<StackItem>,
    pub conds: Seq<bool>,
}

/// How evaluating a script ends.
pub enum ScriptOutcome {
    /// One true element is left: the spend is valid.
    Accept,
    /// One false element is left: the script ran through and said no.
    EvalFalse,
    /// Evaluation aborted (bad signature, bad operand, unbalanced stack).
    Fail,
}

/// Whether every enclosing `OP_IF` branch is taken.
pub open spec fn all_true(conds: Seq<bool>) -> bool
    decreases conds.len(),
{
    conds.len() == 0 || (conds.last() && all_true(conds.drop_last()))
}

/// The boolean an `OP_IF` argument stands for; Tapscript accepts only an
/// empty element or a single 1.
pub open spec fn minimal_bool(item: StackItem) -> Option<bool> {
    match item {
        StackItem::Int(n) => if n == 0 {
            Some(false)
        } else if n == 1 {
            Some(true)
        } else {
            None
        },
        StackItem::Data(d) => if d.len() == 0 {
            Some(false)
        } else if d == seq![1u8] {
            Some(true)
        } else {
            None
        },
    }
}

/// The number an arithmetic operand stands for. Script numbers take at most
/// four bytes, so a pushed number outside `[-(2^31 - 1), 2^31 - 1]` aborts;
/// of raw witness bytes only the empty element (zero) is read as a number.
pub open spec fn as_num(item: StackItem) -> Option<int> {
    match item {
        StackItem::Int(n) => if -MAX_BTC_INT <= n <= MAX_BTC_INT {
            Some(n)
        } else {
            None
        },
        StackItem::Data(d) => if d.len() == 0 {
            Some(0)
        } else {
            None
        },
    }
}

/// Whether a final stack element counts as true (negative zero is not
/// modelled).
pub open spec fn truthy(item: StackItem) -> bool {
    match item {
        StackItem::Int(n) => n != 0,
        StackItem::Data(d) => exists|i: int| 0 <= i < d.len() && d[i] != 0,
    }
}

/// Replaces the top two elements by `item`.
pub open spec fn pop2_push(st: ExecState, item: StackItem) -> ExecState {
    ExecState { stack: st.stack.subrange(0, st.stack.len() - 2).push(item), conds: st.conds }
}

/// One instruction in a taken branch. `valid(pk, sig)` says whether `sig` is
/// a valid signature by `pk` of the spending transaction's sighash.
pub open spec fn exec_op(op: ScriptOp, st: ExecState, valid: spec_fn(Seq<u8>, Seq<u8>) -> bool) -> Option<
    ExecState,
> {
    let s = st.stack;
    let n = s.len();
    match op {
        ScriptOp::Num(v) => Some(ExecState { stack: s.push(StackItem::Int(v)), conds: st.conds }),
        ScriptOp::Key(k) => Some(ExecState { stack: s.push(StackItem::Data(k)), conds: st.conds }),
        ScriptOp::Code(c) => if n < 2 {
            None
        } else if c == OP_SWAP {
            Some(ExecState { stack: s.subrange(0, n - 2).push(s[n - 1]).push(s[n - 2]), conds: st.conds })
        } else if c == OP_CHECKSIG {
            match (s[n - 2], s[n - 1]) {
                (StackItem::Data(sig), StackItem::Data(pk)) => if sig.len() == 0 {
                    Some(pop2_push(st, StackItem::Int(0)))
                } else if valid(pk, sig) {
                    Some(pop2_push(st, StackItem::Int(1)))
                } else {
                    None
                },
                _ => None,
            }
        } else if c == OP_ADD || c == OP_GREATERTHANOREQUAL {
            match (as_num(s[n - 2]), as_num(s[n - 1])) {
                (Some(a), Some(b)) => Some(
                    pop2_push(
                        st,
                        StackItem::Int(
                            if c == OP_ADD {
                                a + b
                            } else if a >= b {
                                1
                            } else {
                                0
                            },
                        ),
                    ),
                ),
                _ => None,
            }
        } else {
            None
        },
    }
}

/// One instruction, with `OP_IF` / `OP_ELSE` / `OP_ENDIF` handled and other
/// instructions skipped in untaken branches.
pub open spec fn step(op: ScriptOp, st: ExecState, valid: spec_fn(Seq<u8>, Seq<u8>) -> bool) -> Option<ExecState> {
    let c = st.conds;
    if op == ScriptOp::Code(OP_IF) {
        if !all_true(c) {
            Some(ExecState { stack: st.stack, conds: c.push(false) })
        } else if st.stack.len() == 0 {
            None
        } else {
            match minimal_bool(st.stack.last()) {
                Some(b) => Some(ExecState { stack: st.stack.drop_last(), conds: c.push(b) }),
                None => None,
            }
        }
    } else if op == ScriptOp::Code(OP_ELSE) {
        if c.len() == 0 {
            None
        } else {
            Some(ExecState { stack: st.stack, conds: c.drop_last().push(!c.last()) })
        }
    } else if op == ScriptOp::Code(OP_ENDIF) {
        if c.len() == 0 {
            None
        } else {
            Some(ExecState { stack: st.stack, conds: c.drop_last() })
        }
    } else if !all_true(c) {
        Some(st)
    } else {
        exec_op(op, st, valid)
    }
}

/// Runs a sequence of instructions; `None` when evaluation aborts.
pub open spec fn run(ops: Seq<ScriptOp>, st: ExecState, valid: spec_fn(Seq<u8>, Seq<u8>) -> bool) -> Option<
    ExecState,
>
    decreases ops.len(),
{
    if ops.len() == 0 {
        Some(st)
    } else {
        match run(ops.drop_last(), st, valid) {
            Some(s) => step(ops.last(), s, valid),
            None => None,
        }
    }
}

/// Evaluates a script-path spend: the witness without its last two elements
/// (the script and the control block) is the initial stack, top last.
pub open spec fn evaluate(ops: Seq<ScriptOp>, witness: Seq<Seq<u8>>, valid: spec_fn(Seq<u8>, Seq<u8>) -> bool) -> ScriptOutcome {
    let init = ExecState {
        stack: witness.subrange(0, witness.len() - 2).map_values(|d: Seq<u8>| StackItem::Data(d)),
        conds: seq![],
    };
    match run(ops, init, valid) {
        None => ScriptOutcome::Fail,
        Some(s) => if s.conds.len() != 0 || s.stack.len() != 1 {
            ScriptOutcome::Fail
        } else if truthy(s.stack[0]) {
            ScriptOutcome::Accept
        } else {
            ScriptOutcome::EvalFalse
        },
    }
}

/// The witness element for one committee slot: the signature or nothing.
pub open spec fn sig_element(sig: Option<[u8; 64]>) -> Seq<u8> {
    match sig {
        Some(s) => s@,
        None => seq![],
    }
}

/// A committee input's witness: one element per member in reverse committee
/// order (so member 0's is on top), then the script and the control block.
pub open spec fn committee_witness(sigs: Seq<Option<[u8; 64]>>, script: Seq<u8>, control_block: Seq<u8>) -> Seq<
    Seq<u8>,
> {
    Seq::new(sigs.len(), |q: int| sig_element(sigs[sigs.len() - 1 - q])) + seq![script, control_block]
}

/// Weight carried by the present signatures among the first `i` members.
pub open spec fn present_weight(members: Seq<([u8; 32], i64)>, sigs: Seq<Option<[u8; 64]>>, i: int) -> int
    decreases i,
{
    if i <= 0 {
        0
    } else {
        present_weight(members, sigs, i - 1) + if sigs[i - 1].is_some() {
            members[i - 1].1 as int
        } else {
            0
        }
    }
}

proof fn lemma_member_block(
    pk: Seq<u8>,
    w: int,
    base: Seq<StackItem>,
    e: Seq<u8>,
    acc: int,
    valid: spec_fn(Seq<u8>, Seq<u8>) -> bool,
)
    requires
        0 <= w <= MAX_BTC_INT,
        0 <= acc <= MAX_BTC_INT,
        e.len() == 0 || valid(pk, e),
    ensures
        run(
            member_ops(pk, w),
            ExecState { stack: base.push(StackItem::Data(e)).push(StackItem::Int(acc)), conds: seq![] },
            valid,
        ) == Some(
            ExecState {
                stack: base.push(StackItem::Int(acc + if e.len() == 0 {
                    0
                } else {
                    w
                })),
                conds: seq![],
            },
        ),
{
    let ops = member_ops(pk, w);
    let b = base;
    let s0 = ExecState { stack: b.push(StackItem::Data(e)).push(StackItem::Int(acc)), conds: seq![] };
    let s1 = ExecState { stack: b.push(StackItem::Int(acc)).push(StackItem::Data(e)), conds: seq![] };
    let s2 = ExecState { stack: s1.stack.push(StackItem::Data(pk)), conds: seq![] };
    let bit = if e.len() == 0 {
        0int
    } else {
        1
    };
    let s3 = ExecState { stack: b.push(StackItem::Int(acc)).push(StackItem::Int(bit)), conds: seq![] };
    let s4 = ExecState { stack: b.push(StackItem::Int(acc)), conds: seq![bit == 1] };
    let s5 = if bit == 1 {
        ExecState { stack: s4.stack.push(StackItem::Int(w)), conds: seq![true] }
    } else {
        s4
    };
    let s6 = ExecState { stack: s5.stack, conds: seq![bit != 1] };
    let s7 = if bit == 1 {
        s6
    } else {
        ExecState { stack: s6.stack.push(StackItem::Int(0)), conds: seq![true] }
    };
    let s8 = ExecState { stack: s7.stack, conds: seq![] };
    let added = if e.len() == 0 {
        0
    } else {
        w
    };
    let s9 = ExecState { stack: b.push(StackItem::Int(acc + added)), conds: seq![] };
    assert(all_true(seq![]));
    assert(all_true(seq![true])) by {
        assert(seq![true].drop_last() =~= Seq::<bool>::empty());
    }
    assert(!all_true(seq![false]));
    assert(step(ops[0], s0, valid) == Some(s1)) by {
        assert(s0.stack.subrange(0, s0.stack.len() - 2).push(s0.stack[s0.stack.len() - 1]).push(
            s0.stack[s0.stack.len() - 2],
        ) =~= s1.stack);
    }
    assert(step(ops[1], s1, valid) == Some(s2));
    assert(step(ops[2], s2, valid) == Some(s3)) by {
        assert(s2.stack.subrange(0, s2.stack.len() - 2).push(StackItem::Int(bit)) =~= s3.stack);
    }
    assert(step(ops[3], s3, valid) == Some(s4)) by {
        assert(s3.stack.drop_last() =~= s4.stack);
        assert(seq![].push(bit == 1) =~= seq![bit == 1]);
    }
    assert(step(ops[4], s4, valid) == Some(s5));
    assert(step(ops[5], s5, valid) == Some(s6)) by {
        assert(s5.conds.drop_last().push(!s5.conds.last()) =~= seq![bit != 1]);
    }
    assert(step(ops[6], s6, valid) == Some(s7));
    assert(step(ops[7], s7, valid) == Some(s8)) by {
        assert(s7.conds.drop_last() =~= Seq::<bool>::empty());
    }
    assert(step(ops[8], s8, valid) == Some(s9)) by {
        let st = s8.stack;
        assert(st[st.len() - 2] == StackItem::Int(acc));
        assert(st[st.len() - 1] == StackItem::Int(added));
        assert(st.subrange(0, st.len() - 2) =~= b);
    }
    assert forall|k: int| 0 <= k <= 9 implies run(ops.subrange(0, k), s0, valid) == (
        if k == 0 { Some(s0) } else if k == 1 { Some(s1) } else if k == 2 { Some(s2) } else if k == 3 {
            Some(s3) } else if k == 4 { Some(s4) } else if k == 5 { Some(s5) } else if k == 6 { Some(s6) }
        else if k == 7 { Some(s7) } else if k == 8 { Some(s8) } else { Some(s9) }) by {
        lemma_run_prefix_steps(ops, s0, valid, k, seq![s0, s1, s2, s3, s4, s5, s6, s7, s8, s9]);
    }
    assert(ops.subrange(0, 9) =~= ops);
}

proof fn lemma_run_prefix_steps(
    ops: Seq<ScriptOp>,
    s0: ExecState,
    valid: spec_fn(Seq<u8>, Seq<u8>) -> bool,
    k: int,
    states: Seq<ExecState>,
)
    requires
        0 <= k <= ops.len(),
        states.len() == ops.len() + 1,
        states[0] == s0,
        forall|j: int| 0 <= j < ops.len() ==> step(#[trigger] ops[j], states[j], valid) == Some(states[j + 1]),
    ensures
        run(ops.subrange(0, k), s0, valid) == Some(states[k]),
    decreases k,
{
    if k > 0 {
        lemma_run_prefix_steps(ops, s0, valid, k - 1, states);
        assert(ops.subrange(0, k).drop_last() =~= ops.subrange(0, k - 1));
    }
}

} // verus!

verus! {

proof fn lemma_run_append(
    a: Seq<ScriptOp>,
    b: Seq<ScriptOp>,
    s: ExecState,
    valid: spec_fn(Seq<u8>, Seq<u8>) -> bool,
)
    ensures
        run(a + b, s, valid) == match run(a, s, valid) {
            Some(t) => run(b, t, valid),
            None => None,
        },
    decreases b.len(),
{
    if b.len() == 0 {
        assert(a + b =~= a);
    } else {
        lemma_run_append(a, b.drop_last(), s, valid);
        assert((a + b).drop_last() =~= a + b.drop_last());
        assert((a + b).last() == b.last());
    }
}

/// The slots' elements still to be consumed after `i` members, bottom first.
pub open spec fn pending_slots(sigs: Seq<Option<[u8; 64]>>, i: int) -> Seq<StackItem> {
    Seq::new((sigs.len() - i) as nat, |q: int| StackItem::Data(sig_element(sigs[sigs.len() - 1 - q])))
}

/// Every present signature is valid for its member's key.
pub open spec fn present_sigs_valid(
    members: Seq<([u8; 32], i64)>,
    sigs: Seq<Option<[u8; 64]>>,
    valid: spec_fn(Seq<u8>, Seq<u8>) -> bool,
) -> bool {
    forall|j: int|
        0 <= j < sigs.len() && (#[trigger] sigs[j]).is_some() ==> valid(members[j].0@, sigs[j].unwrap()@)
}

proof fn lemma_present_weight_mono(members: Seq<([u8; 32], i64)>, sigs: Seq<Option<[u8; 64]>>, i: int, j: int)
    requires
        0 <= i <= j <= members.len(),
        forall|q: int| 0 <= q < members.len() ==> 0 <= #[trigger] members[q].1,
    ensures
        0 <= present_weight(members, sigs, i) <= present_weight(members, sigs, j),
    decreases j,
{
    if j > i {
        lemma_present_weight_mono(members, sigs, i, j - 1);
    } else if i > 0 {
        lemma_present_weight_mono(members, sigs, i - 1, i - 1);
    }
}

proof fn lemma_members_run(
    members: Seq<([u8; 32], i64)>,
    sigs: Seq<Option<[u8; 64]>>,
    valid: spec_fn(Seq<u8>, Seq<u8>) -> bool,
    i: int,
)
    requires
        0 <= i <= members.len(),
        sigs.len() == members.len(),
        forall|q: int| 0 <= q < members.len() ==> 0 <= #[trigger] members[q].1 <= MAX_BTC_INT,
        present_sigs_valid(members, sigs, valid),
        present_weight(members, sigs, members.len() as int) <= MAX_BTC_INT,
    ensures
        run(
            members_ops(members.subrange(0, i)),
            ExecState { stack: pending_slots(sigs, 0).push(StackItem::Int(0)), conds: seq![] },
            valid,
        ) == Some(
            ExecState {
                stack: pending_slots(sigs, i).push(StackItem::Int(present_weight(members, sigs, i))),
                conds: seq![],
            },
        ),
    decreases i,
{
    let start = ExecState { stack: pending_slots(sigs, 0).push(StackItem::Int(0)), conds: seq![] };
    if i == 0 {
        assert(members.subrange(0, 0) =~= Seq::<([u8; 32], i64)>::empty());
    } else {
        lemma_members_run(members, sigs, valid, i - 1);
        let prev = members.subrange(0, i - 1);
        let cur = members.subrange(0, i);
        assert(cur.drop_last() =~= prev);
        assert(cur.last() == members[i - 1]);
        lemma_run_append(members_ops(prev), member_ops(members[i - 1].0@, members[i - 1].1 as int), start, valid);
        lemma_present_weight_mono(members, sigs, i - 1, members.len() as int);
        let e = sig_element(sigs[i - 1]);
        let base = pending_slots(sigs, i);
        assert(pending_slots(sigs, i - 1) =~= base.push(StackItem::Data(e)));
        if sigs[i - 1].is_some() {
            assert(valid(members[i - 1].0@, sigs[i - 1].unwrap()@));
        }
        assert(e.len() == 0 <==> sigs[i - 1].is_none());
        lemma_member_block(
            members[i - 1].0@,
            members[i - 1].1 as int,
            base,
            e,
            present_weight(members, sigs, i - 1),
            valid,
        );
    }
}

/// What the committee script makes of a finalised witness whose present
/// signatures are all valid: it accepts exactly when their weight reaches the
/// threshold, and otherwise evaluates to false without aborting. (Script
/// arithmetic takes four-byte operands, so the present weight must fit one.)
pub proof fn lemma_committee_outcome(
    members: Seq<([u8; 32], i64)>,
    threshold: int,
    sigs: Seq<Option<[u8; 64]>>,
    script: Seq<u8>,
    control_block: Seq<u8>,
    valid: spec_fn(Seq<u8>, Seq<u8>) -> bool,
)
    requires
        sigs.len() == members.len(),
        forall|q: int| 0 <= q < members.len() ==> 0 <= #[trigger] members[q].1 <= MAX_BTC_INT,
        0 <= threshold <= MAX_BTC_INT,
        present_sigs_valid(members, sigs, valid),
        present_weight(members, sigs, members.len() as int) <= MAX_BTC_INT,
    ensures
        evaluate(committee_ops(members, threshold), committee_witness(sigs, script, control_block), valid) == if present_weight(
            members,
            sigs,
            members.len() as int,
        ) >= threshold {
            ScriptOutcome::Accept
        } else {
            ScriptOutcome::EvalFalse
        },
{
    let n = members.len() as int;
    let w = committee_witness(sigs, script, control_block);
    let init = ExecState {
        stack: w.subrange(0, w.len() - 2).map_values(|d: Seq<u8>| StackItem::Data(d)),
        conds: seq![],
    };
    assert(init.stack =~= pending_slots(sigs, 0));
    let start = ExecState { stack: pending_slots(sigs, 0).push(StackItem::Int(0)), conds: seq![] };
    lemma_members_run(members, sigs, valid, n);
    assert(members.subrange(0, n) =~= members);
    let p = present_weight(members, sigs, n);
    lemma_present_weight_mono(members, sigs, 0, n);
    let head = seq![ScriptOp::Num(0)];
    let tail = seq![ScriptOp::Num(threshold), ScriptOp::Code(OP_GREATERTHANOREQUAL)];
    assert(committee_ops(members, threshold) =~= head + members_ops(members) + tail);
    lemma_run_append(head + members_ops(members), tail, init, valid);
    lemma_run_append(head, members_ops(members), init, valid);
    assert(all_true(seq![]));
    assert(run(head, init, valid) == Some(start)) by {
        reveal_with_fuel(run, 2);
        assert(head.drop_last() =~= Seq::<ScriptOp>::empty());
    }
    let after = ExecState { stack: pending_slots(sigs, n).push(StackItem::Int(p)), conds: seq![] };
    assert(pending_slots(sigs, n) =~= Seq::<StackItem>::empty());
    let s1 = ExecState { stack: after.stack.push(StackItem::Int(threshold)), conds: seq![] };
    let bit = if p >= threshold {
        1int
    } else {
        0
    };
    let s2 = ExecState { stack: seq![StackItem::Int(bit)], conds: seq![] };
    assert(step(tail[0], after, valid) == Some(s1));
    assert(step(tail[1], s1, valid) == Some(s2)) by {
        assert(s1.stack.subrange(0, 0) =~= Seq::<StackItem>::empty());
        assert(s1.stack.subrange(0, 0).push(StackItem::Int(bit)) =~= s2.stack);
    }
    assert(run(tail, after, valid) == Some(s2)) by {
        reveal_with_fuel(run, 3);
        assert(tail.drop_last().drop_last() =~= Seq::<ScriptOp>::empty());
        assert(tail.drop_last().last() == tail[0]);
        assert(tail.last() == tail[1]);
    }
}

proof fn lemma_all_present_weight(members: Seq<([u8; 32], i64)>, sigs: Seq<Option<[u8; 64]>>, i: int)
    requires
        0 <= i <= members.len(),
        sigs.len() == members.len(),
        forall|j: int| 0 <= j < sigs.len() ==> (#[trigger] sigs[j]).is_some(),
    ensures
        present_weight(members, sigs, i) == weight_sum(members.subrange(0, i)),
    decreases i,
{
    if i > 0 {
        lemma_all_present_weight(members, sigs, i - 1);
        assert(members.subrange(0, i).drop_last() =~= members.subrange(0, i - 1));
        assert(sigs[i - 1].is_some());
    }
}

/// When every member has signed validly and the committee's total weight
/// reaches the threshold, the finalised witness satisfies the committee
/// script. (Script arithmetic takes four-byte operands, so the total weight
/// must fit one: weights `[2^31 - 1, 1]` overflow it.)
pub proof fn lemma_full_committee_accepts(
    members: Seq<([u8; 32], i64)>,
    threshold: int,
    sigs: Seq<Option<[u8; 64]>>,
    script: Seq<u8>,
    control_block: Seq<u8>,
    valid: spec_fn(Seq<u8>, Seq<u8>) -> bool,
)
    requires
        sigs.len() == members.len(),
        forall|q: int| 0 <= q < members.len() ==> 0 <= #[trigger] members[q].1 <= MAX_BTC_INT,
        0 <= threshold <= weight_sum(members),
        weight_sum(members) <= MAX_BTC_INT,
        forall|j: int| 0 <= j < sigs.len() ==> (#[trigger] sigs[j]).is_some(),
        present_sigs_valid(members, sigs, valid),
    ensures
        evaluate(committee_ops(members, threshold), committee_witness(sigs, script, control_block), valid)
            == ScriptOutcome::Accept,
{
    lemma_all_present_weight(members, sigs, members.len() as int);
    assert(members.subrange(0, members.len() as int) =~= members);
    lemma_committee_outcome(members, threshold, sigs, script, control_block, valid);
}

/// When the valid signatures present carry less weight than the threshold,
/// the committee script evaluates to false: it does not abort.
pub proof fn lemma_short_committee_rejects(
    members: Seq<([u8; 32], i64)>,
    threshold: int,
    sigs: Seq<Option<[u8; 64]>>,
    script: Seq<u8>,
    control_block: Seq<u8>,
    valid: spec_fn(Seq<u8>, Seq<u8>) -> bool,
)
    requires
        sigs.len() == members.len(),
        forall|q: int| 0 <= q < members.len() ==> 0 <= #[trigger] members[q].1 <= MAX_BTC_INT,
        0 <= threshold <= MAX_BTC_INT,
        present_sigs_valid(members, sigs, valid),
        present_weight(members, sigs, members.len() as int) < threshold,
    ensures
        evaluate(committee_ops(members, threshold), committee_witness(sigs, script, control_block), valid)
            == ScriptOutcome::EvalFalse,
{
    lemma_committee_outcome(members, threshold, sigs, script, control_block, valid);
}

} // verus!
