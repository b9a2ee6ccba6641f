//! The weighted-threshold committee Tapscript.
use vstd::prelude::*;

use crate::MAX_BTC_INT;

verus! {

pub const OP_0: u8 = 0x00;

pub const OP_IF: u8 = 0x63;

pub const OP_ELSE: u8 = 0x67;

pub const OP_ENDIF: u8 = 0x68;

pub const OP_SWAP: u8 = 0x7c;

pub const OP_ADD: u8 = 0x93;

pub const OP_GREATERTHANOREQUAL: u8 = 0xa2;

pub const OP_CHECKSIG: u8 = 0xac;

/// Length of an x-only public key.
pub const XONLY_KEY_SIZE: u8 = 32;

/// An ordered committee: each member's x-only public key with its weight, and
/// the weight that a spend must reach.
pub struct CommitteeSpec {
    pub members: Vec<([u8; 32], i64)>,
    pub threshold: i64,
}

/// Sum of the members' weights.
pub open spec fn weight_sum(members: Seq<([u8; 32], i64)>) -> int
    decreases members.len(),
{
    if members.len() == 0 {
        0
    } else {
        weight_sum(members.drop_last()) + members.last().1
    }
}

impl CommitteeSpec {
    /// Every weight and the threshold fit a Script number, and the threshold
    /// is reachable.
    pub open spec fn wf(&self) -> bool {
        &&& forall|i: int| 0 <= i < self.members@.len() ==> 0 <= #[trigger] self.members@[i].1 <= MAX_BTC_INT
        &&& 0 <= self.threshold <= MAX_BTC_INT
        &&& self.threshold <= weight_sum(self.members@)
    }
}

/// One instruction of the committee script.
pub enum ScriptOp {
    /// Push of an integer, minimally encoded.
    Num(int),
    /// Push of a 32-byte x-only public key.
    Key(Seq<u8>),
    /// An opcode without operand.
    Code(u8),
}

/// Little-endian magnitude bytes of `n`, without trailing zeros.
pub open spec fn le_bytes(n: nat) -> Seq<u8>
    decreases n,
{
    if n == 0 {
        seq![]
    } else {
        seq![(n % 256) as u8] + le_bytes(n / 256)
    }
}

/// Script number encoding of a non-negative `n`: its little-endian bytes,
/// with a zero byte added where the top bit would read as a sign.
pub open spec fn script_num(n: nat) -> Seq<u8> {
    let b = le_bytes(n);
    if b.len() > 0 && b.last() >= 0x80 {
        b.push(0)
    } else {
        b
    }
}

/// Bytes that push the non-negative integer `n`: `OP_0`, `OP_1`..`OP_16`, or
/// a direct push of its script number.
pub open spec fn push_int_bytes(n: nat) -> Seq<u8> {
    if n == 0 {
        seq![OP_0]
    } else if n <= 16 {
        seq![(0x50 + n) as u8]
    } else {
        seq![script_num(n).len() as u8] + script_num(n)
    }
}

/// Bytes of one instruction.
pub open spec fn op_bytes(op: ScriptOp) -> Seq<u8> {
    match op {
        ScriptOp::Num(n) => push_int_bytes(n as nat),
        ScriptOp::Key(k) => seq![XONLY_KEY_SIZE] + k,
        ScriptOp::Code(c) => seq![c],
    }
}

/// Bytes of a sequence of instructions.
pub open spec fn encode_ops(ops: Seq<ScriptOp>) -> Seq<u8>
    decreases ops.len(),
{
    if ops.len() == 0 {
        seq![]
    } else {
        encode_ops(ops.drop_last()) + op_bytes(ops.last())
    }
}

/// Instructions for one member: move the accumulator under the member's
/// signature, check it, and add the weight when it is valid.
pub open spec fn member_ops(pk: Seq<u8>, weight: int) -> Seq<ScriptOp> {
    seq![
        ScriptOp::Code(OP_SWAP),
        ScriptOp::Key(pk),
        ScriptOp::Code(OP_CHECKSIG),
        ScriptOp::Code(OP_IF),
        ScriptOp::Num(weight),
        ScriptOp::Code(OP_ELSE),
        ScriptOp::Num(0),
        ScriptOp::Code(OP_ENDIF),
        ScriptOp::Code(OP_ADD),
    ]
}

/// Instructions for the members, in committee order.
pub open spec fn members_ops(members: Seq<([u8; 32], i64)>) -> Seq<ScriptOp>
    decreases members.len(),
{
    if members.len() == 0 {
        seq![]
    } else {
        members_ops(members.drop_last()) + member_ops(members.last().0@, members.last().1 as int)
    }
}

/// The committee script as instructions: an accumulator of 0, one block per
/// member, and a comparison with the threshold.
pub open spec fn committee_ops(members: Seq<([u8; 32], i64)>, threshold: int) -> Seq<ScriptOp> {
    seq![ScriptOp::Num(0)] + members_ops(members) + seq![
        ScriptOp::Num(threshold),
        ScriptOp::Code(OP_GREATERTHANOREQUAL),
    ]
}

/// The committee script's bytes.
pub open spec fn committee_script_bytes(members: Seq<([u8; 32], i64)>, threshold: int) -> Seq<u8> {
    encode_ops(committee_ops(members, threshold))
}

pub proof fn lemma_encode_ops_append(a: Seq<ScriptOp>, b: Seq<ScriptOp>)
    ensures
        encode_ops(a + b) == encode_ops(a) + encode_ops(b),
    decreases b.len(),
{
    if b.len() == 0 {
        assert(a + b =~= a);
        assert(encode_ops(a) + encode_ops(b) =~= encode_ops(a));
    } else {
        lemma_encode_ops_append(a, b.drop_last());
        assert((a + b).drop_last() =~= a + b.drop_last());
        assert(encode_ops(a) + encode_ops(b) =~= encode_ops(a) + encode_ops(b.drop_last()) + op_bytes(b.last()));
    }
}

/// Relies on rust-bitcoin's `Builder::push_int`: `OP_0` for zero, `OP_1` to
/// `OP_16` for 1 to 16, else a push of the minimal script number.
#[verifier::external_body]
fn push_int(n: i64) -> (r: Vec<u8>)
    requires
        0 <= n <= MAX_BTC_INT,
    ensures
        r@ == push_int_bytes(n as nat),
{
    bitcoin::script::Builder::new().push_int(n).into_bytes()
}

/// Bytes of one member's block.
fn member_script(pk: &[u8; 32], weight: i64) -> (r: Vec<u8>)
    requires
        0 <= weight <= MAX_BTC_INT,
    ensures
        r@ == encode_ops(member_ops(pk@, weight as int)),
{
    let mut r: Vec<u8> = Vec::new();
    r.push(OP_SWAP);
    r.push(XONLY_KEY_SIZE);
    let mut i: usize = 0;
    while i < 32
        invariant
            i <= 32,
            r@ == seq![OP_SWAP, XONLY_KEY_SIZE] + pk@.subrange(0, i as int),
        decreases 32 - i,
    {
        r.push(pk[i]);
        proof {
            assert(pk@.subrange(0, i + 1) =~= pk@.subrange(0, i as int).push(pk@[i as int]));
        }
        i = i + 1;
    }
    assert(pk@.subrange(0, 32) =~= pk@);
    r.push(OP_CHECKSIG);
    r.push(OP_IF);
    let mut w = push_int(weight);
    r.append(&mut w);
    r.push(OP_ELSE);
    let mut zero = push_int(0);
    r.append(&mut zero);
    r.push(OP_ENDIF);
    r.push(OP_ADD);
    proof {
        reveal_with_fuel(encode_ops, 10);
        assert(r@ =~= encode_ops(member_ops(pk@, weight as int)));
    }
    r
}

/// The weighted-threshold Tapscript of a committee: for each member in order,
/// `OP_SWAP <key> OP_CHECKSIG OP_IF <weight> OP_ELSE 0 OP_ENDIF OP_ADD`,
/// between a leading 0 and a closing `<threshold> OP_GREATERTHANOREQUAL`.
pub fn committee_script(spec: &CommitteeSpec) -> (r: Vec<u8>)
    requires
        spec.wf(),
    ensures
        r@ == committee_script_bytes(spec.members@, spec.threshold as int),
{
    let mut r = push_int(0);
    proof {
        reveal_with_fuel(encode_ops, 2);
        assert(encode_ops(seq![ScriptOp::Num(0)]) =~= push_int_bytes(0));
    }
    let mut i: usize = 0;
    while i < spec.members.len()
        invariant
            spec.wf(),
            i <= spec.members@.len(),
            r@ == encode_ops(seq![ScriptOp::Num(0)] + members_ops(spec.members@.subrange(0, i as int))),
        decreases spec.members@.len() - i,
    {
        let (pk, weight) = &spec.members[i];
        assert(0 <= spec.members@[i as int].1 <= MAX_BTC_INT);
        let mut block = member_script(pk, *weight);
        proof {
            let prefix = seq![ScriptOp::Num(0)] + members_ops(spec.members@.subrange(0, i as int));
            assert(spec.members@.subrange(0, i + 1).drop_last() =~= spec.members@.subrange(0, i as int));
            assert(seq![ScriptOp::Num(0)] + members_ops(spec.members@.subrange(0, i + 1)) =~= prefix
                + member_ops(pk@, *weight as int));
            lemma_encode_ops_append(prefix, member_ops(pk@, *weight as int));
        }
        r.append(&mut block);
        i = i + 1;
    }
    assert(spec.members@.subrange(0, spec.members@.len() as int) =~= spec.members@);
    let mut t = push_int(spec.threshold);
    r.append(&mut t);
    r.push(OP_GREATERTHANOREQUAL);
    proof {
        let prefix = seq![ScriptOp::Num(0)] + members_ops(spec.members@);
        let tail = seq![ScriptOp::Num(spec.threshold as int), ScriptOp::Code(OP_GREATERTHANOREQUAL)];
        assert(committee_ops(spec.members@, spec.threshold as int) =~= prefix + tail);
        lemma_encode_ops_append(prefix, tail);
        reveal_with_fuel(encode_ops, 3);
        assert(encode_ops(tail) =~= push_int_bytes(spec.threshold as nat) + seq![OP_GREATERTHANOREQUAL]);
        assert(r@ =~= encode_ops(prefix) + encode_ops(tail));
    }
    r
}

} // verus!

verus! {

/// An instruction pushes no integer outside `[0, 2^31 - 1]`.
pub open spec fn op_in_range(op: ScriptOp) -> bool {
    match op {
        ScriptOp::Num(n) => 0 <= n <= MAX_BTC_INT,
        _ => true,
    }
}

proof fn lemma_members_ops_in_range(members: Seq<([u8; 32], i64)>)
    requires
        forall|i: int| 0 <= i < members.len() ==> 0 <= #[trigger] members[i].1 <= MAX_BTC_INT,
    ensures
        forall|i: int| 0 <= i < members_ops(members).len() ==> op_in_range(#[trigger] members_ops(members)[i]),
    decreases members.len(),
{
    if members.len() > 0 {
        let rest = members.drop_last();
        assert forall|i: int| 0 <= i < rest.len() implies 0 <= #[trigger] rest[i].1 <= MAX_BTC_INT by {
            assert(rest[i] == members[i]);
        }
        lemma_members_ops_in_range(rest);
        let last = members[members.len() - 1];
        assert(0 <= last.1 <= MAX_BTC_INT);
        let a = members_ops(rest);
        let b = member_ops(last.0@, last.1 as int);
        assert forall|i: int| 0 <= i < members_ops(members).len() implies op_in_range(
            #[trigger] members_ops(members)[i],
        ) by {
            if i < a.len() {
                assert(members_ops(members)[i] == a[i]);
            } else {
                assert(members_ops(members)[i] == b[i - a.len()]);
            }
        }
    }
}

/// Every integer that the committee script of a well-formed committee pushes
/// (the accumulator's 0, each weight, each 0 for an absent signature, the
/// threshold) lies in `[0, 2^31 - 1]`.
pub proof fn lemma_pushed_ints_in_range(spec: CommitteeSpec)
    requires
        spec.wf(),
    ensures
        forall|i: int|
            0 <= i < committee_ops(spec.members@, spec.threshold as int).len() ==> op_in_range(
                #[trigger] committee_ops(spec.members@, spec.threshold as int)[i],
            ),
{
    lemma_members_ops_in_range(spec.members@);
    let ops = committee_ops(spec.members@, spec.threshold as int);
    let m = members_ops(spec.members@);
    assert forall|i: int| 0 <= i < ops.len() implies op_in_range(#[trigger] ops[i]) by {
        if i == 0 {
        } else if i < 1 + m.len() {
            assert(ops[i] == m[i - 1]);
        }
    }
}

} // verus!
