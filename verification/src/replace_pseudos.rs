use vstd::prelude::*;

use crate::assembly::{
    instrs_view, lemma_push_view, Function, FunctionV, Instruction, InstructionV, Loc, Operand,
    OperandV, Outcome, Program, Reg,
};
use crate::assembly;

verus! {

// ---------------------------------------------------------------------------
// What the pass computes.
//
// Every pseudo-register gets its own 4-byte stack slot. Slots are handed out in
// the order in which the pseudo-registers first occur (operands read left to
// right, instructions top to bottom): the first gets -4, the next -8, and so on.

/// The pseudo-register names an operand mentions.
pub open spec fn operand_pseudos(op: OperandV) -> Seq<Seq<char>> {
    match op {
        OperandV::Pseudo(name) => seq![name],
        _ => seq![],
    }
}

/// The pseudo-register names an instruction mentions, operands in order.
pub open spec fn instr_pseudos(i: InstructionV) -> Seq<Seq<char>> {
    match i {
        InstructionV::Mov { src, dst } => operand_pseudos(src) + operand_pseudos(dst),
        InstructionV::Unary { dst, .. } => operand_pseudos(dst),
        _ => seq![],
    }
}

/// Every mention of a pseudo-register, in order.
pub open spec fn pseudo_occurrences(s: Seq<InstructionV>) -> Seq<Seq<char>>
    decreases s.len(),
{
    if s.len() == 0 {
        seq![]
    } else {
        pseudo_occurrences(s.drop_last()) + instr_pseudos(s.last())
    }
}

/// `d` with `name` added at the end unless it is already there.
pub open spec fn add_name(d: Seq<Seq<char>>, name: Seq<char>) -> Seq<Seq<char>> {
    if d.contains(name) {
        d
    } else {
        d.push(name)
    }
}

/// `d` with each of `names` added in turn.
pub open spec fn add_names(d: Seq<Seq<char>>, names: Seq<Seq<char>>) -> Seq<Seq<char>>
    decreases names.len(),
{
    if names.len() == 0 {
        d
    } else {
        add_name(add_names(d, names.drop_last()), names.last())
    }
}

/// The distinct pseudo-registers of an instruction sequence, in order of first occurrence.
pub open spec fn pseudo_order(s: Seq<InstructionV>) -> Seq<Seq<char>> {
    add_names(seq![], pseudo_occurrences(s))
}

/// No name occurs twice.
pub open spec fn distinct(s: Seq<Seq<char>>) -> bool {
    forall|i: int, j: int| 0 <= i < j < s.len() ==> s[i] != s[j]
}

/// `p` is a prefix of `q`.
pub open spec fn is_prefix(p: Seq<Seq<char>>, q: Seq<Seq<char>>) -> bool {
    &&& p.len() <= q.len()
    &&& forall|i: int| 0 <= i < p.len() ==> p[i] == q[i]
}

/// The position of `name` in `order`.
pub open spec fn position(order: Seq<Seq<char>>, name: Seq<char>) -> int {
    choose|k: int| 0 <= k < order.len() && order[k] == name
}

/// The stack slot of the pseudo-register at position `k`.
pub open spec fn slot(k: int) -> i32 {
    (-4 * (k + 1)) as i32
}

/// An operand with its pseudo-register replaced by its slot.
pub open spec fn replace_operand_with(op: OperandV, order: Seq<Seq<char>>) -> OperandV {
    match op {
        OperandV::Pseudo(name) => OperandV::Stack(slot(position(order, name))),
        _ => op,
    }
}

/// An instruction with its pseudo-registers replaced by their slots.
pub open spec fn replace_instr_with(i: InstructionV, order: Seq<Seq<char>>) -> InstructionV {
    match i {
        InstructionV::Mov { src, dst } => InstructionV::Mov {
            src: replace_operand_with(src, order),
            dst: replace_operand_with(dst, order),
        },
        InstructionV::Unary { op, dst } => InstructionV::Unary {
            op,
            dst: replace_operand_with(dst, order),
        },
        _ => i,
    }
}

/// The instructions with every pseudo-register replaced by its slot.
pub open spec fn replaced_instrs(s: Seq<InstructionV>) -> Seq<InstructionV> {
    s.map_values(|i: InstructionV| replace_instr_with(i, pseudo_order(s)))
}

/// The stack space the slots take, in bytes.
pub open spec fn stack_size(s: Seq<InstructionV>) -> int {
    4 * pseudo_order(s).len() as int
}

/// What the pass accepts: no stack allocation yet, and a frame whose size fits an `i32`.
pub open spec fn replaceable(s: Seq<InstructionV>) -> bool {
    &&& forall|k: int| 0 <= k < s.len() ==> !(#[trigger] s[k] is AllocateStack)
    &&& stack_size(s) <= i32::MAX
}

// ---------------------------------------------------------------------------
// Facts about the order of first occurrence.

pub proof fn lemma_add_name(d: Seq<Seq<char>>, name: Seq<char>)
    requires
        distinct(d),
    ensures
        distinct(add_name(d, name)),
        is_prefix(d, add_name(d, name)),
        add_name(d, name).contains(name),
        forall|x: Seq<char>| d.contains(x) ==> add_name(d, name).contains(x),
        forall|x: Seq<char>| #[trigger] add_name(d, name).contains(x) ==> d.contains(x) || x == name,
{
    if !d.contains(name) {
        let e = d.push(name);
        assert(e[d.len() as int] == name);
        assert forall|x: Seq<char>| #[trigger] e.contains(x) implies d.contains(x) || x == name by {
            let k = choose|k: int| 0 <= k < e.len() && e[k] == x;
            if k < d.len() {
                assert(d[k] == x);
            }
        }
        assert forall|x: Seq<char>| d.contains(x) implies e.contains(x) by {
            let k = choose|k: int| 0 <= k < d.len() && d[k] == x;
            assert(e[k] == x);
        }
    }
}

pub proof fn lemma_add_names(d: Seq<Seq<char>>, names: Seq<Seq<char>>)
    requires
        distinct(d),
    ensures
        distinct(add_names(d, names)),
        is_prefix(d, add_names(d, names)),
        forall|k: int| 0 <= k < names.len() ==> add_names(d, names).contains(#[trigger] names[k]),
        forall|x: Seq<char>| d.contains(x) ==> add_names(d, names).contains(x),
        add_names(d, names).len() <= d.len() + names.len(),
    decreases names.len(),
{
    if names.len() > 0 {
        let mid = add_names(d, names.drop_last());
        lemma_add_names(d, names.drop_last());
        lemma_add_name(mid, names.last());
        assert forall|k: int| 0 <= k < names.len() implies add_names(d, names).contains(
            #[trigger] names[k],
        ) by {
            if k < names.len() - 1 {
                assert(names.drop_last()[k] == names[k]);
            }
        }
    }
}

pub proof fn lemma_add_names_append(d: Seq<Seq<char>>, a: Seq<Seq<char>>, b: Seq<Seq<char>>)
    ensures
        add_names(d, a + b) == add_names(add_names(d, a), b),
    decreases b.len(),
{
    if b.len() == 0 {
        assert(a + b =~= a);
    } else {
        assert((a + b).drop_last() =~= a + b.drop_last());
        assert((a + b).last() == b.last());
        lemma_add_names_append(d, a, b.drop_last());
    }
}

pub proof fn lemma_occurrences_append(a: Seq<InstructionV>, b: Seq<InstructionV>)
    ensures
        pseudo_occurrences(a + b) == pseudo_occurrences(a) + pseudo_occurrences(b),
    decreases b.len(),
{
    if b.len() == 0 {
        assert(a + b =~= a);
        assert(pseudo_occurrences(a) + seq![] =~= pseudo_occurrences(a));
    } else {
        assert((a + b).drop_last() =~= a + b.drop_last());
        assert((a + b).last() == b.last());
        lemma_occurrences_append(a, b.drop_last());
        assert(pseudo_occurrences(a) + pseudo_occurrences(b.drop_last()) + instr_pseudos(b.last())
            =~= pseudo_occurrences(a) + (pseudo_occurrences(b.drop_last()) + instr_pseudos(
            b.last(),
        )));
    }
}

/// The first occurrences of a prefix come first among those of the whole.
pub proof fn lemma_order_prefix(s: Seq<InstructionV>, k: int)
    requires
        0 <= k <= s.len(),
    ensures
        is_prefix(pseudo_order(s.take(k)), pseudo_order(s)),
        distinct(pseudo_order(s)),
{
    assert(s =~= s.take(k) + s.skip(k));
    lemma_occurrences_append(s.take(k), s.skip(k));
    lemma_add_names_append(seq![], pseudo_occurrences(s.take(k)), pseudo_occurrences(s.skip(k)));
    lemma_add_names(seq![], pseudo_occurrences(s.take(k)));
    lemma_add_names(pseudo_order(s.take(k)), pseudo_occurrences(s.skip(k)));
}

/// In a sequence without repeats, the position of an element at `k` is `k`.
pub proof fn lemma_position(order: Seq<Seq<char>>, k: int)
    requires
        distinct(order),
        0 <= k < order.len(),
    ensures
        position(order, order[k]) == k,
{
    let p = position(order, order[k]);
    assert(0 <= p < order.len() && order[p] == order[k]);
}

/// A name placed in a prefix keeps its position in the whole.
pub proof fn lemma_position_prefix(p: Seq<Seq<char>>, q: Seq<Seq<char>>, name: Seq<char>)
    requires
        is_prefix(p, q),
        distinct(q),
        p.contains(name),
    ensures
        position(p, name) == position(q, name),
        0 <= position(q, name) < p.len(),
{
    let k = choose|k: int| 0 <= k < p.len() && p[k] == name;
    assert(distinct(p));
    lemma_position(p, k);
    assert(q[k] == name);
    lemma_position(q, k);
}

/// Replacing with a longer order changes nothing for the names a prefix already holds.
pub proof fn lemma_replace_instr_prefix(i: InstructionV, p: Seq<Seq<char>>, q: Seq<Seq<char>>)
    requires
        is_prefix(p, q),
        distinct(q),
        forall|k: int| 0 <= k < instr_pseudos(i).len() ==> p.contains(#[trigger] instr_pseudos(i)[k]),
    ensures
        replace_instr_with(i, p) == replace_instr_with(i, q),
{
    match i {
        InstructionV::Mov { src, dst } => {
            let ps = operand_pseudos(src);
            if let OperandV::Pseudo(n) = src {
                assert(instr_pseudos(i)[0] == n);
                lemma_position_prefix(p, q, n);
            }
            if let OperandV::Pseudo(n) = dst {
                assert(instr_pseudos(i)[ps.len() as int] == n);
                lemma_position_prefix(p, q, n);
            }
        },
        InstructionV::Unary { dst, .. } => {
            if let OperandV::Pseudo(n) = dst {
                assert(instr_pseudos(i)[0] == n);
                lemma_position_prefix(p, q, n);
            }
        },
        _ => {},
    }
}

// ---------------------------------------------------------------------------
// The pass.

/// State tracking stack slot assignments.
struct ReplacementState {
    /// The last used stack offset (grows negative from 0).
    current_offset: i32,
    /// Each pseudo-register given a slot so far, with its offset, in order of assignment.
    /// A list rather than a `HashMap<String, i32>`: vstd specifies `HashMap` only for keys
    /// whose hashing and equality it models (`obeys_key_model`), and `String` is not one of
    /// them; the list's invariant (`inv`) keeps each name once.
    offset_map: Vec<(String, i32)>,
}

impl ReplacementState {
    /// The names given a slot so far, in order.
    spec fn names(&self) -> Seq<Seq<char>> {
        self.offset_map@.map_values(|e: (String, i32)| e.0@)
    }

    /// Each name occurs once; the `k`-th name has slot `-4 * (k + 1)`; the last offset is the
    /// last slot given, and the frame's size fits an `i32`.
    spec fn inv(&self) -> bool {
        &&& distinct(self.names())
        &&& forall|k: int| 0 <= k < self.offset_map@.len() ==> #[trigger] self.offset_map@[k].1 == slot(k)
        &&& self.current_offset == -4 * self.offset_map@.len()
        &&& 4 * self.offset_map@.len() <= i32::MAX
    }

    fn new() -> (s: Self)
        ensures
            s.inv(),
            s.names() == Seq::<Seq<char>>::empty(),
    {
        let s = Self { current_offset: 0, offset_map: Vec::new() };
        assert(s.names() =~= Seq::<Seq<char>>::empty());
        s
    }

    /// Replace a pseudo-register with a stack slot, assigning a new slot if needed.
    fn replace_operand(&mut self, operand: &Operand) -> (r: Operand)
        requires
            old(self).inv(),
            4 * add_names(old(self).names(), operand_pseudos(operand@)).len() <= i32::MAX,
        ensures
            final(self).inv(),
            final(self).names() == add_names(old(self).names(), operand_pseudos(operand@)),
            r@ == replace_operand_with(operand@, final(self).names()),
    {
        match operand {
            Operand::Pseudo(name) => {
                proof {
                    reveal_with_fuel(add_names, 2);
                    assert(operand_pseudos(operand@) =~= seq![name@]);
                    assert(operand_pseudos(operand@).drop_last() =~= Seq::<Seq<char>>::empty());
                }
                let n = self.offset_map.len();
                let mut k: usize = 0;
                while k < n
                    invariant
                        self.offset_map@ == old(self).offset_map@,
                        self.current_offset == old(self).current_offset,
                        self.inv(),
                        operand@ == OperandV::Pseudo(name@),
                        n == self.offset_map@.len(),
                        k <= n,
                        forall|j: int| 0 <= j < k ==> self.names()[j] != name@,
                    decreases n - k,
                {
                    if self.offset_map[k].0.eq(name) {
                        let offset = self.offset_map[k].1;
                        proof {
                            reveal_with_fuel(add_names, 2);
                            assert(operand_pseudos(operand@) =~= seq![name@]);
                            assert(operand_pseudos(operand@).drop_last() =~= Seq::<Seq<char>>::empty());
                            assert(self.names()[k as int] == name@);
                            assert(self.names().contains(name@));
                            lemma_position(self.names(), k as int);
                        }
                        return Operand::Stack(offset);
                    }
                    k = k + 1;
                }
                let ghost old_names = self.names();
                assert(!old_names.contains(name@)) by {
                    if old_names.contains(name@) {
                        let j = choose|j: int| 0 <= j < old_names.len() && old_names[j] == name@;
                        assert(self.names()[j] != name@);
                    }
                }
                self.current_offset = self.current_offset - 4;
                let offset = self.current_offset;
                self.offset_map.push((name.clone(), offset));
                proof {
                    assert(self.names() =~= old_names.push(name@));
                    lemma_add_name(old_names, name@);
                    lemma_position(self.names(), n as int);
                }
                Operand::Stack(offset)
            },
            other => {
                assert(operand_pseudos(operand@) =~= Seq::<Seq<char>>::empty());
                other.duplicate()
            },
        }
    }

    /// Replace pseudos in a single instruction.
    fn replace_in_instruction(&mut self, instr: &Instruction) -> (r: Instruction)
        requires
            old(self).inv(),
            !(instr@ is AllocateStack),
            4 * add_names(old(self).names(), instr_pseudos(instr@)).len() <= i32::MAX,
        ensures
            final(self).inv(),
            final(self).names() == add_names(old(self).names(), instr_pseudos(instr@)),
            r@ == replace_instr_with(instr@, final(self).names()),
    {
        match instr {
            Instruction::Mov { src, dst } => {
                let ghost n0 = self.names();
                let ghost ps = operand_pseudos(src@);
                let ghost pd = operand_pseudos(dst@);
                proof {
                    lemma_add_names_append(n0, ps, pd);
                    lemma_add_names(n0, ps);
                    lemma_add_names(add_names(n0, ps), pd);
                }
                let new_src = self.replace_operand(src);
                let ghost n1 = self.names();
                let new_dst = self.replace_operand(dst);
                proof {
                    let n2 = self.names();
                    if let OperandV::Pseudo(name) = src@ {
                        lemma_add_names(n0, ps);
                        assert(ps[0] == name);
                        lemma_position_prefix(n1, n2, name);
                    }
                }
                Instruction::Mov { src: new_src, dst: new_dst }
            },
            Instruction::Unary { op, dst } => {
                let new_dst = self.replace_operand(dst);
                Instruction::Unary { op: *op, dst: new_dst }
            },
            Instruction::Ret => {
                assert(instr_pseudos(instr@) =~= Seq::<Seq<char>>::empty());
                Instruction::Ret
            },
            Instruction::AllocateStack(_) => {
                // the precondition rules this out
                assert(false);
                Instruction::Ret
            },
        }
    }
}

/// Replace all pseudo-registers in a function with stack slots.
///
/// Returns the updated function and the total stack size needed (as a positive value).
fn replace_pseudos_in_function(func: &Function) -> (r: (Function, i32))
    requires
        replaceable(func@.instructions),
    ensures
        r.0@ == (FunctionV { name: func@.name, instructions: replaced_instrs(func@.instructions) }),
        r.1 == stack_size(func@.instructions),
{
    let ghost s = func@.instructions;
    let mut state = ReplacementState::new();
    let mut instructions: Vec<Instruction> = Vec::new();
    let n = func.instructions.len();
    proof {
        lemma_order_prefix(s, 0);
        assert(s.take(0) =~= Seq::<InstructionV>::empty());
        assert(pseudo_occurrences(s.take(0)) =~= Seq::<Seq<char>>::empty());
    }
    for i in 0..n
        invariant
            n == s.len(),
            s == func@.instructions,
            replaceable(s),
            state.inv(),
            state.names() == pseudo_order(s.take(i as int)),
            instrs_view(instructions@) == s.take(i as int).map_values(
                |x: InstructionV| replace_instr_with(x, state.names()),
            ),
    {
        let ghost before = instructions@;
        let ghost names_before = state.names();
        proof {
            assert(s.take(i + 1).drop_last() =~= s.take(i as int));
            assert(s.take(i + 1).last() == s[i as int]);
            lemma_add_names_append(
                seq![],
                pseudo_occurrences(s.take(i as int)),
                instr_pseudos(s[i as int]),
            );
            lemma_order_prefix(s, i + 1);
            assert(s[i as int] == func.instructions@[i as int]@);
            assert(!(s[i as int] is AllocateStack));
        }
        let new_instr = state.replace_in_instruction(&func.instructions[i]);
        instructions.push(new_instr);
        proof {
            let names_after = state.names();
            lemma_add_names(names_before, instr_pseudos(s[i as int]));
            lemma_push_view(before, new_instr);
            lemma_add_names(seq![], pseudo_occurrences(s.take(i as int)));
            assert forall|k: int| 0 <= k < i implies replace_instr_with(s[k], names_before)
                == replace_instr_with(s[k], names_after) by {
                lemma_order_covers(s.take(i as int), k);
                assert(s.take(i as int)[k] == s[k]);
                lemma_replace_instr_prefix(s[k], names_before, names_after);
            }
            assert(instrs_view(instructions@) =~= s.take(i + 1).map_values(
                |x: InstructionV| replace_instr_with(x, names_after),
            ));
        }
    }
    assert(s.take(n as int) =~= s);
    let stack_size = -state.current_offset;
    let fixed_func = Function { name: func.name.clone(), instructions };
    assert(instrs_view(fixed_func.instructions@) =~= replaced_instrs(s));
    (fixed_func, stack_size)
}

/// Replace pseudo-registers in an entire program.
///
/// Returns the updated program and the stack size needed: each distinct
/// pseudo-register, in order of first occurrence, gets the next 4-byte slot
/// below `%rbp` (-4, -8, ...).
pub fn replace_pseudos(program: &Program) -> (r: (Program, i32))
    requires
        replaceable(program@.instructions),
    ensures
        r.0@ == (FunctionV { name: program@.name, instructions: replaced_instrs(program@.instructions) }),
        r.1 == stack_size(program@.instructions),
{
    let (fixed_func, stack_size) = replace_pseudos_in_function(&program.function);
    (Program { function: fixed_func }, stack_size)
}

/// How many pseudo-register mentions an operand has.
fn operand_mentions(op: &Operand) -> (n: usize)
    ensures
        n == operand_pseudos(op@).len(),
{
    match op {
        Operand::Pseudo(_) => 1,
        _ => 0,
    }
}

/// Whether `replace_pseudos` accepts these instructions with room to spare: none is a
/// stack allocation, and even if every mention of a pseudo-register were a different
/// one, their slots would fit an `i32` frame.
pub fn can_replace(instrs: &Vec<Instruction>) -> (b: bool)
    ensures
        b == ((forall|k: int| 0 <= k < instrs@.len() ==> !(#[trigger] instrs@[k]@ is AllocateStack))
            && 4 * pseudo_occurrences(instrs_view(instrs@)).len() <= i32::MAX),
        b ==> replaceable(instrs_view(instrs@)),
{
    let ghost s = instrs_view(instrs@);
    let n = instrs.len();
    let mut count: usize = 0;
    for i in 0..n
        invariant
            n == instrs@.len(),
            s == instrs_view(instrs@),
            count == pseudo_occurrences(s.take(i as int)).len(),
            4 * count <= i32::MAX,
            forall|k: int| 0 <= k < i ==> !(#[trigger] instrs@[k]@ is AllocateStack),
    {
        proof {
            assert(s.take(i + 1).drop_last() =~= s.take(i as int));
            assert(s.take(i + 1).last() == instrs@[i as int]@);
        }
        let here = match &instrs[i] {
            Instruction::Mov { src, dst } => operand_mentions(src) + operand_mentions(dst),
            Instruction::Unary { dst, .. } => operand_mentions(dst),
            Instruction::AllocateStack(_) => {
                return false;
            },
            Instruction::Ret => 0,
        };
        if count + here > 536870911 {
            proof {
                assert(s =~= s.take(i + 1) + s.skip(i + 1));
                lemma_occurrences_append(s.take(i + 1), s.skip(i + 1));
            }
            return false;
        }
        count = count + here;
    }
    proof {
        assert(s.take(n as int) =~= s);
        lemma_add_names(seq![], pseudo_occurrences(s));
        assert forall|k: int| 0 <= k < s.len() implies !(#[trigger] s[k] is AllocateStack) by {
            assert(s[k] == instrs@[k]@);
        }
    }
    true
}

// ---------------------------------------------------------------------------
// Correctness: each pseudo-register lives in its own stack slot.

/// An operand that is not a stack slot.
pub open spec fn not_stack(op: OperandV) -> bool {
    !(op is Stack)
}

/// The instructions name no stack slot and allocate no stack: what code generation gives.
pub open spec fn stack_free(s: Seq<InstructionV>) -> bool {
    forall|k: int|
        0 <= k < s.len() ==> match #[trigger] s[k] {
            InstructionV::Mov { src, dst } => not_stack(src) && not_stack(dst),
            InstructionV::Unary { dst, .. } => not_stack(dst),
            InstructionV::AllocateStack(_) => false,
            InstructionV::Ret => true,
        }
}

/// The location of the slot of `name` in `order`.
pub open spec fn slot_loc(order: Seq<Seq<char>>, name: Seq<char>) -> Loc {
    Loc::Stack(slot(position(order, name)) as int)
}

/// Registers agree, and every pseudo-register set before is set, to the same value,
/// in its slot after.
pub open spec fn related(order: Seq<Seq<char>>, m: Map<Loc, int>, m2: Map<Loc, int>) -> bool {
    &&& forall|r: Reg|
        #[trigger] m.dom().contains(Loc::Reg(r)) ==> m2.dom().contains(Loc::Reg(r)) && m2[Loc::Reg(r)]
            == m[Loc::Reg(r)]
    &&& forall|name: Seq<char>|
        #[trigger] m.dom().contains(Loc::Pseudo(name)) ==> order.contains(name) && m2.dom().contains(
            slot_loc(order, name),
        ) && m2[slot_loc(order, name)] == m[Loc::Pseudo(name)]
}

/// The run with slots keeps up with the run with pseudo-registers.
pub open spec fn refines(order: Seq<Seq<char>>, a: Outcome, o: Outcome) -> bool {
    match o {
        Outcome::Running(m) => a matches Outcome::Running(m2) && related(order, m, m2),
        Outcome::Returned(v) => a == Outcome::Returned(v),
        Outcome::Stuck => true,
    }
}

/// The slots of a distinct sequence of names are distinct locations.
pub proof fn lemma_slots_distinct(order: Seq<Seq<char>>, a: Seq<char>, b: Seq<char>)
    requires
        distinct(order),
        4 * order.len() <= i32::MAX,
        order.contains(a),
        order.contains(b),
        a != b,
    ensures
        slot_loc(order, a) != slot_loc(order, b),
{
    let pa = position(order, a);
    let pb = position(order, b);
    assert(0 <= pa < order.len() && order[pa] == a);
    assert(0 <= pb < order.len() && order[pb] == b);
    assert(pa != pb);
    assert(slot(pa) == -4 * (pa + 1));
    assert(slot(pb) == -4 * (pb + 1));
}

proof fn lemma_read_replaced(order: Seq<Seq<char>>, op: OperandV, m: Map<Loc, int>, m2: Map<Loc, int>)
    requires
        related(order, m, m2),
        not_stack(op),
    ensures
        assembly::read(op, m) matches Some(x) ==> assembly::read(replace_operand_with(op, order), m2)
            == Some(x),
{
    match op {
        OperandV::Reg(r) => {
            if m.dom().contains(Loc::Reg(r)) {
                assert(m2.dom().contains(Loc::Reg(r)));
            }
        },
        OperandV::Pseudo(n) => {
            if m.dom().contains(Loc::Pseudo(n)) {
                assert(m2.dom().contains(slot_loc(order, n)));
            }
        },
        _ => {},
    }
}

proof fn lemma_write_replaced(
    order: Seq<Seq<char>>,
    op: OperandV,
    m: Map<Loc, int>,
    m2: Map<Loc, int>,
    x: int,
)
    requires
        related(order, m, m2),
        distinct(order),
        4 * order.len() <= i32::MAX,
        not_stack(op),
        op matches OperandV::Pseudo(n) ==> order.contains(n),
        assembly::loc_of(op) is Some,
    ensures
        assembly::loc_of(replace_operand_with(op, order)) is Some,
        related(
            order,
            m.insert(assembly::loc_of(op)->Some_0, x),
            m2.insert(assembly::loc_of(replace_operand_with(op, order))->Some_0, x),
        ),
{
    let l = assembly::loc_of(op)->Some_0;
    let l2 = assembly::loc_of(replace_operand_with(op, order))->Some_0;
    let mm = m.insert(l, x);
    let mm2 = m2.insert(l2, x);
    match op {
        OperandV::Reg(r0) => {
            assert forall|name: Seq<char>| #[trigger] mm.dom().contains(Loc::Pseudo(name)) implies order.contains(name)
                && mm2.dom().contains(slot_loc(order, name)) && mm2[slot_loc(order, name)] == mm[Loc::Pseudo(name)] by {
                assert(m.dom().contains(Loc::Pseudo(name)));
            }
        },
        OperandV::Pseudo(n) => {
            assert(l2 == slot_loc(order, n));
            assert forall|name: Seq<char>| #[trigger] mm.dom().contains(Loc::Pseudo(name)) implies order.contains(name)
                && mm2.dom().contains(slot_loc(order, name)) && mm2[slot_loc(order, name)] == mm[Loc::Pseudo(name)] by {
                if name != n {
                    assert(m.dom().contains(Loc::Pseudo(name)));
                    lemma_slots_distinct(order, name, n);
                }
            }
        },
        _ => {},
    }
}

proof fn lemma_replace_instr_correct(order: Seq<Seq<char>>, i: InstructionV, m: Map<Loc, int>, m2: Map<Loc, int>)
    requires
        related(order, m, m2),
        distinct(order),
        4 * order.len() <= i32::MAX,
        stack_free(seq![i]),
        forall|j: int| 0 <= j < instr_pseudos(i).len() ==> order.contains(#[trigger] instr_pseudos(i)[j]),
    ensures
        refines(order, assembly::step(replace_instr_with(i, order), m2), assembly::step(i, m)),
{
    assert(seq![i][0] == i);
    match i {
        InstructionV::Mov { src, dst } => {
            if let OperandV::Pseudo(n) = src {
                assert(instr_pseudos(i)[0] == n);
            }
            if let OperandV::Pseudo(n) = dst {
                assert(instr_pseudos(i)[operand_pseudos(src).len() as int] == n);
            }
            lemma_read_replaced(order, src, m, m2);
            if let Some(x) = assembly::read(src, m) {
                if assembly::loc_of(dst) is Some {
                    lemma_write_replaced(order, dst, m, m2, x);
                }
            }
        },
        InstructionV::Unary { op, dst } => {
            if let OperandV::Pseudo(n) = dst {
                assert(instr_pseudos(i)[0] == n);
            }
            lemma_read_replaced(order, dst, m, m2);
            if let Some(x) = assembly::read(dst, m) {
                if assembly::loc_of(dst) is Some {
                    lemma_write_replaced(order, dst, m, m2, assembly::apply_unary(op, x));
                }
            }
        },
        InstructionV::Ret => {
            lemma_read_replaced(order, OperandV::Reg(Reg::AX), m, m2);
        },
        InstructionV::AllocateStack(_) => {},
    }
}

/// Every pseudo-register an instruction mentions has a place in the order of first occurrence.
pub proof fn lemma_order_covers(s: Seq<InstructionV>, k: int)
    requires
        0 <= k < s.len(),
    ensures
        forall|j: int|
            0 <= j < instr_pseudos(s[k]).len() ==> pseudo_order(s).contains(#[trigger] instr_pseudos(s[k])[j]),
{
    assert(s =~= s.take(k) + seq![s[k]] + s.skip(k + 1));
    lemma_occurrences_append(s.take(k) + seq![s[k]], s.skip(k + 1));
    lemma_occurrences_append(s.take(k), seq![s[k]]);
    assert(pseudo_occurrences(seq![s[k]]) =~= instr_pseudos(s[k])) by {
        assert(seq![s[k]].drop_last() =~= Seq::<InstructionV>::empty());
        assert(pseudo_occurrences(Seq::<InstructionV>::empty()) =~= Seq::<Seq<char>>::empty());
        assert(Seq::<Seq<char>>::empty() + instr_pseudos(s[k]) =~= instr_pseudos(s[k]));
    }
    let occ = pseudo_occurrences(s);
    let off = pseudo_occurrences(s.take(k)).len();
    lemma_add_names(seq![], occ);
    assert forall|j: int| 0 <= j < instr_pseudos(s[k]).len() implies pseudo_order(s).contains(
        #[trigger] instr_pseudos(s[k])[j],
    ) by {
        assert(occ[off + j] == instr_pseudos(s[k])[j]);
    }
}

/// Runs with and without the replacement keep the refinement, for instructions that
/// mention only pseudo-registers of `order`.
pub proof fn lemma_replaced_run(order: Seq<Seq<char>>, s: Seq<InstructionV>, a: Outcome, o: Outcome)
    requires
        refines(order, a, o),
        distinct(order),
        4 * order.len() <= i32::MAX,
        stack_free(s),
        forall|k: int, j: int|
            0 <= k < s.len() && 0 <= j < instr_pseudos(s[k]).len() ==> order.contains(
                #[trigger] instr_pseudos(s[k])[j],
            ),
    ensures
        refines(
            order,
            assembly::run(s.map_values(|x: InstructionV| replace_instr_with(x, order)), a),
            assembly::run(s, o),
        ),
    decreases s.len(),
{
    if s.len() > 0 {
        let init = s.drop_last();
        let last = s.last();
        let f = |x: InstructionV| replace_instr_with(x, order);
        assert forall|k: int| 0 <= k < init.len() implies match #[trigger] init[k] {
            InstructionV::Mov { src, dst } => not_stack(src) && not_stack(dst),
            InstructionV::Unary { dst, .. } => not_stack(dst),
            InstructionV::AllocateStack(_) => false,
            InstructionV::Ret => true,
        } by {
            assert(init[k] == s[k]);
        }
        assert forall|k: int, j: int|
            0 <= k < init.len() && 0 <= j < instr_pseudos(init[k]).len() implies order.contains(
            #[trigger] instr_pseudos(init[k])[j],
        ) by {
            assert(init[k] == s[k]);
        }
        lemma_replaced_run(order, init, a, o);
        assert(s =~= init + seq![last]);
        assert(s.map_values(f) =~= init.map_values(f) + seq![f(last)]);
        assembly::lemma_run_append(init, seq![last], o);
        assembly::lemma_run_append(init.map_values(f), seq![f(last)], a);
        let a1 = assembly::run(init.map_values(f), a);
        let o1 = assembly::run(init, o);
        assembly::lemma_run_single(last, o1);
        assembly::lemma_run_single(f(last), a1);
        assert(seq![last][0] == s[s.len() - 1]);
        assert(stack_free(seq![last]));
        assert forall|j: int| 0 <= j < instr_pseudos(last).len() implies order.contains(
            #[trigger] instr_pseudos(last)[j],
        ) by {
            assert(instr_pseudos(s[s.len() - 1])[j] == instr_pseudos(last)[j]);
        }
        if let Outcome::Running(m) = o1 {
            lemma_replace_instr_correct(order, last, m, a1->Running_0);
        }
    }
}

/// Replacing pseudo-registers preserves what a function returns: for instructions as
/// code generation gives them (no stack slot named, no stack allocated) whose slots fit
/// an `i32` frame, if they return `v`, so do the instructions with slots.
pub proof fn lemma_replace_pseudos_correct(s: Seq<InstructionV>, v: int)
    requires
        stack_free(s),
        stack_size(s) <= i32::MAX,
        assembly::run(s, Outcome::Running(Map::empty())) == Outcome::Returned(v),
    ensures
        assembly::run(replaced_instrs(s), Outcome::Running(Map::empty())) == Outcome::Returned(v),
{
    let order = pseudo_order(s);
    lemma_add_names(seq![], pseudo_occurrences(s));
    assert forall|k: int, j: int|
        0 <= k < s.len() && 0 <= j < instr_pseudos(s[k]).len() implies order.contains(
        #[trigger] instr_pseudos(s[k])[j],
    ) by {
        lemma_order_covers(s, k);
    }
    let e = Map::<Loc, int>::empty();
    lemma_replaced_run(order, s, Outcome::Running(e), Outcome::Running(e));
}

/// After replacement no pseudo-register is left, and two different pseudo-registers
/// of the instructions get two different stack slots.
pub proof fn lemma_replace_pseudos_valid(s: Seq<InstructionV>, a: Seq<char>, b: Seq<char>)
    requires
        stack_size(s) <= i32::MAX,
        pseudo_occurrences(s).contains(a),
        pseudo_occurrences(s).contains(b),
        a != b,
    ensures
        forall|k: int| 0 <= k < replaced_instrs(s).len() ==> instr_pseudos(#[trigger] replaced_instrs(s)[k]).len() == 0,
        slot_loc(pseudo_order(s), a) != slot_loc(pseudo_order(s), b),
{
    let order = pseudo_order(s);
    lemma_add_names(seq![], pseudo_occurrences(s));
    let ia = choose|k: int| 0 <= k < pseudo_occurrences(s).len() && pseudo_occurrences(s)[k] == a;
    let ib = choose|k: int| 0 <= k < pseudo_occurrences(s).len() && pseudo_occurrences(s)[k] == b;
    assert(order.contains(pseudo_occurrences(s)[ia]));
    assert(order.contains(pseudo_occurrences(s)[ib]));
    lemma_slots_distinct(order, a, b);
    let r = replaced_instrs(s);
    assert forall|k: int| 0 <= k < r.len() implies instr_pseudos(#[trigger] r[k]).len() == 0 by {
        assert(r[k] == replace_instr_with(s[k], order));
    }
}

/// Instructions that mention no pseudo-register have an empty order of first occurrence.
proof fn lemma_no_pseudos_order(s: Seq<InstructionV>)
    requires
        forall|k: int| 0 <= k < s.len() ==> instr_pseudos(#[trigger] s[k]).len() == 0,
    ensures
        pseudo_occurrences(s).len() == 0,
        pseudo_order(s).len() == 0,
    decreases s.len(),
{
    if s.len() > 0 {
        assert forall|k: int| 0 <= k < s.drop_last().len() implies instr_pseudos(
            #[trigger] s.drop_last()[k],
        ).len() == 0 by {
            assert(s.drop_last()[k] == s[k]);
        }
        lemma_no_pseudos_order(s.drop_last());
        assert(instr_pseudos(s[s.len() - 1]).len() == 0);
    }
    assert(pseudo_occurrences(s) =~= Seq::<Seq<char>>::empty());
}

/// Running the replacement on its own output changes nothing: no pseudo-register is left,
/// so every instruction comes back as it is, with no stack needed; and the output is
/// again accepted.
pub proof fn lemma_replace_pseudos_idempotent(s: Seq<InstructionV>)
    requires
        replaceable(s),
    ensures
        replaceable(replaced_instrs(s)),
        replaced_instrs(replaced_instrs(s)) == replaced_instrs(s),
        stack_size(replaced_instrs(s)) == 0,
{
    let r = replaced_instrs(s);
    let order = pseudo_order(s);
    assert forall|k: int| 0 <= k < r.len() implies instr_pseudos(#[trigger] r[k]).len() == 0 by {
        assert(r[k] == replace_instr_with(s[k], order));
    }
    lemma_no_pseudos_order(r);
    assert forall|k: int| 0 <= k < r.len() implies !(#[trigger] r[k] is AllocateStack) by {
        assert(r[k] == replace_instr_with(s[k], order));
        assert(!(s[k] is AllocateStack));
    }
    assert forall|k: int| 0 <= k < r.len() implies #[trigger] replace_instr_with(r[k], pseudo_order(r)) == r[k] by {
        assert(r[k] == replace_instr_with(s[k], order));
    }
    assert(replaced_instrs(r) =~= r);
}

/// Slots are 4 bytes apart below `%rbp`: the `k`-th pseudo-register gets `-4 * (k + 1)`,
/// and two different positions within an `i32` frame get two different slots.
pub proof fn lemma_slots(j: int, k: int)
    requires
        0 <= j < k,
        4 * (k + 1) <= i32::MAX,
    ensures
        slot(j) == -4 * (j + 1),
        slot(k) == -4 * (k + 1),
        slot(j) != slot(k),
{
}

} // verus!
