use vstd::prelude::*;

verus! {

use crate::errors::{FaultKind, RunError, FormatError};
use crate::image::{Bytecode, load_spec};
use crate::value::{
    Cell, DictEntry, PathSeg, Pointer, PtrBase, cell_eq, cells_equal, clone_bytes, clone_cell,
    bytes_lt, bytes_less, bytes_equal, dict_find, pow_int,
};
use crate::varint::{read_vint, get_vint};

/// The locals and return address of one active invocation.  Frames form
/// a chain: the frame below a closure's frame stays reachable through
/// outer-local pointers for as long as it is on the chain.
pub struct Frame {
    pub ret: usize,
    pub locals: Vec<Cell>,
}

/// One virtual machine instance: a loaded immutable image plus the
/// execution state it exclusively owns.  `output` collects the lines the
/// diagnostic builtin writes; the host prints them.
pub struct Executor {
    pub object: Bytecode,
    pub globals: Vec<Cell>,
    pub stack: Vec<Cell>,
    pub frames: Vec<Frame>,
    pub ip: usize,
    pub output: Vec<Vec<u8>>,
}

/// The name of the exception raised by division or modulo by zero.
pub open spec fn divide_by_zero_name() -> Seq<u8> {
    seq![68u8, 105u8, 118u8, 105u8, 100u8, 101u8, 66u8, 121u8, 90u8, 101u8, 114u8, 111u8]
}

/// The name of the exception raised when an arithmetic result leaves
/// the 64-bit signed range (including a negative exponent).
pub open spec fn number_overflow_name() -> Seq<u8> {
    seq![
        78u8,
        117u8,
        109u8,
        98u8,
        101u8,
        114u8,
        79u8,
        118u8,
        101u8,
        114u8,
        102u8,
        108u8,
        111u8,
        119u8,
    ]
}

fn make_divide_by_zero_name() -> (r: Vec<u8>)
    ensures
        r@ == divide_by_zero_name(),
{
    let mut r: Vec<u8> = Vec::new();
    r.push(68);
    r.push(105);
    r.push(118);
    r.push(105);
    r.push(100);
    r.push(101);
    r.push(66);
    r.push(121);
    r.push(90);
    r.push(101);
    r.push(114);
    r.push(111);
    proof {
        assert(r@ =~= divide_by_zero_name());
    }
    r
}

fn make_number_overflow_name() -> (r: Vec<u8>)
    ensures
        r@ == number_overflow_name(),
{
    let mut r: Vec<u8> = Vec::new();
    r.push(78);
    r.push(117);
    r.push(109);
    r.push(98);
    r.push(101);
    r.push(114);
    r.push(79);
    r.push(118);
    r.push(101);
    r.push(114);
    r.push(102);
    r.push(108);
    r.push(111);
    r.push(119);
    proof {
        assert(r@ =~= number_overflow_name());
    }
    r
}

/// Any vector's length fits in `usize`.
pub proof fn lemma_vec_len_bound<T>(v: &Vec<T>)
    ensures
        v@.len() <= usize::MAX,
{
    assert(vstd::std_specs::vec::spec_vec_len(v) == v@.len());
}

/// Everything but the operand stack and the instruction pointer is the
/// same in `post` as in `pre`.
pub open spec fn env_same(pre: Executor, post: Executor) -> bool {
    &&& post.object == pre.object
    &&& post.globals == pre.globals
    &&& post.frames == pre.frames
    &&& post.output == pre.output
}

/// `r` reports the fault `k` at opcode offset `at`.
pub open spec fn is_fault(r: Result<(), RunError>, k: FaultKind, at: usize) -> bool {
    r matches Result::Err(RunError::Fault { kind: fk, at: fa }) && fk == k && fa == at
}

/// `r` reports a raised exception named `nm` at opcode offset `at`.
pub open spec fn is_raised(r: Result<(), RunError>, nm: Seq<u8>, at: usize) -> bool {
    r matches Result::Err(RunError::Raised { name, at: fa }) && name@ == nm && fa == at
}

/// The state is untouched and `r` reports fault `k` at the current
/// opcode: how every handler leaves the machine when it refuses to run.
pub open spec fn faulted(pre: Executor, post: Executor, r: Result<(), RunError>, k: FaultKind) -> bool {
    &&& post == pre
    &&& is_fault(r, k, pre.ip)
}

/// The immediate operand area of the current instruction: one varint
/// right after the opcode byte.
pub open spec fn operand1(e: Executor) -> Result<(nat, int), FormatError> {
    read_vint(e.object.code@, e.ip + 1)
}

/// Popping `n` values then pushing `c`.
pub open spec fn pop2_push(s: Seq<Cell>, c: Cell) -> Seq<Cell> {
    s.drop_last().drop_last().push(c)
}

pub open spec fn pop1_push(s: Seq<Cell>, c: Cell) -> Seq<Cell> {
    s.drop_last().push(c)
}

/// The fault for a failed two-value peek: underflow if the stack is
/// short, otherwise a kind mismatch.
pub open spec fn peek2_fault(s: Seq<Cell>, n: int) -> FaultKind {
    if s.len() < n {
        FaultKind::StackUnderflow
    } else {
        FaultKind::TypeMismatch
    }
}

impl Executor {
    /// Loads the buffer and builds the initial state: every global slot
    /// holds the uninitialized marker, the operand stack is empty, the
    /// frame chain holds only the sentinel frame whose return address is
    /// the code length (so a top-level return ends the run), and
    /// execution would start at offset zero.
    pub fn new(bytecode: &Vec<u8>) -> (r: Result<Executor, FormatError>)
        ensures
            match load_spec(bytecode@) {
                Result::Ok(img) => {
                    &&& r is Ok
                    &&& r->Ok_0.object.img() == img
                    &&& r->Ok_0.globals@.len() == img.global_size
                    &&& forall|i: int|
                        0 <= i < r->Ok_0.globals@.len() ==> r->Ok_0.globals@[i] == Cell::Empty
                    &&& r->Ok_0.stack@ == Seq::<Cell>::empty()
                    &&& r->Ok_0.frames@.len() == 1
                    &&& r->Ok_0.frames@[0].ret == img.code.len()
                    &&& r->Ok_0.frames@[0].locals@ == Seq::<Cell>::empty()
                    &&& r->Ok_0.ip == 0
                    &&& r->Ok_0.output@ == Seq::<Vec<u8>>::empty()
                },
                Result::Err(e) => r is Err && r->Err_0 == e,
            },
    {
        let object = match Bytecode::new(bytecode) {
            Result::Ok(o) => o,
            Result::Err(e) => {
                return Result::Err(e);
            },
        };
        let n = object.global_size;
        let mut globals: Vec<Cell> = Vec::new();
        let mut i: usize = 0;
        while i < n
            invariant
                0 <= i <= n,
                globals@.len() == i,
                forall|j: int| 0 <= j < i ==> globals@[j] == Cell::Empty,
            decreases n - i,
        {
            globals.push(Cell::Empty);
            i = i + 1;
        }
        let mut frames: Vec<Frame> = Vec::new();
        frames.push(Frame { ret: object.code.len(), locals: Vec::new() });
        Result::Ok(
            Executor { object, globals, stack: Vec::new(), frames, ip: 0, output: Vec::new() },
        )
    }

    /// Duplicates the top of the stack; the copy is structurally equal.
    pub fn op_dup(&mut self) -> (r: Result<(), RunError>)
        requires
            old(self).ip < old(self).object.code@.len(),
        ensures
            op_dup_post(*old(self), *final(self), r),
    {
        proof {
            lemma_vec_len_bound(&self.object.code);
        }
        let n = self.stack.len();
        if n == 0 {
            return Result::Err(RunError::Fault { kind: FaultKind::StackUnderflow, at: self.ip });
        }
        let c = clone_cell(&self.stack[n - 1]);
        self.stack.push(c);
        self.ip = self.ip + 1;
        proof {
            assert(final(self).stack@.drop_last() =~= old(self).stack@);
        }
        Result::Ok(())
    }

    /// Duplicates the top value and inserts the copy under the second
    /// value: `.. a b` becomes `.. b a b`.
    pub fn op_dupx1(&mut self) -> (r: Result<(), RunError>)
        requires
            old(self).ip < old(self).object.code@.len(),
        ensures
            op_dupx1_post(*old(self), *final(self), r),
    {
        proof {
            lemma_vec_len_bound(&self.object.code);
        }
        let n = self.stack.len();
        if n < 2 {
            return Result::Err(RunError::Fault { kind: FaultKind::StackUnderflow, at: self.ip });
        }
        let c = clone_cell(&self.stack[n - 1]);
        self.stack.insert(n - 2, c);
        self.ip = self.ip + 1;
        proof {
            assert(self.stack@.skip(self.stack@.len() - 2) =~= old(self).stack@.skip(
                old(self).stack@.len() - 2,
            ));
            assert(self.stack@.take(self.stack@.len() - 3) =~= old(self).stack@.take(
                old(self).stack@.len() - 2,
            ));
        }
        Result::Ok(())
    }

    /// Drops the top of the stack.
    pub fn op_drop(&mut self) -> (r: Result<(), RunError>)
        requires
            old(self).ip < old(self).object.code@.len(),
        ensures
            op_drop_post(*old(self), *final(self), r),
    {
        proof {
            lemma_vec_len_bound(&self.object.code);
        }
        if self.stack.len() == 0 {
            return Result::Err(RunError::Fault { kind: FaultKind::StackUnderflow, at: self.ip });
        }
        self.stack.pop();
        self.ip = self.ip + 1;
        Result::Ok(())
    }

    /// Swaps the two top stack values.
    pub fn op_swap(&mut self) -> (r: Result<(), RunError>)
        requires
            old(self).ip < old(self).object.code@.len(),
        ensures
            op_swap_post(*old(self), *final(self), r),
    {
        proof {
            lemma_vec_len_bound(&self.object.code);
        }
        let n = self.stack.len();
        if n < 2 {
            return Result::Err(RunError::Fault { kind: FaultKind::StackUnderflow, at: self.ip });
        }
        let b = self.stack.pop().unwrap();
        let a = self.stack.pop().unwrap();
        self.stack.push(b);
        self.stack.push(a);
        self.ip = self.ip + 1;
        proof {
            assert(self.stack@ =~= swapped_top(old(self).stack@));
        }
        Result::Ok(())
    }

    /// Removes the value `n` positions below the top, where `n` is the
    /// varint operand and position zero is the top itself.
    pub fn op_dropn(&mut self) -> (r: Result<(), RunError>)
        requires
            old(self).ip < old(self).object.code@.len(),
        ensures
            op_dropn_post(*old(self), *final(self), r),
    {
        proof {
            lemma_vec_len_bound(&self.object.code);
        }
        let at = self.ip;
        let mut cur = self.ip + 1;
        let v = match get_vint(&self.object.code, &mut cur) {
            Result::Ok(v) => v,
            Result::Err(_) => {
                return Result::Err(RunError::Fault { kind: FaultKind::BadOperand, at });
            },
        };
        let n = self.stack.len();
        if v >= n {
            return Result::Err(RunError::Fault { kind: FaultKind::StackUnderflow, at });
        }
        self.stack.remove(n - 1 - v);
        self.ip = cur;
        Result::Ok(())
    }
}

/// The value of the `n` big-endian bytes of `s` starting at `i`.
pub open spec fn be_bytes_val(s: Seq<u8>, i: int, n: int) -> nat
    decreases n,
{
    if n <= 0 {
        0
    } else {
        be_bytes_val(s, i, n - 1) * 256 + (s[i + n - 1] as nat)
    }
}

/// The signed 64-bit value with two's-complement bit pattern `v`.
pub open spec fn as_signed64(v: nat) -> int {
    if v < 0x8000000000000000 {
        v as int
    } else {
        v as int - 0x10000000000000000
    }
}

/// The signed 32-bit value with two's-complement bit pattern `v`.
pub open spec fn as_signed32(v: nat) -> int {
    if v < 0x80000000 {
        v as int
    } else {
        v as int - 0x100000000
    }
}

/// 256 to the `k`th power, for the widths the immediate decoders use.
pub open spec fn pow256(k: int) -> nat {
    if k <= 0 {
        1
    } else if k == 1 {
        0x100
    } else if k == 2 {
        0x10000
    } else if k == 3 {
        0x1000000
    } else if k == 4 {
        0x100000000
    } else if k == 5 {
        0x10000000000
    } else if k == 6 {
        0x1000000000000
    } else if k == 7 {
        0x100000000000000
    } else {
        0x10000000000000000
    }
}

proof fn lemma_be_bound(s: Seq<u8>, i: int, n: int)
    requires
        0 <= n <= 8,
    ensures
        be_bytes_val(s, i, n) < pow256(n),
    decreases n,
{
    if n > 0 {
        lemma_be_bound(s, i, n - 1);
        assert(pow256(n) == 256 * pow256(n - 1));
        assert(be_bytes_val(s, i, n - 1) * 256 + 255 < pow256(n - 1) * 256) by (nonlinear_arith)
            requires
                be_bytes_val(s, i, n - 1) < pow256(n - 1),
        ;
    }
}

/// A second varint operand following the first.
pub open spec fn operand2(e: Executor) -> Result<((nat, int), (nat, int)), FormatError> {
    match read_vint(e.object.code@, e.ip + 1) {
        Result::Ok((v1, j1)) => match read_vint(e.object.code@, j1) {
            Result::Ok((v2, j2)) => Result::Ok(((v1, j1), (v2, j2))),
            Result::Err(e) => Result::Err(e),
        },
        Result::Err(e) => Result::Err(e),
    }
}

/// The name of the diagnostic output builtin.
pub open spec fn print_name() -> Seq<u8> {
    seq![112u8, 114u8, 105u8, 110u8, 116u8]
}

/// The name of the executor-identity builtin.
pub open spec fn executor_name_query() -> Seq<u8> {
    seq![
        114u8,
        117u8,
        110u8,
        116u8,
        105u8,
        109u8,
        101u8,
        36u8,
        101u8,
        120u8,
        101u8,
        99u8,
        117u8,
        116u8,
        111u8,
        114u8,
        78u8,
        97u8,
        109u8,
        101u8,
    ]
}

/// What the executor-identity builtin answers.
pub open spec fn executor_name_value() -> Seq<u8> {
    seq![114u8, 115u8, 110u8, 101u8, 120u8]
}

fn make_print_name() -> (r: Vec<u8>)
    ensures
        r@ == print_name(),
{
    let mut r: Vec<u8> = Vec::new();
    r.push(112);
    r.push(114);
    r.push(105);
    r.push(110);
    r.push(116);
    proof {
        assert(r@ =~= print_name());
    }
    r
}

fn make_executor_name_query() -> (r: Vec<u8>)
    ensures
        r@ == executor_name_query(),
{
    let mut r: Vec<u8> = Vec::new();
    r.push(114);
    r.push(117);
    r.push(110);
    r.push(116);
    r.push(105);
    r.push(109);
    r.push(101);
    r.push(36);
    r.push(101);
    r.push(120);
    r.push(101);
    r.push(99);
    r.push(117);
    r.push(116);
    r.push(111);
    r.push(114);
    r.push(78);
    r.push(97);
    r.push(109);
    r.push(101);
    proof {
        assert(r@ =~= executor_name_query());
    }
    r
}

fn make_executor_name_value() -> (r: Vec<u8>)
    ensures
        r@ == executor_name_value(),
{
    let mut r: Vec<u8> = Vec::new();
    r.push(114);
    r.push(115);
    r.push(110);
    r.push(101);
    r.push(120);
    proof {
        assert(r@ =~= executor_name_value());
    }
    r
}

/// The stack with its two top values exchanged.
pub open spec fn swapped_top(s: Seq<Cell>) -> Seq<Cell> {
    s.update(s.len() - 2, s[s.len() - 1]).update(s.len() - 1, s[s.len() - 2])
}

impl Executor {
    /// Pushes a Boolean immediate: one raw byte, true when nonzero.
    pub fn op_pushb(&mut self) -> (r: Result<(), RunError>)
        requires
            old(self).ip < old(self).object.code@.len(),
        ensures
            op_pushb_post(*old(self), *final(self), r),
    {
        let n = self.object.code.len();
        if n - self.ip < 2 {
            return Result::Err(RunError::Fault { kind: FaultKind::BadOperand, at: self.ip });
        }
        let b = self.object.code[self.ip + 1];
        self.stack.push(Cell::Boolean(b != 0));
        self.ip = self.ip + 2;
        Result::Ok(())
    }

    /// Pushes a Number immediate: eight raw big-endian bytes read as a
    /// two's-complement 64-bit signed integer.
    pub fn op_pushn(&mut self) -> (r: Result<(), RunError>)
        requires
            old(self).ip < old(self).object.code@.len(),
        ensures
            op_pushn_post(*old(self), *final(self), r),
    {
        let n = self.object.code.len();
        if n - self.ip < 9 {
            return Result::Err(RunError::Fault { kind: FaultKind::BadOperand, at: self.ip });
        }
        let ghost s = self.object.code@;
        let ghost base = self.ip + 1 as int;
        let mut acc: u64 = 0;
        let mut k: usize = 0;
        while k < 8
            invariant
                0 <= k <= 8,
                self == old(self),
                old(self).ip + 9 <= old(self).object.code@.len(),
                s == self.object.code@,
                base == old(self).ip + 1,
                acc as nat == be_bytes_val(s, base, k as int),
                (acc as nat) < pow256(k as int),
            decreases 8 - k,
        {
            proof {
                lemma_vec_len_bound(&self.object.code);
                lemma_be_bound(s, base, k as int + 1);
            }
            let b = self.object.code[self.ip + 1 + k];
            acc = acc * 256 + (b as u64);
            k = k + 1;
        }
        let v: i64 = if acc < 0x8000000000000000 {
            acc as i64
        } else {
            ((acc - 0x8000000000000000) as i64) + i64::MIN
        };
        self.stack.push(Cell::Number(v));
        self.ip = self.ip + 9;
        Result::Ok(())
    }

    /// Pushes a Number immediate: four raw big-endian bytes read as a
    /// two's-complement 32-bit signed integer, widened.
    pub fn op_pushi(&mut self) -> (r: Result<(), RunError>)
        requires
            old(self).ip < old(self).object.code@.len(),
        ensures
            op_pushi_post(*old(self), *final(self), r),
    {
        let n = self.object.code.len();
        if n - self.ip < 5 {
            return Result::Err(RunError::Fault { kind: FaultKind::BadOperand, at: self.ip });
        }
        let ghost s = self.object.code@;
        let ghost base = self.ip + 1 as int;
        let mut acc: u32 = 0;
        let mut k: usize = 0;
        while k < 4
            invariant
                0 <= k <= 4,
                self == old(self),
                old(self).ip + 5 <= old(self).object.code@.len(),
                s == self.object.code@,
                base == old(self).ip + 1,
                acc as nat == be_bytes_val(s, base, k as int),
                (acc as nat) < pow256(k as int),
            decreases 4 - k,
        {
            proof {
                lemma_vec_len_bound(&self.object.code);
                lemma_be_bound(s, base, k as int + 1);
            }
            let b = self.object.code[self.ip + 1 + k];
            acc = acc * 256 + (b as u32);
            k = k + 1;
        }
        let v: i64 = if acc < 0x80000000 {
            acc as i64
        } else {
            (acc as i64) - 0x100000000
        };
        self.stack.push(Cell::Number(v));
        self.ip = self.ip + 5;
        Result::Ok(())
    }

    /// Pushes a String immediate: the string-table entry named by the
    /// varint operand, copied.
    pub fn op_pushs(&mut self) -> (r: Result<(), RunError>)
        requires
            old(self).ip < old(self).object.code@.len(),
        ensures
            op_pushs_post(*old(self), *final(self), r),
    {
        proof {
            lemma_vec_len_bound(&self.object.code);
        }
        let at = self.ip;
        let mut cur = self.ip + 1;
        let v = match get_vint(&self.object.code, &mut cur) {
            Result::Ok(v) => v,
            Result::Err(_) => {
                return Result::Err(RunError::Fault { kind: FaultKind::BadOperand, at });
            },
        };
        if v >= self.object.strtable.len() {
            return Result::Err(RunError::Fault { kind: FaultKind::IndexOutOfRange, at });
        }
        let b = clone_bytes(&self.object.strtable[v]);
        self.stack.push(Cell::Str(b));
        self.ip = cur;
        proof {
            assert(final(self).stack@.drop_last() =~= old(self).stack@);
        }
        Result::Ok(())
    }

    /// Pushes a Bytes immediate: a varint length followed by that many
    /// raw bytes.
    pub fn op_pushy(&mut self) -> (r: Result<(), RunError>)
        requires
            old(self).ip < old(self).object.code@.len(),
        ensures
            op_pushy_post(*old(self), *final(self), r),
    {
        proof {
            lemma_vec_len_bound(&self.object.code);
        }
        let at = self.ip;
        let mut cur = self.ip + 1;
        let v = match get_vint(&self.object.code, &mut cur) {
            Result::Ok(v) => v,
            Result::Err(_) => {
                return Result::Err(RunError::Fault { kind: FaultKind::BadOperand, at });
            },
        };
        let n = self.object.code.len();
        if v > n - cur {
            return Result::Err(RunError::Fault { kind: FaultKind::BadOperand, at });
        }
        let b = crate::image::sub_vec(&self.object.code, cur, cur + v);
        self.stack.push(Cell::Bytes(b));
        self.ip = cur + v;
        proof {
            assert(final(self).stack@.drop_last() =~= old(self).stack@);
        }
        Result::Ok(())
    }

    /// Pushes the uninitialized marker.
    pub fn op_pushnil(&mut self) -> (r: Result<(), RunError>)
        requires
            old(self).ip < old(self).object.code@.len(),
        ensures
            op_pushnil_post(*old(self), *final(self), r),
    {
        proof {
            lemma_vec_len_bound(&self.object.code);
        }
        self.stack.push(Cell::Empty);
        self.ip = self.ip + 1;
        Result::Ok(())
    }
}

impl Executor {
    fn push_ptr1(&mut self, kind: u8) -> (r: Result<(), RunError>)
        requires
            old(self).ip < old(self).object.code@.len(),
            kind == 0 || kind == 1 || kind == 2,
        ensures
            push_ptr1_post(kind, *old(self), *final(self), r),
    {
        proof {
            lemma_vec_len_bound(&self.object.code);
        }
        let at = self.ip;
        let mut cur = self.ip + 1;
        let v = match get_vint(&self.object.code, &mut cur) {
            Result::Ok(v) => v,
            Result::Err(_) => {
                return Result::Err(RunError::Fault { kind: FaultKind::BadOperand, at });
            },
        };
        let base = if kind == 0 {
            PtrBase::Global(v)
        } else if kind == 1 {
            PtrBase::PredefGlobal(v)
        } else {
            PtrBase::Local(v)
        };
        self.stack.push(Cell::Ptr(Pointer { base, path: Vec::new() }));
        self.ip = cur;
        proof {
            assert(final(self).stack@.drop_last() =~= old(self).stack@);
        }
        Result::Ok(())
    }

    fn push_ptr2(&mut self, kind: u8) -> (r: Result<(), RunError>)
        requires
            old(self).ip < old(self).object.code@.len(),
            kind == 0 || kind == 1 || kind == 2,
        ensures
            push_ptr2_post(kind, *old(self), *final(self), r),
    {
        proof {
            lemma_vec_len_bound(&self.object.code);
        }
        let at = self.ip;
        let mut cur = self.ip + 1;
        let v1 = match get_vint(&self.object.code, &mut cur) {
            Result::Ok(v) => v,
            Result::Err(_) => {
                return Result::Err(RunError::Fault { kind: FaultKind::BadOperand, at });
            },
        };
        let v2 = match get_vint(&self.object.code, &mut cur) {
            Result::Ok(v) => v,
            Result::Err(_) => {
                return Result::Err(RunError::Fault { kind: FaultKind::BadOperand, at });
            },
        };
        let base = if kind == 0 {
            PtrBase::ModuleGlobal(v1, v2)
        } else if kind == 1 {
            PtrBase::OuterLocal(v1, v2)
        } else {
            PtrBase::ExternalGlobal(v1, v2)
        };
        self.stack.push(Cell::Ptr(Pointer { base, path: Vec::new() }));
        self.ip = cur;
        proof {
            assert(final(self).stack@.drop_last() =~= old(self).stack@);
        }
        Result::Ok(())
    }

    /// Pushes a pointer to a program global slot.
    pub fn op_pushpg(&mut self) -> (r: Result<(), RunError>)
        requires
            old(self).ip < old(self).object.code@.len(),
        ensures
            push_ptr1_post(0, *old(self), *final(self), r),
    {
        self.push_ptr1(0)
    }

    /// Pushes a pointer to a predefined (builtin) global.
    pub fn op_pushppg(&mut self) -> (r: Result<(), RunError>)
        requires
            old(self).ip < old(self).object.code@.len(),
        ensures
            push_ptr1_post(1, *old(self), *final(self), r),
    {
        self.push_ptr1(1)
    }

    /// Pushes a pointer to a slot of the current frame's locals.
    pub fn op_pushpl(&mut self) -> (r: Result<(), RunError>)
        requires
            old(self).ip < old(self).object.code@.len(),
        ensures
            push_ptr1_post(2, *old(self), *final(self), r),
    {
        self.push_ptr1(2)
    }

    /// Pushes a pointer to a module-scoped global: (module, index).
    pub fn op_pushpmg(&mut self) -> (r: Result<(), RunError>)
        requires
            old(self).ip < old(self).object.code@.len(),
        ensures
            push_ptr2_post(0, *old(self), *final(self), r),
    {
        self.push_ptr2(0)
    }

    /// Pushes a pointer to a slot of an enclosing frame's locals:
    /// (depth, index), depth counted outward from the current frame.
    pub fn op_pushpol(&mut self) -> (r: Result<(), RunError>)
        requires
            old(self).ip < old(self).object.code@.len(),
        ensures
            push_ptr2_post(1, *old(self), *final(self), r),
    {
        self.push_ptr2(1)
    }

    /// Pushes a pointer to an external (foreign-module) global.
    pub fn op_pushpeg(&mut self) -> (r: Result<(), RunError>)
        requires
            old(self).ip < old(self).object.code@.len(),
        ensures
            push_ptr2_post(2, *old(self), *final(self), r),
    {
        self.push_ptr2(2)
    }

    /// Jumps unconditionally to the decoded target offset.  A target
    /// beyond the end of the instruction stream is refused; the target
    /// exactly at the end stops the run.
    pub fn op_jump(&mut self) -> (r: Result<(), RunError>)
        requires
            old(self).ip < old(self).object.code@.len(),
        ensures
            op_jump_post(*old(self), *final(self), r),
    {
        proof {
            lemma_vec_len_bound(&self.object.code);
        }
        let at = self.ip;
        let mut cur = self.ip + 1;
        let t = match get_vint(&self.object.code, &mut cur) {
            Result::Ok(v) => v,
            Result::Err(_) => {
                return Result::Err(RunError::Fault { kind: FaultKind::BadOperand, at });
            },
        };
        if t > self.object.code.len() {
            return Result::Err(RunError::Fault { kind: FaultKind::BadOperand, at });
        }
        self.ip = t;
        Result::Ok(())
    }

    fn branch_if(&mut self, want: bool) -> (r: Result<(), RunError>)
        requires
            old(self).ip < old(self).object.code@.len(),
        ensures
            branch_post(want, *old(self), *final(self), r),
    {
        proof {
            lemma_vec_len_bound(&self.object.code);
        }
        let at = self.ip;
        let mut cur = self.ip + 1;
        let t = match get_vint(&self.object.code, &mut cur) {
            Result::Ok(v) => v,
            Result::Err(_) => {
                return Result::Err(RunError::Fault { kind: FaultKind::BadOperand, at });
            },
        };
        let n = self.stack.len();
        if n == 0 {
            return Result::Err(RunError::Fault { kind: FaultKind::StackUnderflow, at });
        }
        let b = match &self.stack[n - 1] {
            Cell::Boolean(b) => *b,
            _ => {
                return Result::Err(RunError::Fault { kind: FaultKind::TypeMismatch, at });
            },
        };
        if t > self.object.code.len() {
            return Result::Err(RunError::Fault { kind: FaultKind::BadOperand, at });
        }
        self.stack.pop();
        self.ip = if b == want {
            t
        } else {
            cur
        };
        Result::Ok(())
    }

    /// Pops a Boolean and jumps to the decoded target when it is false;
    /// otherwise falls through.
    pub fn op_jf(&mut self) -> (r: Result<(), RunError>)
        requires
            old(self).ip < old(self).object.code@.len(),
        ensures
            branch_post(false, *old(self), *final(self), r),
    {
        self.branch_if(false)
    }

    /// Pops a Boolean and jumps to the decoded target when it is true;
    /// otherwise falls through.
    pub fn op_jt(&mut self) -> (r: Result<(), RunError>)
        requires
            old(self).ip < old(self).object.code@.len(),
        ensures
            branch_post(true, *old(self), *final(self), r),
    {
        self.branch_if(true)
    }

    /// Returns from the current invocation: discards the top frame's
    /// locals and resumes at its return address.  Returning with the
    /// bottom (sentinel) frame ends the run, since its return address is
    /// the code length.
    pub fn op_ret(&mut self) -> (r: Result<(), RunError>)
        ensures
            op_ret_post(*old(self), *final(self), r),
    {
        if self.frames.len() == 0 {
            return Result::Err(RunError::Fault { kind: FaultKind::FrameUnderflow, at: self.ip });
        }
        let fr = self.frames.pop().unwrap();
        self.ip = fr.ret;
        Result::Ok(())
    }

    /// Raises a runtime exception named by the string-table entry the
    /// varint operand selects.  With no handler tables loaded this ends
    /// the run, distinguishably from a fault.
    pub fn op_except(&mut self) -> (r: Result<(), RunError>)
        requires
            old(self).ip < old(self).object.code@.len(),
        ensures
            op_except_post(*old(self), *final(self), r),
    {
        proof {
            lemma_vec_len_bound(&self.object.code);
        }
        let at = self.ip;
        let mut cur = self.ip + 1;
        let v = match get_vint(&self.object.code, &mut cur) {
            Result::Ok(v) => v,
            Result::Err(_) => {
                return Result::Err(RunError::Fault { kind: FaultKind::BadOperand, at });
            },
        };
        if v >= self.object.strtable.len() {
            return Result::Err(RunError::Fault { kind: FaultKind::IndexOutOfRange, at });
        }
        let name = clone_bytes(&self.object.strtable[v]);
        Result::Err(RunError::Raised { name, at })
    }

    /// Invokes a named host builtin.  This executor provides two: the
    /// diagnostic output routine, which pops a String and appends it to
    /// the output as one line, and the executor-identity query, which
    /// pushes this executor's name.  Any other name is a distinct fault.
    pub fn op_callp(&mut self) -> (r: Result<(), RunError>)
        requires
            old(self).ip < old(self).object.code@.len(),
        ensures
            op_callp_post(*old(self), *final(self), r),
    {
        proof {
            lemma_vec_len_bound(&self.object.code);
        }
        let at = self.ip;
        let mut cur = self.ip + 1;
        let v = match get_vint(&self.object.code, &mut cur) {
            Result::Ok(v) => v,
            Result::Err(_) => {
                return Result::Err(RunError::Fault { kind: FaultKind::BadOperand, at });
            },
        };
        if v >= self.object.strtable.len() {
            return Result::Err(RunError::Fault { kind: FaultKind::IndexOutOfRange, at });
        }
        let pn = make_print_name();
        if bytes_equal(&self.object.strtable[v], &pn) {
            let n = self.stack.len();
            if n == 0 {
                return Result::Err(RunError::Fault { kind: FaultKind::StackUnderflow, at });
            }
            match &self.stack[n - 1] {
                Cell::Str(_) => {},
                _ => {
                    return Result::Err(RunError::Fault { kind: FaultKind::TypeMismatch, at });
                },
            }
            let top = self.stack.pop().unwrap();
            match top {
                Cell::Str(line) => {
                    self.output.push(line);
                },
                _ => {
                    proof {
                        assert(false);
                    }
                },
            }
            self.ip = cur;
            proof {
                assert(final(self).stack@ =~= old(self).stack@.drop_last());
                assert(final(self).output@.drop_last() =~= old(self).output@);
            }
            return Result::Ok(());
        }
        let qn = make_executor_name_query();
        if bytes_equal(&self.object.strtable[v], &qn) {
            let name = make_executor_name_value();
            self.stack.push(Cell::Str(name));
            self.ip = cur;
            proof {
                assert(final(self).stack@.drop_last() =~= old(self).stack@);
            }
            return Result::Ok(());
        }
        Result::Err(RunError::Fault { kind: FaultKind::UnknownBuiltin, at })
    }

    /// Allocates a record Object of the declared type the varint
    /// operand selects in the type table, tagged with that type's index
    /// as its run-time class descriptor.  The type's descriptor string
    /// is not interpreted by this minimal executor (the format leaves
    /// its grammar to the compiler), so the record starts with no
    /// materialized fields; every field a descriptor would declare is
    /// the uninitialized marker.
    pub fn op_alloc(&mut self) -> (r: Result<(), RunError>)
        requires
            old(self).ip < old(self).object.code@.len(),
        ensures
            op_alloc_post(*old(self), *final(self), r),
    {
        proof {
            lemma_vec_len_bound(&self.object.code);
        }
        let at = self.ip;
        let mut cur = self.ip + 1;
        let v = match get_vint(&self.object.code, &mut cur) {
            Result::Ok(v) => v,
            Result::Err(_) => {
                return Result::Err(RunError::Fault { kind: FaultKind::BadOperand, at });
            },
        };
        if v >= self.object.types.len() {
            return Result::Err(RunError::Fault { kind: FaultKind::IndexOutOfRange, at });
        }
        self.stack.push(Cell::Object(v, Vec::new()));
        self.ip = cur;
        proof {
            assert(final(self).stack@.drop_last() =~= old(self).stack@);
        }
        Result::Ok(())
    }

    /// Builds an Array from the top `n` stack values (the varint
    /// operand), preserving their order, and pushes it in their place.
    pub fn op_consa(&mut self) -> (r: Result<(), RunError>)
        requires
            old(self).ip < old(self).object.code@.len(),
        ensures
            op_consa_post(*old(self), *final(self), r),
    {
        proof {
            lemma_vec_len_bound(&self.object.code);
        }
        let at = self.ip;
        let mut cur = self.ip + 1;
        let v = match get_vint(&self.object.code, &mut cur) {
            Result::Ok(v) => v,
            Result::Err(_) => {
                return Result::Err(RunError::Fault { kind: FaultKind::BadOperand, at });
            },
        };
        let n = self.stack.len();
        if v > n {
            return Result::Err(RunError::Fault { kind: FaultKind::StackUnderflow, at });
        }
        let mut xs: Vec<Cell> = Vec::new();
        let mut k: usize = 0;
        while k < v
            invariant
                0 <= k <= v <= n,
                n == self.stack@.len(),
                self == old(self),
                xs@.len() == k,
                forall|m: int|
                    0 <= m < k ==> cell_eq(#[trigger] xs@[m], self.stack@[n - v + m]),
            decreases v - k,
        {
            xs.push(clone_cell(&self.stack[n - v + k]));
            k = k + 1;
        }
        self.stack.truncate(n - v);
        self.stack.push(Cell::Array(xs));
        self.ip = cur;
        proof {
            assert(final(self).stack@.drop_last() =~= old(self).stack@.take(
                old(self).stack@.len() - v,
            ));
        }
        Result::Ok(())
    }

    fn enter_function(&mut self, fidx: usize, ret_to: usize) -> (r: Result<(), RunError>)
        requires
            fidx < old(self).object.functions@.len(),
        ensures
            enter_post(fidx as int, ret_to, *old(self), *final(self), r),
    {
        let f = self.object.functions[fidx];
        if f.params > f.locals {
            return Result::Err(RunError::Fault { kind: FaultKind::BadFunction, at: self.ip });
        }
        let n = self.stack.len();
        if n < f.params {
            return Result::Err(RunError::Fault { kind: FaultKind::StackUnderflow, at: self.ip });
        }
        let mut locals: Vec<Cell> = Vec::new();
        let mut k: usize = 0;
        while k < f.params
            invariant
                0 <= k <= f.params <= f.locals,
                f.params <= n,
                n == self.stack@.len(),
                self == old(self),
                locals@.len() == k,
                forall|m: int|
                    0 <= m < k ==> cell_eq(#[trigger] locals@[m], self.stack@[n - f.params + m]),
            decreases f.params - k,
        {
            locals.push(clone_cell(&self.stack[n - f.params + k]));
            k = k + 1;
        }
        while k < f.locals
            invariant
                f.params <= k <= f.locals,
                f.params <= n,
                n == self.stack@.len(),
                self == old(self),
                locals@.len() == k,
                forall|m: int|
                    0 <= m < f.params ==> cell_eq(
                        #[trigger] locals@[m],
                        self.stack@[n - f.params + m],
                    ),
                forall|m: int| f.params <= m < k ==> locals@[m] == Cell::Empty,
            decreases f.locals - k,
        {
            locals.push(Cell::Empty);
            k = k + 1;
        }
        self.stack.truncate(n - f.params);
        self.frames.push(Frame { ret: ret_to, locals });
        self.ip = f.entry;
        proof {
            assert(final(self).stack@ =~= old(self).stack@.take(
                old(self).stack@.len() - f.params,
            ));
            assert(final(self).frames@.drop_last() =~= old(self).frames@);
        }
        Result::Ok(())
    }

    /// Calls the function whose table index is the varint operand: the
    /// current position after the operand becomes the return address,
    /// the callee's declared parameter count of stack values are bound
    /// into the first local slots in call order, the other locals start
    /// uninitialized, and execution continues at the callee's entry.
    pub fn op_callf(&mut self) -> (r: Result<(), RunError>)
        requires
            old(self).ip < old(self).object.code@.len(),
        ensures
            op_callf_post(*old(self), *final(self), r),
    {
        proof {
            lemma_vec_len_bound(&self.object.code);
        }
        let at = self.ip;
        let mut cur = self.ip + 1;
        let v = match get_vint(&self.object.code, &mut cur) {
            Result::Ok(v) => v,
            Result::Err(_) => {
                return Result::Err(RunError::Fault { kind: FaultKind::BadOperand, at });
            },
        };
        if v >= self.object.functions.len() {
            return Result::Err(RunError::Fault { kind: FaultKind::IndexOutOfRange, at });
        }
        self.enter_function(v, cur)
    }

    /// Calls indirectly: pops a function reference (a Number holding a
    /// function-table index, as pushed by the function-pointer opcode)
    /// and invokes that function.
    pub fn op_calli(&mut self) -> (r: Result<(), RunError>)
        requires
            old(self).ip < old(self).object.code@.len(),
        ensures
            op_calli_post(*old(self), *final(self), r),
    {
        proof {
            lemma_vec_len_bound(&self.object.code);
        }
        let at = self.ip;
        let n = self.stack.len();
        if n == 0 {
            return Result::Err(RunError::Fault { kind: FaultKind::StackUnderflow, at });
        }
        let t = match &self.stack[n - 1] {
            Cell::Number(t) => *t,
            _ => {
                return Result::Err(RunError::Fault { kind: FaultKind::TypeMismatch, at });
            },
        };
        if t < 0 || (t as u64) >= (self.object.functions.len() as u64) {
            return Result::Err(RunError::Fault { kind: FaultKind::IndexOutOfRange, at });
        }
        let fidx = t as usize;
        let f = self.object.functions[fidx];
        if f.params > f.locals {
            return Result::Err(RunError::Fault { kind: FaultKind::BadFunction, at });
        }
        if n - 1 < f.params {
            return Result::Err(RunError::Fault { kind: FaultKind::StackUnderflow, at });
        }
        let ret_to = self.ip + 1;
        self.stack.pop();
        proof {
            assert(self.stack@ =~= old(self).stack@.drop_last());
        }
        self.enter_function(fidx, ret_to)
    }

    /// Pushes a first-class function reference: a Number holding the
    /// function-table index given by the varint operand, for a later
    /// indirect call.
    pub fn op_pushfp(&mut self) -> (r: Result<(), RunError>)
        requires
            old(self).ip < old(self).object.code@.len(),
        ensures
            op_pushfp_post(*old(self), *final(self), r),
    {
        proof {
            lemma_vec_len_bound(&self.object.code);
        }
        let at = self.ip;
        let mut cur = self.ip + 1;
        let v = match get_vint(&self.object.code, &mut cur) {
            Result::Ok(v) => v,
            Result::Err(_) => {
                return Result::Err(RunError::Fault { kind: FaultKind::BadOperand, at });
            },
        };
        if v >= self.object.functions.len() || (v as u64) > (i64::MAX as u64) {
            return Result::Err(RunError::Fault { kind: FaultKind::IndexOutOfRange, at });
        }
        self.stack.push(Cell::Number(v as i64));
        self.ip = cur;
        Result::Ok(())
    }

    /// Calls a function of another module.  The loader requires the
    /// import table to be empty, so no module can ever be resolved: this
    /// faults after decoding its two operands.
    pub fn op_callmf(&mut self) -> (r: Result<(), RunError>)
        requires
            old(self).ip < old(self).object.code@.len(),
        ensures
            op_callmf_post(*old(self), *final(self), r),
    {
        proof {
            lemma_vec_len_bound(&self.object.code);
        }
        let at = self.ip;
        let mut cur = self.ip + 1;
        match get_vint(&self.object.code, &mut cur) {
            Result::Ok(_) => {},
            Result::Err(_) => {
                return Result::Err(RunError::Fault { kind: FaultKind::BadOperand, at });
            },
        }
        match get_vint(&self.object.code, &mut cur) {
            Result::Ok(_) => {},
            Result::Err(_) => {
                return Result::Err(RunError::Fault { kind: FaultKind::BadOperand, at });
            },
        }
        Result::Err(RunError::Fault { kind: FaultKind::Unresolved, at })
    }

    /// Calls a host extension function.  No extension host is attached
    /// to this minimal executor, so the named target never resolves:
    /// this faults after decoding its operand.
    pub fn op_callx(&mut self) -> (r: Result<(), RunError>)
        requires
            old(self).ip < old(self).object.code@.len(),
        ensures
            op_callx_post(*old(self), *final(self), r),
    {
        proof {
            lemma_vec_len_bound(&self.object.code);
        }
        let at = self.ip;
        let mut cur = self.ip + 1;
        match get_vint(&self.object.code, &mut cur) {
            Result::Ok(_) => {},
            Result::Err(_) => {
                return Result::Err(RunError::Fault { kind: FaultKind::BadOperand, at });
            },
        }
        Result::Err(RunError::Fault { kind: FaultKind::Unresolved, at })
    }

    /// Dispatches dynamically through a receiver's class descriptor.
    /// The loader requires the class table to be empty, so no dispatch
    /// table ever exists: this faults after decoding its operand.
    pub fn op_callv(&mut self) -> (r: Result<(), RunError>)
        requires
            old(self).ip < old(self).object.code@.len(),
        ensures
            op_callv_post(*old(self), *final(self), r),
    {
        proof {
            lemma_vec_len_bound(&self.object.code);
        }
        let at = self.ip;
        let mut cur = self.ip + 1;
        match get_vint(&self.object.code, &mut cur) {
            Result::Ok(_) => {},
            Result::Err(_) => {
                return Result::Err(RunError::Fault { kind: FaultKind::BadOperand, at });
            },
        }
        Result::Err(RunError::Fault { kind: FaultKind::Unresolved, at })
    }

    /// Pushes class descriptor metadata.  The loader requires the class
    /// table to be empty, so the named class never exists: this faults
    /// after decoding its operand.
    pub fn op_pushci(&mut self) -> (r: Result<(), RunError>)
        requires
            old(self).ip < old(self).object.code@.len(),
        ensures
            op_pushci_post(*old(self), *final(self), r),
    {
        proof {
            lemma_vec_len_bound(&self.object.code);
        }
        let at = self.ip;
        let mut cur = self.ip + 1;
        match get_vint(&self.object.code, &mut cur) {
            Result::Ok(_) => {},
            Result::Err(_) => {
                return Result::Err(RunError::Fault { kind: FaultKind::BadOperand, at });
            },
        }
        Result::Err(RunError::Fault { kind: FaultKind::Unresolved, at })
    }
}

/// What a conditional branch does: decode a target, pop a Boolean, and
/// go to the target when the Boolean equals `want`, else fall through.
pub open spec fn branch_post(
    want: bool,
    pre: Executor,
    post: Executor,
    r: Result<(), RunError>,
) -> bool {
    match operand1(pre) {
        Result::Ok((t, j)) => {
            if pre.stack@.len() == 0 {
                faulted(pre, post, r, FaultKind::StackUnderflow)
            } else if !(pre.stack@.last() is Boolean) {
                faulted(pre, post, r, FaultKind::TypeMismatch)
            } else if t > pre.object.code@.len() {
                faulted(pre, post, r, FaultKind::BadOperand)
            } else {
                &&& r is Ok
                &&& env_same(pre, post)
                &&& post.stack@ == pre.stack@.drop_last()
                &&& post.ip == if pre.stack@.last()->Boolean_0 == want {
                    t as int
                } else {
                    j
                }
            }
        },
        Result::Err(_) => faulted(pre, post, r, FaultKind::BadOperand),
    }
}

/// What entering function `fidx` with return address `ret_to` does,
/// with `args` the stack the arguments are taken from.
pub open spec fn enter_post_on(
    fidx: int,
    ret_to: int,
    stack0: Seq<Cell>,
    pre: Executor,
    post: Executor,
    r: Result<(), RunError>,
) -> bool {
    let f = pre.object.functions@[fidx];
    if f.params > f.locals {
        &&& post == pre
        &&& is_fault(r, FaultKind::BadFunction, pre.ip)
    } else if stack0.len() < f.params {
        &&& post == pre
        &&& is_fault(r, FaultKind::StackUnderflow, pre.ip)
    } else {
        &&& r is Ok
        &&& post.object == pre.object
        &&& post.globals == pre.globals
        &&& post.output == pre.output
        &&& post.ip == f.entry
        &&& post.stack@ == stack0.take(stack0.len() - f.params)
        &&& post.frames@.len() == pre.frames@.len() + 1
        &&& post.frames@.drop_last() == pre.frames@
        &&& post.frames@.last().ret == ret_to
        &&& post.frames@.last().locals@.len() == f.locals
        &&& forall|m: int|
            0 <= m < f.params ==> cell_eq(
                #[trigger] post.frames@.last().locals@[m],
                stack0[stack0.len() - f.params + m],
            )
        &&& forall|m: int|
            f.params <= m < f.locals ==> post.frames@.last().locals@[m] == Cell::Empty
    }
}

pub open spec fn enter_post(
    fidx: int,
    ret_to: usize,
    pre: Executor,
    post: Executor,
    r: Result<(), RunError>,
) -> bool {
    enter_post_on(fidx, ret_to as int, pre.stack@, pre, post, r)
}

/// The kinds a value can have, used by typed opcodes to check their
/// operands.
#[derive(Clone, Copy, PartialEq, Eq, Structural, Debug)]
pub enum ValKind {
    Boolean,
    Number,
    Str,
    Bytes,
    Array,
    Dict,
    Ptr,
    Object,
    VoidPtr,
}

pub open spec fn cell_is(c: Cell, k: ValKind) -> bool {
    match k {
        ValKind::Boolean => c is Boolean,
        ValKind::Number => c is Number,
        ValKind::Str => c is Str,
        ValKind::Bytes => c is Bytes,
        ValKind::Array => c is Array,
        ValKind::Dict => c is Dict,
        ValKind::Ptr => c is Ptr,
        ValKind::Object => c is Object,
        ValKind::VoidPtr => c is VoidPtr,
    }
}

pub fn is_kind(c: &Cell, k: ValKind) -> (r: bool)
    ensures
        r == cell_is(*c, k),
{
    match k {
        ValKind::Boolean => matches!(c, Cell::Boolean(_)),
        ValKind::Number => matches!(c, Cell::Number(_)),
        ValKind::Str => matches!(c, Cell::Str(_)),
        ValKind::Bytes => matches!(c, Cell::Bytes(_)),
        ValKind::Array => matches!(c, Cell::Array(_)),
        ValKind::Dict => matches!(c, Cell::Dict(_)),
        ValKind::Ptr => matches!(c, Cell::Ptr(_)),
        ValKind::Object => matches!(c, Cell::Object(_, _)),
        ValKind::VoidPtr => matches!(c, Cell::VoidPtr(_)),
    }
}

/// The byte content of a String or Bytes value.
pub open spec fn cell_bytes(c: Cell) -> Seq<u8> {
    match c {
        Cell::Str(b) => b@,
        Cell::Bytes(b) => b@,
        _ => Seq::empty(),
    }
}

/// The four strict/inclusive order tests.
#[derive(Clone, Copy, PartialEq, Eq, Structural, Debug)]
pub enum CmpIneq {
    Lt,
    Gt,
    Le,
    Ge,
}

/// Lexicographic byte-wise order, as the string and byte-buffer
/// comparison opcodes decide it.
pub open spec fn cmp_bytes_result(op: CmpIneq, x: Seq<u8>, y: Seq<u8>) -> bool {
    match op {
        CmpIneq::Lt => bytes_lt(x, y),
        CmpIneq::Gt => bytes_lt(y, x),
        CmpIneq::Le => !bytes_lt(y, x),
        CmpIneq::Ge => !bytes_lt(x, y),
    }
}

pub open spec fn cmp_num_result(op: CmpIneq, x: int, y: int) -> bool {
    match op {
        CmpIneq::Lt => x < y,
        CmpIneq::Gt => x > y,
        CmpIneq::Le => x <= y,
        CmpIneq::Ge => x >= y,
    }
}

/// What an equality-family opcode does: both of the two top values must
/// have kind `k`; they are replaced by the Boolean saying whether they
/// are structurally equal (negated for the inequality opcodes).
pub open spec fn cmp_eq_post(
    k: ValKind,
    neg: bool,
    pre: Executor,
    post: Executor,
    r: Result<(), RunError>,
) -> bool {
    let s = pre.stack@;
    if s.len() >= 2 && cell_is(s[s.len() - 2], k) && cell_is(s[s.len() - 1], k) {
        &&& r is Ok
        &&& env_same(pre, post)
        &&& post.ip == pre.ip + 1
        &&& post.stack@ == pop2_push(
            s,
            Cell::Boolean(neg != cell_eq(s[s.len() - 2], s[s.len() - 1])),
        )
    } else {
        faulted(pre, post, r, peek2_fault(s, 2))
    }
}

/// What an order-family opcode on strings or byte buffers does.
pub open spec fn ord_bytes_post(
    k: ValKind,
    op: CmpIneq,
    pre: Executor,
    post: Executor,
    r: Result<(), RunError>,
) -> bool {
    let s = pre.stack@;
    if s.len() >= 2 && cell_is(s[s.len() - 2], k) && cell_is(s[s.len() - 1], k) {
        &&& r is Ok
        &&& env_same(pre, post)
        &&& post.ip == pre.ip + 1
        &&& post.stack@ == pop2_push(
            s,
            Cell::Boolean(cmp_bytes_result(op, cell_bytes(s[s.len() - 2]), cell_bytes(s[s.len() - 1]))),
        )
    } else {
        faulted(pre, post, r, peek2_fault(s, 2))
    }
}

/// What an order-family opcode on numbers does.
pub open spec fn ord_num_post(
    op: CmpIneq,
    pre: Executor,
    post: Executor,
    r: Result<(), RunError>,
) -> bool {
    let s = pre.stack@;
    if s.len() >= 2 && s[s.len() - 2] is Number && s[s.len() - 1] is Number {
        &&& r is Ok
        &&& env_same(pre, post)
        &&& post.ip == pre.ip + 1
        &&& post.stack@ == pop2_push(
            s,
            Cell::Boolean(
                cmp_num_result(
                    op,
                    s[s.len() - 2]->Number_0 as int,
                    s[s.len() - 1]->Number_0 as int,
                ),
            ),
        )
    } else {
        faulted(pre, post, r, peek2_fault(s, 2))
    }
}

/// The arithmetic operator families on numbers.
#[derive(Clone, Copy, PartialEq, Eq, Structural, Debug)]
pub enum ArithOp {
    Add,
    Sub,
    Mul,
    Div,
    Mod,
}

/// The exact value of a binary arithmetic opcode over the 64-bit signed
/// model, or the name of the exception it raises: division and modulo
/// follow the machine's truncated semantics, zero divisors raise the
/// division exception, and any result outside the representable range
/// raises the overflow exception.
pub open spec fn arith_result(op: ArithOp, a: i64, b: i64) -> Result<i64, Seq<u8>> {
    match op {
        ArithOp::Add => match a.checked_add(b) {
            Option::Some(v) => Result::Ok(v),
            Option::None => Result::Err(number_overflow_name()),
        },
        ArithOp::Sub => match a.checked_sub(b) {
            Option::Some(v) => Result::Ok(v),
            Option::None => Result::Err(number_overflow_name()),
        },
        ArithOp::Mul => match a.checked_mul(b) {
            Option::Some(v) => Result::Ok(v),
            Option::None => Result::Err(number_overflow_name()),
        },
        ArithOp::Div => if b == 0 {
            Result::Err(divide_by_zero_name())
        } else {
            match a.checked_div(b) {
                Option::Some(v) => Result::Ok(v),
                Option::None => Result::Err(number_overflow_name()),
            }
        },
        ArithOp::Mod => if b == 0 {
            Result::Err(divide_by_zero_name())
        } else {
            match a.checked_rem(b) {
                Option::Some(v) => Result::Ok(v),
                Option::None => Result::Err(number_overflow_name()),
            }
        },
    }
}

/// What a binary arithmetic opcode does.
pub open spec fn arith_post(
    op: ArithOp,
    pre: Executor,
    post: Executor,
    r: Result<(), RunError>,
) -> bool {
    let s = pre.stack@;
    if s.len() >= 2 && s[s.len() - 2] is Number && s[s.len() - 1] is Number {
        match arith_result(op, s[s.len() - 2]->Number_0, s[s.len() - 1]->Number_0) {
            Result::Ok(v) => {
                &&& r is Ok
                &&& env_same(pre, post)
                &&& post.ip == pre.ip + 1
                &&& post.stack@ == pop2_push(s, Cell::Number(v))
            },
            Result::Err(nm) => {
                &&& post == pre
                &&& is_raised(r, nm, pre.ip)
            },
        }
    } else {
        faulted(pre, post, r, peek2_fault(s, 2))
    }
}

impl Executor {
    fn cmp_eq(&mut self, k: ValKind, neg: bool) -> (r: Result<(), RunError>)
        requires
            old(self).ip < old(self).object.code@.len(),
        ensures
            cmp_eq_post(k, neg, *old(self), *final(self), r),
    {
        proof {
            lemma_vec_len_bound(&self.object.code);
        }
        let n = self.stack.len();
        if n < 2 {
            return Result::Err(RunError::Fault { kind: FaultKind::StackUnderflow, at: self.ip });
        }
        if !is_kind(&self.stack[n - 2], k) || !is_kind(&self.stack[n - 1], k) {
            return Result::Err(RunError::Fault { kind: FaultKind::TypeMismatch, at: self.ip });
        }
        let eq = cells_equal(&self.stack[n - 2], &self.stack[n - 1]);
        self.stack.pop();
        self.stack.pop();
        self.stack.push(Cell::Boolean(neg != eq));
        self.ip = self.ip + 1;
        proof {
            assert(final(self).stack@ =~= pop2_push(
                old(self).stack@,
                Cell::Boolean(
                    neg != cell_eq(
                        old(self).stack@[old(self).stack@.len() - 2],
                        old(self).stack@[old(self).stack@.len() - 1],
                    ),
                ),
            ));
        }
        Result::Ok(())
    }

    fn ord_bytes(&mut self, k: ValKind, op: CmpIneq) -> (r: Result<(), RunError>)
        requires
            old(self).ip < old(self).object.code@.len(),
            k == ValKind::Str || k == ValKind::Bytes,
        ensures
            ord_bytes_post(k, op, *old(self), *final(self), r),
    {
        proof {
            lemma_vec_len_bound(&self.object.code);
        }
        let n = self.stack.len();
        if n < 2 {
            return Result::Err(RunError::Fault { kind: FaultKind::StackUnderflow, at: self.ip });
        }
        if !is_kind(&self.stack[n - 2], k) || !is_kind(&self.stack[n - 1], k) {
            return Result::Err(RunError::Fault { kind: FaultKind::TypeMismatch, at: self.ip });
        }
        let b = {
            let x = match &self.stack[n - 2] {
                Cell::Str(x) => x,
                Cell::Bytes(x) => x,
                _ => {
                    proof {
                        assert(false);
                    }
                    return Result::Err(
                        RunError::Fault { kind: FaultKind::TypeMismatch, at: self.ip },
                    );
                },
            };
            let y = match &self.stack[n - 1] {
                Cell::Str(y) => y,
                Cell::Bytes(y) => y,
                _ => {
                    proof {
                        assert(false);
                    }
                    return Result::Err(
                        RunError::Fault { kind: FaultKind::TypeMismatch, at: self.ip },
                    );
                },
            };
            match op {
                CmpIneq::Lt => bytes_less(x, y),
                CmpIneq::Gt => bytes_less(y, x),
                CmpIneq::Le => !bytes_less(y, x),
                CmpIneq::Ge => !bytes_less(x, y),
            }
        };
        self.stack.pop();
        self.stack.pop();
        self.stack.push(Cell::Boolean(b));
        self.ip = self.ip + 1;
        proof {
            assert(final(self).stack@ =~= pop2_push(
                old(self).stack@,
                Cell::Boolean(
                    cmp_bytes_result(
                        op,
                        cell_bytes(old(self).stack@[old(self).stack@.len() - 2]),
                        cell_bytes(old(self).stack@[old(self).stack@.len() - 1]),
                    ),
                ),
            ));
        }
        Result::Ok(())
    }

    fn ord_num(&mut self, op: CmpIneq) -> (r: Result<(), RunError>)
        requires
            old(self).ip < old(self).object.code@.len(),
        ensures
            ord_num_post(op, *old(self), *final(self), r),
    {
        proof {
            lemma_vec_len_bound(&self.object.code);
        }
        let n = self.stack.len();
        if n < 2 {
            return Result::Err(RunError::Fault { kind: FaultKind::StackUnderflow, at: self.ip });
        }
        let (a, b) = match (&self.stack[n - 2], &self.stack[n - 1]) {
            (Cell::Number(a), Cell::Number(b)) => (*a, *b),
            _ => {
                return Result::Err(RunError::Fault { kind: FaultKind::TypeMismatch, at: self.ip });
            },
        };
        let v = match op {
            CmpIneq::Lt => a < b,
            CmpIneq::Gt => a > b,
            CmpIneq::Le => a <= b,
            CmpIneq::Ge => a >= b,
        };
        self.stack.pop();
        self.stack.pop();
        self.stack.push(Cell::Boolean(v));
        self.ip = self.ip + 1;
        proof {
            assert(final(self).stack@ =~= pop2_push(
                old(self).stack@,
                Cell::Boolean(
                    cmp_num_result(
                        op,
                        old(self).stack@[old(self).stack@.len() - 2]->Number_0 as int,
                        old(self).stack@[old(self).stack@.len() - 1]->Number_0 as int,
                    ),
                ),
            ));
        }
        Result::Ok(())
    }

    fn arith2(&mut self, op: ArithOp) -> (r: Result<(), RunError>)
        requires
            old(self).ip < old(self).object.code@.len(),
        ensures
            arith_post(op, *old(self), *final(self), r),
    {
        proof {
            lemma_vec_len_bound(&self.object.code);
        }
        let n = self.stack.len();
        if n < 2 {
            return Result::Err(RunError::Fault { kind: FaultKind::StackUnderflow, at: self.ip });
        }
        let (a, b) = match (&self.stack[n - 2], &self.stack[n - 1]) {
            (Cell::Number(a), Cell::Number(b)) => (*a, *b),
            _ => {
                return Result::Err(RunError::Fault { kind: FaultKind::TypeMismatch, at: self.ip });
            },
        };
        let computed: Option<i64> = match op {
            ArithOp::Add => a.checked_add(b),
            ArithOp::Sub => a.checked_sub(b),
            ArithOp::Mul => a.checked_mul(b),
            ArithOp::Div => {
                if b == 0 {
                    let name = make_divide_by_zero_name();
                    return Result::Err(RunError::Raised { name, at: self.ip });
                }
                a.checked_div(b)
            },
            ArithOp::Mod => {
                if b == 0 {
                    let name = make_divide_by_zero_name();
                    return Result::Err(RunError::Raised { name, at: self.ip });
                }
                a.checked_rem(b)
            },
        };
        let v = match computed {
            Option::Some(v) => v,
            Option::None => {
                let name = make_number_overflow_name();
                return Result::Err(RunError::Raised { name, at: self.ip });
            },
        };
        self.stack.pop();
        self.stack.pop();
        self.stack.push(Cell::Number(v));
        self.ip = self.ip + 1;
        proof {
            assert(final(self).stack@ =~= pop2_push(old(self).stack@, Cell::Number(v)));
        }
        Result::Ok(())
    }

    /// Negates the top Number; negating the minimum representable value
    /// raises the overflow exception.
    pub fn op_negn(&mut self) -> (r: Result<(), RunError>)
        requires
            old(self).ip < old(self).object.code@.len(),
        ensures
            op_negn_post(*old(self), *final(self), r),
    {
        proof {
            lemma_vec_len_bound(&self.object.code);
        }
        let n = self.stack.len();
        if n == 0 {
            return Result::Err(RunError::Fault { kind: FaultKind::StackUnderflow, at: self.ip });
        }
        let a = match &self.stack[n - 1] {
            Cell::Number(a) => *a,
            _ => {
                return Result::Err(RunError::Fault { kind: FaultKind::TypeMismatch, at: self.ip });
            },
        };
        if a == i64::MIN {
            let name = make_number_overflow_name();
            return Result::Err(RunError::Raised { name, at: self.ip });
        }
        self.stack.pop();
        self.stack.push(Cell::Number(-a));
        self.ip = self.ip + 1;
        proof {
            assert(final(self).stack@ =~= pop1_push(old(self).stack@, Cell::Number((-a) as i64)));
        }
        Result::Ok(())
    }

    /// Adds the two top Numbers.
    pub fn op_addn(&mut self) -> (r: Result<(), RunError>)
        requires
            old(self).ip < old(self).object.code@.len(),
        ensures
            arith_post(ArithOp::Add, *old(self), *final(self), r),
    {
        self.arith2(ArithOp::Add)
    }

    /// Subtracts the top Number from the one below it.
    pub fn op_subn(&mut self) -> (r: Result<(), RunError>)
        requires
            old(self).ip < old(self).object.code@.len(),
        ensures
            arith_post(ArithOp::Sub, *old(self), *final(self), r),
    {
        self.arith2(ArithOp::Sub)
    }

    /// Multiplies the two top Numbers.
    pub fn op_muln(&mut self) -> (r: Result<(), RunError>)
        requires
            old(self).ip < old(self).object.code@.len(),
        ensures
            arith_post(ArithOp::Mul, *old(self), *final(self), r),
    {
        self.arith2(ArithOp::Mul)
    }

    /// Divides the Number below the top by the top Number; a zero
    /// divisor raises the division exception rather than producing any
    /// value.
    pub fn op_divn(&mut self) -> (r: Result<(), RunError>)
        requires
            old(self).ip < old(self).object.code@.len(),
        ensures
            arith_post(ArithOp::Div, *old(self), *final(self), r),
    {
        self.arith2(ArithOp::Div)
    }

    /// Takes the remainder of the Number below the top by the top
    /// Number; a zero divisor raises the division exception.
    pub fn op_modn(&mut self) -> (r: Result<(), RunError>)
        requires
            old(self).ip < old(self).object.code@.len(),
        ensures
            arith_post(ArithOp::Mod, *old(self), *final(self), r),
    {
        self.arith2(ArithOp::Mod)
    }

    /// Compares the two top Booleans for equality.
    pub fn op_eqb(&mut self) -> (r: Result<(), RunError>)
        requires
            old(self).ip < old(self).object.code@.len(),
        ensures
            cmp_eq_post(ValKind::Boolean, false, *old(self), *final(self), r),
    {
        self.cmp_eq(ValKind::Boolean, false)
    }

    pub fn op_neb(&mut self) -> (r: Result<(), RunError>)
        requires
            old(self).ip < old(self).object.code@.len(),
        ensures
            cmp_eq_post(ValKind::Boolean, true, *old(self), *final(self), r),
    {
        self.cmp_eq(ValKind::Boolean, true)
    }

    /// Compares the two top Numbers for equality.
    pub fn op_eqn(&mut self) -> (r: Result<(), RunError>)
        requires
            old(self).ip < old(self).object.code@.len(),
        ensures
            cmp_eq_post(ValKind::Number, false, *old(self), *final(self), r),
    {
        self.cmp_eq(ValKind::Number, false)
    }

    pub fn op_nen(&mut self) -> (r: Result<(), RunError>)
        requires
            old(self).ip < old(self).object.code@.len(),
        ensures
            cmp_eq_post(ValKind::Number, true, *old(self), *final(self), r),
    {
        self.cmp_eq(ValKind::Number, true)
    }

    pub fn op_ltn(&mut self) -> (r: Result<(), RunError>)
        requires
            old(self).ip < old(self).object.code@.len(),
        ensures
            ord_num_post(CmpIneq::Lt, *old(self), *final(self), r),
    {
        self.ord_num(CmpIneq::Lt)
    }

    pub fn op_gtn(&mut self) -> (r: Result<(), RunError>)
        requires
            old(self).ip < old(self).object.code@.len(),
        ensures
            ord_num_post(CmpIneq::Gt, *old(self), *final(self), r),
    {
        self.ord_num(CmpIneq::Gt)
    }

    pub fn op_len(&mut self) -> (r: Result<(), RunError>)
        requires
            old(self).ip < old(self).object.code@.len(),
        ensures
            ord_num_post(CmpIneq::Le, *old(self), *final(self), r),
    {
        self.ord_num(CmpIneq::Le)
    }

    pub fn op_gen(&mut self) -> (r: Result<(), RunError>)
        requires
            old(self).ip < old(self).object.code@.len(),
        ensures
            ord_num_post(CmpIneq::Ge, *old(self), *final(self), r),
    {
        self.ord_num(CmpIneq::Ge)
    }

    /// Compares the two top Strings for byte-wise equality.
    pub fn op_eqs(&mut self) -> (r: Result<(), RunError>)
        requires
            old(self).ip < old(self).object.code@.len(),
        ensures
            cmp_eq_post(ValKind::Str, false, *old(self), *final(self), r),
    {
        self.cmp_eq(ValKind::Str, false)
    }

    pub fn op_nes(&mut self) -> (r: Result<(), RunError>)
        requires
            old(self).ip < old(self).object.code@.len(),
        ensures
            cmp_eq_post(ValKind::Str, true, *old(self), *final(self), r),
    {
        self.cmp_eq(ValKind::Str, true)
    }

    pub fn op_lts(&mut self) -> (r: Result<(), RunError>)
        requires
            old(self).ip < old(self).object.code@.len(),
        ensures
            ord_bytes_post(ValKind::Str, CmpIneq::Lt, *old(self), *final(self), r),
    {
        self.ord_bytes(ValKind::Str, CmpIneq::Lt)
    }

    pub fn op_gts(&mut self) -> (r: Result<(), RunError>)
        requires
            old(self).ip < old(self).object.code@.len(),
        ensures
            ord_bytes_post(ValKind::Str, CmpIneq::Gt, *old(self), *final(self), r),
    {
        self.ord_bytes(ValKind::Str, CmpIneq::Gt)
    }

    pub fn op_les(&mut self) -> (r: Result<(), RunError>)
        requires
            old(self).ip < old(self).object.code@.len(),
        ensures
            ord_bytes_post(ValKind::Str, CmpIneq::Le, *old(self), *final(self), r),
    {
        self.ord_bytes(ValKind::Str, CmpIneq::Le)
    }

    pub fn op_ges(&mut self) -> (r: Result<(), RunError>)
        requires
            old(self).ip < old(self).object.code@.len(),
        ensures
            ord_bytes_post(ValKind::Str, CmpIneq::Ge, *old(self), *final(self), r),
    {
        self.ord_bytes(ValKind::Str, CmpIneq::Ge)
    }

    /// Compares the two top byte buffers for equality.
    pub fn op_eqy(&mut self) -> (r: Result<(), RunError>)
        requires
            old(self).ip < old(self).object.code@.len(),
        ensures
            cmp_eq_post(ValKind::Bytes, false, *old(self), *final(self), r),
    {
        self.cmp_eq(ValKind::Bytes, false)
    }

    pub fn op_ney(&mut self) -> (r: Result<(), RunError>)
        requires
            old(self).ip < old(self).object.code@.len(),
        ensures
            cmp_eq_post(ValKind::Bytes, true, *old(self), *final(self), r),
    {
        self.cmp_eq(ValKind::Bytes, true)
    }

    pub fn op_lty(&mut self) -> (r: Result<(), RunError>)
        requires
            old(self).ip < old(self).object.code@.len(),
        ensures
            ord_bytes_post(ValKind::Bytes, CmpIneq::Lt, *old(self), *final(self), r),
    {
        self.ord_bytes(ValKind::Bytes, CmpIneq::Lt)
    }

    pub fn op_gty(&mut self) -> (r: Result<(), RunError>)
        requires
            old(self).ip < old(self).object.code@.len(),
        ensures
            ord_bytes_post(ValKind::Bytes, CmpIneq::Gt, *old(self), *final(self), r),
    {
        self.ord_bytes(ValKind::Bytes, CmpIneq::Gt)
    }

    pub fn op_ley(&mut self) -> (r: Result<(), RunError>)
        requires
            old(self).ip < old(self).object.code@.len(),
        ensures
            ord_bytes_post(ValKind::Bytes, CmpIneq::Le, *old(self), *final(self), r),
    {
        self.ord_bytes(ValKind::Bytes, CmpIneq::Le)
    }

    pub fn op_gey(&mut self) -> (r: Result<(), RunError>)
        requires
            old(self).ip < old(self).object.code@.len(),
        ensures
            ord_bytes_post(ValKind::Bytes, CmpIneq::Ge, *old(self), *final(self), r),
    {
        self.ord_bytes(ValKind::Bytes, CmpIneq::Ge)
    }

    /// Compares the two top Arrays for structural (element-wise)
    /// equality.
    pub fn op_eqa(&mut self) -> (r: Result<(), RunError>)
        requires
            old(self).ip < old(self).object.code@.len(),
        ensures
            cmp_eq_post(ValKind::Array, false, *old(self), *final(self), r),
    {
        self.cmp_eq(ValKind::Array, false)
    }

    pub fn op_nea(&mut self) -> (r: Result<(), RunError>)
        requires
            old(self).ip < old(self).object.code@.len(),
        ensures
            cmp_eq_post(ValKind::Array, true, *old(self), *final(self), r),
    {
        self.cmp_eq(ValKind::Array, true)
    }

    /// Compares the two top Dictionaries for structural equality: the
    /// same keys mapped to structurally equal values, order not
    /// significant.
    pub fn op_eqd(&mut self) -> (r: Result<(), RunError>)
        requires
            old(self).ip < old(self).object.code@.len(),
        ensures
            cmp_eq_post(ValKind::Dict, false, *old(self), *final(self), r),
    {
        self.cmp_eq(ValKind::Dict, false)
    }

    pub fn op_ned(&mut self) -> (r: Result<(), RunError>)
        requires
            old(self).ip < old(self).object.code@.len(),
        ensures
            cmp_eq_post(ValKind::Dict, true, *old(self), *final(self), r),
    {
        self.cmp_eq(ValKind::Dict, true)
    }

    /// Compares the two top Pointers by identity: same base, same path.
    pub fn op_eqp(&mut self) -> (r: Result<(), RunError>)
        requires
            old(self).ip < old(self).object.code@.len(),
        ensures
            cmp_eq_post(ValKind::Ptr, false, *old(self), *final(self), r),
    {
        self.cmp_eq(ValKind::Ptr, false)
    }

    pub fn op_nep(&mut self) -> (r: Result<(), RunError>)
        requires
            old(self).ip < old(self).object.code@.len(),
        ensures
            cmp_eq_post(ValKind::Ptr, true, *old(self), *final(self), r),
    {
        self.cmp_eq(ValKind::Ptr, true)
    }

    /// Compares the two top opaque handles by identity.
    pub fn op_eqv(&mut self) -> (r: Result<(), RunError>)
        requires
            old(self).ip < old(self).object.code@.len(),
        ensures
            cmp_eq_post(ValKind::VoidPtr, false, *old(self), *final(self), r),
    {
        self.cmp_eq(ValKind::VoidPtr, false)
    }

    pub fn op_nev(&mut self) -> (r: Result<(), RunError>)
        requires
            old(self).ip < old(self).object.code@.len(),
        ensures
            cmp_eq_post(ValKind::VoidPtr, true, *old(self), *final(self), r),
    {
        self.cmp_eq(ValKind::VoidPtr, true)
    }

    fn bool2(&mut self, is_and: bool) -> (r: Result<(), RunError>)
        requires
            old(self).ip < old(self).object.code@.len(),
        ensures
            bool2_post(is_and, *old(self), *final(self), r),
    {
        proof {
            lemma_vec_len_bound(&self.object.code);
        }
        let n = self.stack.len();
        if n < 2 {
            return Result::Err(RunError::Fault { kind: FaultKind::StackUnderflow, at: self.ip });
        }
        let (a, b) = match (&self.stack[n - 2], &self.stack[n - 1]) {
            (Cell::Boolean(a), Cell::Boolean(b)) => (*a, *b),
            _ => {
                return Result::Err(RunError::Fault { kind: FaultKind::TypeMismatch, at: self.ip });
            },
        };
        let v = if is_and {
            a && b
        } else {
            a || b
        };
        self.stack.pop();
        self.stack.pop();
        self.stack.push(Cell::Boolean(v));
        self.ip = self.ip + 1;
        proof {
            assert(final(self).stack@ =~= pop2_push(old(self).stack@, Cell::Boolean(v)));
        }
        Result::Ok(())
    }

    /// Logical AND of the two top Booleans.
    pub fn op_andb(&mut self) -> (r: Result<(), RunError>)
        requires
            old(self).ip < old(self).object.code@.len(),
        ensures
            bool2_post(true, *old(self), *final(self), r),
    {
        self.bool2(true)
    }

    /// Logical OR of the two top Booleans.
    pub fn op_orb(&mut self) -> (r: Result<(), RunError>)
        requires
            old(self).ip < old(self).object.code@.len(),
        ensures
            bool2_post(false, *old(self), *final(self), r),
    {
        self.bool2(false)
    }

    /// Logical NOT of the top Boolean.
    pub fn op_notb(&mut self) -> (r: Result<(), RunError>)
        requires
            old(self).ip < old(self).object.code@.len(),
        ensures
            op_notb_post(*old(self), *final(self), r),
    {
        proof {
            lemma_vec_len_bound(&self.object.code);
        }
        let n = self.stack.len();
        if n == 0 {
            return Result::Err(RunError::Fault { kind: FaultKind::StackUnderflow, at: self.ip });
        }
        let a = match &self.stack[n - 1] {
            Cell::Boolean(a) => *a,
            _ => {
                return Result::Err(RunError::Fault { kind: FaultKind::TypeMismatch, at: self.ip });
            },
        };
        self.stack.pop();
        self.stack.push(Cell::Boolean(!a));
        self.ip = self.ip + 1;
        proof {
            assert(final(self).stack@ =~= pop1_push(old(self).stack@, Cell::Boolean(!a)));
        }
        Result::Ok(())
    }
}

/// What the Boolean AND/OR opcodes do.
pub open spec fn bool2_post(
    is_and: bool,
    pre: Executor,
    post: Executor,
    r: Result<(), RunError>,
) -> bool {
    let s = pre.stack@;
    if s.len() >= 2 && s[s.len() - 2] is Boolean && s[s.len() - 1] is Boolean {
        &&& r is Ok
        &&& env_same(pre, post)
        &&& post.ip == pre.ip + 1
        &&& post.stack@ == pop2_push(
            s,
            Cell::Boolean(
                if is_and {
                    s[s.len() - 2]->Boolean_0 && s[s.len() - 1]->Boolean_0
                } else {
                    s[s.len() - 2]->Boolean_0 || s[s.len() - 1]->Boolean_0
                },
            ),
        )
    } else {
        faulted(pre, post, r, peek2_fault(s, 2))
    }
}

/// Membership of a value in an array, up to structural equality.
pub open spec fn in_array(v: Cell, xs: Seq<Cell>) -> bool {
    exists|k: int| 0 <= k < xs.len() && cell_eq(v, #[trigger] xs[k])
}

/// Whether a dictionary has an entry with key `k`.
pub open spec fn dict_has_key(es: Seq<DictEntry>, k: Seq<u8>) -> bool {
    exists|i: int| 0 <= i < es.len() && (#[trigger] es[i]).key@ == k
}

pub open spec fn abs1(x: int) -> int {
    if x >= 0 {
        x
    } else {
        -x
    }
}

proof fn lemma_abs_mul(a: int, p: int)
    ensures
        abs1(a * p) == abs1(a) * abs1(p),
{
    if a >= 0 && p >= 0 {
        assert(a * p >= 0) by (nonlinear_arith)
            requires
                a >= 0,
                p >= 0,
        ;
    } else if a >= 0 && p < 0 {
        assert(a * p <= 0 && -(a * p) == a * (-p)) by (nonlinear_arith)
            requires
                a >= 0,
                p < 0,
        ;
    } else if a < 0 && p >= 0 {
        assert(a * p <= 0 && -(a * p) == (-a) * p) by (nonlinear_arith)
            requires
                a < 0,
                p >= 0,
        ;
    } else {
        assert(a * p >= 0 && a * p == (-a) * (-p)) by (nonlinear_arith)
            requires
                a < 0,
                p < 0,
        ;
    }
}

proof fn lemma_pow_small(a: int, e: nat)
    requires
        abs1(a) <= 1,
    ensures
        abs1(pow_int(a, e)) <= 1,
    decreases e,
{
    if e > 0 {
        lemma_pow_small(a, (e - 1) as nat);
        lemma_abs_mul(a, pow_int(a, (e - 1) as nat));
        assert(abs1(a) * abs1(pow_int(a, (e - 1) as nat)) <= 1) by (nonlinear_arith)
            requires
                0 <= abs1(a) <= 1,
                0 <= abs1(pow_int(a, (e - 1) as nat)) <= 1,
        ;
    }
}

proof fn lemma_pow_mono(a: int, e1: nat, e2: nat)
    requires
        abs1(a) >= 2,
        e1 <= e2,
    ensures
        abs1(pow_int(a, e2)) >= abs1(pow_int(a, e1)),
        abs1(pow_int(a, e1)) >= 1,
        e2 > e1 ==> abs1(pow_int(a, e2)) >= 2 * abs1(pow_int(a, e1)),
    decreases e2,
{
    if e1 == e2 {
        if e1 > 0 {
            lemma_pow_mono(a, (e1 - 1) as nat, (e1 - 1) as nat);
            lemma_abs_mul(a, pow_int(a, (e1 - 1) as nat));
            assert(abs1(a) * abs1(pow_int(a, (e1 - 1) as nat)) >= 1) by (nonlinear_arith)
                requires
                    abs1(a) >= 2,
                    abs1(pow_int(a, (e1 - 1) as nat)) >= 1,
            ;
        }
    } else {
        lemma_pow_mono(a, e1, (e2 - 1) as nat);
        lemma_abs_mul(a, pow_int(a, (e2 - 1) as nat));
        assert(abs1(a) * abs1(pow_int(a, (e2 - 1) as nat)) >= 2 * abs1(pow_int(a, (e2 - 1) as nat)))
            by (nonlinear_arith)
            requires
                abs1(a) >= 2,
                abs1(pow_int(a, (e2 - 1) as nat)) >= 0,
        ;
        assert(2 * abs1(pow_int(a, (e2 - 1) as nat)) >= 2 * abs1(pow_int(a, e1)));
    }
}

proof fn lemma_pow_zero_one(e: nat)
    ensures
        e > 0 ==> pow_int(0, e) == 0,
        pow_int(1, e) == 1,
        pow_int(-1, e) == if e % 2 == 0 {
            1int
        } else {
            -1int
        },
    decreases e,
{
    if e > 0 {
        lemma_pow_zero_one((e - 1) as nat);
    }
}

/// What the exponentiation opcode does: the Number below the top raised
/// to the top Number's power, over the integers; a negative exponent or
/// a result outside the representable range raises the overflow
/// exception.
pub open spec fn expn_post(pre: Executor, post: Executor, r: Result<(), RunError>) -> bool {
    let s = pre.stack@;
    if s.len() >= 2 && s[s.len() - 2] is Number && s[s.len() - 1] is Number {
        let a = s[s.len() - 2]->Number_0;
        let b = s[s.len() - 1]->Number_0;
        if b < 0 {
            &&& post == pre
            &&& is_raised(r, number_overflow_name(), pre.ip)
        } else {
            let p = pow_int(a as int, b as nat);
            if i64::MIN <= p <= i64::MAX {
                &&& r is Ok
                &&& env_same(pre, post)
                &&& post.ip == pre.ip + 1
                &&& post.stack@ == pop2_push(s, Cell::Number(p as i64))
            } else {
                &&& post == pre
                &&& is_raised(r, number_overflow_name(), pre.ip)
            }
        }
    } else {
        faulted(pre, post, r, peek2_fault(s, 2))
    }
}

impl Executor {
    /// Raises the Number below the top to the top Number's power.
    pub fn op_expn(&mut self) -> (r: Result<(), RunError>)
        requires
            old(self).ip < old(self).object.code@.len(),
        ensures
            expn_post(*old(self), *final(self), r),
    {
        proof {
            lemma_vec_len_bound(&self.object.code);
        }
        let n = self.stack.len();
        if n < 2 {
            return Result::Err(RunError::Fault { kind: FaultKind::StackUnderflow, at: self.ip });
        }
        let (a, b) = match (&self.stack[n - 2], &self.stack[n - 1]) {
            (Cell::Number(a), Cell::Number(b)) => (*a, *b),
            _ => {
                return Result::Err(RunError::Fault { kind: FaultKind::TypeMismatch, at: self.ip });
            },
        };
        if b < 0 {
            let name = make_number_overflow_name();
            return Result::Err(RunError::Raised { name, at: self.ip });
        }
        let v: i64 = if a == 0 {
            proof {
                lemma_pow_zero_one(b as nat);
            }
            if b == 0 {
                1
            } else {
                0
            }
        } else if a == 1 {
            proof {
                lemma_pow_zero_one(b as nat);
            }
            1
        } else if a == -1 {
            proof {
                lemma_pow_zero_one(b as nat);
            }
            if b % 2 == 0 {
                1
            } else {
                -1
            }
        } else {
            let mut acc: i64 = 1;
            let mut k: i64 = 0;
            while k < b
                invariant
                    0 <= k <= b,
                    abs1(a as int) >= 2,
                    acc as int == pow_int(a as int, k as nat),
                    self == old(self),
                    old(self).stack@.len() >= 2,
                    old(self).stack@[old(self).stack@.len() - 2] == Cell::Number(a),
                    old(self).stack@[old(self).stack@.len() - 1] == Cell::Number(b),
                decreases b - k,
            {
                match acc.checked_mul(a) {
                    Option::Some(next) => {
                        proof {
                            assert(acc * a == a * acc) by (nonlinear_arith);
                        }
                        acc = next;
                        k = k + 1;
                    },
                    Option::None => {
                        proof {
                            assert(acc * a == a * acc) by (nonlinear_arith);
                            let p1 = pow_int(a as int, (k + 1) as nat);
                            assert(p1 == a * pow_int(a as int, k as nat));
                            assert(p1 < i64::MIN || p1 > i64::MAX);
                            assert(abs1(p1) >= 0x8000000000000000);
                            if b > k + 1 {
                                lemma_pow_mono(a as int, (k + 1) as nat, b as nat);
                                assert(abs1(pow_int(a as int, b as nat)) >= 2 * abs1(p1));
                                assert(abs1(pow_int(a as int, b as nat)) >= 0x10000000000000000);
                            } else {
                                assert(b == k + 1);
                                assert(pow_int(a as int, b as nat) == p1);
                            }
                            assert(!(i64::MIN <= pow_int(a as int, b as nat) <= i64::MAX));
                        }
                        let name = make_number_overflow_name();
                        return Result::Err(RunError::Raised { name, at: self.ip });
                    },
                }
            }
            acc
        };
        self.stack.pop();
        self.stack.pop();
        self.stack.push(Cell::Number(v));
        self.ip = self.ip + 1;
        proof {
            assert(final(self).stack@ =~= pop2_push(old(self).stack@, Cell::Number(v)));
        }
        Result::Ok(())
    }

    /// Tests membership of the value below the top in the Array on top,
    /// up to structural equality, and pushes the Boolean answer.
    pub fn op_ina(&mut self) -> (r: Result<(), RunError>)
        requires
            old(self).ip < old(self).object.code@.len(),
        ensures
            op_ina_post(*old(self), *final(self), r),
    {
        proof {
            lemma_vec_len_bound(&self.object.code);
        }
        let n = self.stack.len();
        if n < 2 {
            return Result::Err(RunError::Fault { kind: FaultKind::StackUnderflow, at: self.ip });
        }
        let found = match &self.stack[n - 1] {
            Cell::Array(xs) => {
                let m = xs.len();
                let mut k: usize = 0;
                let mut found = false;
                while k < m
                    invariant
                        0 <= k <= m,
                        m == xs@.len(),
                        n == self.stack@.len(),
                        n >= 2,
                        self.stack@[n - 1] == Cell::Array(*xs),
                        found ==> in_array(self.stack@[n - 2], xs@),
                        !found ==> forall|j: int|
                            0 <= j < k ==> !cell_eq(self.stack@[n - 2], #[trigger] xs@[j]),
                    decreases m - k,
                {
                    if cells_equal(&self.stack[n - 2], &xs[k]) {
                        found = true;
                        k = m;
                    } else {
                        k = k + 1;
                    }
                }
                proof {
                    if !found {
                        assert(!in_array(self.stack@[n - 1 as int - 1], xs@)) by {
                            if in_array(self.stack@[n - 1 as int - 1], xs@) {
                                let j = choose|j: int|
                                    0 <= j < xs@.len() && cell_eq(
                                        self.stack@[n - 1 as int - 1],
                                        #[trigger] xs@[j],
                                    );
                                assert(false);
                            }
                        }
                    }
                }
                found
            },
            _ => {
                return Result::Err(RunError::Fault { kind: FaultKind::TypeMismatch, at: self.ip });
            },
        };
        self.stack.pop();
        self.stack.pop();
        self.stack.push(Cell::Boolean(found));
        self.ip = self.ip + 1;
        proof {
            assert(final(self).stack@ =~= pop2_push(
                old(self).stack@,
                Cell::Boolean(
                    in_array(
                        old(self).stack@[old(self).stack@.len() - 2],
                        old(self).stack@.last()->Array_0@,
                    ),
                ),
            ));
        }
        Result::Ok(())
    }

    /// Tests whether the String below the top is a key of the
    /// Dictionary on top, and pushes the Boolean answer.
    pub fn op_ind(&mut self) -> (r: Result<(), RunError>)
        requires
            old(self).ip < old(self).object.code@.len(),
        ensures
            op_ind_post(*old(self), *final(self), r),
    {
        proof {
            lemma_vec_len_bound(&self.object.code);
        }
        let n = self.stack.len();
        if n < 2 {
            return Result::Err(RunError::Fault { kind: FaultKind::StackUnderflow, at: self.ip });
        }
        let found = match (&self.stack[n - 2], &self.stack[n - 1]) {
            (Cell::Str(key), Cell::Dict(es)) => {
                let f = dict_find(es, key);
                proof {
                    match f {
                        Option::Some(i) => {
                            assert(dict_has_key(es@, key@));
                        },
                        Option::None => {
                            if dict_has_key(es@, key@) {
                                let i = choose|i: int|
                                    0 <= i < es@.len() && (#[trigger] es@[i]).key@ == key@;
                                assert(false);
                            }
                        },
                    }
                }
                f.is_some()
            },
            _ => {
                return Result::Err(RunError::Fault { kind: FaultKind::TypeMismatch, at: self.ip });
            },
        };
        self.stack.pop();
        self.stack.pop();
        self.stack.push(Cell::Boolean(found));
        self.ip = self.ip + 1;
        proof {
            assert(final(self).stack@ =~= pop2_push(
                old(self).stack@,
                Cell::Boolean(
                    dict_has_key(
                        old(self).stack@.last()->Dict_0@,
                        old(self).stack@[old(self).stack@.len() - 2]->Str_0@,
                    ),
                ),
            ));
        }
        Result::Ok(())
    }
}

/// What the array reference-indexing opcodes do: pop a Number index and
/// a Pointer and push the Pointer extended by that element step.  The
/// read-reference and write-reference variants build the same pointer.
pub open spec fn index_ptr_elem_post(pre: Executor, post: Executor, r: Result<(), RunError>) -> bool {
    let s = pre.stack@;
    if s.len() >= 2 && s[s.len() - 2] is Ptr && s[s.len() - 1] is Number {
        let p = s[s.len() - 2]->Ptr_0;
        let i = s[s.len() - 1]->Number_0;
        if i < 0 {
            faulted(pre, post, r, FaultKind::IndexOutOfRange)
        } else {
            &&& r is Ok
            &&& env_same(pre, post)
            &&& post.ip == pre.ip + 1
            &&& post.stack@.len() == s.len() - 1
            &&& post.stack@.drop_last() == s.drop_last().drop_last()
            &&& post.stack@.last() matches Cell::Ptr(q) && q.base == p.base && q.path@
                == p.path@.push(PathSeg::Elem(i as usize))
        }
    } else {
        faulted(pre, post, r, peek2_fault(s, 2))
    }
}

/// What the dictionary reference-indexing opcodes do: pop a String key
/// and a Pointer and push the Pointer extended by that key step.
pub open spec fn index_ptr_key_post(pre: Executor, post: Executor, r: Result<(), RunError>) -> bool {
    let s = pre.stack@;
    if s.len() >= 2 && s[s.len() - 2] is Ptr && s[s.len() - 1] is Str {
        let p = s[s.len() - 2]->Ptr_0;
        let k = s[s.len() - 1]->Str_0;
        &&& r is Ok
        &&& env_same(pre, post)
        &&& post.ip == pre.ip + 1
        &&& post.stack@.len() == s.len() - 1
        &&& post.stack@.drop_last() == s.drop_last().drop_last()
        &&& post.stack@.last() matches Cell::Ptr(q) && q.base == p.base && q.path@
            == p.path@.push(PathSeg::Key(k))
    } else {
        faulted(pre, post, r, peek2_fault(s, 2))
    }
}

impl Executor {
    fn index_ptr_elem(&mut self) -> (r: Result<(), RunError>)
        requires
            old(self).ip < old(self).object.code@.len(),
        ensures
            index_ptr_elem_post(*old(self), *final(self), r),
    {
        proof {
            lemma_vec_len_bound(&self.object.code);
        }
        let n = self.stack.len();
        if n < 2 {
            return Result::Err(RunError::Fault { kind: FaultKind::StackUnderflow, at: self.ip });
        }
        let i: i64 = match (&self.stack[n - 2], &self.stack[n - 1]) {
            (Cell::Ptr(_), Cell::Number(i)) => *i,
            _ => {
                return Result::Err(RunError::Fault { kind: FaultKind::TypeMismatch, at: self.ip });
            },
        };
        if i < 0 {
            return Result::Err(RunError::Fault { kind: FaultKind::IndexOutOfRange, at: self.ip });
        }
        self.stack.pop();
        let pc = self.stack.pop().unwrap();
        match pc {
            Cell::Ptr(mut p) => {
                p.path.push(PathSeg::Elem(i as usize));
                self.stack.push(Cell::Ptr(p));
            },
            _ => {
                proof {
                    assert(false);
                }
            },
        }
        self.ip = self.ip + 1;
        proof {
            assert(final(self).stack@.drop_last() =~= old(self).stack@.drop_last().drop_last());
        }
        Result::Ok(())
    }

    fn index_ptr_key(&mut self) -> (r: Result<(), RunError>)
        requires
            old(self).ip < old(self).object.code@.len(),
        ensures
            index_ptr_key_post(*old(self), *final(self), r),
    {
        proof {
            lemma_vec_len_bound(&self.object.code);
        }
        let n = self.stack.len();
        if n < 2 {
            return Result::Err(RunError::Fault { kind: FaultKind::StackUnderflow, at: self.ip });
        }
        match (&self.stack[n - 2], &self.stack[n - 1]) {
            (Cell::Ptr(_), Cell::Str(_)) => {},
            _ => {
                return Result::Err(RunError::Fault { kind: FaultKind::TypeMismatch, at: self.ip });
            },
        }
        let kc = self.stack.pop().unwrap();
        let pc = self.stack.pop().unwrap();
        match (pc, kc) {
            (Cell::Ptr(mut p), Cell::Str(kb)) => {
                p.path.push(PathSeg::Key(kb));
                self.stack.push(Cell::Ptr(p));
            },
            _ => {
                proof {
                    assert(false);
                }
            },
        }
        self.ip = self.ip + 1;
        proof {
            assert(final(self).stack@.drop_last() =~= old(self).stack@.drop_last().drop_last());
        }
        Result::Ok(())
    }

    /// Extends a Pointer by an array-element step for a later read.
    pub fn op_indexar(&mut self) -> (r: Result<(), RunError>)
        requires
            old(self).ip < old(self).object.code@.len(),
        ensures
            index_ptr_elem_post(*old(self), *final(self), r),
    {
        self.index_ptr_elem()
    }

    /// Extends a Pointer by an array-element step for a later write.
    pub fn op_indexaw(&mut self) -> (r: Result<(), RunError>)
        requires
            old(self).ip < old(self).object.code@.len(),
        ensures
            index_ptr_elem_post(*old(self), *final(self), r),
    {
        self.index_ptr_elem()
    }

    /// Extends a Pointer by a dictionary-key step for a later read.
    pub fn op_indexdr(&mut self) -> (r: Result<(), RunError>)
        requires
            old(self).ip < old(self).object.code@.len(),
        ensures
            index_ptr_key_post(*old(self), *final(self), r),
    {
        self.index_ptr_key()
    }

    /// Extends a Pointer by a dictionary-key step for a later write; the
    /// write auto-creates a missing key.
    pub fn op_indexdw(&mut self) -> (r: Result<(), RunError>)
        requires
            old(self).ip < old(self).object.code@.len(),
        ensures
            index_ptr_key_post(*old(self), *final(self), r),
    {
        self.index_ptr_key()
    }

    /// Pops a Number index and an Array and pushes the selected element;
    /// an out-of-range index is a fault on this strict variant.
    pub fn op_indexav(&mut self) -> (r: Result<(), RunError>)
        requires
            old(self).ip < old(self).object.code@.len(),
        ensures
            op_indexav_post(*old(self), *final(self), r),
    {
        proof {
            lemma_vec_len_bound(&self.object.code);
        }
        let n = self.stack.len();
        if n < 2 {
            return Result::Err(RunError::Fault { kind: FaultKind::StackUnderflow, at: self.ip });
        }
        let (i, m) = match (&self.stack[n - 2], &self.stack[n - 1]) {
            (Cell::Array(xs), Cell::Number(i)) => (*i, xs.len()),
            _ => {
                return Result::Err(RunError::Fault { kind: FaultKind::TypeMismatch, at: self.ip });
            },
        };
        if i < 0 || (i as u64) >= (m as u64) {
            return Result::Err(RunError::Fault { kind: FaultKind::IndexOutOfRange, at: self.ip });
        }
        self.stack.pop();
        let ac = self.stack.pop().unwrap();
        match ac {
            Cell::Array(mut xs) => {
                let e = xs.remove(i as usize);
                self.stack.push(e);
            },
            _ => {
                proof {
                    assert(false);
                }
            },
        }
        self.ip = self.ip + 1;
        proof {
            assert(final(self).stack@ =~= pop2_push(
                old(self).stack@,
                old(self).stack@[old(self).stack@.len() - 2]->Array_0@[old(self).stack@[old(self).stack@.len() - 1]->Number_0 as int],
            ));
        }
        Result::Ok(())
    }

    /// Pops a Number index and an Array and pushes the selected
    /// element, or the uninitialized marker when the index is out of
    /// range: the non-faulting read variant, whose sentinel is the
    /// marker value.
    pub fn op_indexan(&mut self) -> (r: Result<(), RunError>)
        requires
            old(self).ip < old(self).object.code@.len(),
        ensures
            op_indexan_post(*old(self), *final(self), r),
    {
        proof {
            lemma_vec_len_bound(&self.object.code);
        }
        let n = self.stack.len();
        if n < 2 {
            return Result::Err(RunError::Fault { kind: FaultKind::StackUnderflow, at: self.ip });
        }
        let (i, m) = match (&self.stack[n - 2], &self.stack[n - 1]) {
            (Cell::Array(xs), Cell::Number(i)) => (*i, xs.len()),
            _ => {
                return Result::Err(RunError::Fault { kind: FaultKind::TypeMismatch, at: self.ip });
            },
        };
        self.stack.pop();
        let ac = self.stack.pop().unwrap();
        let out = if i < 0 || (i as u64) >= (m as u64) {
            Cell::Empty
        } else {
            match ac {
                Cell::Array(mut xs) => xs.remove(i as usize),
                _ => {
                    proof {
                        assert(false);
                    }
                    Cell::Empty
                },
            }
        };
        self.stack.push(out);
        self.ip = self.ip + 1;
        proof {
            assert(final(self).stack@ =~= pop2_push(old(self).stack@, final(self).stack@.last()));
        }
        Result::Ok(())
    }

    /// Pops a String key and a Dictionary and pushes the value of the
    /// first entry with that key; a missing key is a fault.
    pub fn op_indexdv(&mut self) -> (r: Result<(), RunError>)
        requires
            old(self).ip < old(self).object.code@.len(),
        ensures
            op_indexdv_post(*old(self), *final(self), r),
    {
        proof {
            lemma_vec_len_bound(&self.object.code);
        }
        let n = self.stack.len();
        if n < 2 {
            return Result::Err(RunError::Fault { kind: FaultKind::StackUnderflow, at: self.ip });
        }
        let fi = match (&self.stack[n - 2], &self.stack[n - 1]) {
            (Cell::Dict(es), Cell::Str(k)) => {
                match dict_find(es, k) {
                    Option::Some(i) => {
                        proof {
                            assert(dict_has_key(es@, k@));
                        }
                        i
                    },
                    Option::None => {
                        proof {
                            if dict_has_key(es@, k@) {
                                let i = choose|i: int|
                                    0 <= i < es@.len() && (#[trigger] es@[i]).key@ == k@;
                                assert(false);
                            }
                        }
                        return Result::Err(
                            RunError::Fault { kind: FaultKind::KeyNotFound, at: self.ip },
                        );
                    },
                }
            },
            _ => {
                return Result::Err(RunError::Fault { kind: FaultKind::TypeMismatch, at: self.ip });
            },
        };
        self.stack.pop();
        let dc = self.stack.pop().unwrap();
        match dc {
            Cell::Dict(mut es) => {
                let e = es.remove(fi);
                self.stack.push(e.val);
            },
            _ => {
                proof {
                    assert(false);
                }
            },
        }
        self.ip = self.ip + 1;
        proof {
            assert(final(self).stack@ =~= pop2_push(old(self).stack@, final(self).stack@.last()));
        }
        Result::Ok(())
    }
}

/// Index of the first entry of `es` with key `k`, or -1.
pub open spec fn first_key(es: Seq<DictEntry>, k: Seq<u8>) -> int
    decreases es.len(),
{
    if es.len() == 0 {
        -1
    } else if es[0].key@ == k {
        0
    } else {
        let r = first_key(es.drop_first(), k);
        if r < 0 {
            -1
        } else {
            1 + r
        }
    }
}

proof fn lemma_first_key(es: Seq<DictEntry>, k: Seq<u8>)
    ensures
        first_key(es, k) >= 0 ==> 0 <= first_key(es, k) < es.len() && es[first_key(es, k)].key@
            == k && forall|j: int| 0 <= j < first_key(es, k) ==> (#[trigger] es[j]).key@ != k,
        first_key(es, k) < 0 ==> forall|j: int| 0 <= j < es.len() ==> (#[trigger] es[j]).key@ != k,
    decreases es.len(),
{
    if es.len() > 0 && es[0].key@ != k {
        lemma_first_key(es.drop_first(), k);
        let r = first_key(es.drop_first(), k);
        if r >= 0 {
            assert(es.drop_first()[r] == es[r + 1]);
            assert forall|j: int| 0 <= j < 1 + r implies (#[trigger] es[j]).key@ != k by {
                if j > 0 {
                    assert(es.drop_first()[j - 1] == es[j]);
                }
            }
        } else {
            assert forall|j: int| 0 <= j < es.len() implies (#[trigger] es[j]).key@ != k by {
                if j > 0 {
                    assert(es.drop_first()[j - 1] == es[j]);
                }
            }
        }
    }
}

/// The value a pointer path selects inside a cell, or the fault it
/// raises: element steps index Arrays, key steps select the first
/// matching Dictionary entry.
pub open spec fn read_path_spec(c: Cell, path: Seq<PathSeg>, k: int) -> Result<Cell, FaultKind>
    decreases path.len() - k,
{
    if k >= path.len() {
        Result::Ok(c)
    } else {
        match (c, path[k]) {
            (Cell::Array(xs), PathSeg::Elem(i)) => if i < xs@.len() {
                read_path_spec(xs@[i as int], path, k + 1)
            } else {
                Result::Err(FaultKind::IndexOutOfRange)
            },
            (Cell::Dict(es), PathSeg::Key(key)) => {
                let fi = first_key(es@, key@);
                if fi >= 0 {
                    read_path_spec(es@[fi].val, path, k + 1)
                } else {
                    Result::Err(FaultKind::KeyNotFound)
                }
            },
            _ => Result::Err(FaultKind::TypeMismatch),
        }
    }
}

/// Whether a store through the path would succeed on this cell: like a
/// read, except that a missing dictionary key at the final step is
/// allowed (the write creates it).
pub open spec fn write_ok(c: Cell, path: Seq<PathSeg>, k: int) -> Result<(), FaultKind>
    decreases path.len() - k,
{
    if k >= path.len() {
        Result::Ok(())
    } else {
        match (c, path[k]) {
            (Cell::Array(xs), PathSeg::Elem(i)) => if i < xs@.len() {
                write_ok(xs@[i as int], path, k + 1)
            } else {
                Result::Err(FaultKind::IndexOutOfRange)
            },
            (Cell::Dict(es), PathSeg::Key(key)) => {
                let fi = first_key(es@, key@);
                if fi >= 0 {
                    write_ok(es@[fi].val, path, k + 1)
                } else if k == path.len() - 1 {
                    Result::Ok(())
                } else {
                    Result::Err(FaultKind::KeyNotFound)
                }
            },
            _ => Result::Err(FaultKind::TypeMismatch),
        }
    }
}

/// How `out` arises from `c` by writing `v` through the path: the
/// target position holds `v`, everything else is unchanged, and a
/// missing key at the final step appends a new entry.
pub open spec fn write_rel(c: Cell, path: Seq<PathSeg>, k: int, v: Cell, out: Cell) -> bool
    decreases path.len() - k,
{
    if k >= path.len() {
        out == v
    } else {
        match (c, path[k]) {
            (Cell::Array(xs), PathSeg::Elem(i)) => {
                &&& i < xs@.len()
                &&& out matches Cell::Array(ys) && ys@.len() == xs@.len() && (forall|j: int|
                    0 <= j < xs@.len() && j != i ==> ys@[j] == xs@[j]) && write_rel(
                    xs@[i as int],
                    path,
                    k + 1,
                    v,
                    ys@[i as int],
                )
            },
            (Cell::Dict(es), PathSeg::Key(key)) => {
                let fi = first_key(es@, key@);
                if fi >= 0 {
                    out matches Cell::Dict(fs) && fs@.len() == es@.len() && (forall|j: int|
                        0 <= j < es@.len() && j != fi ==> fs@[j] == es@[j]) && fs@[fi].key
                        == es@[fi].key && write_rel(es@[fi].val, path, k + 1, v, fs@[fi].val)
                } else {
                    &&& k == path.len() - 1
                    &&& out matches Cell::Dict(fs) && fs@.len() == es@.len() + 1 && (forall|j: int|
                        0 <= j < es@.len() ==> fs@[j] == es@[j]) && fs@.last().key@ == key@
                        && fs@.last().val == v
                }
            },
            _ => false,
        }
    }
}

fn check_write(c: &Cell, path: &Vec<PathSeg>, k: usize) -> (r: Result<(), FaultKind>)
    requires
        k <= path@.len(),
    ensures
        r == write_ok(*c, path@, k as int),
    decreases path@.len() - k,
{
    if k == path.len() {
        return Result::Ok(());
    }
    match (c, &path[k]) {
        (Cell::Array(xs), PathSeg::Elem(i)) => {
            if *i < xs.len() {
                check_write(&xs[*i], path, k + 1)
            } else {
                Result::Err(FaultKind::IndexOutOfRange)
            }
        },
        (Cell::Dict(es), PathSeg::Key(key)) => {
            proof {
                lemma_first_key(es@, key@);
            }
            match dict_find(es, key) {
                Option::Some(fi) => {
                    proof {
                        lemma_first_key(es@, key@);
                        if first_key(es@, key@) < 0 {
                            assert(false);
                        }
                        assert(first_key(es@, key@) == fi);
                    }
                    check_write(&es[fi].val, path, k + 1)
                },
                Option::None => {
                    proof {
                        if first_key(es@, key@) >= 0 {
                            assert(false);
                        }
                    }
                    if k == path.len() - 1 {
                        Result::Ok(())
                    } else {
                        Result::Err(FaultKind::KeyNotFound)
                    }
                },
            }
        },
        _ => Result::Err(FaultKind::TypeMismatch),
    }
}

fn read_path(c: &Cell, path: &Vec<PathSeg>, k: usize) -> (r: Result<Cell, FaultKind>)
    requires
        k <= path@.len(),
    ensures
        match read_path_spec(*c, path@, k as int) {
            Result::Ok(cs) => r is Ok && cell_eq(r->Ok_0, cs),
            Result::Err(fk) => r is Err && r->Err_0 == fk,
        },
    decreases path@.len() - k,
{
    if k == path.len() {
        return Result::Ok(clone_cell(c));
    }
    match (c, &path[k]) {
        (Cell::Array(xs), PathSeg::Elem(i)) => {
            if *i < xs.len() {
                read_path(&xs[*i], path, k + 1)
            } else {
                Result::Err(FaultKind::IndexOutOfRange)
            }
        },
        (Cell::Dict(es), PathSeg::Key(key)) => {
            proof {
                lemma_first_key(es@, key@);
            }
            match dict_find(es, key) {
                Option::Some(fi) => {
                    proof {
                        if first_key(es@, key@) < 0 {
                            assert(false);
                        }
                        assert(first_key(es@, key@) == fi);
                    }
                    read_path(&es[fi].val, path, k + 1)
                },
                Option::None => {
                    proof {
                        if first_key(es@, key@) >= 0 {
                            assert(false);
                        }
                    }
                    Result::Err(FaultKind::KeyNotFound)
                },
            }
        },
        _ => Result::Err(FaultKind::TypeMismatch),
    }
}

fn write_path(c: Cell, path: &Vec<PathSeg>, k: usize, v: Cell) -> (out: Cell)
    requires
        k <= path@.len(),
        write_ok(c, path@, k as int) is Ok,
    ensures
        write_rel(c, path@, k as int, v, out),
    decreases path@.len() - k,
{
    if k == path.len() {
        return v;
    }
    let ghost c0 = c;
    match c {
        Cell::Array(mut xs) => {
            match &path[k] {
                PathSeg::Elem(iref) => {
                    let i = *iref;
                    let e = xs.remove(i);
                    let ne = write_path(e, path, k + 1, v);
                    xs.insert(i, ne);
                    proof {
                        assert(forall|j: int|
                            0 <= j < xs@.len() && j != i ==> xs@[j] == c0->Array_0@[j]);
                        assert(xs@[i as int] == ne);
                    }
                    Cell::Array(xs)
                },
                _ => {
                    proof {
                        assert(false);
                    }
                    Cell::Array(xs)
                },
            }
        },
        Cell::Dict(mut es) => {
            match &path[k] {
                PathSeg::Key(key) => {
                    proof {
                        lemma_first_key(es@, key@);
                    }
                    match dict_find(&es, key) {
                        Option::Some(fi) => {
                            proof {
                                if first_key(es@, key@) < 0 {
                                    assert(false);
                                }
                                assert(first_key(es@, key@) == fi);
                            }
                            let e = es.remove(fi);
                            let nv = write_path(e.val, path, k + 1, v);
                            es.insert(fi, DictEntry { key: e.key, val: nv });
                            proof {
                                assert(forall|j: int|
                                    0 <= j < es@.len() && j != fi ==> es@[j] == c0->Dict_0@[j]);
                            }
                            Cell::Dict(es)
                        },
                        Option::None => {
                            proof {
                                if first_key(es@, key@) >= 0 {
                                    assert(false);
                                }
                            }
                            let kb = clone_bytes(key);
                            es.push(DictEntry { key: kb, val: v });
                            Cell::Dict(es)
                        },
                    }
                },
                _ => {
                    proof {
                        assert(false);
                    }
                    Cell::Dict(es)
                },
            }
        },
        other => {
            proof {
                assert(false);
            }
            other
        },
    }
}

/// The base slot a pointer starts from, resolved against the current
/// state.  Predefined, module, and external globals have no storage in
/// this executor (imports are always empty), so they never resolve.
pub open spec fn resolve_base(e: Executor, b: PtrBase) -> Result<Cell, FaultKind> {
    match b {
        PtrBase::Global(i) => if i < e.globals@.len() {
            Result::Ok(e.globals@[i as int])
        } else {
            Result::Err(FaultKind::IndexOutOfRange)
        },
        PtrBase::Local(i) => if e.frames@.len() == 0 {
            Result::Err(FaultKind::FrameUnderflow)
        } else if i < e.frames@.last().locals@.len() {
            Result::Ok(e.frames@.last().locals@[i as int])
        } else {
            Result::Err(FaultKind::IndexOutOfRange)
        },
        PtrBase::OuterLocal(d, i) => if d >= e.frames@.len() {
            Result::Err(FaultKind::FrameUnderflow)
        } else {
            let fr = e.frames@[e.frames@.len() - 1 - d];
            if i < fr.locals@.len() {
                Result::Ok(fr.locals@[i as int])
            } else {
                Result::Err(FaultKind::IndexOutOfRange)
            }
        },
        _ => Result::Err(FaultKind::Unresolved),
    }
}

/// What a typed load yields: resolve the pointer's base, read through
/// its path, and demand the kind the opcode names.
pub open spec fn load_result(e: Executor, p: Pointer, k: ValKind) -> Result<Cell, FaultKind> {
    match resolve_base(e, p.base) {
        Result::Ok(slot) => match read_path_spec(slot, p.path@, 0) {
            Result::Ok(c) => if cell_is(c, k) {
                Result::Ok(c)
            } else {
                Result::Err(FaultKind::TypeMismatch)
            },
            Result::Err(fk) => Result::Err(fk),
        },
        Result::Err(fk) => Result::Err(fk),
    }
}

/// What a typed load opcode does: pop a Pointer, read the value it
/// addresses, and push a structurally equal copy of it.
pub open spec fn load_post(k: ValKind, pre: Executor, post: Executor, r: Result<(), RunError>) -> bool {
    let s = pre.stack@;
    if s.len() >= 1 && s.last() is Ptr {
        match load_result(pre, s.last()->Ptr_0, k) {
            Result::Ok(c) => {
                &&& r is Ok
                &&& env_same(pre, post)
                &&& post.ip == pre.ip + 1
                &&& post.stack@.len() == s.len()
                &&& post.stack@.drop_last() == s.drop_last()
                &&& cell_eq(post.stack@.last(), c)
            },
            Result::Err(fk) => faulted(pre, post, r, fk),
        }
    } else {
        faulted(pre, post, r, peek2_fault(s, 1))
    }
}

impl Executor {
    fn load_kind(&mut self, k: ValKind) -> (r: Result<(), RunError>)
        requires
            old(self).ip < old(self).object.code@.len(),
        ensures
            load_post(k, *old(self), *final(self), r),
    {
        proof {
            lemma_vec_len_bound(&self.object.code);
        }
        let n = self.stack.len();
        if n == 0 {
            return Result::Err(RunError::Fault { kind: FaultKind::StackUnderflow, at: self.ip });
        }
        let got: Result<Cell, FaultKind> = match &self.stack[n - 1] {
            Cell::Ptr(p) => {
                match &p.base {
                    PtrBase::Global(i) => {
                        if *i < self.globals.len() {
                            read_path(&self.globals[*i], &p.path, 0)
                        } else {
                            Result::Err(FaultKind::IndexOutOfRange)
                        }
                    },
                    PtrBase::Local(i) => {
                        let nf = self.frames.len();
                        if nf == 0 {
                            Result::Err(FaultKind::FrameUnderflow)
                        } else if *i < self.frames[nf - 1].locals.len() {
                            read_path(&self.frames[nf - 1].locals[*i], &p.path, 0)
                        } else {
                            Result::Err(FaultKind::IndexOutOfRange)
                        }
                    },
                    PtrBase::OuterLocal(d, i) => {
                        let nf = self.frames.len();
                        if *d >= nf {
                            Result::Err(FaultKind::FrameUnderflow)
                        } else if *i < self.frames[nf - 1 - *d].locals.len() {
                            read_path(&self.frames[nf - 1 - *d].locals[*i], &p.path, 0)
                        } else {
                            Result::Err(FaultKind::IndexOutOfRange)
                        }
                    },
                    _ => Result::Err(FaultKind::Unresolved),
                }
            },
            _ => {
                return Result::Err(RunError::Fault { kind: FaultKind::TypeMismatch, at: self.ip });
            },
        };
        let c = match got {
            Result::Ok(c) => c,
            Result::Err(fk) => {
                return Result::Err(RunError::Fault { kind: fk, at: self.ip });
            },
        };
        if !is_kind(&c, k) {
            return Result::Err(RunError::Fault { kind: FaultKind::TypeMismatch, at: self.ip });
        }
        self.stack.pop();
        self.stack.push(c);
        self.ip = self.ip + 1;
        proof {
            assert(final(self).stack@.drop_last() =~= old(self).stack@.drop_last());
        }
        Result::Ok(())
    }

    /// Loads a Boolean through the Pointer on top of the stack.
    pub fn op_loadb(&mut self) -> (r: Result<(), RunError>)
        requires
            old(self).ip < old(self).object.code@.len(),
        ensures
            load_post(ValKind::Boolean, *old(self), *final(self), r),
    {
        self.load_kind(ValKind::Boolean)
    }

    /// Loads a Number through the Pointer on top of the stack.
    pub fn op_loadn(&mut self) -> (r: Result<(), RunError>)
        requires
            old(self).ip < old(self).object.code@.len(),
        ensures
            load_post(ValKind::Number, *old(self), *final(self), r),
    {
        self.load_kind(ValKind::Number)
    }

    /// Loads a String through the Pointer on top of the stack.
    pub fn op_loads(&mut self) -> (r: Result<(), RunError>)
        requires
            old(self).ip < old(self).object.code@.len(),
        ensures
            load_post(ValKind::Str, *old(self), *final(self), r),
    {
        self.load_kind(ValKind::Str)
    }

    /// Loads a byte buffer through the Pointer on top of the stack.
    pub fn op_loady(&mut self) -> (r: Result<(), RunError>)
        requires
            old(self).ip < old(self).object.code@.len(),
        ensures
            load_post(ValKind::Bytes, *old(self), *final(self), r),
    {
        self.load_kind(ValKind::Bytes)
    }

    /// Loads an Array through the Pointer on top of the stack.
    pub fn op_loada(&mut self) -> (r: Result<(), RunError>)
        requires
            old(self).ip < old(self).object.code@.len(),
        ensures
            load_post(ValKind::Array, *old(self), *final(self), r),
    {
        self.load_kind(ValKind::Array)
    }

    /// Loads a Dictionary through the Pointer on top of the stack.
    pub fn op_loadd(&mut self) -> (r: Result<(), RunError>)
        requires
            old(self).ip < old(self).object.code@.len(),
        ensures
            load_post(ValKind::Dict, *old(self), *final(self), r),
    {
        self.load_kind(ValKind::Dict)
    }

    /// Loads a Pointer value through the Pointer on top of the stack.
    pub fn op_loadp(&mut self) -> (r: Result<(), RunError>)
        requires
            old(self).ip < old(self).object.code@.len(),
        ensures
            load_post(ValKind::Ptr, *old(self), *final(self), r),
    {
        self.load_kind(ValKind::Ptr)
    }

    /// Loads an Object through the Pointer on top of the stack.
    pub fn op_loadj(&mut self) -> (r: Result<(), RunError>)
        requires
            old(self).ip < old(self).object.code@.len(),
        ensures
            load_post(ValKind::Object, *old(self), *final(self), r),
    {
        self.load_kind(ValKind::Object)
    }

    /// Loads an opaque handle through the Pointer on top of the stack.
    pub fn op_loadv(&mut self) -> (r: Result<(), RunError>)
        requires
            old(self).ip < old(self).object.code@.len(),
        ensures
            load_post(ValKind::VoidPtr, *old(self), *final(self), r),
    {
        self.load_kind(ValKind::VoidPtr)
    }
}

/// Whether a store through pointer `p` would succeed in state `e`.
pub open spec fn store_check(e: Executor, p: Pointer) -> Result<(), FaultKind> {
    match resolve_base(e, p.base) {
        Result::Ok(slot) => write_ok(slot, p.path@, 0),
        Result::Err(fk) => Result::Err(fk),
    }
}

/// How a successful store of `v` through `p` changes the storage: the
/// addressed slot is rewritten through the path and every other slot,
/// frame, and structure is untouched.
pub open spec fn store_effect(pre: Executor, post: Executor, p: Pointer, v: Cell) -> bool {
    match p.base {
        PtrBase::Global(i) => {
            &&& post.frames == pre.frames
            &&& post.globals@.len() == pre.globals@.len()
            &&& forall|j: int|
                0 <= j < pre.globals@.len() && j != i ==> post.globals@[j] == pre.globals@[j]
            &&& write_rel(pre.globals@[i as int], p.path@, 0, v, post.globals@[i as int])
        },
        PtrBase::Local(i) => {
            &&& post.globals == pre.globals
            &&& post.frames@.len() == pre.frames@.len()
            &&& forall|j: int|
                0 <= j < pre.frames@.len() - 1 ==> post.frames@[j] == pre.frames@[j]
            &&& post.frames@.last().ret == pre.frames@.last().ret
            &&& post.frames@.last().locals@.len() == pre.frames@.last().locals@.len()
            &&& forall|j: int|
                0 <= j < pre.frames@.last().locals@.len() && j != i
                    ==> post.frames@.last().locals@[j] == pre.frames@.last().locals@[j]
            &&& write_rel(
                pre.frames@.last().locals@[i as int],
                p.path@,
                0,
                v,
                post.frames@.last().locals@[i as int],
            )
        },
        PtrBase::OuterLocal(d, i) => {
            let fi = pre.frames@.len() - 1 - d;
            &&& post.globals == pre.globals
            &&& post.frames@.len() == pre.frames@.len()
            &&& forall|j: int|
                0 <= j < pre.frames@.len() && j != fi ==> post.frames@[j] == pre.frames@[j]
            &&& post.frames@[fi].ret == pre.frames@[fi].ret
            &&& post.frames@[fi].locals@.len() == pre.frames@[fi].locals@.len()
            &&& forall|j: int|
                0 <= j < pre.frames@[fi].locals@.len() && j != i ==> post.frames@[fi].locals@[j]
                    == pre.frames@[fi].locals@[j]
            &&& write_rel(
                pre.frames@[fi].locals@[i as int],
                p.path@,
                0,
                v,
                post.frames@[fi].locals@[i as int],
            )
        },
        _ => false,
    }
}

/// What a typed store opcode does: pop a Pointer and a value of the
/// kind the opcode names, and write the value through the pointer.
pub open spec fn store_post(k: ValKind, pre: Executor, post: Executor, r: Result<(), RunError>) -> bool {
    let s = pre.stack@;
    if s.len() >= 2 && s.last() is Ptr && cell_is(s[s.len() - 2], k) {
        let p = s.last()->Ptr_0;
        match store_check(pre, p) {
            Result::Ok(()) => {
                &&& r is Ok
                &&& post.object == pre.object
                &&& post.output == pre.output
                &&& post.ip == pre.ip + 1
                &&& post.stack@ == s.drop_last().drop_last()
                &&& store_effect(pre, post, p, s[s.len() - 2])
            },
            Result::Err(fk) => faulted(pre, post, r, fk),
        }
    } else {
        faulted(pre, post, r, peek2_fault(s, 2))
    }
}

impl Executor {
    fn store_slot(&mut self, p: Pointer, v: Cell) -> (r: Result<(), RunError>)
        requires
            store_check(*old(self), p) is Ok,
        ensures
            r is Ok,
            final(self).object == old(self).object,
            final(self).output == old(self).output,
            final(self).stack == old(self).stack,
            final(self).ip == old(self).ip,
            store_effect(*old(self), *final(self), p, v),
    {
        match &p.base {
            PtrBase::Global(iref) => {
                let i = *iref;
                let slot = self.globals.remove(i);
                let out = write_path(slot, &p.path, 0, v);
                self.globals.insert(i, out);
                proof {
                    assert(forall|j: int| 0 <= j < old(self).globals@.len() && j != i
                        ==> final(self).globals@[j] == old(self).globals@[j]);
                }
                Result::Ok(())
            },
            PtrBase::Local(iref) => {
                let i = *iref;
                let nf = self.frames.len();
                let mut fr = self.frames.remove(nf - 1);
                let slot = fr.locals.remove(i);
                let out = write_path(slot, &p.path, 0, v);
                fr.locals.insert(i, out);
                self.frames.push(fr);
                proof {
                    assert(forall|j: int| 0 <= j < old(self).frames@.len() - 1
                        ==> final(self).frames@[j] == old(self).frames@[j]);
                    assert(forall|j: int| 0 <= j < old(self).frames@.last().locals@.len() && j != i
                        ==> final(self).frames@.last().locals@[j] == old(self).frames@.last().locals@[j]);
                }
                Result::Ok(())
            },
            PtrBase::OuterLocal(dref, iref) => {
                let d = *dref;
                let i = *iref;
                let nf = self.frames.len();
                let fi = nf - 1 - d;
                let mut fr = self.frames.remove(fi);
                let slot = fr.locals.remove(i);
                let out = write_path(slot, &p.path, 0, v);
                fr.locals.insert(i, out);
                self.frames.insert(fi, fr);
                proof {
                    assert(forall|j: int| 0 <= j < old(self).frames@.len() && j != fi
                        ==> final(self).frames@[j] == old(self).frames@[j]);
                    assert(forall|j: int| 0 <= j < old(self).frames@[fi as int].locals@.len() && j != i
                        ==> final(self).frames@[fi as int].locals@[j] == old(self).frames@[fi as int].locals@[j]);
                }
                Result::Ok(())
            },
            _ => {
                proof {
                    assert(false);
                }
                Result::Ok(())
            },
        }
    }

    fn check_store(&self, p: &Pointer) -> (r: Result<(), FaultKind>)
        ensures
            r == store_check(*self, *p),
    {
        match &p.base {
            PtrBase::Global(i) => {
                if *i < self.globals.len() {
                    check_write(&self.globals[*i], &p.path, 0)
                } else {
                    Result::Err(FaultKind::IndexOutOfRange)
                }
            },
            PtrBase::Local(i) => {
                let nf = self.frames.len();
                if nf == 0 {
                    Result::Err(FaultKind::FrameUnderflow)
                } else if *i < self.frames[nf - 1].locals.len() {
                    check_write(&self.frames[nf - 1].locals[*i], &p.path, 0)
                } else {
                    Result::Err(FaultKind::IndexOutOfRange)
                }
            },
            PtrBase::OuterLocal(d, i) => {
                let nf = self.frames.len();
                if *d >= nf {
                    Result::Err(FaultKind::FrameUnderflow)
                } else if *i < self.frames[nf - 1 - *d].locals.len() {
                    check_write(&self.frames[nf - 1 - *d].locals[*i], &p.path, 0)
                } else {
                    Result::Err(FaultKind::IndexOutOfRange)
                }
            },
            _ => Result::Err(FaultKind::Unresolved),
        }
    }

    fn store_kind(&mut self, k: ValKind) -> (r: Result<(), RunError>)
        requires
            old(self).ip < old(self).object.code@.len(),
        ensures
            store_post(k, *old(self), *final(self), r),
    {
        proof {
            lemma_vec_len_bound(&self.object.code);
        }
        let n = self.stack.len();
        if n < 2 {
            return Result::Err(RunError::Fault { kind: FaultKind::StackUnderflow, at: self.ip });
        }
        match &self.stack[n - 1] {
            Cell::Ptr(p) => {
                if !is_kind(&self.stack[n - 2], k) {
                    return Result::Err(
                        RunError::Fault { kind: FaultKind::TypeMismatch, at: self.ip },
                    );
                }
                match self.check_store(p) {
                    Result::Ok(()) => {},
                    Result::Err(fk) => {
                        return Result::Err(RunError::Fault { kind: fk, at: self.ip });
                    },
                }
            },
            _ => {
                return Result::Err(RunError::Fault { kind: FaultKind::TypeMismatch, at: self.ip });
            },
        }
        let pc = self.stack.pop().unwrap();
        let v = self.stack.pop().unwrap();
        let at = self.ip;
        match pc {
            Cell::Ptr(p) => {
                let rr = self.store_slot(p, v);
                match rr {
                    Result::Ok(()) => {},
                    Result::Err(_) => {
                        proof {
                            assert(false);
                        }
                    },
                }
            },
            _ => {
                proof {
                    assert(false);
                }
            },
        }
        self.ip = at + 1;
        proof {
            assert(final(self).stack@ =~= old(self).stack@.drop_last().drop_last());
        }
        Result::Ok(())
    }

    /// Stores a Boolean through the Pointer on top of the stack.
    pub fn op_storeb(&mut self) -> (r: Result<(), RunError>)
        requires
            old(self).ip < old(self).object.code@.len(),
        ensures
            store_post(ValKind::Boolean, *old(self), *final(self), r),
    {
        self.store_kind(ValKind::Boolean)
    }

    /// Stores a Number through the Pointer on top of the stack.
    pub fn op_storen(&mut self) -> (r: Result<(), RunError>)
        requires
            old(self).ip < old(self).object.code@.len(),
        ensures
            store_post(ValKind::Number, *old(self), *final(self), r),
    {
        self.store_kind(ValKind::Number)
    }

    /// Stores a String through the Pointer on top of the stack.
    pub fn op_stores(&mut self) -> (r: Result<(), RunError>)
        requires
            old(self).ip < old(self).object.code@.len(),
        ensures
            store_post(ValKind::Str, *old(self), *final(self), r),
    {
        self.store_kind(ValKind::Str)
    }

    /// Stores a byte buffer through the Pointer on top of the stack.
    pub fn op_storey(&mut self) -> (r: Result<(), RunError>)
        requires
            old(self).ip < old(self).object.code@.len(),
        ensures
            store_post(ValKind::Bytes, *old(self), *final(self), r),
    {
        self.store_kind(ValKind::Bytes)
    }

    /// Stores an Array through the Pointer on top of the stack.
    pub fn op_storea(&mut self) -> (r: Result<(), RunError>)
        requires
            old(self).ip < old(self).object.code@.len(),
        ensures
            store_post(ValKind::Array, *old(self), *final(self), r),
    {
        self.store_kind(ValKind::Array)
    }

    /// Stores a Dictionary through the Pointer on top of the stack.
    pub fn op_stored(&mut self) -> (r: Result<(), RunError>)
        requires
            old(self).ip < old(self).object.code@.len(),
        ensures
            store_post(ValKind::Dict, *old(self), *final(self), r),
    {
        self.store_kind(ValKind::Dict)
    }

    /// Stores a Pointer value through the Pointer on top of the stack.
    pub fn op_storep(&mut self) -> (r: Result<(), RunError>)
        requires
            old(self).ip < old(self).object.code@.len(),
        ensures
            store_post(ValKind::Ptr, *old(self), *final(self), r),
    {
        self.store_kind(ValKind::Ptr)
    }

    /// Stores an Object through the Pointer on top of the stack.
    pub fn op_storej(&mut self) -> (r: Result<(), RunError>)
        requires
            old(self).ip < old(self).object.code@.len(),
        ensures
            store_post(ValKind::Object, *old(self), *final(self), r),
    {
        self.store_kind(ValKind::Object)
    }

    /// Stores an opaque handle through the Pointer on top of the stack.
    pub fn op_storev(&mut self) -> (r: Result<(), RunError>)
        requires
            old(self).ip < old(self).object.code@.len(),
        ensures
            store_post(ValKind::VoidPtr, *old(self), *final(self), r),
    {
        self.store_kind(ValKind::VoidPtr)
    }

    /// Resets the cell the Pointer on top addresses back to the
    /// uninitialized marker.
    pub fn op_resetc(&mut self) -> (r: Result<(), RunError>)
        requires
            old(self).ip < old(self).object.code@.len(),
        ensures
            op_resetc_post(*old(self), *final(self), r),
    {
        proof {
            lemma_vec_len_bound(&self.object.code);
        }
        let n = self.stack.len();
        if n == 0 {
            return Result::Err(RunError::Fault { kind: FaultKind::StackUnderflow, at: self.ip });
        }
        match &self.stack[n - 1] {
            Cell::Ptr(p) => {
                match self.check_store(p) {
                    Result::Ok(()) => {},
                    Result::Err(fk) => {
                        return Result::Err(RunError::Fault { kind: fk, at: self.ip });
                    },
                }
            },
            _ => {
                return Result::Err(RunError::Fault { kind: FaultKind::TypeMismatch, at: self.ip });
            },
        }
        let pc = self.stack.pop().unwrap();
        let at = self.ip;
        match pc {
            Cell::Ptr(p) => {
                let rr = self.store_slot(p, Cell::Empty);
                match rr {
                    Result::Ok(()) => {},
                    Result::Err(_) => {
                        proof {
                            assert(false);
                        }
                    },
                }
            },
            _ => {
                proof {
                    assert(false);
                }
            },
        }
        self.ip = at + 1;
        proof {
            assert(final(self).stack@ =~= old(self).stack@.drop_last());
        }
        Result::Ok(())
    }
}

/// How one key/value pair goes into a dictionary: an existing entry
/// with the key gets the new value (last write wins, position kept),
/// a fresh key is appended.
pub open spec fn dict_put_rel(es: Seq<DictEntry>, k: Seq<u8>, v: Cell, out: Seq<DictEntry>) -> bool {
    let fi = first_key(es, k);
    if fi >= 0 {
        &&& out.len() == es.len()
        &&& forall|j: int| 0 <= j < es.len() && j != fi ==> out[j] == es[j]
        &&& out[fi].key@ == k
        &&& cell_eq(out[fi].val, v)
    } else {
        &&& out.len() == es.len() + 1
        &&& forall|j: int| 0 <= j < es.len() ==> out[j] == es[j]
        &&& out.last().key@ == k
        &&& cell_eq(out.last().val, v)
    }
}

/// The dictionary-construction chain: entries `es` arise from `e0` by
/// putting the pairs `s[base], s[base+1]`, ..., in order, keys first in
/// each pair.
pub open spec fn consd_rel(
    s: Seq<Cell>,
    base: int,
    i: int,
    n: int,
    e0: Seq<DictEntry>,
    out: Seq<DictEntry>,
) -> bool
    decreases n - i,
{
    if i >= n {
        out == e0
    } else {
        exists|mid: Seq<DictEntry>|
            #[trigger] dict_put_rel(e0, cell_bytes(s[base + 2 * i]), s[base + 2 * i + 1], mid)
                && consd_rel(s, base, i + 1, n, mid, out)
    }
}

proof fn lemma_consd_snoc(
    s: Seq<Cell>,
    base: int,
    i: int,
    e0: Seq<DictEntry>,
    cur: Seq<DictEntry>,
    next: Seq<DictEntry>,
)
    requires
        0 <= i,
        consd_rel(s, base, 0, i, e0, cur),
        dict_put_rel(cur, cell_bytes(s[base + 2 * i]), s[base + 2 * i + 1], next),
    ensures
        consd_rel(s, base, 0, i + 1, e0, next),
    decreases i,
{
    lemma_consd_snoc_from(s, base, 0, i, e0, cur, next);
}

proof fn lemma_consd_snoc_from(
    s: Seq<Cell>,
    base: int,
    j: int,
    i: int,
    e0: Seq<DictEntry>,
    cur: Seq<DictEntry>,
    next: Seq<DictEntry>,
)
    requires
        0 <= j <= i,
        consd_rel(s, base, j, i, e0, cur),
        dict_put_rel(cur, cell_bytes(s[base + 2 * i]), s[base + 2 * i + 1], next),
    ensures
        consd_rel(s, base, j, i + 1, e0, next),
    decreases i - j,
{
    if j == i {
        assert(cur == e0);
        assert(consd_rel(s, base, i + 1, i + 1, next, next));
        assert(dict_put_rel(e0, cell_bytes(s[base + 2 * i]), s[base + 2 * i + 1], next));
    } else {
        let mid = choose|mid: Seq<DictEntry>|
            #[trigger] dict_put_rel(e0, cell_bytes(s[base + 2 * j]), s[base + 2 * j + 1], mid)
                && consd_rel(s, base, j + 1, i, mid, cur);
        lemma_consd_snoc_from(s, base, j + 1, i, mid, cur, next);
    }
}

impl Executor {
    /// Builds a Dictionary from the top `2n` stack values read as
    /// key/value pairs in push order (each key a String), the last
    /// write winning on a duplicate key, and pushes it in their place.
    pub fn op_consd(&mut self) -> (r: Result<(), RunError>)
        requires
            old(self).ip < old(self).object.code@.len(),
        ensures
            op_consd_post(*old(self), *final(self), r),
    {
        proof {
            lemma_vec_len_bound(&self.object.code);
        }
        let at = self.ip;
        let mut cur = self.ip + 1;
        let v = match get_vint(&self.object.code, &mut cur) {
            Result::Ok(v) => v,
            Result::Err(_) => {
                return Result::Err(RunError::Fault { kind: FaultKind::BadOperand, at });
            },
        };
        let n = self.stack.len();
        if v > n / 2 {
            return Result::Err(RunError::Fault { kind: FaultKind::StackUnderflow, at });
        }
        let ghost s = self.stack@;
        let ghost base = n - 2 * v as int;
        let mut m: usize = 0;
        while m < v
            invariant
                0 <= m <= v,
                2 * v <= n,
                n == self.stack@.len(),
                self == old(self),
                s == self.stack@,
                base == n - 2 * (v as int),
                at == old(self).ip,
                operand1(*old(self)) == Result::<(nat, int), FormatError>::Ok(
                    (v as nat, cur as int),
                ),
                forall|q: int| 0 <= q < m ==> #[trigger] s[base + 2 * q] is Str,
            decreases v - m,
        {
            match &self.stack[n - 2 * v + 2 * m] {
                Cell::Str(_) => {},
                _ => {
                    return Result::Err(RunError::Fault { kind: FaultKind::TypeMismatch, at });
                },
            }
            m = m + 1;
        }
        let mut es: Vec<DictEntry> = Vec::new();
        let mut i: usize = 0;
        proof {
            assert(consd_rel(s, base, 0, 0, Seq::empty(), es@));
        }
        while i < v
            invariant
                0 <= i <= v,
                2 * v <= n,
                n == self.stack@.len(),
                self == old(self),
                s == self.stack@,
                base == n - 2 * (v as int),
                forall|q: int| 0 <= q < v ==> #[trigger] s[base + 2 * q] is Str,
                consd_rel(s, base, 0, i as int, Seq::empty(), es@),
            decreases v - i,
        {
            let ghost prev = es@;
            let key = match &self.stack[n - 2 * v + 2 * i] {
                Cell::Str(kb) => clone_bytes(kb),
                _ => {
                    proof {
                        assert(false);
                    }
                    Vec::new()
                },
            };
            let val = clone_cell(&self.stack[n - 2 * v + 2 * i + 1]);
            proof {
                lemma_first_key(es@, key@);
            }
            match dict_find(&es, &key) {
                Option::Some(fi) => {
                    proof {
                        if first_key(es@, key@) < 0 {
                            assert(false);
                        }
                        assert(first_key(es@, key@) == fi);
                    }
                    let e = es.remove(fi);
                    es.insert(fi, DictEntry { key, val });
                    proof {
                        assert(forall|j: int| 0 <= j < prev.len() && j != fi ==> es@[j] == prev[j]);
                    }
                },
                Option::None => {
                    proof {
                        if first_key(es@, key@) >= 0 {
                            assert(false);
                        }
                    }
                    es.push(DictEntry { key, val });
                },
            }
            proof {
                assert(cell_bytes(s[base + 2 * i]) == key@);
                assert(dict_put_rel(prev, cell_bytes(s[base + 2 * i]), s[base + 2 * i + 1], es@));
                lemma_consd_snoc(s, base, i as int, Seq::empty(), prev, es@);
            }
            i = i + 1;
        }
        self.stack.truncate(n - 2 * v);
        self.stack.push(Cell::Dict(es));
        self.ip = cur;
        proof {
            assert(final(self).stack@.drop_last() =~= old(self).stack@.take(
                old(self).stack@.len() - 2 * v,
            ));
        }
        Result::Ok(())
    }
}

/// Position just after `n` consecutive varints starting at `i`.
pub open spec fn skip_vints(s: Seq<u8>, i: int, n: nat) -> Result<int, FormatError>
    decreases n,
{
    if n == 0 {
        Result::Ok(i)
    } else {
        match read_vint(s, i) {
            Result::Ok((v, j)) => skip_vints(s, j, (n - 1) as nat),
            Result::Err(e) => Result::Err(e),
        }
    }
}

proof fn lemma_skip_split(s: Seq<u8>, i: int, k: nat, n: nat)
    requires
        k <= n,
    ensures
        skip_vints(s, i, n) == (match skip_vints(s, i, k) {
            Result::Ok(m) => skip_vints(s, m, (n - k) as nat),
            Result::Err(e) => Result::Err(e),
        }),
    decreases k,
{
    if k > 0 {
        match read_vint(s, i) {
            Result::Ok((v, j)) => {
                lemma_skip_split(s, j, (k - 1) as nat, (n - 1) as nat);
            },
            Result::Err(e) => {},
        }
    }
}

/// What the jump-table opcode does: decode a count and that many
/// targets, pop a Number selector, and jump to the selected target; a
/// selector outside the table falls through to just after it.
pub open spec fn jumptbl_post(pre: Executor, post: Executor, r: Result<(), RunError>) -> bool {
    let code = pre.object.code@;
    match operand1(pre) {
        Result::Err(_) => faulted(pre, post, r, FaultKind::BadOperand),
        Result::Ok((cnt, j1)) => match skip_vints(code, j1, cnt) {
            Result::Err(_) => faulted(pre, post, r, FaultKind::BadOperand),
            Result::Ok(end) => {
                let s = pre.stack@;
                if s.len() == 0 {
                    faulted(pre, post, r, FaultKind::StackUnderflow)
                } else if !(s.last() is Number) {
                    faulted(pre, post, r, FaultKind::TypeMismatch)
                } else {
                    let sel = s.last()->Number_0;
                    if 0 <= sel < cnt {
                        match read_vint(code, skip_vints(code, j1, sel as nat)->Ok_0) {
                            Result::Ok((t, _)) => if t <= code.len() {
                                &&& r is Ok
                                &&& env_same(pre, post)
                                &&& post.stack@ == s.drop_last()
                                &&& post.ip == t
                            } else {
                                faulted(pre, post, r, FaultKind::BadOperand)
                            },
                            Result::Err(_) => faulted(pre, post, r, FaultKind::BadOperand),
                        }
                    } else {
                        &&& r is Ok
                        &&& env_same(pre, post)
                        &&& post.stack@ == s.drop_last()
                        &&& post.ip == end
                    }
                }
            },
        },
    }
}

impl Executor {
    /// Jumps through a table: a count, then that many targets; the
    /// popped Number selects one, and an out-of-range selector resolves
    /// to the instruction after the table.
    pub fn op_jumptbl(&mut self) -> (r: Result<(), RunError>)
        requires
            old(self).ip < old(self).object.code@.len(),
        ensures
            jumptbl_post(*old(self), *final(self), r),
    {
        proof {
            lemma_vec_len_bound(&self.object.code);
        }
        let ghost code = self.object.code@;
        let at = self.ip;
        let mut cur = self.ip + 1;
        let cnt = match get_vint(&self.object.code, &mut cur) {
            Result::Ok(v) => v,
            Result::Err(_) => {
                return Result::Err(RunError::Fault { kind: FaultKind::BadOperand, at });
            },
        };
        let ghost j1 = cur as int;
        let n = self.stack.len();
        let sel: Option<i64> = if n == 0 {
            Option::None
        } else {
            match &self.stack[n - 1] {
                Cell::Number(x) => Option::Some(*x),
                _ => Option::None,
            }
        };
        let mut chosen: Option<usize> = Option::None;
        let mut k: usize = 0;
        while k < cnt
            invariant
                0 <= k <= cnt,
                self == old(self),
                code == self.object.code@,
                at == old(self).ip,
                skip_vints(code, j1, k as nat) == Result::<int, FormatError>::Ok(cur as int),
                operand1(*old(self)) == Result::<(nat, int), FormatError>::Ok((cnt as nat, j1)),
                sel_matches(*old(self), sel),
                match sel {
                    Option::Some(sv) => if 0 <= sv < k {
                        chosen matches Option::Some(t) && read_vint(
                            code,
                            skip_vints(code, j1, sv as nat)->Ok_0,
                        ) matches Result::Ok((tv, _)) && tv == t as nat
                    } else {
                        chosen is None
                    },
                    Option::None => true,
                },
            decreases cnt - k,
        {
            let ghost pos = cur as int;
            let t = match get_vint(&self.object.code, &mut cur) {
                Result::Ok(v) => v,
                Result::Err(_) => {
                    proof {
                        lemma_skip_split(code, j1, k as nat, cnt as nat);
                    }
                    return Result::Err(RunError::Fault { kind: FaultKind::BadOperand, at });
                },
            };
            match sel {
                Option::Some(sv) => {
                    if sv >= 0 && (sv as u64) == (k as u64) {
                        chosen = Option::Some(t);
                    }
                },
                Option::None => {},
            }
            proof {
                lemma_skip_split(code, j1, k as nat, (k + 1) as nat);
                assert(read_vint(code, pos) is Ok);
                let jn = read_vint(code, pos)->Ok_0.1;
                assert(jn == cur as int);
                assert(skip_vints(code, jn, 0) == Result::<int, FormatError>::Ok(jn));
                assert(skip_vints(code, pos, 1) == skip_vints(code, jn, 0));
                assert(skip_vints(code, pos, 1) == Result::<int, FormatError>::Ok(cur as int));
                assert(skip_vints(code, j1, (k + 1) as nat) == Result::<int, FormatError>::Ok(
                    cur as int,
                ));
            }
            k = k + 1;
        }
        proof {
            lemma_skip_split(code, j1, cnt as nat, cnt as nat);
        }
        if n == 0 {
            return Result::Err(RunError::Fault { kind: FaultKind::StackUnderflow, at });
        }
        let sv = match sel {
            Option::Some(sv) => sv,
            Option::None => {
                return Result::Err(RunError::Fault { kind: FaultKind::TypeMismatch, at });
            },
        };
        let target: usize = if sv >= 0 && (sv as u64) < (cnt as u64) {
            match chosen {
                Option::Some(t) => {
                    if t > self.object.code.len() {
                        return Result::Err(RunError::Fault { kind: FaultKind::BadOperand, at });
                    }
                    t
                },
                Option::None => {
                    proof {
                        assert(false);
                    }
                    0
                },
            }
        } else {
            cur
        };
        self.stack.pop();
        self.ip = target;
        Result::Ok(())
    }
}

/// The selector peek: `sel` is the top Number when the stack has one.
pub open spec fn sel_matches(pre: Executor, sel: Option<i64>) -> bool {
    match sel {
        Option::Some(x) => pre.stack@.len() >= 1 && pre.stack@.last() == Cell::Number(x),
        Option::None => pre.stack@.len() == 0 || !(pre.stack@.last() is Number),
    }
}


impl Executor {
    /// The fetch-decode-execute loop: while the instruction pointer is
    /// inside the instruction stream, dispatch the opcode byte under it.
    /// `max_steps` bounds how many instructions this call executes; the
    /// state persists, so a run stopped by the budget resumes where it
    /// left off when called again.  The contract ties the whole loop to
    /// the one-step relation: the final state is reached from the
    /// initial one by successful steps, `Ok(true)` means the program ran
    /// off the end of the code, `Ok(false)` means exactly `max_steps`
    /// steps ran with more code left, and an error is exactly what the
    /// step relation says the instruction at the final state produces
    /// (the state is unchanged by a failing instruction).
    #[verifier::rlimit(100)]
    #[verifier::spinoff_prover]
    pub fn run(&mut self, max_steps: usize) -> (r: Result<bool, RunError>)
        ensures
            match r {
                Result::Ok(done) => if done {
                    exists|n: nat|
                        n <= max_steps && #[trigger] reaches(*old(self), *final(self), n) && final(self).ip >= final(self).object.code@.len()
                } else {
                    reaches(*old(self), *final(self), max_steps as nat) && final(self).ip < final(self).object.code@.len()
                },
                Result::Err(e) => exists|n: nat|
                    n < max_steps && #[trigger] reaches(*old(self), *final(self), n) && final(self).ip < final(self).object.code@.len() && step_post(
                        *final(self),
                        *final(self),
                        Result::Err(e),
                    ),
            },
    {
        let mut steps: usize = 0;
        let ghost pre = *old(self);
        while steps < max_steps
            invariant
                steps <= max_steps,
                pre == *old(self),
                reaches(pre, *self, steps as nat),
            decreases max_steps - steps,
        {
            if self.ip >= self.object.code.len() {
                return Result::Ok(true);
            }
            let ghost mid = *self;
            let op = self.object.code[self.ip];
            let res: Result<(), RunError> = match op {
                0u8 => self.op_pushb(),
                1u8 => self.op_pushn(),
                2u8 => self.op_pushs(),
                3u8 => self.op_pushy(),
                4u8 => self.op_pushpg(),
                5u8 => self.op_pushppg(),
                6u8 => self.op_pushpmg(),
                7u8 => self.op_pushpl(),
                8u8 => self.op_pushpol(),
                9u8 => self.op_pushi(),
                10u8 => self.op_loadb(),
                11u8 => self.op_loadn(),
                12u8 => self.op_loads(),
                13u8 => self.op_loady(),
                14u8 => self.op_loada(),
                15u8 => self.op_loadd(),
                16u8 => self.op_loadp(),
                17u8 => self.op_loadj(),
                18u8 => self.op_loadv(),
                19u8 => self.op_storeb(),
                20u8 => self.op_storen(),
                21u8 => self.op_stores(),
                22u8 => self.op_storey(),
                23u8 => self.op_storea(),
                24u8 => self.op_stored(),
                25u8 => self.op_storep(),
                26u8 => self.op_storej(),
                27u8 => self.op_storev(),
                28u8 => self.op_negn(),
                29u8 => self.op_addn(),
                30u8 => self.op_subn(),
                31u8 => self.op_muln(),
                32u8 => self.op_divn(),
                33u8 => self.op_modn(),
                34u8 => self.op_expn(),
                35u8 => self.op_eqb(),
                36u8 => self.op_neb(),
                37u8 => self.op_eqn(),
                38u8 => self.op_nen(),
                39u8 => self.op_ltn(),
                40u8 => self.op_gtn(),
                41u8 => self.op_len(),
                42u8 => self.op_gen(),
                43u8 => self.op_eqs(),
                44u8 => self.op_nes(),
                45u8 => self.op_lts(),
                46u8 => self.op_gts(),
                47u8 => self.op_les(),
                48u8 => self.op_ges(),
                49u8 => self.op_eqy(),
                50u8 => self.op_ney(),
                51u8 => self.op_lty(),
                52u8 => self.op_gty(),
                53u8 => self.op_ley(),
                54u8 => self.op_gey(),
                55u8 => self.op_eqa(),
                56u8 => self.op_nea(),
                57u8 => self.op_eqd(),
                58u8 => self.op_ned(),
                59u8 => self.op_eqp(),
                60u8 => self.op_nep(),
                61u8 => self.op_eqv(),
                62u8 => self.op_nev(),
                63u8 => self.op_andb(),
                64u8 => self.op_orb(),
                65u8 => self.op_notb(),
                66u8 => self.op_indexar(),
                67u8 => self.op_indexaw(),
                68u8 => self.op_indexav(),
                69u8 => self.op_indexan(),
                70u8 => self.op_indexdr(),
                71u8 => self.op_indexdw(),
                72u8 => self.op_indexdv(),
                73u8 => self.op_ina(),
                74u8 => self.op_ind(),
                75u8 => self.op_callp(),
                76u8 => self.op_callf(),
                77u8 => self.op_callmf(),
                78u8 => self.op_calli(),
                79u8 => self.op_jump(),
                80u8 => self.op_jf(),
                81u8 => self.op_jt(),
                82u8 => self.op_dup(),
                83u8 => self.op_dupx1(),
                84u8 => self.op_drop(),
                85u8 => self.op_ret(),
                86u8 => self.op_consa(),
                87u8 => self.op_consd(),
                88u8 => self.op_except(),
                89u8 => self.op_alloc(),
                90u8 => self.op_pushnil(),
                91u8 => self.op_resetc(),
                92u8 => self.op_pushpeg(),
                93u8 => self.op_jumptbl(),
                94u8 => self.op_callx(),
                95u8 => self.op_swap(),
                96u8 => self.op_dropn(),
                97u8 => self.op_pushfp(),
                98u8 => self.op_callv(),
                99u8 => self.op_pushci(),
                _ => Result::Err(
                    RunError::Fault { kind: FaultKind::UnknownOpcode, at: self.ip },
                ),
            };
            match res {
                Result::Ok(()) => {
                    proof {
                        assert(step_post(mid, *self, Result::Ok(())));
                        assert(step_ok(mid, *self));
                        assert(reaches(pre, *self, (steps + 1) as nat));
                    }
                },
                Result::Err(e) => {
                    proof {
                        assert(*self == mid);
                        assert(step_post(*self, *self, Result::Err(e)));
                    }
                    return Result::Err(e);
                },
            }
            steps = steps + 1;
        }
        if self.ip >= self.object.code.len() {
            return Result::Ok(true);
        }
        Result::Ok(false)
    }
}

/// Call/return discipline: entering a function pushes exactly one
/// frame whose return address is the position following the call, and
/// a return taken with the frame chain as the call left it resumes at
/// exactly that position with the frame chain as it was before the
/// call.  So the frame-chain depth always equals the call nesting
/// depth, at every level of nesting.  A descriptor declaring more
/// parameters than local slots never enters at all: the call refuses it
/// with a fault and leaves the state untouched, which is why this law
/// may assume the bound.
pub proof fn lemma_call_return_resumes(
    pre: Executor,
    mid: Executor,
    mid2: Executor,
    post: Executor,
    fidx: int,
    ret_to: int,
    r1: Result<(), RunError>,
    r2: Result<(), RunError>,
)
    requires
        0 <= fidx < pre.object.functions@.len(),
        pre.object.functions@[fidx].params <= pre.object.functions@[fidx].locals,
        pre.stack@.len() >= pre.object.functions@[fidx].params,
        enter_post_on(fidx, ret_to, pre.stack@, pre, mid, r1),
        mid2.frames@ == mid.frames@,
        mid2.frames@.len() >= 1 ==> r2 is Ok && post.frames@ == mid2.frames@.drop_last()
            && post.ip == mid2.frames@.last().ret,
    ensures
        r1 is Ok,
        r2 is Ok,
        mid.frames@.len() == pre.frames@.len() + 1,
        post.frames@ == pre.frames@,
        post.ip == ret_to,
{
    assert(mid.frames@.drop_last() =~= pre.frames@);
}

/// Swapping the two top values twice gives back the original stack:
/// the involution half of the stack-discipline laws.
pub proof fn lemma_swap_twice_identity(s: Seq<Cell>)
    requires
        s.len() >= 2,
    ensures
        swapped_top(swapped_top(s)) =~= s,
{
}

/// Pushing any value and then dropping the duplicate the duplication
/// opcode made leaves the stack depth unchanged.
pub proof fn lemma_dup_then_drop_depth(s: Seq<Cell>, c: Cell)
    requires
        s.len() >= 1,
    ensures
        s.push(c).drop_last() == s,
        s.push(c).drop_last().len() == s.len(),
{
}

/// The exact contract of the `op_pushb` handler.
pub open spec fn op_pushb_post(pre: Executor, post: Executor, r: Result<(), RunError>) -> bool {
    &&& (if pre.ip + 2 <= pre.object.code@.len() {
                &&& r is Ok
                &&& env_same(pre, post)
                &&& post.ip == pre.ip + 2
                &&& post.stack@ == pre.stack@.push(
                    Cell::Boolean(pre.object.code@[pre.ip + 1] != 0),
                )
            } else {
                faulted(pre, post, r, FaultKind::BadOperand)
            })
}


/// The exact contract of the `op_pushn` handler.
pub open spec fn op_pushn_post(pre: Executor, post: Executor, r: Result<(), RunError>) -> bool {
    &&& (if pre.ip + 9 <= pre.object.code@.len() {
                &&& r is Ok
                &&& env_same(pre, post)
                &&& post.ip == pre.ip + 9
                &&& post.stack@ == pre.stack@.push(
                    Cell::Number(
                        as_signed64(be_bytes_val(pre.object.code@, pre.ip + 1, 8)) as i64,
                    ),
                )
            } else {
                faulted(pre, post, r, FaultKind::BadOperand)
            })
}


/// The exact contract of the `op_pushi` handler.
pub open spec fn op_pushi_post(pre: Executor, post: Executor, r: Result<(), RunError>) -> bool {
    &&& (if pre.ip + 5 <= pre.object.code@.len() {
                &&& r is Ok
                &&& env_same(pre, post)
                &&& post.ip == pre.ip + 5
                &&& post.stack@ == pre.stack@.push(
                    Cell::Number(
                        as_signed32(be_bytes_val(pre.object.code@, pre.ip + 1, 4)) as i64,
                    ),
                )
            } else {
                faulted(pre, post, r, FaultKind::BadOperand)
            })
}


/// The exact contract of the `op_pushs` handler.
pub open spec fn op_pushs_post(pre: Executor, post: Executor, r: Result<(), RunError>) -> bool {
    &&& (match operand1(pre) {
                Result::Ok((v, j)) => if v < pre.object.strtable@.len() {
                    &&& r is Ok
                    &&& env_same(pre, post)
                    &&& post.ip == j
                    &&& post.stack@.len() == pre.stack@.len() + 1
                    &&& post.stack@.drop_last() == pre.stack@
                    &&& post.stack@.last() matches Cell::Str(b) && b@ == pre.object.strtable@[v as int]@
                } else {
                    faulted(pre, post, r, FaultKind::IndexOutOfRange)
                },
                Result::Err(_) => faulted(pre, post, r, FaultKind::BadOperand),
            })
}


/// The exact contract of the `op_pushy` handler.
pub open spec fn op_pushy_post(pre: Executor, post: Executor, r: Result<(), RunError>) -> bool {
    &&& (match operand1(pre) {
                Result::Ok((v, j)) => if j + v <= pre.object.code@.len() {
                    &&& r is Ok
                    &&& env_same(pre, post)
                    &&& post.ip == j + v
                    &&& post.stack@.len() == pre.stack@.len() + 1
                    &&& post.stack@.drop_last() == pre.stack@
                    &&& post.stack@.last() matches Cell::Bytes(b) && b@ == pre.object.code@.subrange(j, j + v)
                } else {
                    faulted(pre, post, r, FaultKind::BadOperand)
                },
                Result::Err(_) => faulted(pre, post, r, FaultKind::BadOperand),
            })
}


/// The exact contract of the `op_pushnil` handler.
pub open spec fn op_pushnil_post(pre: Executor, post: Executor, r: Result<(), RunError>) -> bool {
    &&& (r is Ok)
    &&& (env_same(pre, post))
    &&& (post.ip == pre.ip + 1)
    &&& (post.stack@ == pre.stack@.push(Cell::Empty))
}


/// The exact contract of the `op_dup` handler.
pub open spec fn op_dup_post(pre: Executor, post: Executor, r: Result<(), RunError>) -> bool {
    &&& (pre.stack@.len() >= 1 ==> {
                &&& r is Ok
                &&& env_same(pre, post)
                &&& post.ip == pre.ip + 1
                &&& post.stack@.len() == pre.stack@.len() + 1
                &&& post.stack@.drop_last() == pre.stack@
                &&& cell_eq(post.stack@.last(), pre.stack@.last())
            })
    &&& (pre.stack@.len() == 0 ==> faulted(
                pre,
                post,
                r,
                FaultKind::StackUnderflow,
            ))
}


/// The exact contract of the `op_dupx1` handler.
pub open spec fn op_dupx1_post(pre: Executor, post: Executor, r: Result<(), RunError>) -> bool {
    &&& (pre.stack@.len() >= 2 ==> {
                &&& r is Ok
                &&& env_same(pre, post)
                &&& post.ip == pre.ip + 1
                &&& post.stack@.len() == pre.stack@.len() + 1
                &&& post.stack@.skip(post.stack@.len() - 2) == pre.stack@.skip(
                    pre.stack@.len() - 2,
                )
                &&& post.stack@.take(post.stack@.len() - 3) == pre.stack@.take(
                    pre.stack@.len() - 2,
                )
                &&& cell_eq(post.stack@[post.stack@.len() - 3], pre.stack@.last())
            })
    &&& (pre.stack@.len() < 2 ==> faulted(pre, post, r, FaultKind::StackUnderflow))
}


/// The exact contract of the `op_drop` handler.
pub open spec fn op_drop_post(pre: Executor, post: Executor, r: Result<(), RunError>) -> bool {
    &&& (pre.stack@.len() >= 1 ==> {
                &&& r is Ok
                &&& env_same(pre, post)
                &&& post.ip == pre.ip + 1
                &&& post.stack@ == pre.stack@.drop_last()
            })
    &&& (pre.stack@.len() == 0 ==> faulted(
                pre,
                post,
                r,
                FaultKind::StackUnderflow,
            ))
}


/// The exact contract of the `op_swap` handler.
pub open spec fn op_swap_post(pre: Executor, post: Executor, r: Result<(), RunError>) -> bool {
    &&& (pre.stack@.len() >= 2 ==> {
                &&& r is Ok
                &&& env_same(pre, post)
                &&& post.ip == pre.ip + 1
                &&& post.stack@ == swapped_top(pre.stack@)
            })
    &&& (pre.stack@.len() < 2 ==> faulted(pre, post, r, FaultKind::StackUnderflow))
}


/// The exact contract of the `op_dropn` handler.
pub open spec fn op_dropn_post(pre: Executor, post: Executor, r: Result<(), RunError>) -> bool {
    &&& (match operand1(pre) {
                Result::Ok((v, j)) => {
                    if v < pre.stack@.len() {
                        &&& r is Ok
                        &&& env_same(pre, post)
                        &&& post.ip == j
                        &&& post.stack@ == pre.stack@.remove(
                            pre.stack@.len() - 1 - v,
                        )
                    } else {
                        faulted(pre, post, r, FaultKind::StackUnderflow)
                    }
                },
                Result::Err(_) => faulted(pre, post, r, FaultKind::BadOperand),
            })
}


/// The exact contract of the `op_jump` handler.
pub open spec fn op_jump_post(pre: Executor, post: Executor, r: Result<(), RunError>) -> bool {
    &&& (match operand1(pre) {
                Result::Ok((t, j)) => if t <= pre.object.code@.len() {
                    &&& r is Ok
                    &&& env_same(pre, post)
                    &&& post.stack@ == pre.stack@
                    &&& post.ip == t
                } else {
                    faulted(pre, post, r, FaultKind::BadOperand)
                },
                Result::Err(_) => faulted(pre, post, r, FaultKind::BadOperand),
            })
}


/// The exact contract of the `op_except` handler.
pub open spec fn op_except_post(pre: Executor, post: Executor, r: Result<(), RunError>) -> bool {
    &&& (post == pre)
    &&& (match operand1(pre) {
                Result::Ok((v, j)) => if v < pre.object.strtable@.len() {
                    is_raised(r, pre.object.strtable@[v as int]@, pre.ip)
                } else {
                    is_fault(r, FaultKind::IndexOutOfRange, pre.ip)
                },
                Result::Err(_) => is_fault(r, FaultKind::BadOperand, pre.ip),
            })
}


/// The exact contract of the `op_callp` handler.
pub open spec fn op_callp_post(pre: Executor, post: Executor, r: Result<(), RunError>) -> bool {
    &&& (match operand1(pre) {
                Result::Ok((v, j)) => if v < pre.object.strtable@.len() {
                    let nm = pre.object.strtable@[v as int]@;
                    if nm == print_name() {
                        if pre.stack@.len() >= 1 && pre.stack@.last() is Str {
                            &&& r is Ok
                            &&& post.object == pre.object
                            &&& post.globals == pre.globals
                            &&& post.frames == pre.frames
                            &&& post.ip == j
                            &&& post.stack@ == pre.stack@.drop_last()
                            &&& post.output@.len() == pre.output@.len() + 1
                            &&& post.output@.drop_last() == pre.output@
                            &&& post.output@.last()@ == pre.stack@.last()->Str_0@
                        } else {
                            faulted(
                                pre,
                                post,
                                r,
                                peek2_fault(pre.stack@, 1),
                            )
                        }
                    } else if nm == executor_name_query() {
                        &&& r is Ok
                        &&& env_same(pre, post)
                        &&& post.ip == j
                        &&& post.stack@.len() == pre.stack@.len() + 1
                        &&& post.stack@.drop_last() == pre.stack@
                        &&& post.stack@.last() matches Cell::Str(b) && b@
                            == executor_name_value()
                    } else {
                        faulted(pre, post, r, FaultKind::UnknownBuiltin)
                    }
                } else {
                    faulted(pre, post, r, FaultKind::IndexOutOfRange)
                },
                Result::Err(_) => faulted(pre, post, r, FaultKind::BadOperand),
            })
}


/// The exact contract of the `op_alloc` handler.
pub open spec fn op_alloc_post(pre: Executor, post: Executor, r: Result<(), RunError>) -> bool {
    &&& (match operand1(pre) {
                Result::Ok((v, j)) => if v < pre.object.types@.len() {
                    &&& r is Ok
                    &&& env_same(pre, post)
                    &&& post.ip == j
                    &&& post.stack@.len() == pre.stack@.len() + 1
                    &&& post.stack@.drop_last() == pre.stack@
                    &&& post.stack@.last() matches Cell::Object(c, fs) && c == v as usize
                        && fs@.len() == 0
                } else {
                    faulted(pre, post, r, FaultKind::IndexOutOfRange)
                },
                Result::Err(_) => faulted(pre, post, r, FaultKind::BadOperand),
            })
}


/// The exact contract of the `op_consa` handler.
pub open spec fn op_consa_post(pre: Executor, post: Executor, r: Result<(), RunError>) -> bool {
    &&& (match operand1(pre) {
                Result::Ok((v, j)) => if v <= pre.stack@.len() {
                    &&& r is Ok
                    &&& env_same(pre, post)
                    &&& post.ip == j
                    &&& post.stack@.len() == pre.stack@.len() - v + 1
                    &&& post.stack@.drop_last() == pre.stack@.take(
                        pre.stack@.len() - v,
                    )
                    &&& post.stack@.last() matches Cell::Array(xs) && xs@.len() == v
                        && forall|k: int|
                        0 <= k < v ==> cell_eq(
                            #[trigger] xs@[k],
                            pre.stack@[pre.stack@.len() - v + k],
                        )
                } else {
                    faulted(pre, post, r, FaultKind::StackUnderflow)
                },
                Result::Err(_) => faulted(pre, post, r, FaultKind::BadOperand),
            })
}


/// The exact contract of the `op_consd` handler.
pub open spec fn op_consd_post(pre: Executor, post: Executor, r: Result<(), RunError>) -> bool {
    &&& (match operand1(pre) {
                Result::Ok((v, j)) => {
                    let s = pre.stack@;
                    if 2 * v <= s.len() {
                        if forall|m: int| 0 <= m < v ==> #[trigger] s[s.len() - 2 * v + 2 * m] is Str {
                            &&& r is Ok
                            &&& env_same(pre, post)
                            &&& post.ip == j
                            &&& post.stack@.len() == s.len() - 2 * v + 1
                            &&& post.stack@.drop_last() == s.take(s.len() - 2 * v)
                            &&& post.stack@.last() matches Cell::Dict(es) && consd_rel(
                                s,
                                s.len() - 2 * v,
                                0,
                                v as int,
                                Seq::empty(),
                                es@,
                            )
                        } else {
                            faulted(pre, post, r, FaultKind::TypeMismatch)
                        }
                    } else {
                        faulted(pre, post, r, FaultKind::StackUnderflow)
                    }
                },
                Result::Err(_) => faulted(pre, post, r, FaultKind::BadOperand),
            })
}


/// The exact contract of the `op_negn` handler.
pub open spec fn op_negn_post(pre: Executor, post: Executor, r: Result<(), RunError>) -> bool {
    &&& (({
                let s = pre.stack@;
                if s.len() >= 1 && s.last() is Number {
                    if s.last()->Number_0 == i64::MIN {
                        &&& post == pre
                        &&& is_raised(r, number_overflow_name(), pre.ip)
                    } else {
                        &&& r is Ok
                        &&& env_same(pre, post)
                        &&& post.ip == pre.ip + 1
                        &&& post.stack@ == pop1_push(
                            s,
                            Cell::Number((-s.last()->Number_0) as i64),
                        )
                    }
                } else {
                    faulted(pre, post, r, peek2_fault(s, 1))
                }
            }))
}


/// The exact contract of the `op_notb` handler.
pub open spec fn op_notb_post(pre: Executor, post: Executor, r: Result<(), RunError>) -> bool {
    &&& (({
                let s = pre.stack@;
                if s.len() >= 1 && s.last() is Boolean {
                    &&& r is Ok
                    &&& env_same(pre, post)
                    &&& post.ip == pre.ip + 1
                    &&& post.stack@ == pop1_push(
                        s,
                        Cell::Boolean(!s.last()->Boolean_0),
                    )
                } else {
                    faulted(pre, post, r, peek2_fault(s, 1))
                }
            }))
}


/// The exact contract of the `op_ina` handler.
pub open spec fn op_ina_post(pre: Executor, post: Executor, r: Result<(), RunError>) -> bool {
    &&& (({
                let s = pre.stack@;
                if s.len() >= 2 && s.last() is Array {
                    &&& r is Ok
                    &&& env_same(pre, post)
                    &&& post.ip == pre.ip + 1
                    &&& post.stack@ == pop2_push(
                        s,
                        Cell::Boolean(in_array(s[s.len() - 2], s.last()->Array_0@)),
                    )
                } else {
                    faulted(pre, post, r, peek2_fault(s, 2))
                }
            }))
}


/// The exact contract of the `op_ind` handler.
pub open spec fn op_ind_post(pre: Executor, post: Executor, r: Result<(), RunError>) -> bool {
    &&& (({
                let s = pre.stack@;
                if s.len() >= 2 && s.last() is Dict && s[s.len() - 2] is Str {
                    &&& r is Ok
                    &&& env_same(pre, post)
                    &&& post.ip == pre.ip + 1
                    &&& post.stack@ == pop2_push(
                        s,
                        Cell::Boolean(dict_has_key(s.last()->Dict_0@, s[s.len() - 2]->Str_0@)),
                    )
                } else {
                    faulted(pre, post, r, peek2_fault(s, 2))
                }
            }))
}


/// The exact contract of the `op_indexav` handler.
pub open spec fn op_indexav_post(pre: Executor, post: Executor, r: Result<(), RunError>) -> bool {
    &&& (({
                let s = pre.stack@;
                if s.len() >= 2 && s[s.len() - 2] is Array && s[s.len() - 1] is Number {
                    let xs = s[s.len() - 2]->Array_0@;
                    let i = s[s.len() - 1]->Number_0;
                    if 0 <= i < xs.len() {
                        &&& r is Ok
                        &&& env_same(pre, post)
                        &&& post.ip == pre.ip + 1
                        &&& post.stack@ == pop2_push(s, xs[i as int])
                    } else {
                        faulted(pre, post, r, FaultKind::IndexOutOfRange)
                    }
                } else {
                    faulted(pre, post, r, peek2_fault(s, 2))
                }
            }))
}


/// The exact contract of the `op_indexan` handler.
pub open spec fn op_indexan_post(pre: Executor, post: Executor, r: Result<(), RunError>) -> bool {
    &&& (({
                let s = pre.stack@;
                if s.len() >= 2 && s[s.len() - 2] is Array && s[s.len() - 1] is Number {
                    let xs = s[s.len() - 2]->Array_0@;
                    let i = s[s.len() - 1]->Number_0;
                    &&& r is Ok
                    &&& env_same(pre, post)
                    &&& post.ip == pre.ip + 1
                    &&& post.stack@ == pop2_push(
                        s,
                        if 0 <= i < xs.len() {
                            xs[i as int]
                        } else {
                            Cell::Empty
                        },
                    )
                } else {
                    faulted(pre, post, r, peek2_fault(s, 2))
                }
            }))
}


/// The exact contract of the `op_indexdv` handler.
pub open spec fn op_indexdv_post(pre: Executor, post: Executor, r: Result<(), RunError>) -> bool {
    &&& (({
                let s = pre.stack@;
                if s.len() >= 2 && s[s.len() - 2] is Dict && s[s.len() - 1] is Str {
                    let es = s[s.len() - 2]->Dict_0@;
                    let k = s[s.len() - 1]->Str_0@;
                    if dict_has_key(es, k) {
                        &&& r is Ok
                        &&& env_same(pre, post)
                        &&& post.ip == pre.ip + 1
                        &&& exists|i: int|
                            0 <= i < es.len() && (#[trigger] es[i]).key@ == k && (forall|j: int|
                                0 <= j < i ==> (#[trigger] es[j]).key@ != k) && post.stack@
                                == pop2_push(s, es[i].val)
                    } else {
                        faulted(pre, post, r, FaultKind::KeyNotFound)
                    }
                } else {
                    faulted(pre, post, r, peek2_fault(s, 2))
                }
            }))
}


/// The exact contract of the `op_resetc` handler.
pub open spec fn op_resetc_post(pre: Executor, post: Executor, r: Result<(), RunError>) -> bool {
    &&& (({
                let s = pre.stack@;
                if s.len() >= 1 && s.last() is Ptr {
                    let p = s.last()->Ptr_0;
                    match store_check(pre, p) {
                        Result::Ok(()) => {
                            &&& r is Ok
                            &&& post.object == pre.object
                            &&& post.output == pre.output
                            &&& post.ip == pre.ip + 1
                            &&& post.stack@ == s.drop_last()
                            &&& store_effect(pre, post, p, Cell::Empty)
                        },
                        Result::Err(fk) => faulted(pre, post, r, fk),
                    }
                } else {
                    faulted(pre, post, r, peek2_fault(s, 1))
                }
            }))
}


/// The exact contract of the `op_callf` handler.
pub open spec fn op_callf_post(pre: Executor, post: Executor, r: Result<(), RunError>) -> bool {
    &&& (match operand1(pre) {
                Result::Ok((v, j)) => if v < pre.object.functions@.len() {
                    enter_post(v as int, j as usize, pre, post, r)
                } else {
                    faulted(pre, post, r, FaultKind::IndexOutOfRange)
                },
                Result::Err(_) => faulted(pre, post, r, FaultKind::BadOperand),
            })
}


/// The exact contract of the `op_calli` handler.
pub open spec fn op_calli_post(pre: Executor, post: Executor, r: Result<(), RunError>) -> bool {
    &&& (pre.stack@.len() == 0 ==> faulted(
                pre,
                post,
                r,
                FaultKind::StackUnderflow,
            ))
    &&& (pre.stack@.len() >= 1 && !(pre.stack@.last() is Number) ==> faulted(
                pre,
                post,
                r,
                FaultKind::TypeMismatch,
            ))
    &&& ((pre.stack@.len() >= 1 && pre.stack@.last() is Number) ==> {
                let t = pre.stack@.last()->Number_0;
                if 0 <= t < pre.object.functions@.len() {
                    enter_post_on(
                        t as int,
                        pre.ip + 1,
                        pre.stack@.drop_last(),
                        pre,
                        post,
                        r,
                    )
                } else {
                    faulted(pre, post, r, FaultKind::IndexOutOfRange)
                }
            })
}


/// The exact contract of the `op_callmf` handler.
pub open spec fn op_callmf_post(pre: Executor, post: Executor, r: Result<(), RunError>) -> bool {
    &&& (post == pre)
    &&& (match operand2(pre) {
                Result::Ok(_) => is_fault(r, FaultKind::Unresolved, pre.ip),
                Result::Err(_) => is_fault(r, FaultKind::BadOperand, pre.ip),
            })
}


/// The exact contract of the `op_callx` handler.
pub open spec fn op_callx_post(pre: Executor, post: Executor, r: Result<(), RunError>) -> bool {
    &&& (post == pre)
    &&& (match operand1(pre) {
                Result::Ok(_) => is_fault(r, FaultKind::Unresolved, pre.ip),
                Result::Err(_) => is_fault(r, FaultKind::BadOperand, pre.ip),
            })
}


/// The exact contract of the `op_callv` handler.
pub open spec fn op_callv_post(pre: Executor, post: Executor, r: Result<(), RunError>) -> bool {
    &&& (post == pre)
    &&& (match operand1(pre) {
                Result::Ok(_) => is_fault(r, FaultKind::Unresolved, pre.ip),
                Result::Err(_) => is_fault(r, FaultKind::BadOperand, pre.ip),
            })
}


/// The exact contract of the `op_pushci` handler.
pub open spec fn op_pushci_post(pre: Executor, post: Executor, r: Result<(), RunError>) -> bool {
    &&& (post == pre)
    &&& (match operand1(pre) {
                Result::Ok(_) => is_fault(r, FaultKind::Unresolved, pre.ip),
                Result::Err(_) => is_fault(r, FaultKind::BadOperand, pre.ip),
            })
}


/// The exact contract of the `op_pushfp` handler.
pub open spec fn op_pushfp_post(pre: Executor, post: Executor, r: Result<(), RunError>) -> bool {
    &&& (match operand1(pre) {
                Result::Ok((v, j)) => if v < pre.object.functions@.len() && v
                    <= i64::MAX as nat {
                    &&& r is Ok
                    &&& env_same(pre, post)
                    &&& post.ip == j
                    &&& post.stack@ == pre.stack@.push(Cell::Number(v as i64))
                } else {
                    faulted(pre, post, r, FaultKind::IndexOutOfRange)
                },
                Result::Err(_) => faulted(pre, post, r, FaultKind::BadOperand),
            })
}


/// The exact contract of the `op_ret` handler.
pub open spec fn op_ret_post(pre: Executor, post: Executor, r: Result<(), RunError>) -> bool {
    &&& (pre.frames@.len() >= 1 ==> {
                &&& r is Ok
                &&& post.object == pre.object
                &&& post.globals == pre.globals
                &&& post.output == pre.output
                &&& post.stack@ == pre.stack@
                &&& post.frames@ == pre.frames@.drop_last()
                &&& post.ip == pre.frames@.last().ret
            })
    &&& (pre.frames@.len() == 0 ==> faulted(
                pre,
                post,
                r,
                FaultKind::FrameUnderflow,
            ))
}


/// The exact contract of the pointer-push handlers that decode one varint.
pub open spec fn push_ptr1_post(kind: u8, pre: Executor, post: Executor, r: Result<(), RunError>) -> bool {
    &&& (match operand1(pre) {
                Result::Ok((v, j)) => {
                    &&& r is Ok
                    &&& env_same(pre, post)
                    &&& post.ip == j
                    &&& post.stack@.len() == pre.stack@.len() + 1
                    &&& post.stack@.drop_last() == pre.stack@
                    &&& post.stack@.last() matches Cell::Ptr(p) && p.path@.len() == 0
                        && p.base == (if kind == 0 {
                        PtrBase::Global(v as usize)
                    } else if kind == 1 {
                        PtrBase::PredefGlobal(v as usize)
                    } else {
                        PtrBase::Local(v as usize)
                    })
                },
                Result::Err(_) => faulted(pre, post, r, FaultKind::BadOperand),
            })
}


/// The exact contract of the pointer-push handlers that decode two varints.
pub open spec fn push_ptr2_post(kind: u8, pre: Executor, post: Executor, r: Result<(), RunError>) -> bool {
    &&& (match operand2(pre) {
                Result::Ok(((v1, j1), (v2, j2))) => {
                    &&& r is Ok
                    &&& env_same(pre, post)
                    &&& post.ip == j2
                    &&& post.stack@.len() == pre.stack@.len() + 1
                    &&& post.stack@.drop_last() == pre.stack@
                    &&& post.stack@.last() matches Cell::Ptr(p) && p.path@.len() == 0
                        && p.base == (if kind == 0 {
                        PtrBase::ModuleGlobal(v1 as usize, v2 as usize)
                    } else if kind == 1 {
                        PtrBase::OuterLocal(v1 as usize, v2 as usize)
                    } else {
                        PtrBase::ExternalGlobal(v1 as usize, v2 as usize)
                    })
                },
                Result::Err(_) => faulted(pre, post, r, FaultKind::BadOperand),
            })
}


/// The effect of executing the single instruction under `pre.ip`:
/// exactly the contract of the handler the opcode byte selects, or the
/// unknown-opcode fault for a byte that names no opcode.  This is the
/// one-step relation of the machine.
pub open spec fn step_post(pre: Executor, post: Executor, r: Result<(), RunError>) -> bool {
    match pre.object.code@[pre.ip as int] {
        0u8 => op_pushb_post(pre, post, r),
        1u8 => op_pushn_post(pre, post, r),
        2u8 => op_pushs_post(pre, post, r),
        3u8 => op_pushy_post(pre, post, r),
        4u8 => push_ptr1_post(0, pre, post, r),
        5u8 => push_ptr1_post(1, pre, post, r),
        6u8 => push_ptr2_post(0, pre, post, r),
        7u8 => push_ptr1_post(2, pre, post, r),
        8u8 => push_ptr2_post(1, pre, post, r),
        9u8 => op_pushi_post(pre, post, r),
        10u8 => load_post(ValKind::Boolean, pre, post, r),
        11u8 => load_post(ValKind::Number, pre, post, r),
        12u8 => load_post(ValKind::Str, pre, post, r),
        13u8 => load_post(ValKind::Bytes, pre, post, r),
        14u8 => load_post(ValKind::Array, pre, post, r),
        15u8 => load_post(ValKind::Dict, pre, post, r),
        16u8 => load_post(ValKind::Ptr, pre, post, r),
        17u8 => load_post(ValKind::Object, pre, post, r),
        18u8 => load_post(ValKind::VoidPtr, pre, post, r),
        19u8 => store_post(ValKind::Boolean, pre, post, r),
        20u8 => store_post(ValKind::Number, pre, post, r),
        21u8 => store_post(ValKind::Str, pre, post, r),
        22u8 => store_post(ValKind::Bytes, pre, post, r),
        23u8 => store_post(ValKind::Array, pre, post, r),
        24u8 => store_post(ValKind::Dict, pre, post, r),
        25u8 => store_post(ValKind::Ptr, pre, post, r),
        26u8 => store_post(ValKind::Object, pre, post, r),
        27u8 => store_post(ValKind::VoidPtr, pre, post, r),
        28u8 => op_negn_post(pre, post, r),
        29u8 => arith_post(ArithOp::Add, pre, post, r),
        30u8 => arith_post(ArithOp::Sub, pre, post, r),
        31u8 => arith_post(ArithOp::Mul, pre, post, r),
        32u8 => arith_post(ArithOp::Div, pre, post, r),
        33u8 => arith_post(ArithOp::Mod, pre, post, r),
        34u8 => expn_post(pre, post, r),
        35u8 => cmp_eq_post(ValKind::Boolean, false, pre, post, r),
        36u8 => cmp_eq_post(ValKind::Boolean, true, pre, post, r),
        37u8 => cmp_eq_post(ValKind::Number, false, pre, post, r),
        38u8 => cmp_eq_post(ValKind::Number, true, pre, post, r),
        39u8 => ord_num_post(CmpIneq::Lt, pre, post, r),
        40u8 => ord_num_post(CmpIneq::Gt, pre, post, r),
        41u8 => ord_num_post(CmpIneq::Le, pre, post, r),
        42u8 => ord_num_post(CmpIneq::Ge, pre, post, r),
        43u8 => cmp_eq_post(ValKind::Str, false, pre, post, r),
        44u8 => cmp_eq_post(ValKind::Str, true, pre, post, r),
        45u8 => ord_bytes_post(ValKind::Str, CmpIneq::Lt, pre, post, r),
        46u8 => ord_bytes_post(ValKind::Str, CmpIneq::Gt, pre, post, r),
        47u8 => ord_bytes_post(ValKind::Str, CmpIneq::Le, pre, post, r),
        48u8 => ord_bytes_post(ValKind::Str, CmpIneq::Ge, pre, post, r),
        49u8 => cmp_eq_post(ValKind::Bytes, false, pre, post, r),
        50u8 => cmp_eq_post(ValKind::Bytes, true, pre, post, r),
        51u8 => ord_bytes_post(ValKind::Bytes, CmpIneq::Lt, pre, post, r),
        52u8 => ord_bytes_post(ValKind::Bytes, CmpIneq::Gt, pre, post, r),
        53u8 => ord_bytes_post(ValKind::Bytes, CmpIneq::Le, pre, post, r),
        54u8 => ord_bytes_post(ValKind::Bytes, CmpIneq::Ge, pre, post, r),
        55u8 => cmp_eq_post(ValKind::Array, false, pre, post, r),
        56u8 => cmp_eq_post(ValKind::Array, true, pre, post, r),
        57u8 => cmp_eq_post(ValKind::Dict, false, pre, post, r),
        58u8 => cmp_eq_post(ValKind::Dict, true, pre, post, r),
        59u8 => cmp_eq_post(ValKind::Ptr, false, pre, post, r),
        60u8 => cmp_eq_post(ValKind::Ptr, true, pre, post, r),
        61u8 => cmp_eq_post(ValKind::VoidPtr, false, pre, post, r),
        62u8 => cmp_eq_post(ValKind::VoidPtr, true, pre, post, r),
        63u8 => bool2_post(true, pre, post, r),
        64u8 => bool2_post(false, pre, post, r),
        65u8 => op_notb_post(pre, post, r),
        66u8 => index_ptr_elem_post(pre, post, r),
        67u8 => index_ptr_elem_post(pre, post, r),
        68u8 => op_indexav_post(pre, post, r),
        69u8 => op_indexan_post(pre, post, r),
        70u8 => index_ptr_key_post(pre, post, r),
        71u8 => index_ptr_key_post(pre, post, r),
        72u8 => op_indexdv_post(pre, post, r),
        73u8 => op_ina_post(pre, post, r),
        74u8 => op_ind_post(pre, post, r),
        75u8 => op_callp_post(pre, post, r),
        76u8 => op_callf_post(pre, post, r),
        77u8 => op_callmf_post(pre, post, r),
        78u8 => op_calli_post(pre, post, r),
        79u8 => op_jump_post(pre, post, r),
        80u8 => branch_post(false, pre, post, r),
        81u8 => branch_post(true, pre, post, r),
        82u8 => op_dup_post(pre, post, r),
        83u8 => op_dupx1_post(pre, post, r),
        84u8 => op_drop_post(pre, post, r),
        85u8 => op_ret_post(pre, post, r),
        86u8 => op_consa_post(pre, post, r),
        87u8 => op_consd_post(pre, post, r),
        88u8 => op_except_post(pre, post, r),
        89u8 => op_alloc_post(pre, post, r),
        90u8 => op_pushnil_post(pre, post, r),
        91u8 => op_resetc_post(pre, post, r),
        92u8 => push_ptr2_post(2, pre, post, r),
        93u8 => jumptbl_post(pre, post, r),
        94u8 => op_callx_post(pre, post, r),
        95u8 => op_swap_post(pre, post, r),
        96u8 => op_dropn_post(pre, post, r),
        97u8 => op_pushfp_post(pre, post, r),
        98u8 => op_callv_post(pre, post, r),
        99u8 => op_pushci_post(pre, post, r),
        _ => faulted(pre, post, r, FaultKind::UnknownOpcode),
    }
}

/// One successful instruction: the ip is inside the code and the step
/// relation holds with a successful result.
pub open spec fn step_ok(a: Executor, b: Executor) -> bool {
    &&& a.ip < a.object.code@.len()
    &&& step_post(a, b, Result::Ok(()))
}

/// State `b` arises from state `a` by exactly `n` successful
/// instructions.
pub open spec fn reaches(a: Executor, b: Executor, n: nat) -> bool
    decreases n,
{
    if n == 0 {
        b == a
    } else {
        exists|mid: Executor| reaches(a, mid, (n - 1) as nat) && #[trigger] step_ok(mid, b)
    }
}

} // verus!
