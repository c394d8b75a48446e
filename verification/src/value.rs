use vstd::prelude::*;

verus! {

/// The slot a pointer starts from.  A pointer is a location descriptor,
/// never a raw address; it is resolved only by the load and store
/// opcodes.
#[derive(Clone, Copy, PartialEq, Eq, Structural, Debug)]
pub enum PtrBase {
    /// A program global slot.
    Global(usize),
    /// A predefined (builtin) global, resolved by the host.
    PredefGlobal(usize),
    /// A global of another module: (module, index).
    ModuleGlobal(usize, usize),
    /// A slot of the current frame's locals.
    Local(usize),
    /// A slot of an enclosing frame's locals: (depth, index), where
    /// depth 0 is the current frame and each step goes one frame out.
    OuterLocal(usize, usize),
    /// A global of a foreign module: (module, index).
    ExternalGlobal(usize, usize),
}

/// One step from a slot into a composite value: an array element or a
/// dictionary key.
pub enum PathSeg {
    Elem(usize),
    Key(Vec<u8>),
}

/// A location descriptor: a base slot plus a path of element/key steps
/// taken by the indexing opcodes that produce references.
pub struct Pointer {
    pub base: PtrBase,
    pub path: Vec<PathSeg>,
}

/// One dictionary entry; keys are byte-exact strings and are unique
/// within a dictionary.
pub struct DictEntry {
    pub key: Vec<u8>,
    pub val: Cell,
}

/// A runtime value.  Strings are byte-exact UTF-8 text kept as raw
/// bytes.  Numbers are 64-bit signed integers.  Composites have value
/// semantics: copies are structurally equal and independent.
pub enum Cell {
    /// The uninitialized marker: what every global and local slot holds
    /// before its first store.
    Empty,
    Boolean(bool),
    Number(i64),
    Str(Vec<u8>),
    Bytes(Vec<u8>),
    Array(Vec<Cell>),
    Dict(Vec<DictEntry>),
    Ptr(Pointer),
    /// A record instance: the type-table index of its declared type
    /// (its run-time class descriptor) and its fields.
    Object(usize, Vec<Cell>),
    /// An opaque host-provided handle, compared only by identity.
    VoidPtr(u64),
}

pub open spec fn seg_eq(a: PathSeg, b: PathSeg) -> bool {
    match (a, b) {
        (PathSeg::Elem(x), PathSeg::Elem(y)) => x == y,
        (PathSeg::Key(x), PathSeg::Key(y)) => x@ == y@,
        _ => false,
    }
}

/// Pointers are compared by identity: same base and same path.
pub open spec fn ptr_eq(a: Pointer, b: Pointer) -> bool {
    &&& a.base == b.base
    &&& a.path@.len() == b.path@.len()
    &&& forall|i: int| 0 <= i < a.path@.len() ==> seg_eq(#[trigger] a.path@[i], b.path@[i])
}

/// Some entry of `ys` has `e`'s key and a value structurally equal to
/// `e`'s value.
pub open spec fn entry_in(e: DictEntry, ys: Seq<DictEntry>) -> bool
    decreases e,
{
    exists|j: int| 0 <= j < ys.len() && (#[trigger] ys[j]).key@ == e.key@ && cell_eq(
        e.val,
        ys[j].val,
    )
}

/// Some entry of `xs` has `e`'s key and a value structurally equal to
/// `e`'s value (the mirror of `entry_in`, with the recursion kept on
/// entries of `xs`).
pub open spec fn entry_back(e: DictEntry, xs: Seq<DictEntry>) -> bool
    decreases xs,
{
    exists|i: int| 0 <= i < xs.len() && (#[trigger] xs[i]).key@ == e.key@ && cell_eq(
        xs[i].val,
        e.val,
    )
}

/// Structural equality of runtime values: byte-wise for strings and
/// byte buffers, element-wise for arrays and objects, key-wise (order
/// not significant) for dictionaries, identity for pointers and opaque
/// handles.  This is the relation the comparison opcodes decide, and
/// also what "the same value" means for a duplicate or a stored copy.
pub open spec fn cell_eq(a: Cell, b: Cell) -> bool
    decreases a,
{
    match (a, b) {
        (Cell::Empty, Cell::Empty) => true,
        (Cell::Boolean(x), Cell::Boolean(y)) => x == y,
        (Cell::Number(x), Cell::Number(y)) => x == y,
        (Cell::Str(x), Cell::Str(y)) => x@ == y@,
        (Cell::Bytes(x), Cell::Bytes(y)) => x@ == y@,
        (Cell::Array(x), Cell::Array(y)) => {
            &&& x@.len() == y@.len()
            &&& forall|i: int| 0 <= i < x@.len() ==> cell_eq(#[trigger] x@[i], y@[i])
        },
        (Cell::Object(c, x), Cell::Object(d, y)) => {
            &&& c == d
            &&& x@.len() == y@.len()
            &&& forall|i: int| 0 <= i < x@.len() ==> cell_eq(#[trigger] x@[i], y@[i])
        },
        (Cell::Dict(x), Cell::Dict(y)) => {
            &&& x@.len() == y@.len()
            &&& forall|i: int| 0 <= i < x@.len() ==> entry_in(#[trigger] x@[i], y@)
            &&& forall|j: int| 0 <= j < y@.len() ==> entry_back(#[trigger] y@[j], x@)
        },
        (Cell::Ptr(p), Cell::Ptr(q)) => ptr_eq(p, q),
        (Cell::VoidPtr(x), Cell::VoidPtr(y)) => x == y,
        _ => false,
    }
}

/// Strict byte-wise lexicographic order: the order the string and
/// byte-buffer comparison opcodes decide.
pub open spec fn bytes_lt(a: Seq<u8>, b: Seq<u8>) -> bool
    decreases a.len(),
{
    if b.len() == 0 {
        false
    } else if a.len() == 0 {
        true
    } else if a[0] < b[0] {
        true
    } else if a[0] > b[0] {
        false
    } else {
        bytes_lt(a.skip(1), b.skip(1))
    }
}

/// `b` raised to the power `e` over the unbounded integers.
pub open spec fn pow_int(b: int, e: nat) -> int
    decreases e,
{
    if e == 0 {
        1
    } else {
        b * pow_int(b, (e - 1) as nat)
    }
}

pub fn bytes_equal(a: &Vec<u8>, b: &Vec<u8>) -> (r: bool)
    ensures
        r == (a@ == b@),
{
    let n = a.len();
    if n != b.len() {
        return false;
    }
    let mut i: usize = 0;
    while i < n
        invariant
            0 <= i <= n,
            n == a@.len(),
            n == b@.len(),
            forall|j: int| 0 <= j < i ==> a@[j] == b@[j],
        decreases n - i,
    {
        if a[i] != b[i] {
            return false;
        }
        i = i + 1;
    }
    proof {
        assert(a@ =~= b@);
    }
    true
}

pub fn bytes_less(a: &Vec<u8>, b: &Vec<u8>) -> (r: bool)
    ensures
        r == bytes_lt(a@, b@),
{
    let an = a.len();
    let bn = b.len();
    let n = if an < bn {
        an
    } else {
        bn
    };
    let mut i: usize = 0;
    proof {
        assert(a@.skip(0) =~= a@);
        assert(b@.skip(0) =~= b@);
    }
    while i < n
        invariant
            0 <= i <= n,
            an == a@.len(),
            bn == b@.len(),
            n == if an < bn {
                an
            } else {
                bn
            },
            bytes_lt(a@, b@) == bytes_lt(a@.skip(i as int), b@.skip(i as int)),
        decreases n - i,
    {
        proof {
            assert(a@.skip(i as int)[0] == a@[i as int]);
            assert(b@.skip(i as int)[0] == b@[i as int]);
            assert(a@.skip(i as int).skip(1) =~= a@.skip(i as int + 1));
            assert(b@.skip(i as int).skip(1) =~= b@.skip(i as int + 1));
        }
        let x = a[i];
        let y = b[i];
        if x < y {
            return true;
        }
        if x > y {
            return false;
        }
        i = i + 1;
    }
    proof {
        if an <= bn {
            assert(a@.skip(i as int) =~= Seq::<u8>::empty());
        } else {
            assert(b@.skip(i as int) =~= Seq::<u8>::empty());
        }
    }
    an < bn
}

/// Index of the first entry with key `k`, with the entries before it
/// known not to match.
pub fn dict_find(es: &Vec<DictEntry>, k: &Vec<u8>) -> (r: Option<usize>)
    ensures
        match r {
            Option::Some(i) => 0 <= i < es@.len() && es@[i as int].key@ == k@ && forall|j: int|
                0 <= j < i ==> (#[trigger] es@[j]).key@ != k@,
            Option::None => forall|j: int| 0 <= j < es@.len() ==> (#[trigger] es@[j]).key@ != k@,
        },
{
    let n = es.len();
    let mut i: usize = 0;
    while i < n
        invariant
            0 <= i <= n,
            n == es@.len(),
            forall|j: int| 0 <= j < i ==> (#[trigger] es@[j]).key@ != k@,
        decreases n - i,
    {
        if bytes_equal(&es[i].key, k) {
            return Option::Some(i);
        }
        i = i + 1;
    }
    Option::None
}

fn cell_vecs_equal(x: &Vec<Cell>, y: &Vec<Cell>) -> (r: bool)
    ensures
        r == (x@.len() == y@.len() && forall|i: int|
            0 <= i < x@.len() ==> cell_eq(#[trigger] x@[i], y@[i])),
    decreases *x,
{
    let n = x.len();
    if n != y.len() {
        return false;
    }
    let mut i: usize = 0;
    while i < n
        invariant
            0 <= i <= n,
            n == x@.len(),
            n == y@.len(),
            forall|j: int| 0 <= j < i ==> cell_eq(#[trigger] x@[j], y@[j]),
        decreases n - i,
    {
        if !cells_equal(&x[i], &y[i]) {
            return false;
        }
        i = i + 1;
    }
    true
}

fn dict_covers(x: &Vec<DictEntry>, y: &Vec<DictEntry>) -> (r: bool)
    ensures
        r == forall|i: int| 0 <= i < x@.len() ==> entry_in(#[trigger] x@[i], y@),
    decreases *x,
{
    let n = x.len();
    let m = y.len();
    let mut i: usize = 0;
    while i < n
        invariant
            0 <= i <= n,
            n == x@.len(),
            m == y@.len(),
            forall|j: int| 0 <= j < i ==> entry_in(#[trigger] x@[j], y@),
        decreases n - i,
    {
        let mut j: usize = 0;
        let mut found: bool = false;
        while j < m
            invariant
                0 <= j <= m,
                n == x@.len(),
                m == y@.len(),
                0 <= i < n,
                found ==> entry_in(x@[i as int], y@),
                !found ==> forall|jj: int|
                    0 <= jj < j ==> !((#[trigger] y@[jj]).key@ == x@[i as int].key@ && cell_eq(
                        x@[i as int].val,
                        y@[jj].val,
                    )),
            decreases m - j,
        {
            if bytes_equal(&y[j].key, &x[i].key) && cells_equal(&x[i].val, &y[j].val) {
                proof {
                    assert(0 <= j < y@.len() && y@[j as int].key@ == x@[i as int].key@ && cell_eq(
                        x@[i as int].val,
                        y@[j as int].val,
                    ));
                    assert(entry_in(x@[i as int], y@));
                }
                found = true;
                j = m;
            } else {
                j = j + 1;
            }
        }
        if !found {
            proof {
                assert(!entry_in(x@[i as int], y@)) by {
                    if entry_in(x@[i as int], y@) {
                        let jj = choose|jj: int|
                            0 <= jj < y@.len() && (#[trigger] y@[jj]).key@ == x@[i as int].key@
                                && cell_eq(x@[i as int].val, y@[jj].val);
                        assert(false);
                    }
                }
            }
            return false;
        }
        i = i + 1;
    }
    true
}

fn dict_backs(y: &Vec<DictEntry>, x: &Vec<DictEntry>) -> (r: bool)
    ensures
        r == forall|j: int| 0 <= j < y@.len() ==> entry_back(#[trigger] y@[j], x@),
    decreases *x,
{
    let n = y.len();
    let m = x.len();
    let mut j: usize = 0;
    while j < n
        invariant
            0 <= j <= n,
            n == y@.len(),
            m == x@.len(),
            forall|jj: int| 0 <= jj < j ==> entry_back(#[trigger] y@[jj], x@),
        decreases n - j,
    {
        let mut i: usize = 0;
        let mut found: bool = false;
        while i < m
            invariant
                0 <= i <= m,
                n == y@.len(),
                m == x@.len(),
                0 <= j < n,
                found ==> entry_back(y@[j as int], x@),
                !found ==> forall|ii: int|
                    0 <= ii < i ==> !((#[trigger] x@[ii]).key@ == y@[j as int].key@ && cell_eq(
                        x@[ii].val,
                        y@[j as int].val,
                    )),
            decreases m - i,
        {
            if bytes_equal(&x[i].key, &y[j].key) && cells_equal(&x[i].val, &y[j].val) {
                proof {
                    assert(0 <= i < x@.len() && x@[i as int].key@ == y@[j as int].key@ && cell_eq(
                        x@[i as int].val,
                        y@[j as int].val,
                    ));
                    assert(entry_back(y@[j as int], x@));
                }
                found = true;
                i = m;
            } else {
                i = i + 1;
            }
        }
        if !found {
            proof {
                assert(!entry_back(y@[j as int], x@)) by {
                    if entry_back(y@[j as int], x@) {
                        let ii = choose|ii: int|
                            0 <= ii < x@.len() && (#[trigger] x@[ii]).key@ == y@[j as int].key@
                                && cell_eq(x@[ii].val, y@[j as int].val);
                        assert(false);
                    }
                }
            }
            return false;
        }
        j = j + 1;
    }
    true
}

fn segs_equal(a: &PathSeg, b: &PathSeg) -> (r: bool)
    ensures
        r == seg_eq(*a, *b),
{
    match (a, b) {
        (PathSeg::Elem(x), PathSeg::Elem(y)) => *x == *y,
        (PathSeg::Key(x), PathSeg::Key(y)) => bytes_equal(x, y),
        _ => false,
    }
}

pub fn pointers_equal(p: &Pointer, q: &Pointer) -> (r: bool)
    ensures
        r == ptr_eq(*p, *q),
{
    if p.base != q.base {
        return false;
    }
    let n = p.path.len();
    if n != q.path.len() {
        return false;
    }
    let mut i: usize = 0;
    while i < n
        invariant
            0 <= i <= n,
            n == p.path@.len(),
            n == q.path@.len(),
            p.base == q.base,
            forall|j: int| 0 <= j < i ==> seg_eq(#[trigger] p.path@[j], q.path@[j]),
        decreases n - i,
    {
        if !segs_equal(&p.path[i], &q.path[i]) {
            return false;
        }
        i = i + 1;
    }
    true
}

/// Decides structural equality of two runtime values.
pub fn cells_equal(a: &Cell, b: &Cell) -> (r: bool)
    ensures
        r == cell_eq(*a, *b),
    decreases *a,
{
    match (a, b) {
        (Cell::Empty, Cell::Empty) => true,
        (Cell::Boolean(x), Cell::Boolean(y)) => *x == *y,
        (Cell::Number(x), Cell::Number(y)) => *x == *y,
        (Cell::Str(x), Cell::Str(y)) => bytes_equal(x, y),
        (Cell::Bytes(x), Cell::Bytes(y)) => bytes_equal(x, y),
        (Cell::Array(x), Cell::Array(y)) => cell_vecs_equal(x, y),
        (Cell::Object(c, x), Cell::Object(d, y)) => *c == *d && cell_vecs_equal(x, y),
        (Cell::Dict(x), Cell::Dict(y)) => {
            if x.len() != y.len() {
                false
            } else {
                dict_covers(x, y) && dict_backs(y, x)
            }
        },
        (Cell::Ptr(p), Cell::Ptr(q)) => pointers_equal(p, q),
        (Cell::VoidPtr(x), Cell::VoidPtr(y)) => *x == *y,
        _ => false,
    }
}

pub fn clone_bytes(src: &Vec<u8>) -> (r: Vec<u8>)
    ensures
        r@ == src@,
{
    let n = src.len();
    let mut r: Vec<u8> = Vec::new();
    let mut i: usize = 0;
    while i < n
        invariant
            0 <= i <= n,
            n == src@.len(),
            r@ == src@.subrange(0, i as int),
        decreases n - i,
    {
        r.push(src[i]);
        proof {
            assert(r@ =~= src@.subrange(0, i as int + 1));
        }
        i = i + 1;
    }
    proof {
        assert(src@.subrange(0, n as int) =~= src@);
    }
    r
}

fn clone_seg(s: &PathSeg) -> (r: PathSeg)
    ensures
        seg_eq(r, *s),
{
    match s {
        PathSeg::Elem(i) => PathSeg::Elem(*i),
        PathSeg::Key(k) => PathSeg::Key(clone_bytes(k)),
    }
}

pub fn clone_pointer(p: &Pointer) -> (r: Pointer)
    ensures
        ptr_eq(r, *p),
{
    let n = p.path.len();
    let mut path: Vec<PathSeg> = Vec::new();
    let mut i: usize = 0;
    while i < n
        invariant
            0 <= i <= n,
            n == p.path@.len(),
            path@.len() == i,
            forall|j: int| 0 <= j < i ==> seg_eq(#[trigger] path@[j], p.path@[j]),
        decreases n - i,
    {
        path.push(clone_seg(&p.path[i]));
        i = i + 1;
    }
    Pointer { base: p.base, path }
}

/// Makes a structurally equal copy: the value-semantics duplicate used
/// by the stack and storage opcodes.
pub fn clone_cell(c: &Cell) -> (r: Cell)
    ensures
        cell_eq(r, *c),
    decreases *c,
{
    match c {
        Cell::Empty => Cell::Empty,
        Cell::Boolean(x) => Cell::Boolean(*x),
        Cell::Number(x) => Cell::Number(*x),
        Cell::Str(x) => Cell::Str(clone_bytes(x)),
        Cell::Bytes(x) => Cell::Bytes(clone_bytes(x)),
        Cell::Array(x) => Cell::Array(clone_cell_vec(x)),
        Cell::Object(c, x) => Cell::Object(*c, clone_cell_vec(x)),
        Cell::Dict(x) => Cell::Dict(clone_dict_entries(x)),
        Cell::Ptr(p) => Cell::Ptr(clone_pointer(p)),
        Cell::VoidPtr(x) => Cell::VoidPtr(*x),
    }
}

fn clone_dict_entries(x: &Vec<DictEntry>) -> (es: Vec<DictEntry>)
    ensures
        es@.len() == x@.len(),
        forall|i: int| 0 <= i < es@.len() ==> entry_in(#[trigger] es@[i], x@),
        forall|j: int| 0 <= j < x@.len() ==> entry_back(#[trigger] x@[j], es@),
    decreases *x,
{
    let n = x.len();
    let mut es: Vec<DictEntry> = Vec::new();
    let mut i: usize = 0;
    while i < n
        invariant
            0 <= i <= n,
            n == x@.len(),
            es@.len() == i,
            forall|j: int| 0 <= j < i ==> (#[trigger] es@[j]).key@ == x@[j].key@ && cell_eq(
                es@[j].val,
                x@[j].val,
            ),
        decreases n - i,
    {
        let e = DictEntry { key: clone_bytes(&x[i].key), val: clone_cell(&x[i].val) };
        es.push(e);
        i = i + 1;
    }
    proof {
        assert forall|i: int| 0 <= i < es@.len() implies entry_in(#[trigger] es@[i], x@) by {
            assert(es@[i].key@ == x@[i].key@ && cell_eq(es@[i].val, x@[i].val));
            lemma_cell_eq_symmetric(es@[i].val, x@[i].val);
            assert(0 <= i < x@.len() && x@[i].key@ == es@[i].key@ && cell_eq(
                es@[i].val,
                x@[i].val,
            ));
        }
        assert forall|j: int| 0 <= j < x@.len() implies entry_back(#[trigger] x@[j], es@) by {
            assert(0 <= j < es@.len() && es@[j].key@ == x@[j].key@ && cell_eq(
                es@[j].val,
                x@[j].val,
            ));
        }
    }
    es
}

fn clone_cell_vec(x: &Vec<Cell>) -> (r: Vec<Cell>)
    ensures
        r@.len() == x@.len(),
        forall|i: int| 0 <= i < x@.len() ==> cell_eq(#[trigger] r@[i], x@[i]),
    decreases *x,
{
    let n = x.len();
    let mut r: Vec<Cell> = Vec::new();
    let mut i: usize = 0;
    while i < n
        invariant
            0 <= i <= n,
            n == x@.len(),
            r@.len() == i,
            forall|j: int| 0 <= j < i ==> cell_eq(#[trigger] r@[j], x@[j]),
        decreases n - i,
    {
        r.push(clone_cell(&x[i]));
        i = i + 1;
    }
    r
}

/// Structural equality is reflexive: every value equals itself, so in
/// particular two arrays built from the same elements in the same order
/// compare equal.
pub proof fn lemma_cell_eq_reflexive(a: Cell)
    ensures
        cell_eq(a, a),
    decreases a,
{
    match a {
        Cell::Array(x) => {
            assert forall|i: int| 0 <= i < x@.len() implies cell_eq(#[trigger] x@[i], x@[i]) by {
                lemma_cell_eq_reflexive(x@[i]);
            }
        },
        Cell::Object(c, x) => {
            assert forall|i: int| 0 <= i < x@.len() implies cell_eq(#[trigger] x@[i], x@[i]) by {
                lemma_cell_eq_reflexive(x@[i]);
            }
        },
        Cell::Dict(x) => {
            assert forall|i: int| 0 <= i < x@.len() implies entry_in(#[trigger] x@[i], x@) by {
                lemma_cell_eq_reflexive(x@[i].val);
                assert((x@[i]).key@ == x@[i].key@ && cell_eq(x@[i].val, x@[i].val));
            }
            assert forall|j: int| 0 <= j < x@.len() implies entry_back(#[trigger] x@[j], x@) by {
                lemma_cell_eq_reflexive(x@[j].val);
                assert((x@[j]).key@ == x@[j].key@ && cell_eq(x@[j].val, x@[j].val));
            }
        },
        _ => {},
    }
}

/// Two arrays built from the same source elements in the same order —
/// as the array-construction opcode builds them, each element a
/// structurally equal copy of its source — compare structurally equal.
pub proof fn lemma_arrays_from_same_elements(xs: Seq<Cell>, a: Vec<Cell>, b: Vec<Cell>)
    requires
        a@.len() == xs.len(),
        b@.len() == xs.len(),
        forall|i: int| 0 <= i < xs.len() ==> cell_eq(#[trigger] a@[i], xs[i]),
        forall|i: int| 0 <= i < xs.len() ==> cell_eq(#[trigger] b@[i], xs[i]),
    ensures
        cell_eq(Cell::Array(a), Cell::Array(b)),
{
    assert forall|i: int| 0 <= i < a@.len() implies cell_eq(#[trigger] a@[i], b@[i]) by {
        lemma_cell_eq_symmetric(b@[i], xs[i]);
        lemma_cell_eq_transitive(a@[i], xs[i], b@[i]);
    }
}

/// Structural equality is symmetric.
pub proof fn lemma_cell_eq_symmetric(a: Cell, b: Cell)
    requires
        cell_eq(a, b),
    ensures
        cell_eq(b, a),
    decreases a,
{
    match (a, b) {
        (Cell::Array(x), Cell::Array(y)) => {
            assert forall|i: int| 0 <= i < y@.len() implies cell_eq(#[trigger] y@[i], x@[i]) by {
                lemma_cell_eq_symmetric(x@[i], y@[i]);
            }
        },
        (Cell::Object(c, x), Cell::Object(d, y)) => {
            assert forall|i: int| 0 <= i < y@.len() implies cell_eq(#[trigger] y@[i], x@[i]) by {
                lemma_cell_eq_symmetric(x@[i], y@[i]);
            }
        },
        (Cell::Dict(x), Cell::Dict(y)) => {
            assert forall|j: int| 0 <= j < y@.len() implies entry_in(#[trigger] y@[j], x@) by {
                assert(entry_back(y@[j], x@));
                let i = choose|i: int|
                    0 <= i < x@.len() && (#[trigger] x@[i]).key@ == y@[j].key@ && cell_eq(
                        x@[i].val,
                        y@[j].val,
                    );
                lemma_cell_eq_symmetric(x@[i].val, y@[j].val);
                assert(0 <= i < x@.len() && x@[i].key@ == y@[j].key@ && cell_eq(
                    y@[j].val,
                    x@[i].val,
                ));
            }
            assert forall|i: int| 0 <= i < x@.len() implies entry_back(#[trigger] x@[i], y@) by {
                assert(entry_in(x@[i], y@));
                let j = choose|j: int|
                    0 <= j < y@.len() && (#[trigger] y@[j]).key@ == x@[i].key@ && cell_eq(
                        x@[i].val,
                        y@[j].val,
                    );
                lemma_cell_eq_symmetric(x@[i].val, y@[j].val);
                assert(0 <= j < y@.len() && y@[j].key@ == x@[i].key@ && cell_eq(
                    y@[j].val,
                    x@[i].val,
                ));
            }
        },
        (Cell::Ptr(p), Cell::Ptr(q)) => {
            assert forall|i: int| 0 <= i < q.path@.len() implies seg_eq(
                #[trigger] q.path@[i],
                p.path@[i],
            ) by {
                assert(seg_eq(p.path@[i], q.path@[i]));
            }
        },
        _ => {},
    }
}

/// Structural equality is transitive.
pub proof fn lemma_cell_eq_transitive(a: Cell, b: Cell, c: Cell)
    requires
        cell_eq(a, b),
        cell_eq(b, c),
    ensures
        cell_eq(a, c),
    decreases a,
{
    match (a, b, c) {
        (Cell::Array(x), Cell::Array(y), Cell::Array(z)) => {
            assert forall|i: int| 0 <= i < x@.len() implies cell_eq(#[trigger] x@[i], z@[i]) by {
                lemma_cell_eq_transitive(x@[i], y@[i], z@[i]);
            }
        },
        (Cell::Object(c, x), Cell::Object(d, y), Cell::Object(g, z)) => {
            assert forall|i: int| 0 <= i < x@.len() implies cell_eq(#[trigger] x@[i], z@[i]) by {
                lemma_cell_eq_transitive(x@[i], y@[i], z@[i]);
            }
        },
        (Cell::Dict(x), Cell::Dict(y), Cell::Dict(z)) => {
            assert forall|i: int| 0 <= i < x@.len() implies entry_in(#[trigger] x@[i], z@) by {
                assert(entry_in(x@[i], y@));
                let j = choose|j: int|
                    0 <= j < y@.len() && (#[trigger] y@[j]).key@ == x@[i].key@ && cell_eq(
                        x@[i].val,
                        y@[j].val,
                    );
                assert(entry_in(y@[j], z@));
                let k = choose|k: int|
                    0 <= k < z@.len() && (#[trigger] z@[k]).key@ == y@[j].key@ && cell_eq(
                        y@[j].val,
                        z@[k].val,
                    );
                lemma_cell_eq_transitive(x@[i].val, y@[j].val, z@[k].val);
                assert(0 <= k < z@.len() && z@[k].key@ == x@[i].key@ && cell_eq(
                    x@[i].val,
                    z@[k].val,
                ));
            }
            assert forall|k: int| 0 <= k < z@.len() implies entry_back(#[trigger] z@[k], x@) by {
                assert(entry_back(z@[k], y@));
                let j = choose|j: int|
                    0 <= j < y@.len() && (#[trigger] y@[j]).key@ == z@[k].key@ && cell_eq(
                        y@[j].val,
                        z@[k].val,
                    );
                assert(entry_back(y@[j], x@));
                let i = choose|i: int|
                    0 <= i < x@.len() && (#[trigger] x@[i]).key@ == y@[j].key@ && cell_eq(
                        x@[i].val,
                        y@[j].val,
                    );
                lemma_cell_eq_transitive(x@[i].val, y@[j].val, z@[k].val);
                assert(0 <= i < x@.len() && x@[i].key@ == z@[k].key@ && cell_eq(
                    x@[i].val,
                    z@[k].val,
                ));
            }
        },
        (Cell::Ptr(p), Cell::Ptr(q), Cell::Ptr(s)) => {
            assert forall|i: int| 0 <= i < p.path@.len() implies seg_eq(
                #[trigger] p.path@[i],
                s.path@[i],
            ) by {
                assert(seg_eq(p.path@[i], q.path@[i]));
                assert(seg_eq(q.path@[i], s.path@[i]));
            }
        },
        _ => {},
    }
}

} // verus!
