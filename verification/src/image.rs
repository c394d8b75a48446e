use vstd::prelude::*;

verus! {

use crate::errors::FormatError;
use crate::varint::{read_vint, get_vint, lemma_vint_end_in_range, vint_end, vint_enc, lemma_read_vint_embedded};
use vstd::utf8::{
    valid_utf8, valid_first_scalar, pop_first_scalar, length_of_first_scalar,
    is_continuation_byte,
};

/// The single object-format version this executor accepts.
pub const SUPPORTED_VERSION: usize = 1;

/// The four signature bytes at the start of every object file:
/// `N`, `e`, NUL, `n`.
pub open spec fn signature() -> Seq<u8> {
    seq![0x4eu8, 0x65u8, 0x00u8, 0x6eu8]
}

/// One function descriptor: all fields are indices or counts decoded
/// from the function table.  `entry` is a byte offset into the
/// instruction stream.
#[derive(Clone, Copy, PartialEq, Eq, Structural, Debug)]
pub struct Function {
    pub name: usize,
    pub nest: usize,
    pub params: usize,
    pub locals: usize,
    pub entry: usize,
}

/// One type-table entry: indices of the type's name and descriptor in
/// the string table.
#[derive(Clone, Copy, PartialEq, Eq, Structural, Debug)]
pub struct TypeEntry {
    pub name: usize,
    pub descriptor: usize,
}

/// The mathematical model of a loaded program image.
#[verifier::ext_equal]
pub struct ImageV {
    pub version: nat,
    pub hash: Seq<u8>,
    pub global_size: nat,
    pub strtable: Seq<Seq<u8>>,
    pub types: Seq<TypeEntry>,
    pub functions: Seq<Function>,
    pub code: Seq<u8>,
}

/// A loaded program image: produced once by the loader, immutable and
/// read-only for the rest of the run.
pub struct Bytecode {
    pub version: usize,
    pub source_hash: Vec<u8>,
    pub global_size: usize,
    pub strtable: Vec<Vec<u8>>,
    pub types: Vec<TypeEntry>,
    pub functions: Vec<Function>,
    pub code: Vec<u8>,
}

pub open spec fn strtab_view(v: Seq<Vec<u8>>) -> Seq<Seq<u8>> {
    v.map_values(|x: Vec<u8>| x@)
}

impl Bytecode {
    /// The image this value denotes.
    pub open spec fn img(self) -> ImageV {
        ImageV {
            version: self.version as nat,
            hash: self.source_hash@,
            global_size: self.global_size as nat,
            strtable: strtab_view(self.strtable@),
            types: self.types@,
            functions: self.functions@,
            code: self.code@,
        }
    }
}

/// Reads one varint that a reserved section requires to be zero; gives
/// the position after it.
pub open spec fn read_zero(s: Seq<u8>, i: int) -> Result<int, FormatError> {
    match read_vint(s, i) {
        Result::Ok((v, j)) => if v == 0 {
            Result::Ok(j)
        } else {
            Result::Err(FormatError::ReservedNotEmpty)
        },
        Result::Err(e) => Result::Err(e),
    }
}

/// Parses string-table entries from `i` up to exactly `end`; each entry
/// is a varint length followed by that many bytes, which must be valid
/// UTF-8 text.
pub open spec fn parse_strtab(s: Seq<u8>, i: int, end: int, acc: Seq<Seq<u8>>) -> Result<
    Seq<Seq<u8>>,
    FormatError,
>
    decreases end - i,
    when true via parse_strtab_decreases
{
    if i >= end {
        Result::Ok(acc)
    } else {
        match read_vint(s, i) {
            Result::Ok((len, j)) => if j > end {
                Result::Err(FormatError::Truncated)
            } else if len > end - j {
                Result::Err(FormatError::Truncated)
            } else if !valid_utf8(s.subrange(j, j + len)) {
                Result::Err(FormatError::BadString)
            } else {
                parse_strtab(s, j + len, end, acc.push(s.subrange(j, j + len)))
            },
            Result::Err(e) => Result::Err(e),
        }
    }
}

#[via_fn]
proof fn parse_strtab_decreases(s: Seq<u8>, i: int, end: int, acc: Seq<Seq<u8>>) {
    if i < end {
        if vint_end(s, i) is Some {
            lemma_vint_end_in_range(s, i);
        }
    }
}

/// Parses `n` type-table entries of two varints each.
pub open spec fn parse_types(s: Seq<u8>, i: int, n: nat, acc: Seq<TypeEntry>) -> Result<
    (Seq<TypeEntry>, int),
    FormatError,
>
    decreases n,
{
    if n == 0 {
        Result::Ok((acc, i))
    } else {
        match read_vint(s, i) {
            Result::Ok((name, j)) => match read_vint(s, j) {
                Result::Ok((descriptor, k)) => parse_types(
                    s,
                    k,
                    (n - 1) as nat,
                    acc.push(TypeEntry { name: name as usize, descriptor: descriptor as usize }),
                ),
                Result::Err(e) => Result::Err(e),
            },
            Result::Err(e) => Result::Err(e),
        }
    }
}

/// Parses `n` function-table entries of five varints each.
pub open spec fn parse_funcs(s: Seq<u8>, i: int, n: nat, acc: Seq<Function>) -> Result<
    (Seq<Function>, int),
    FormatError,
>
    decreases n,
{
    if n == 0 {
        Result::Ok((acc, i))
    } else {
        match read_vint(s, i) {
            Result::Ok((name, i1)) => match read_vint(s, i1) {
                Result::Ok((nest, i2)) => match read_vint(s, i2) {
                    Result::Ok((params, i3)) => match read_vint(s, i3) {
                        Result::Ok((locals, i4)) => match read_vint(s, i4) {
                            Result::Ok((entry, i5)) => parse_funcs(
                                s,
                                i5,
                                (n - 1) as nat,
                                acc.push(
                                    Function {
                                        name: name as usize,
                                        nest: nest as usize,
                                        params: params as usize,
                                        locals: locals as usize,
                                        entry: entry as usize,
                                    },
                                ),
                            ),
                            Result::Err(e) => Result::Err(e),
                        },
                        Result::Err(e) => Result::Err(e),
                    },
                    Result::Err(e) => Result::Err(e),
                },
                Result::Err(e) => Result::Err(e),
            },
            Result::Err(e) => Result::Err(e),
        }
    }
}

/// What loading a raw buffer yields: the image, or the first structural
/// violation, in the order the sections stand in the file.  The
/// type-table count reserves one more slot than the number of entries
/// that follow, so `count - 1` entries are read; the six reserved
/// sections before the function table and the two after it must all be
/// zero.
pub open spec fn load_spec(s: Seq<u8>) -> Result<ImageV, FormatError> {
    if s.len() < 4 {
        Result::Err(FormatError::Truncated)
    } else if s.subrange(0, 4) != signature() {
        Result::Err(FormatError::BadSignature)
    } else {
        match read_vint(s, 4) {
            Result::Err(e) => Result::Err(e),
            Result::Ok((version, i1)) => if version != SUPPORTED_VERSION {
                Result::Err(FormatError::BadVersion)
            } else if i1 + 32 > s.len() {
                Result::Err(FormatError::Truncated)
            } else {
                let hash = s.subrange(i1, i1 + 32);
                match read_vint(s, i1 + 32) {
                    Result::Err(e) => Result::Err(e),
                    Result::Ok((global_size, i2)) => match read_vint(s, i2) {
                        Result::Err(e) => Result::Err(e),
                        Result::Ok((stsize, i3)) => if stsize > s.len() - i3 {
                            Result::Err(FormatError::Truncated)
                        } else {
                            match parse_strtab(s, i3, i3 + stsize, Seq::empty()) {
                                Result::Err(e) => Result::Err(e),
                                Result::Ok(strtable) => match read_vint(s, i3 + stsize) {
                                    Result::Err(e) => Result::Err(e),
                                    Result::Ok((tsize, i4)) => match parse_types(
                                        s,
                                        i4,
                                        if tsize == 0 {
                                            0
                                        } else {
                                            (tsize - 1) as nat
                                        },
                                        Seq::empty(),
                                    ) {
                                        Result::Err(e) => Result::Err(e),
                                        Result::Ok((types, i5)) => load_tail(
                                            s,
                                            i5,
                                            version,
                                            hash,
                                            global_size,
                                            strtable,
                                            types,
                                        ),
                                    },
                                },
                            }
                        },
                    },
                }
            },
        }
    }
}

/// The sections after the type table: six reserved zero counts, the
/// function table, two more reserved zero counts, then the instruction
/// stream, which is everything that remains.
pub open spec fn load_tail(
    s: Seq<u8>,
    i: int,
    version: nat,
    hash: Seq<u8>,
    global_size: nat,
    strtable: Seq<Seq<u8>>,
    types: Seq<TypeEntry>,
) -> Result<ImageV, FormatError> {
    match read_zero(s, i) {
        Result::Err(e) => Result::Err(e),
        Result::Ok(i1) => match read_zero(s, i1) {
            Result::Err(e) => Result::Err(e),
            Result::Ok(i2) => match read_zero(s, i2) {
                Result::Err(e) => Result::Err(e),
                Result::Ok(i3) => match read_zero(s, i3) {
                    Result::Err(e) => Result::Err(e),
                    Result::Ok(i4) => match read_zero(s, i4) {
                        Result::Err(e) => Result::Err(e),
                        Result::Ok(i5) => match read_zero(s, i5) {
                            Result::Err(e) => Result::Err(e),
                            Result::Ok(i6) => match read_vint(s, i6) {
                                Result::Err(e) => Result::Err(e),
                                Result::Ok((fsize, i7)) => match parse_funcs(
                                    s,
                                    i7,
                                    fsize,
                                    Seq::empty(),
                                ) {
                                    Result::Err(e) => Result::Err(e),
                                    Result::Ok((functions, i8)) => match read_zero(s, i8) {
                                        Result::Err(e) => Result::Err(e),
                                        Result::Ok(i9) => match read_zero(s, i9) {
                                            Result::Err(e) => Result::Err(e),
                                            Result::Ok(i10) => if i10 > s.len() {
                                                Result::Err(FormatError::Truncated)
                                            } else {
                                                Result::Ok(
                                                    ImageV {
                                                        version,
                                                        hash,
                                                        global_size,
                                                        strtable,
                                                        types,
                                                        functions,
                                                        code: s.subrange(i10, s.len() as int),
                                                    },
                                                )
                                            },
                                        },
                                    },
                                },
                            },
                        },
                    },
                },
            },
        },
    }
}

fn expect_zero(bytes: &Vec<u8>, i: &mut usize) -> (r: Result<(), FormatError>)
    ensures
        match read_zero(bytes@, *old(i) as int) {
            Result::Ok(j) => r is Ok && *final(i) == j && *old(i) < j <= bytes@.len(),
            Result::Err(e) => r == Result::<(), FormatError>::Err(e),
        },
{
    match get_vint(bytes, i) {
        Result::Ok(v) => {
            if v == 0 {
                Result::Ok(())
            } else {
                Result::Err(FormatError::ReservedNotEmpty)
            }
        },
        Result::Err(e) => Result::Err(e),
    }
}

fn load_types(bytes: &Vec<u8>, start: usize, count: usize) -> (r: Result<
    (Vec<TypeEntry>, usize),
    FormatError,
>)
    requires
        start <= bytes@.len(),
    ensures
        match parse_types(bytes@, start as int, count as nat, Seq::empty()) {
            Result::Ok((tys, end)) => r is Ok && r->Ok_0.0@ == tys && r->Ok_0.1 == end && end
                <= bytes@.len(),
            Result::Err(e) => r is Err && r->Err_0 == e,
        },
{
    let ghost s = bytes@;
    let mut tys: Vec<TypeEntry> = Vec::new();
    let mut cur: usize = start;
    let mut done: usize = 0;
    while done < count
        invariant
            s == bytes@,
            0 <= done <= count,
            cur as int <= s.len(),
            parse_types(s, start as int, count as nat, Seq::empty()) == parse_types(
                s,
                cur as int,
                (count - done) as nat,
                tys@,
            ),
        decreases count - done,
    {
        let mut i = cur;
        let name = match get_vint(bytes, &mut i) {
            Result::Ok(v) => v,
            Result::Err(e) => {
                return Result::Err(e);
            },
        };
        let descriptor = match get_vint(bytes, &mut i) {
            Result::Ok(v) => v,
            Result::Err(e) => {
                return Result::Err(e);
            },
        };
        tys.push(TypeEntry { name, descriptor });
        cur = i;
        done = done + 1;
    }
    Result::Ok((tys, cur))
}

fn load_funcs(bytes: &Vec<u8>, start: usize, count: usize) -> (r: Result<
    (Vec<Function>, usize),
    FormatError,
>)
    requires
        start <= bytes@.len(),
    ensures
        match parse_funcs(bytes@, start as int, count as nat, Seq::empty()) {
            Result::Ok((fns, end)) => r is Ok && r->Ok_0.0@ == fns && r->Ok_0.1 == end && end
                <= bytes@.len(),
            Result::Err(e) => r is Err && r->Err_0 == e,
        },
{
    let ghost s = bytes@;
    let mut fns: Vec<Function> = Vec::new();
    let mut cur: usize = start;
    let mut done: usize = 0;
    while done < count
        invariant
            s == bytes@,
            0 <= done <= count,
            cur as int <= s.len(),
            parse_funcs(s, start as int, count as nat, Seq::empty()) == parse_funcs(
                s,
                cur as int,
                (count - done) as nat,
                fns@,
            ),
        decreases count - done,
    {
        let mut i = cur;
        let name = match get_vint(bytes, &mut i) {
            Result::Ok(v) => v,
            Result::Err(e) => {
                return Result::Err(e);
            },
        };
        let nest = match get_vint(bytes, &mut i) {
            Result::Ok(v) => v,
            Result::Err(e) => {
                return Result::Err(e);
            },
        };
        let params = match get_vint(bytes, &mut i) {
            Result::Ok(v) => v,
            Result::Err(e) => {
                return Result::Err(e);
            },
        };
        let locals = match get_vint(bytes, &mut i) {
            Result::Ok(v) => v,
            Result::Err(e) => {
                return Result::Err(e);
            },
        };
        let entry = match get_vint(bytes, &mut i) {
            Result::Ok(v) => v,
            Result::Err(e) => {
                return Result::Err(e);
            },
        };
        fns.push(Function { name, nest, params, locals, entry });
        cur = i;
        done = done + 1;
    }
    Result::Ok((fns, cur))
}

/// Copies `bytes[start..end]` into a fresh buffer.
pub fn sub_vec(bytes: &Vec<u8>, start: usize, end: usize) -> (r: Vec<u8>)
    requires
        start <= end <= bytes@.len(),
    ensures
        r@ == bytes@.subrange(start as int, end as int),
{
    let mut r: Vec<u8> = Vec::new();
    let mut i: usize = start;
    while i < end
        invariant
            start <= i <= end <= bytes@.len(),
            r@ == bytes@.subrange(start as int, i as int),
        decreases end - i,
    {
        r.push(bytes[i]);
        proof {
            assert(r@ =~= bytes@.subrange(start as int, i as int + 1));
        }
        i = i + 1;
    }
    proof {
        assert(bytes@.subrange(start as int, start as int) =~= Seq::<u8>::empty());
    }
    r
}

/// The bytes of a minimal object file: correct signature and version,
/// no globals, one string-table entry, an empty type table, all
/// reserved sections zero, no functions, and `code` as the instruction
/// stream.
pub open spec fn minimal_image(hash: Seq<u8>, entry: Seq<u8>, code: Seq<u8>) -> Seq<u8> {
    let st = vint_enc(entry.len()) + entry;
    // after the string table come ten counts that are all zero (each a
    // one-byte varint): the type table, the six reserved sections, the
    // function table, and the two trailing reserved sections
    signature() + vint_enc(1) + hash + vint_enc(0) + vint_enc(st.len()) + st + Seq::new(
        10,
        |i: int| 0u8,
    ) + code
}

/// A minimal valid object loads without error, to exactly the expected
/// image: the supported version, the hash verbatim, no global slots,
/// the one string-table entry byte-exact, empty type and function
/// tables, and everything after the class count as the instruction
/// stream.
#[verifier::rlimit(100)]
#[verifier::spinoff_prover]
pub proof fn lemma_minimal_image_loads(hash: Seq<u8>, entry: Seq<u8>, code: Seq<u8>)
    requires
        hash.len() == 32,
        valid_utf8(entry),
        vint_enc(entry.len()).len() + entry.len() <= usize::MAX,
    ensures
        load_spec(minimal_image(hash, entry, code)) matches Result::Ok(img) && img.version == 1
            && img.hash == hash && img.global_size == 0 && img.strtable == seq![entry] && img.types
            == Seq::<TypeEntry>::empty() && img.functions == Seq::<Function>::empty() && img.code
            == code,
{
    let s = minimal_image(hash, entry, code);
    let elen = vint_enc(entry.len());
    let st = elen + entry;
    let stlen = vint_enc(st.len());
    crate::varint::lemma_vint_enc_shape(0);
    crate::varint::lemma_vint_enc_shape(1);
    assert(vint_enc(0).len() == 1 && vint_enc(1).len() == 1);
    let o5 = 38 + stlen.len() as int;
    let o6 = o5 + st.len() as int;
    assert(s.len() == o6 + 10 + code.len());
    assert(s.subrange(0, 4) =~= signature());
    assert(s.subrange(4, 5) =~= vint_enc(1));
    lemma_read_vint_embedded(s, 4, 1);
    assert(s.subrange(5, 37) =~= hash);
    assert(s.subrange(37, 38) =~= vint_enc(0));
    lemma_read_vint_embedded(s, 37, 0);
    let stl = st.len() as usize;
    assert(vint_enc(stl as nat) == stlen);
    assert(s.subrange(38, o5) =~= stlen);
    lemma_read_vint_embedded(s, 38, stl);
    // the string-table section: one entry, ending exactly at its end
    let el = entry.len() as usize;
    assert(vint_enc(el as nat) == elen);
    assert(s.subrange(o5, o5 + elen.len() as int) =~= elen);
    lemma_read_vint_embedded(s, o5, el);
    assert(s.subrange(o5 + elen.len() as int, o6) =~= entry);
    assert(parse_strtab(s, o6, o6, Seq::empty().push(entry)) == Result::<
        Seq<Seq<u8>>,
        FormatError,
    >::Ok(Seq::empty().push(entry)));
    assert(parse_strtab(s, o5, o6, Seq::empty()) == Result::<Seq<Seq<u8>>, FormatError>::Ok(
        Seq::empty().push(entry),
    ));
    assert(Seq::empty().push(entry) =~= seq![entry]);
    // the ten remaining varints are all zero: the type-table count, six
    // reserved sections, the function count, the two trailing reserved
    // sections
    assert(s.subrange(o6 + 0, o6 + 1) =~= vint_enc(0));
    assert(s.subrange(o6 + 1, o6 + 2) =~= vint_enc(0));
    assert(s.subrange(o6 + 2, o6 + 3) =~= vint_enc(0));
    assert(s.subrange(o6 + 3, o6 + 4) =~= vint_enc(0));
    assert(s.subrange(o6 + 4, o6 + 5) =~= vint_enc(0));
    assert(s.subrange(o6 + 5, o6 + 6) =~= vint_enc(0));
    assert(s.subrange(o6 + 6, o6 + 7) =~= vint_enc(0));
    assert(s.subrange(o6 + 7, o6 + 8) =~= vint_enc(0));
    assert(s.subrange(o6 + 8, o6 + 9) =~= vint_enc(0));
    assert(s.subrange(o6 + 9, o6 + 10) =~= vint_enc(0));
    lemma_read_vint_embedded(s, o6, 0);
    lemma_read_vint_embedded(s, o6 + 1, 0);
    lemma_read_vint_embedded(s, o6 + 2, 0);
    lemma_read_vint_embedded(s, o6 + 3, 0);
    lemma_read_vint_embedded(s, o6 + 4, 0);
    lemma_read_vint_embedded(s, o6 + 5, 0);
    lemma_read_vint_embedded(s, o6 + 6, 0);
    lemma_read_vint_embedded(s, o6 + 7, 0);
    lemma_read_vint_embedded(s, o6 + 8, 0);
    lemma_read_vint_embedded(s, o6 + 9, 0);
    assert(s.subrange(o6 + 10, s.len() as int) =~= code);
    assert(load_spec(s) matches Result::Ok(img) && img.version == 1 && img.hash == hash
        && img.global_size == 0 && img.strtable == seq![entry] && img.types == Seq::<
        TypeEntry,
    >::empty() && img.functions == Seq::<Function>::empty() && img.code == code);
}

/// Decides UTF-8 validity of a byte buffer, against the standard's
/// notion of well-formedness (no truncated scalars, no overlong
/// encodings, no surrogates, nothing above the last code point).
pub fn utf8_valid(b: &Vec<u8>) -> (r: bool)
    ensures
        r == valid_utf8(b@),
{
    let n = b.len();
    let mut i: usize = 0;
    proof {
        assert(b@.skip(0) =~= b@);
    }
    while i < n
        invariant
            0 <= i <= n,
            n == b@.len(),
            valid_utf8(b@) == valid_utf8(b@.skip(i as int)),
        decreases n - i,
    {
        let ghost s = b@.skip(i as int);
        proof {
            assert(s.len() == n - i);
            assert(s[0] == b@[i as int]);
            if 1 < s.len() {
                assert(s[1] == b@[i as int + 1]);
            }
            if 2 < s.len() {
                assert(s[2] == b@[i as int + 2]);
            }
            if 3 < s.len() {
                assert(s[3] == b@[i as int + 3]);
            }
        }
        let b0 = b[i];
        let width: usize = if b0 < 0x80 {
            proof {
                assert(b0 & 0x7f < 0xd800u32 && (b0 & 0x7f) as u32 == b0 as u32 || b0 >= 0x80)
                    by (bit_vector);
                assert(valid_first_scalar(s));
            }
            1
        } else if b0 < 0xc2 {
            // a bare continuation byte, or the two bytes whose two-byte
            // encodings are always overlong (0xc0, 0xc1)
            proof {
                if 0xc0 <= b0 && s.len() >= 2 && is_continuation_byte(s[1]) {
                    let b1 = s[1];
                    assert((((b0 & 0x1f) as u32) << 6 | ((b1 & 0x3f) as u32)) < 0x80)
                        by (bit_vector)
                        requires
                            0xc0 <= b0 < 0xc2,
                            0x80 <= b1 <= 0xbf,
                    ;
                }
                assert(!valid_first_scalar(s));
            }
            return false;
        } else if b0 < 0xe0 {
            if n - i < 2 {
                return false;
            }
            let b1 = b[i + 1];
            if !(0x80 <= b1 && b1 <= 0xbf) {
                return false;
            }
            proof {
                assert((((b0 & 0x1f) as u32) << 6 | ((b1 & 0x3f) as u32)) >= 0x80 && (((b0
                    & 0x1f) as u32) << 6 | ((b1 & 0x3f) as u32)) <= 0x7ff) by (bit_vector)
                    requires
                        0xc2 <= b0 <= 0xdf,
                        0x80 <= b1 <= 0xbf,
                ;
                assert(valid_first_scalar(s));
            }
            2
        } else if b0 < 0xf0 {
            if n - i < 3 {
                return false;
            }
            let b1 = b[i + 1];
            let b2 = b[i + 2];
            if !(0x80 <= b1 && b1 <= 0xbf) || !(0x80 <= b2 && b2 <= 0xbf) {
                return false;
            }
            if b0 == 0xe0 && b1 < 0xa0 {
                // overlong three-byte encoding
                proof {
                    assert((((b0 & 0x0f) as u32) << 12 | ((b1 & 0x3f) as u32) << 6 | ((b2
                        & 0x3f) as u32)) < 0x800) by (bit_vector)
                        requires
                            b0 == 0xe0,
                            0x80 <= b1 < 0xa0,
                            0x80 <= b2 <= 0xbf,
                    ;
                    assert(!valid_first_scalar(s));
                }
                return false;
            }
            if b0 == 0xed && b1 >= 0xa0 {
                // the surrogate range
                proof {
                    assert(0xd800 <= (((b0 & 0x0f) as u32) << 12 | ((b1 & 0x3f) as u32) << 6 | ((b2
                        & 0x3f) as u32)) && (((b0 & 0x0f) as u32) << 12 | ((b1 & 0x3f) as u32) << 6
                        | ((b2 & 0x3f) as u32)) <= 0xdfff) by (bit_vector)
                        requires
                            b0 == 0xed,
                            0xa0 <= b1 <= 0xbf,
                            0x80 <= b2 <= 0xbf,
                    ;
                    assert(!valid_first_scalar(s));
                }
                return false;
            }
            proof {
                assert((b0 != 0xe0 || b1 >= 0xa0) && !(b0 == 0xed && b1 >= 0xa0) ==> (((b0
                    & 0x0f) as u32) << 12 | ((b1 & 0x3f) as u32) << 6 | ((b2 & 0x3f) as u32))
                    >= 0x800 && !(0xd800 <= (((b0 & 0x0f) as u32) << 12 | ((b1 & 0x3f) as u32) << 6
                    | ((b2 & 0x3f) as u32)) <= 0xdfff)) by (bit_vector)
                    requires
                        0xe0 <= b0 <= 0xef,
                        0x80 <= b1 <= 0xbf,
                        0x80 <= b2 <= 0xbf,
                ;
                assert(valid_first_scalar(s));
            }
            3
        } else if b0 < 0xf8 {
            if n - i < 4 {
                return false;
            }
            let b1 = b[i + 1];
            let b2 = b[i + 2];
            let b3 = b[i + 3];
            if !(0x80 <= b1 && b1 <= 0xbf) || !(0x80 <= b2 && b2 <= 0xbf) || !(0x80 <= b3 && b3
                <= 0xbf) {
                return false;
            }
            if (b0 == 0xf0 && b1 < 0x90) || b0 > 0xf4 || (b0 == 0xf4 && b1 > 0x8f) {
                // overlong four-byte encoding, or above the last code point
                proof {
                    assert((b0 == 0xf0 && b1 < 0x90) || b0 > 0xf4 || (b0 == 0xf4 && b1 > 0x8f)
                        ==> !(0x10000 <= (((b0 & 0x07) as u32) << 18 | ((b1 & 0x3f) as u32) << 12
                        | ((b2 & 0x3f) as u32) << 6 | ((b3 & 0x3f) as u32)) <= 0x10ffff))
                        by (bit_vector)
                        requires
                            0xf0 <= b0 <= 0xf7,
                            0x80 <= b1 <= 0xbf,
                            0x80 <= b2 <= 0xbf,
                            0x80 <= b3 <= 0xbf,
                    ;
                    assert(!valid_first_scalar(s));
                }
                return false;
            }
            proof {
                assert(!(b0 == 0xf0 && b1 < 0x90) && b0 <= 0xf4 && !(b0 == 0xf4 && b1 > 0x8f)
                    ==> 0x10000 <= (((b0 & 0x07) as u32) << 18 | ((b1 & 0x3f) as u32) << 12 | ((b2
                    & 0x3f) as u32) << 6 | ((b3 & 0x3f) as u32)) <= 0x10ffff) by (bit_vector)
                    requires
                        0xf0 <= b0 <= 0xf7,
                        0x80 <= b1 <= 0xbf,
                        0x80 <= b2 <= 0xbf,
                        0x80 <= b3 <= 0xbf,
                ;
                assert(valid_first_scalar(s));
            }
            4
        } else {
            // 0xf8..0xff lead nothing
            proof {
                assert(!valid_first_scalar(s));
            }
            return false;
        };
        proof {
            assert(length_of_first_scalar(s) == width);
            assert(pop_first_scalar(s) =~= b@.skip(i as int + width as int));
        }
        i = i + width;
    }
    proof {
        assert(b@.skip(n as int) =~= Seq::<u8>::empty());
    }
    true
}

impl Bytecode {
    /// Unpacks the string-table section lying at `bytes[start..end]`
    /// into its ordered list of entries.
    pub fn get_strtable(bytes: &Vec<u8>, start: usize, end: usize) -> (r: Result<
        Vec<Vec<u8>>,
        FormatError,
    >)
        requires
            start <= end <= bytes@.len(),
        ensures
            match parse_strtab(bytes@, start as int, end as int, Seq::empty()) {
                Result::Ok(st) => r is Ok && strtab_view(r->Ok_0@) == st,
                Result::Err(e) => r is Err && r->Err_0 == e,
            },
    {
        let ghost s = bytes@;
        let mut st: Vec<Vec<u8>> = Vec::new();
        let mut cur: usize = start;
        proof {
            assert(strtab_view(st@) =~= Seq::<Seq<u8>>::empty());
        }
        while cur < end
            invariant
                s == bytes@,
                start <= cur <= end <= s.len(),
                parse_strtab(s, start as int, end as int, Seq::empty()) == parse_strtab(
                    s,
                    cur as int,
                    end as int,
                    strtab_view(st@),
                ),
            decreases end - cur,
        {
            let mut i = cur;
            let len = match get_vint(bytes, &mut i) {
                Result::Ok(v) => v,
                Result::Err(e) => {
                    return Result::Err(e);
                },
            };
            if i > end {
                return Result::Err(FormatError::Truncated);
            }
            if len > end - i {
                return Result::Err(FormatError::Truncated);
            }
            let ghost old_view = strtab_view(st@);
            let entry = sub_vec(bytes, i, i + len);
            if !utf8_valid(&entry) {
                return Result::Err(FormatError::BadString);
            }
            st.push(entry);
            proof {
                assert(strtab_view(st@) =~= old_view.push(s.subrange(i as int, i as int + len)));
            }
            cur = i + len;
        }
        Result::Ok(st)
    }

    /// Loads a program image from a raw buffer, failing fast on the
    /// first structural violation and never partially succeeding.
    #[verifier::rlimit(100)]
    #[verifier::spinoff_prover]
    pub fn new(bytecode: &Vec<u8>) -> (r: Result<Bytecode, FormatError>)
        ensures
            match load_spec(bytecode@) {
                Result::Ok(img) => r is Ok && r->Ok_0.img() == img,
                Result::Err(e) => r is Err && r->Err_0 == e,
            },
    {
        let ghost s = bytecode@;
        let n = bytecode.len();
        if n < 4 {
            return Result::Err(FormatError::Truncated);
        }
        let sig_ok = bytecode[0] == 0x4e && bytecode[1] == 0x65 && bytecode[2] == 0x00
            && bytecode[3] == 0x6e;
        proof {
            assert(signature()[0] == 0x4eu8 && signature()[1] == 0x65u8 && signature()[2] == 0x00u8
                && signature()[3] == 0x6eu8);
            if sig_ok {
                assert(s.subrange(0, 4) =~= signature());
            } else {
                assert(s.subrange(0, 4)[0] == s[0] && s.subrange(0, 4)[1] == s[1] && s.subrange(
                    0,
                    4,
                )[2] == s[2] && s.subrange(0, 4)[3] == s[3]);
            }
        }
        if !sig_ok {
            return Result::Err(FormatError::BadSignature);
        }
        let mut i: usize = 4;
        let version = match get_vint(bytecode, &mut i) {
            Result::Ok(v) => v,
            Result::Err(e) => {
                return Result::Err(e);
            },
        };
        if version != SUPPORTED_VERSION {
            return Result::Err(FormatError::BadVersion);
        }
        if n - i < 32 {
            return Result::Err(FormatError::Truncated);
        }
        let source_hash = sub_vec(bytecode, i, i + 32);
        i = i + 32;
        let global_size = match get_vint(bytecode, &mut i) {
            Result::Ok(v) => v,
            Result::Err(e) => {
                return Result::Err(e);
            },
        };
        let stsize = match get_vint(bytecode, &mut i) {
            Result::Ok(v) => v,
            Result::Err(e) => {
                return Result::Err(e);
            },
        };
        if stsize > n - i {
            return Result::Err(FormatError::Truncated);
        }
        let strtable = match Bytecode::get_strtable(bytecode, i, i + stsize) {
            Result::Ok(st) => st,
            Result::Err(e) => {
                return Result::Err(e);
            },
        };
        i = i + stsize;
        let tsize = match get_vint(bytecode, &mut i) {
            Result::Ok(v) => v,
            Result::Err(e) => {
                return Result::Err(e);
            },
        };
        let tcount = if tsize == 0 {
            0
        } else {
            tsize - 1
        };
        let (types, after_types) = match load_types(bytecode, i, tcount) {
            Result::Ok(p) => p,
            Result::Err(e) => {
                return Result::Err(e);
            },
        };
        match Bytecode::load_rest(bytecode, after_types, version, source_hash, global_size, strtable, types) {
            Result::Ok(b) => Result::Ok(b),
            Result::Err(e) => Result::Err(e),
        }
    }

    fn load_rest(
        bytes: &Vec<u8>,
        start: usize,
        version: usize,
        source_hash: Vec<u8>,
        global_size: usize,
        strtable: Vec<Vec<u8>>,
        types: Vec<TypeEntry>,
    ) -> (r: Result<Bytecode, FormatError>)
        requires
            start <= bytes@.len(),
        ensures
            match load_tail(
                bytes@,
                start as int,
                version as nat,
                source_hash@,
                global_size as nat,
                strtab_view(strtable@),
                types@,
            ) {
                Result::Ok(img) => r is Ok && r->Ok_0.img() == img,
                Result::Err(e) => r is Err && r->Err_0 == e,
            },
    {
        let ghost s = bytes@;
        let ghost tail = load_tail(
            s,
            start as int,
            version as nat,
            source_hash@,
            global_size as nat,
            strtab_view(strtable@),
            types@,
        );
        let n = bytes.len();
        let mut i: usize = start;
        
        match expect_zero(bytes, &mut i) {
            Result::Ok(()) => {},
            Result::Err(e) => {
                return Result::Err(e);
            },
        }
        match expect_zero(bytes, &mut i) {
            Result::Ok(()) => {},
            Result::Err(e) => {
                return Result::Err(e);
            },
        }
        match expect_zero(bytes, &mut i) {
            Result::Ok(()) => {},
            Result::Err(e) => {
                return Result::Err(e);
            },
        }
        match expect_zero(bytes, &mut i) {
            Result::Ok(()) => {},
            Result::Err(e) => {
                return Result::Err(e);
            },
        }
        match expect_zero(bytes, &mut i) {
            Result::Ok(()) => {},
            Result::Err(e) => {
                return Result::Err(e);
            },
        }
        match expect_zero(bytes, &mut i) {
            Result::Ok(()) => {},
            Result::Err(e) => {
                return Result::Err(e);
            },
        }
        let fsize = match get_vint(bytes, &mut i) {
            Result::Ok(v) => v,
            Result::Err(e) => {
                return Result::Err(e);
            },
        };
        let (functions, after_funcs) = match load_funcs(bytes, i, fsize) {
            Result::Ok(p) => p,
            Result::Err(e) => {
                return Result::Err(e);
            },
        };
        i = after_funcs;
        match expect_zero(bytes, &mut i) {
            Result::Ok(()) => {},
            Result::Err(e) => {
                return Result::Err(e);
            },
        }
        match expect_zero(bytes, &mut i) {
            Result::Ok(()) => {},
            Result::Err(e) => {
                return Result::Err(e);
            },
        }
        let code = sub_vec(bytes, i, n);
        let b = Bytecode { version, source_hash, global_size, strtable, types, functions, code };
        proof {
            assert(b.img() =~= tail->Ok_0);
        }
        Result::Ok(b)
    }
}

} // verus!
