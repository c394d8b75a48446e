use vstd::prelude::*;

verus! {

use crate::errors::FormatError;

/// Position just after the first byte at or after `i` whose continuation
/// bit is clear, if there is one before the end of `s`.  A variable-length
/// integer starting at `i` occupies exactly the bytes `i..vint_end(s, i)`.
pub open spec fn vint_end(s: Seq<u8>, i: int) -> Option<int>
    decreases s.len() - i,
{
    if i < 0 || i >= s.len() {
        Option::None
    } else if s[i] < 0x80 {
        Option::Some(i + 1)
    } else {
        vint_end(s, i + 1)
    }
}

/// The integer denoted by a group of encoded bytes, most significant
/// seven-bit group first; continuation bits are ignored.
pub open spec fn vint_value(g: Seq<u8>) -> nat
    decreases g.len(),
{
    if g.len() == 0 {
        0
    } else {
        vint_value(g.drop_last()) * 0x80 + ((g.last() & 0x7f) as nat)
    }
}

/// What decoding one variable-length integer at position `i` of `s`
/// yields: the value and the position just past it, or the error.
pub open spec fn read_vint(s: Seq<u8>, i: int) -> Result<(nat, int), FormatError> {
    match vint_end(s, i) {
        Option::Some(j) => {
            let v = vint_value(s.subrange(i, j));
            if v <= usize::MAX as nat {
                Result::Ok((v, j))
            } else {
                Result::Err(FormatError::VintTooLarge)
            }
        },
        Option::None => Result::Err(FormatError::Truncated),
    }
}

/// The canonical encoding of `v`: seven bits per byte, most significant
/// group first, continuation bit set on every byte but the last.
/// `vint_enc_cont` encodes the leading groups, which all carry the
/// continuation bit.
pub open spec fn vint_enc_cont(v: nat) -> Seq<u8>
    decreases v,
{
    if v < 0x80 {
        seq![(v + 0x80) as u8]
    } else {
        vint_enc_cont(v / 0x80).push((((v % 0x80) + 0x80) as u8))
    }
}

pub open spec fn vint_enc(v: nat) -> Seq<u8> {
    if v < 0x80 {
        seq![v as u8]
    } else {
        vint_enc_cont(v / 0x80).push((v % 0x80) as u8)
    }
}

proof fn lemma_value_grows(s: Seq<u8>, i: int, m: int, e: int)
    requires
        0 <= i <= m <= e <= s.len(),
    ensures
        vint_value(s.subrange(i, e)) >= vint_value(s.subrange(i, m)),
    decreases e - m,
{
    if m < e {
        lemma_value_grows(s, i, m, e - 1);
        assert(s.subrange(i, e).drop_last() =~= s.subrange(i, e - 1));
        assert(vint_value(s.subrange(i, e - 1)) * 0x80 >= vint_value(s.subrange(i, e - 1)));
    }
}

pub proof fn lemma_vint_end_in_range(s: Seq<u8>, i: int)
    requires
        vint_end(s, i) is Some,
    ensures
        i < vint_end(s, i)->0 <= s.len(),
        i >= 0,
    decreases s.len() - i,
{
    if 0 <= i < s.len() && s[i] >= 0x80 {
        lemma_vint_end_in_range(s, i + 1);
    }
}

fn scan_vint(bytes: &Vec<u8>, start: usize) -> (r: Result<(usize, usize), FormatError>)
    ensures
        match read_vint(bytes@, start as int) {
            Result::Ok((v, j)) => r == Result::<(usize, usize), FormatError>::Ok(
                (v as usize, j as usize),
            ) && 0 <= j <= usize::MAX,
            Result::Err(e) => r == Result::<(usize, usize), FormatError>::Err(e),
        },
{
    let ghost s = bytes@;
    let ghost i0 = start as int;
    if start >= bytes.len() {
        return Result::Err(FormatError::Truncated);
    }
    let mut k: usize = start;
    let mut r: usize = 0;
    let mut too_large: bool = false;
    proof {
        assert(s.subrange(i0, i0) =~= Seq::<u8>::empty());
    }
    loop
        invariant
            s == bytes@,
            i0 == start as int,
            0 <= i0 <= k as int <= s.len(),
            vint_end(s, i0) == vint_end(s, k as int),
            too_large <==> vint_value(s.subrange(i0, k as int)) > usize::MAX as nat,
            !too_large ==> r as nat == vint_value(s.subrange(i0, k as int)),
        decreases s.len() - k,
    {
        if k >= bytes.len() {
            return Result::Err(FormatError::Truncated);
        }
        let x = bytes[k];
        let ghost kpre = k as int;
        k = k + 1;
        proof {
            assert(s.subrange(i0, kpre + 1).drop_last() =~= s.subrange(i0, kpre));
            assert(s.subrange(i0, kpre + 1).last() == s[kpre]);
        }
        let low: u8 = x & 0x7f;
        if !too_large {
            match r.checked_mul(0x80) {
                Option::Some(shifted) => match shifted.checked_add(low as usize) {
                    Option::Some(next) => {
                        r = next;
                    },
                    Option::None => {
                        too_large = true;
                    },
                },
                Option::None => {
                    too_large = true;
                },
            }
        } else {
            proof {
                lemma_value_grows(s, i0, kpre, kpre + 1);
            }
        }
        if x & 0x80 == 0 {
            proof {
                assert(x < 0x80 <==> x & 0x80 == 0) by (bit_vector);
            }
            if too_large {
                return Result::Err(FormatError::VintTooLarge);
            }
            return Result::Ok((r, k));
        }
        proof {
            assert(x >= 0x80 <==> x & 0x80 != 0) by (bit_vector);
        }
    }
}

/// Decodes one variable-length integer from `bytes` at `*i`, advancing
/// `*i` past it on success and leaving it unchanged on failure.
pub fn get_vint(bytes: &Vec<u8>, i: &mut usize) -> (r: Result<usize, FormatError>)
    ensures
        match read_vint(bytes@, *old(i) as int) {
            Result::Ok((v, j)) => r == Result::<usize, FormatError>::Ok(v as usize) && *final(i)
                == j && *old(i) < j <= bytes@.len(),
            Result::Err(e) => r == Result::<usize, FormatError>::Err(e) && *final(i) == *old(i),
        },
{
    proof {
        if vint_end(bytes@, *i as int) is Some {
            lemma_vint_end_in_range(bytes@, *i as int);
        }
    }
    match scan_vint(bytes, *i) {
        Result::Ok((v, j)) => {
            *i = j;
            Result::Ok(v)
        },
        Result::Err(e) => Result::Err(e),
    }
}

fn put_vint_cont(v: usize) -> (r: Vec<u8>)
    ensures
        r@ == vint_enc_cont(v as nat),
    decreases v,
{
    if v < 0x80 {
        let mut r: Vec<u8> = Vec::new();
        r.push((v + 0x80) as u8);
        proof {
            assert(r@ =~= vint_enc_cont(v as nat));
        }
        r
    } else {
        let mut r = put_vint_cont(v / 0x80);
        r.push(((v % 0x80) + 0x80) as u8);
        proof {
            assert(r@ =~= vint_enc_cont(v as nat));
        }
        r
    }
}

/// Encodes `v` as a variable-length integer.
pub fn put_vint(v: usize) -> (r: Vec<u8>)
    ensures
        r@ == vint_enc(v as nat),
{
    if v < 0x80 {
        let mut r: Vec<u8> = Vec::new();
        r.push(v as u8);
        proof {
            assert(r@ =~= vint_enc(v as nat));
        }
        r
    } else {
        let mut r = put_vint_cont(v / 0x80);
        r.push((v % 0x80) as u8);
        proof {
            assert(r@ =~= vint_enc(v as nat));
        }
        r
    }
}

proof fn lemma_enc_cont_shape(v: nat)
    ensures
        vint_enc_cont(v).len() >= 1,
        forall|k: int| 0 <= k < vint_enc_cont(v).len() ==> #[trigger] vint_enc_cont(v)[k] >= 0x80,
        vint_value(vint_enc_cont(v)) == v,
    decreases v,
{
    if v < 0x80 {
        let b = (v + 0x80) as u8;
        assert(b == v + 0x80);
        assert(b >= 0x80 ==> ((b & 0x7f) as nat) + 0x80 == b) by (bit_vector);
        assert((b & 0x7f) as nat == v);
        assert(vint_enc_cont(v) == seq![b]);
        assert(vint_enc_cont(v).drop_last() =~= Seq::<u8>::empty());
        assert(vint_enc_cont(v).last() == b);
        assert(vint_value(Seq::<u8>::empty()) == 0);
        assert(vint_value(vint_enc_cont(v)) == (b & 0x7f) as nat);
    } else {
        lemma_enc_cont_shape(v / 0x80);
        let b = (((v % 0x80) + 0x80) as u8);
        assert(b == (v % 0x80) + 0x80);
        assert(b >= 0x80 ==> ((b & 0x7f) as nat) + 0x80 == b) by (bit_vector);
        assert((b & 0x7f) as nat == v % 0x80);
        assert(vint_enc_cont(v).drop_last() =~= vint_enc_cont(v / 0x80));
        assert(vint_enc_cont(v).last() == b);
        assert(vint_value(vint_enc_cont(v)) == (v / 0x80) * 0x80 + (v % 0x80));
        assert((v / 0x80) * 0x80 + (v % 0x80) == v) by (nonlinear_arith);
        assert forall|k: int| 0 <= k < vint_enc_cont(v).len() implies #[trigger] vint_enc_cont(v)[k]
            >= 0x80 by {
            if k < vint_enc_cont(v).len() - 1 {
                assert(vint_enc_cont(v)[k] == vint_enc_cont(v / 0x80)[k]);
            } else {
                assert(vint_enc_cont(v)[k] == b);
            }
        }
    }
}

proof fn lemma_end_of_groups(g: Seq<u8>, i: int)
    requires
        0 <= i < g.len(),
        forall|k: int| i <= k < g.len() - 1 ==> #[trigger] g[k] >= 0x80,
        g[g.len() - 1] < 0x80,
    ensures
        vint_end(g, i) == Option::Some(g.len() as int),
    decreases g.len() - i,
{
    if i < g.len() - 1 {
        lemma_end_of_groups(g, i + 1);
    }
}

/// The shape of an encoding: at least one byte, the continuation bit on
/// every byte but the last, and the encoded value decoding back.
pub proof fn lemma_vint_enc_shape(v: usize)
    ensures
        vint_enc(v as nat).len() >= 1,
        forall|k: int|
            0 <= k < vint_enc(v as nat).len() - 1 ==> #[trigger] vint_enc(v as nat)[k] >= 0x80,
        vint_enc(v as nat).last() < 0x80,
        vint_value(vint_enc(v as nat)) == v,
{
    let g = vint_enc(v as nat);
    if v < 0x80 {
        let b = v as u8;
        assert(b < 0x80 ==> (b & 0x7f) == b) by (bit_vector);
        assert(g == seq![b]);
        assert(g.drop_last() =~= Seq::<u8>::empty());
        assert(vint_value(Seq::<u8>::empty()) == 0);
    } else {
        let c = vint_enc_cont(v as nat / 0x80);
        lemma_enc_cont_shape(v as nat / 0x80);
        let b = (v as nat % 0x80) as u8;
        assert(b < 0x80 ==> (b & 0x7f) == b) by (bit_vector);
        assert(g == c.push(b));
        assert(forall|k: int| 0 <= k < g.len() - 1 ==> #[trigger] g[k] == c[k]);
        assert(g.drop_last() =~= c);
        assert(vint_value(g) == (v as nat / 0x80) * 0x80 + (v as nat % 0x80));
        assert((v as nat / 0x80) * 0x80 + (v as nat % 0x80) == v as nat) by (nonlinear_arith);
    }
}

proof fn lemma_end_embedded(s: Seq<u8>, j: int, end: int)
    requires
        0 <= j < end <= s.len(),
        forall|k: int| j <= k < end - 1 ==> #[trigger] s[k] >= 0x80,
        s[end - 1] < 0x80,
    ensures
        vint_end(s, j) == Option::Some(end),
    decreases end - j,
{
    if j < end - 1 {
        lemma_end_embedded(s, j + 1, end);
    }
}

/// Decoding at a position where an encoding is embedded yields the
/// encoded value and consumes exactly its bytes, whatever lies around
/// it.
pub proof fn lemma_read_vint_embedded(s: Seq<u8>, i: int, v: usize)
    requires
        0 <= i,
        i + vint_enc(v as nat).len() <= s.len(),
        s.subrange(i, i + vint_enc(v as nat).len() as int) == vint_enc(v as nat),
    ensures
        read_vint(s, i) == Result::<(nat, int), FormatError>::Ok(
            (v as nat, i + vint_enc(v as nat).len()),
        ),
{
    let g = vint_enc(v as nat);
    let end = i + g.len() as int;
    lemma_vint_enc_shape(v);
    assert forall|k: int| i <= k < end - 1 implies #[trigger] s[k] >= 0x80 by {
        assert(s[k] == s.subrange(i, end)[k - i]);
        assert(g[k - i] >= 0x80);
    }
    assert(s[end - 1] == s.subrange(i, end)[g.len() - 1]);
    assert(s[end - 1] == g[g.len() - 1]);
    lemma_end_embedded(s, i, end);
    assert(vint_value(s.subrange(i, end)) == vint_value(g));
}

/// Round trip: decoding the encoding of any value gives that value back,
/// consuming exactly the encoded bytes.
pub proof fn lemma_vint_round_trip(v: usize)
    ensures
        read_vint(vint_enc(v as nat), 0) == Result::<(nat, int), FormatError>::Ok(
            (v as nat, vint_enc(v as nat).len() as int),
        ),
{
    let g = vint_enc(v as nat);
    if v < 0x80 {
        let b = v as u8;
        assert(b < 0x80 ==> (b & 0x7f) == b) by (bit_vector);
        assert(g == seq![b]);
        assert(g.drop_last() =~= Seq::<u8>::empty());
        assert(g.last() == b);
        assert(vint_value(Seq::<u8>::empty()) == 0);
        assert(vint_value(g) == (b & 0x7f) as nat);
        assert(vint_end(g, 0) == Option::Some(1int));
        assert(g.subrange(0, 1) =~= g);
    } else {
        let c = vint_enc_cont(v as nat / 0x80);
        lemma_enc_cont_shape(v as nat / 0x80);
        let b = (v as nat % 0x80) as u8;
        assert(b < 0x80 ==> (b & 0x7f) == b) by (bit_vector);
        assert(v as nat % 0x80 < 0x80);
        assert(g == c.push(b));
        assert(g.len() == c.len() + 1);
        assert(g.last() == b);
        assert(forall|k: int| 0 <= k < g.len() - 1 ==> #[trigger] g[k] == c[k]);
        assert(forall|k: int| 0 <= k < g.len() - 1 ==> #[trigger] g[k] >= 0x80);
        lemma_end_of_groups(g, 0);
        assert(g.subrange(0, g.len() as int) =~= g);
        assert(g.drop_last() =~= c);
        assert(vint_value(g) == (v as nat / 0x80) * 0x80 + (v as nat % 0x80));
        assert((v as nat / 0x80) * 0x80 + (v as nat % 0x80) == v as nat) by (nonlinear_arith);
    }
}

} // verus!
