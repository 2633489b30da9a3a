//! The textual storage form of an embedding.
//!
//! Each fixed-point coordinate is written as a sign (`+` or `-`)
//! followed by exactly ten decimal digits, zero padded, and the blocks
//! are simply concatenated.  The width covers every coordinate a valid
//! embedding may hold, the encoding is injective, and decoding accepts
//! exactly the canonical encodings: `text_to_embedding` inverts
//! `embedding_to_text` on every valid embedding.

use vstd::prelude::*;
use vstd::string::{StrSliceExecFns, StringExecFns};
use vstd::arithmetic::div_mod::{
    lemma_div_by_multiple, lemma_fundamental_div_mod, lemma_mod_multiples_basic,
    lemma_multiply_divide_lt,
};

use crate::vector::{bounded, valid_embedding};
use crate::{MAX_COORD, MAX_DIM};

verus! {

/// Width of one encoded coordinate: a sign and ten digits.
pub const BLOCK_LEN: usize = 11;

/// The digit character for a value in `0 .. 9`.
pub open spec fn digit_char(d: int) -> char {
    if d == 0 {
        '0'
    } else if d == 1 {
        '1'
    } else if d == 2 {
        '2'
    } else if d == 3 {
        '3'
    } else if d == 4 {
        '4'
    } else if d == 5 {
        '5'
    } else if d == 6 {
        '6'
    } else if d == 7 {
        '7'
    } else if d == 8 {
        '8'
    } else {
        '9'
    }
}

/// The value of a digit character, `-1` for any other character.
pub open spec fn digit_val(c: char) -> int {
    if c == '0' {
        0
    } else if c == '1' {
        1
    } else if c == '2' {
        2
    } else if c == '3' {
        3
    } else if c == '4' {
        4
    } else if c == '5' {
        5
    } else if c == '6' {
        6
    } else if c == '7' {
        7
    } else if c == '8' {
        8
    } else if c == '9' {
        9
    } else {
        -1
    }
}

/// Ten to the `w`th power.
pub open spec fn pow10(w: nat) -> int
    decreases w,
{
    if w == 0 {
        1
    } else {
        10 * pow10((w - 1) as nat)
    }
}

pub proof fn lemma_pow10_vals()
    ensures
        pow10(10) == 10_000_000_000,
        forall|w: nat| w <= 10 ==> #[trigger] pow10(w) <= 10_000_000_000,
        forall|w: nat| 1 <= pow10(w),
{
    assert(pow10(0) == 1);
    assert(pow10(1) == 10);
    assert(pow10(2) == 100);
    assert(pow10(3) == 1000);
    assert(pow10(4) == 10000);
    assert(pow10(5) == 100000);
    assert(pow10(6) == 1000000);
    assert(pow10(7) == 10000000);
    assert(pow10(8) == 100000000);
    assert(pow10(9) == 1000000000);
    assert(pow10(10) == 10_000_000_000);
    assert forall|w: nat| 1 <= pow10(w) by {
        lemma_pow10_pos(w);
    }
    assert forall|w: nat| w <= 10 implies #[trigger] pow10(w) <= 10_000_000_000 by {
        if w == 0 {
        } else if w == 1 {
        } else if w == 2 {
        } else if w == 3 {
        } else if w == 4 {
        } else if w == 5 {
        } else if w == 6 {
        } else if w == 7 {
        } else if w == 8 {
        } else if w == 9 {
        } else {
        }
    }
}

pub proof fn lemma_pow10_pos(w: nat)
    ensures
        1 <= pow10(w),
    decreases w,
{
    if w > 0 {
        lemma_pow10_pos((w - 1) as nat);
    }
}

/// The decimal digits of `n`, exactly `w` of them, zero padded; high
/// digits beyond the width are dropped.
pub open spec fn fixed_digits(n: nat, w: nat) -> Seq<char>
    decreases w,
{
    if w == 0 {
        Seq::empty()
    } else {
        fixed_digits(n / 10, (w - 1) as nat) + seq![digit_char((n % 10) as int)]
    }
}

/// The number a sequence of digit characters denotes, read left to
/// right.
pub open spec fn digits_val(s: Seq<char>) -> int
    decreases s.len(),
{
    if s.len() == 0 {
        0
    } else {
        digits_val(s.drop_last()) * 10 + digit_val(s.last())
    }
}

pub proof fn lemma_fixed_digits(n: nat, w: nat)
    requires
        n < pow10(w),
    ensures
        fixed_digits(n, w).len() == w,
        digits_val(fixed_digits(n, w)) == n,
        forall|k: int|
            0 <= k < w ==> 0 <= digit_val(#[trigger] fixed_digits(n, w)[k]) <= 9,
    decreases w,
{
    lemma_fixed_digits_len(n, w);
    if w == 0 {
        assert(n == 0);
    } else {
        lemma_pow10_pos((w - 1) as nat);
        lemma_multiply_divide_lt(n as int, 10, pow10((w - 1) as nat));
        lemma_fixed_digits(n / 10, (w - 1) as nat);
        lemma_fundamental_div_mod(n as int, 10);
        let s = fixed_digits(n, w);
        let pre = fixed_digits(n / 10, (w - 1) as nat);
        assert(s.drop_last() =~= pre);
        assert(s.last() == digit_char((n % 10) as int));
        assert(0 <= n % 10 <= 9);
        assert(digit_val(digit_char((n % 10) as int)) == n % 10);
        assert forall|k: int| 0 <= k < w implies 0 <= digit_val(#[trigger] s[k]) <= 9 by {
            if k < w - 1 {
                assert(s[k] == pre[k]);
            } else {
                assert(s[k] == s.last());
            }
        }
    }
}

pub proof fn lemma_fixed_digits_len(n: nat, w: nat)
    ensures
        fixed_digits(n, w).len() == w,
    decreases w,
{
    if w > 0 {
        lemma_fixed_digits_len(n / 10, (w - 1) as nat);
    }
}

/// The magnitude of a coordinate, as a natural number.
pub open spec fn coord_mag(v: int) -> nat {
    if v < 0 {
        (-v) as nat
    } else {
        v as nat
    }
}

/// One encoded coordinate: its sign, then ten zero-padded digits.
pub open spec fn block_text(v: int) -> Seq<char> {
    seq![if v < 0 { '-' } else { '+' }] + fixed_digits(coord_mag(v), 10)
}

/// The encoded form of a whole embedding: its blocks, in order.
pub open spec fn encode_text(e: Seq<i64>) -> Seq<char>
    decreases e.len(),
{
    if e.len() == 0 {
        Seq::empty()
    } else {
        encode_text(e.drop_last()) + block_text(e.last() as int)
    }
}

pub proof fn lemma_encode_len(e: Seq<i64>)
    ensures
        encode_text(e).len() == BLOCK_LEN * e.len(),
    decreases e.len(),
{
    if e.len() > 0 {
        lemma_encode_len(e.drop_last());
        lemma_fixed_digits_len(coord_mag(e.last() as int), 10);
    }
}

/// Character `k` of block `j` of the encoding is character `k` of that
/// coordinate's own block.
pub proof fn lemma_encode_index(e: Seq<i64>, j: int, k: int)
    requires
        0 <= j < e.len(),
        0 <= k < BLOCK_LEN,
    ensures
        encode_text(e)[BLOCK_LEN * j + k] == block_text(e[j] as int)[k],
    decreases e.len(),
{
    lemma_encode_len(e.drop_last());
    lemma_fixed_digits_len(coord_mag(e.last() as int), 10);
    if j == e.len() - 1 {
        assert(encode_text(e)[BLOCK_LEN * j + k] == block_text(e.last() as int)[k]);
    } else {
        lemma_encode_index(e.drop_last(), j, k);
        assert(e.drop_last()[j] == e[j]);
    }
}

/// On valid embeddings the encoding is injective.
pub proof fn lemma_encode_injective(e1: Seq<i64>, e2: Seq<i64>)
    requires
        valid_embedding(e1),
        valid_embedding(e2),
        encode_text(e1) == encode_text(e2),
    ensures
        e1 == e2,
{
    lemma_encode_len(e1);
    lemma_encode_len(e2);
    lemma_pow10_vals();
    assert(e1.len() == e2.len());
    assert forall|j: int| 0 <= j < e1.len() implies e1[j] == e2[j] by {
        let v1 = e1[j] as int;
        let v2 = e2[j] as int;
        let m1 = coord_mag(v1);
        let m2 = coord_mag(v2);
        assert(m1 < pow10(10));
        assert(m2 < pow10(10));
        lemma_fixed_digits(m1, 10);
        lemma_fixed_digits(m2, 10);
        assert forall|k: int| 0 <= k < BLOCK_LEN implies block_text(v1)[k] == block_text(v2)[k] by {
            lemma_encode_index(e1, j, k);
            lemma_encode_index(e2, j, k);
            assert(encode_text(e1)[BLOCK_LEN * j + k] == encode_text(e2)[BLOCK_LEN * j + k]);
        }
        assert(fixed_digits(m1, 10) =~= fixed_digits(m2, 10)) by {
            assert forall|k: int| 0 <= k < 10 implies fixed_digits(m1, 10)[k] == fixed_digits(
                m2,
                10,
            )[k] by {
                assert(block_text(v1)[k + 1] == block_text(v2)[k + 1]);
            }
        }
        assert(m1 == m2);
        assert(block_text(v1)[0] == block_text(v2)[0]);
        assert((v1 < 0) == (v2 < 0));
    }
    assert(e1 =~= e2);
}

/// Appends the character of one decimal digit.
fn append_digit(out: &mut String, d: u64)
    requires
        d < 10,
    ensures
        final(out)@ == old(out)@ + seq![digit_char(d as int)],
{
    if d == 0 {
        out.append("0");
        proof {
            reveal_strlit("0");
            assert("0"@ =~= seq![digit_char(0)]);
        }
    } else if d == 1 {
        out.append("1");
        proof {
            reveal_strlit("1");
            assert("1"@ =~= seq![digit_char(1)]);
        }
    } else if d == 2 {
        out.append("2");
        proof {
            reveal_strlit("2");
            assert("2"@ =~= seq![digit_char(2)]);
        }
    } else if d == 3 {
        out.append("3");
        proof {
            reveal_strlit("3");
            assert("3"@ =~= seq![digit_char(3)]);
        }
    } else if d == 4 {
        out.append("4");
        proof {
            reveal_strlit("4");
            assert("4"@ =~= seq![digit_char(4)]);
        }
    } else if d == 5 {
        out.append("5");
        proof {
            reveal_strlit("5");
            assert("5"@ =~= seq![digit_char(5)]);
        }
    } else if d == 6 {
        out.append("6");
        proof {
            reveal_strlit("6");
            assert("6"@ =~= seq![digit_char(6)]);
        }
    } else if d == 7 {
        out.append("7");
        proof {
            reveal_strlit("7");
            assert("7"@ =~= seq![digit_char(7)]);
        }
    } else if d == 8 {
        out.append("8");
        proof {
            reveal_strlit("8");
            assert("8"@ =~= seq![digit_char(8)]);
        }
    } else {
        out.append("9");
        proof {
            reveal_strlit("9");
            assert("9"@ =~= seq![digit_char(9)]);
        }
    }
}

/// Appends exactly `w` zero-padded decimal digits of `n`.
fn append_fixed(out: &mut String, n: u64, w: usize)
    ensures
        final(out)@ == old(out)@ + fixed_digits(n as nat, w as nat),
    decreases w,
{
    if w == 0 {
        proof {
            assert(old(out)@ + fixed_digits(n as nat, 0) =~= old(out)@);
        }
        return ;
    }
    append_fixed(out, n / 10, w - 1);
    append_digit(out, n % 10);
    proof {
        assert(old(out)@ + fixed_digits(n as nat, w as nat) =~= old(out)@ + fixed_digits(
            (n / 10) as nat,
            (w - 1) as nat,
        ) + seq![digit_char((n % 10) as int)]);
    }
}

/// Encodes a valid embedding into its storage text.
pub fn embedding_to_text(e: &Vec<i64>) -> (r: String)
    requires
        valid_embedding(e@),
    ensures
        r@ == encode_text(e@),
{
    let mut out = String::new();
    let mut i: usize = 0;
    while i < e.len()
        invariant
            i <= e@.len(),
            valid_embedding(e@),
            out@ == encode_text(e@.take(i as int)),
        decreases e@.len() - i,
    {
        let v = e[i];
        if v < 0 {
            out.append("-");
            proof {
                reveal_strlit("-");
            }
        } else {
            out.append("+");
            proof {
                reveal_strlit("+");
            }
        }
        let m: i64 = if v < 0 {
            -v
        } else {
            v
        };
        append_fixed(&mut out, m as u64, 10);
        i = i + 1;
        proof {
            assert(e@.take(i as int).drop_last() =~= e@.take(i as int - 1));
            assert(e@.take(i as int).last() == e@[i as int - 1]);
            assert(m as nat == coord_mag(v as int));
            if v < 0 {
                reveal_strlit("-");
                assert("-"@ =~= seq!['-']);
            } else {
                reveal_strlit("+");
                assert("+"@ =~= seq!['+']);
            }
            assert(out@ =~= encode_text(e@.take(i as int)));
        }
    }
    proof {
        assert(e@.take(i as int) =~= e@);
    }
    out
}

/// The value of one digit character, or nothing for any other
/// character.
fn digit_of(c: char) -> (r: Option<u64>)
    ensures
        match r {
            Some(d) => d < 10 && digit_val(c) == d as int,
            None => digit_val(c) < 0,
        },
{
    if c == '0' {
        Some(0)
    } else if c == '1' {
        Some(1)
    } else if c == '2' {
        Some(2)
    } else if c == '3' {
        Some(3)
    } else if c == '4' {
        Some(4)
    } else if c == '5' {
        Some(5)
    } else if c == '6' {
        Some(6)
    } else if c == '7' {
        Some(7)
    } else if c == '8' {
        Some(8)
    } else if c == '9' {
        Some(9)
    } else {
        None
    }
}

/// Decodes storage text back into an embedding.
///
/// Exactly the canonical encodings of valid embeddings are accepted:
/// on success the text is the encoding of the result, and for every
/// valid embedding whose encoding this text is, that embedding is
/// returned.
pub fn text_to_embedding(s: &str) -> (r: Option<Vec<i64>>)
    ensures
        r is Some ==> valid_embedding(r->0@) && s@ == encode_text(r->0@),
        forall|e: Seq<i64>|
            valid_embedding(e) && s@ == encode_text(e) ==> r is Some && r->0@ == e,
{
    let ghost hyp = exists|e: Seq<i64>| valid_embedding(e) && s@ == encode_text(e);
    let ghost ew: Seq<i64> = if hyp {
        choose|e: Seq<i64>| valid_embedding(e) && s@ == encode_text(e)
    } else {
        Seq::empty()
    };
    proof {
        if hyp {
            lemma_encode_len(ew);
        }
        lemma_pow10_vals();
    }
    let n = s.unicode_len();
    if n % 11 != 0 {
        proof {
            if hyp {
                lemma_mod_multiples_basic(ew.len() as int, 11);
            }
        }
        return None;
    }
    let blocks = n / 11;
    proof {
        if hyp {
            lemma_div_by_multiple(ew.len() as int, 11);
            assert(ew.len() * 11 == 11 * ew.len()) by (nonlinear_arith);
            assert(blocks as int == ew.len());
        }
    }
    if blocks > MAX_DIM {
        return None;
    }
    let mut out: Vec<i64> = Vec::new();
    let mut j: usize = 0;
    while j < blocks
        invariant
            j <= blocks,
            blocks <= MAX_DIM,
            n as int == 11 * blocks,
            n as int == s@.len(),
            out@.len() == j,
            bounded(out@, MAX_COORD as int),
            hyp == exists|e: Seq<i64>| valid_embedding(e) && s@ == encode_text(e),
            hyp ==> valid_embedding(ew) && s@ == encode_text(ew) && ew.len() == blocks,
            hyp ==> out@ == ew.take(j as int),
        decreases blocks - j,
    {
        proof {
            lemma_pow10_vals();
            if hyp {
                lemma_encode_index(ew, j as int, 0);
                assert(coord_mag(ew[j as int] as int) < pow10(10));
                lemma_fixed_digits(coord_mag(ew[j as int] as int), 10);
            }
        }
        let c0 = s.get_char(11 * j);
        let neg: bool;
        if c0 == '-' {
            neg = true;
        } else if c0 == '+' {
            neg = false;
        } else {
            proof {
                if hyp {
                    assert(s@[11 * j as int] == block_text(ew[j as int] as int)[0]);
                    assert(false);
                }
            }
            return None;
        }
        let mut acc: u64 = 0;
        let mut d: usize = 0;
        while d < 10
            invariant
                d <= 10,
                j < blocks,
                n as int == 11 * blocks,
                n as int == s@.len(),
                acc as int <= pow10(d as nat) - 1,
                pow10(10) == 10_000_000_000,
                forall|w: nat| w <= 10 ==> #[trigger] pow10(w) <= 10_000_000_000,
                forall|w: nat| 1 <= pow10(w),
                hyp == exists|e: Seq<i64>| valid_embedding(e) && s@ == encode_text(e),
                hyp ==> valid_embedding(ew) && s@ == encode_text(ew) && ew.len() == blocks,
                hyp ==> acc as int == digits_val(
                    fixed_digits(coord_mag(ew[j as int] as int), 10).take(d as int),
                ),
            decreases 10 - d,
        {
            let c = s.get_char(11 * j + 1 + d);
            proof {
                if hyp {
                    lemma_encode_index(ew, j as int, 1 + d as int);
                    lemma_fixed_digits(coord_mag(ew[j as int] as int), 10);
                    assert(s@[11 * (j as int) + 1 + d as int] == block_text(
                        ew[j as int] as int,
                    )[1 + d as int]);
                    assert(block_text(ew[j as int] as int)[1 + d as int] == fixed_digits(
                        coord_mag(ew[j as int] as int),
                        10,
                    )[d as int]);
                }
            }
            let dv = match digit_of(c) {
                Some(dv) => dv,
                None => {
                    proof {
                        if hyp {
                            assert(0 <= digit_val(c));
                            assert(false);
                        }
                    }
                    return None;
                },
            };
            proof {
                assert(pow10(d as nat + 1) == 10 * pow10(d as nat));
            }
            acc = acc * 10 + dv;
            d = d + 1;
            proof {
                if hyp {
                    let fd = fixed_digits(coord_mag(ew[j as int] as int), 10);
                    assert(fd.take(d as int).drop_last() =~= fd.take(d as int - 1));
                    assert(fd.take(d as int).last() == fd[d as int - 1]);
                }
            }
        }
        if acc > MAX_COORD as u64 {
            proof {
                if hyp {
                    let fd = fixed_digits(coord_mag(ew[j as int] as int), 10);
                    assert(fd.take(10) =~= fd);
                    assert(acc as int == coord_mag(ew[j as int] as int));
                    assert(false);
                }
            }
            return None;
        }
        let v: i64 = if neg {
            -(acc as i64)
        } else {
            acc as i64
        };
        out.push(v);
        j = j + 1;
        proof {
            if hyp {
                let fd = fixed_digits(coord_mag(ew[j as int - 1] as int), 10);
                assert(fd.take(10) =~= fd);
                assert(acc as int == coord_mag(ew[j as int - 1] as int));
                assert(s@[11 * (j as int - 1)] == block_text(ew[j as int - 1] as int)[0]);
                assert(neg == (ew[j as int - 1] < 0));
                assert(v == ew[j as int - 1]);
                assert(out@ =~= ew.take(j as int));
            }
        }
    }
    proof {
        if hyp {
            assert(ew.take(j as int) =~= ew);
        }
    }
    let enc = embedding_to_text(&out);
    let ss = String::from_str(s);
    if enc == ss {
        proof {
            assert forall|e: Seq<i64>| valid_embedding(e) && s@ == encode_text(e) implies out@
                == e by {
                lemma_encode_injective(e, out@);
            }
        }
        Some(out)
    } else {
        proof {
            if hyp {
                assert(enc@ == encode_text(ew));
                assert(false);
            }
        }
        None
    }
}

} // verus!
