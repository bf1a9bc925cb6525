//! Reading a complex literal such as `3+4i`, `-i` or `2.5i-1`.
//!
//! A literal is a chain of terms. Each term is an optional sign, a number,
//! and an optional `i`; where the number is left out before an `i` it is one.
//! A number runs up to the next `+`, `-` or `i`. Its text is turned into a
//! binary64 pattern by a reader that the caller supplies; where the reader
//! rejects it, the term counts as zero and the chain ends there.

use vstd::prelude::*;
use crate::complex::Complex;
use crate::ieee::{MINUS_ONE, ONE, ZERO};
use crate::unit::{total, yields, Op};

verus! {

/// The reader accepts every text.
pub open spec fn total_reader<P: Fn(Vec<char>) -> Option<u64>>(parse: &P) -> bool {
    forall|v: Vec<char>| call_requires(parse, (v,))
}

/// `answer` is what the reader can give for `text`.
pub open spec fn reads<P: Fn(Vec<char>) -> Option<u64>>(
    parse: &P,
    text: Seq<char>,
    answer: Option<u64>,
) -> bool {
    exists|v: Vec<char>| #[trigger] call_ensures(parse, (v,), answer) && v@ == text
}

/// A number ends before this character.
pub open spec fn breaks(c: char) -> bool {
    c == '+' || c == '-' || c == 'i'
}

/// Where the number that starts at `i` ends: at the next `+`, `-` or `i`, or
/// at the end of the text.
pub open spec fn token_end(s: Seq<char>, i: int) -> int
    decreases s.len() - i,
{
    if i >= s.len() || breaks(s[i]) {
        i
    } else {
        token_end(s, i + 1)
    }
}

/// The number of the term whose sign ends before `j` is `val` and ends
/// before `k`; `fine` tells whether it could be read. Before an `i` it is
/// one and takes no text. Else it is what the reader gives for the text up
/// to the next `+`, `-` or `i`; where the reader rejects that, it is zero,
/// takes no text, and is not fine.
pub open spec fn number_at<P: Fn(Vec<char>) -> Option<u64>>(
    parse: &P,
    s: Seq<char>,
    j: int,
    val: u64,
    k: int,
    fine: bool,
) -> bool {
    if j < s.len() && s[j] == 'i' {
        val == ONE && k == j && fine
    } else {
        exists|answer: Option<u64>|
            #![trigger reads(parse, s.subrange(j, token_end(s, j)), answer)]
            reads(parse, s.subrange(j, token_end(s, j)), answer) && match answer {
                Some(v) => val == v && k == token_end(s, j) && fine,
                None => val == ZERO && k == j && !fine,
            }
    }
}

/// The pattern of the sign that a term starts with at `i`.
pub open spec fn sign_at(s: Seq<char>, i: int) -> u64 {
    if s[i] == '-' {
        MINUS_ONE
    } else {
        ONE
    }
}

/// Where the number of the term that starts at `i` begins: after its sign,
/// if it has one.
pub open spec fn after_sign(s: Seq<char>, i: int) -> int {
    if s[i] == '-' || s[i] == '+' {
        i + 1
    } else {
        i
    }
}

/// The term is imaginary: an `i` follows its number.
pub open spec fn imaginary_at(s: Seq<char>, k: int) -> bool {
    k < s.len() && s[k] == 'i'
}

/// The first term as a complex number: the signed number as the imaginary
/// part where an `i` follows, as the real part where none does.
pub open spec fn head_of(s: Seq<char>, k: int, m: u64) -> Complex {
    if imaginary_at(s, k) {
        Complex { re: ZERO, im: m }
    } else {
        Complex { re: m, im: ZERO }
    }
}

/// Where the next term starts, after the number that ends before `k`.
pub open spec fn after_term(s: Seq<char>, k: int) -> int {
    if imaginary_at(s, k) {
        k + 1
    } else {
        k
    }
}

/// `r` is a value of the chain of terms that starts at `i`: the empty chain
/// is one; else the first term is its sign times its number, and where text
/// is left and all is fine so far, the value of the rest is added to it.
/// `ok` is false where something was wrong before: then the first term
/// stands alone.
pub open spec fn literal_from<F: Fn(Op, u64, u64) -> u64, P: Fn(Vec<char>) -> Option<u64>>(
    f: &F,
    parse: &P,
    s: Seq<char>,
    i: int,
    ok: bool,
    r: Complex,
) -> bool
    decreases s.len() - i,
{
    if i >= s.len() {
        r == Complex::unity()
    } else {
        exists|val: u64, k: int, fine: bool, m: u64|
            #![trigger number_at(parse, s, after_sign(s, i), val, k, fine), yields(f, Op::Mul, sign_at(s, i), val, m)]
            {
                &&& number_at(parse, s, after_sign(s, i), val, k, fine)
                &&& yields(f, Op::Mul, sign_at(s, i), val, m)
                &&& if after_term(s, k) >= s.len() || !ok || !fine {
                    r == head_of(s, k, m)
                } else {
                    &&& after_term(s, k) > i
                    &&& exists|tail: Complex|
                        #![trigger Complex::sum_of(f, head_of(s, k, m), tail, r)]
                        literal_from(f, parse, s, after_term(s, k), true, tail) && Complex::sum_of(
                            f,
                            head_of(s, k, m),
                            tail,
                            r,
                        )
                }
            }
    }
}

/// `r` is a value of the literal `s`.
pub open spec fn literal_of<F: Fn(Op, u64, u64) -> u64, P: Fn(Vec<char>) -> Option<u64>>(
    f: &F,
    parse: &P,
    s: Seq<char>,
    ok: bool,
    r: Complex,
) -> bool {
    literal_from(f, parse, s, 0, ok, r)
}

/// A number ends at or after its start, and within the text.
pub proof fn token_end_is_ahead(s: Seq<char>, i: int)
    requires
        0 <= i <= s.len(),
    ensures
        i <= token_end(s, i) <= s.len(),
        forall|j: int| i <= j < token_end(s, i) ==> !breaks(#[trigger] s[j]),
        token_end(s, i) < s.len() ==> breaks(s[token_end(s, i)]),
    decreases s.len() - i,
{
    if i < s.len() && !breaks(s[i]) {
        token_end_is_ahead(s, i + 1);
    }
}

/// Tells whether a number ends before this character.
fn is_break(c: char) -> (r: bool)
    ensures
        r == breaks(c),
{
    c == '+' || c == '-' || c == 'i'
}

/// Copies the number that starts at `from`: the text up to the next `+`,
/// `-` or `i`.
fn take_token(text: &Vec<char>, from: usize) -> (token: Vec<char>)
    requires
        from <= text.len(),
    ensures
        from + token@.len() == token_end(text@, from as int),
        token@ == text@.subrange(from as int, token_end(text@, from as int)),
        token_end(text@, from as int) <= text@.len(),
{
    let mut token: Vec<char> = Vec::new();
    let mut j: usize = from;
    while j < text.len() && !is_break(text[j])
        invariant
            from <= j <= text.len(),
            token@ == text@.subrange(from as int, j as int),
            token_end(text@, from as int) == token_end(text@, j as int),
        decreases text.len() - j,
    {
        token.push(text[j]);
        j += 1;
        proof {
            assert(token@ =~= text@.subrange(from as int, j as int));
        }
    }
    token
}

/// Reads the chain of terms that starts at `from`.
fn read_literal<F: Fn(Op, u64, u64) -> u64, P: Fn(Vec<char>) -> Option<u64>>(
    text: &Vec<char>,
    from: usize,
    ok: bool,
    f: &F,
    parse: &P,
) -> (r: Complex)
    requires
        from <= text.len(),
        total(f),
        total_reader(parse),
    ensures
        literal_from(f, parse, text@, from as int, ok, r),
    decreases text.len() - from,
{
    if from >= text.len() {
        return Complex::one();
    }
    let sign = if text[from] == '-' {
        MINUS_ONE
    } else {
        ONE
    };
    let start = if text[from] == '-' || text[from] == '+' {
        from + 1
    } else {
        from
    };
    let mut fine = true;
    let mut end = start;
    let val = if start < text.len() && text[start] == 'i' {
        ONE
    } else {
        let token = take_token(text, start);
        let length = token.len();
        let ghost copied = token@;
        match parse(token) {
            Some(v) => {
                end = start + length;
                proof {
                    assert(reads(parse, copied, Some(v)));
                }
                v
            },
            None => {
                fine = false;
                proof {
                    assert(reads(parse, copied, None));
                }
                ZERO
            },
        }
    };
    proof {
        assert(number_at(parse, text@, start as int, val, end as int, fine));
    }
    let m = f(Op::Mul, sign, val);
    let imaginary = end < text.len() && text[end] == 'i';
    let head = if imaginary {
        Complex { re: ZERO, im: m }
    } else {
        Complex { re: m, im: ZERO }
    };
    let next = if imaginary {
        end + 1
    } else {
        end
    };
    proof {
        assert(start as int == after_sign(text@, from as int));
        assert(sign == sign_at(text@, from as int));
        assert(head == head_of(text@, end as int, m));
        assert(next as int == after_term(text@, end as int));
        assert(number_at(parse, text@, after_sign(text@, from as int), val, end as int, fine));
        assert(yields(f, Op::Mul, sign_at(text@, from as int), val, m));
    }
    if next >= text.len() || !ok || !fine {
        head
    } else {
        proof {
            // a number that is read without a sign before it is not empty
            if start == from && text@[from as int] != 'i' {
                assert(!breaks(text@[from as int]));
                token_end_is_ahead(text@, from + 1);
            }
        }
        let tail = read_literal(text, next, true, f, parse);
        let r = head.add(tail, f);
        proof {
            assert(Complex::sum_of(f, head_of(text@, end as int, m), tail, r));
        }
        r
    }
}

/// Reads a complex literal. The empty literal is one. `ok` tells whether
/// all was fine before this literal; where it was not, only the first term
/// is read.
pub fn get_complex_number<F: Fn(Op, u64, u64) -> u64, P: Fn(Vec<char>) -> Option<u64>>(
    text: &Vec<char>,
    ok: bool,
    f: &F,
    parse: &P,
) -> (r: Complex)
    requires
        total(f),
        total_reader(parse),
    ensures
        literal_of(f, parse, text@, ok, r),
{
    read_literal(text, 0, ok, f, parse)
}

} // verus!
