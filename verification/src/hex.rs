//! Fixed-width hexadecimal rendering of the numeric fields that frames carry,
//! with a proved round trip between rendering and parsing.
use vstd::prelude::*;
use vstd::arithmetic::div_mod::{lemma_fundamental_div_mod, lemma_mod_bound, lemma_multiply_divide_lt};

verus! {

/// Sixteen raised to `w`.
pub open spec fn pow16(w: nat) -> nat
    decreases w,
{
    if w == 0 {
        1
    } else {
        16 * pow16((w - 1) as nat)
    }
}

/// The lowercase digit character for a value below sixteen.
pub open spec fn hex_char_of(d: nat) -> char {
    if d == 0 { '0' }
    else if d == 1 { '1' }
    else if d == 2 { '2' }
    else if d == 3 { '3' }
    else if d == 4 { '4' }
    else if d == 5 { '5' }
    else if d == 6 { '6' }
    else if d == 7 { '7' }
    else if d == 8 { '8' }
    else if d == 9 { '9' }
    else if d == 10 { 'a' }
    else if d == 11 { 'b' }
    else if d == 12 { 'c' }
    else if d == 13 { 'd' }
    else if d == 14 { 'e' }
    else { 'f' }
}

/// Numeric value of a digit character; sixteen marks a character that is no digit.
pub open spec fn hex_val(c: char) -> nat {
    if c == '0' { 0 }
    else if c == '1' { 1 }
    else if c == '2' { 2 }
    else if c == '3' { 3 }
    else if c == '4' { 4 }
    else if c == '5' { 5 }
    else if c == '6' { 6 }
    else if c == '7' { 7 }
    else if c == '8' { 8 }
    else if c == '9' { 9 }
    else if c == 'a' { 10 }
    else if c == 'b' { 11 }
    else if c == 'c' { 12 }
    else if c == 'd' { 13 }
    else if c == 'e' { 14 }
    else if c == 'f' { 15 }
    else { 16 }
}

/// `n` written as exactly `w` digits, most significant first.
pub open spec fn hex_seq(n: nat, w: nat) -> Seq<char>
    decreases w,
{
    if w == 0 {
        Seq::empty()
    } else {
        hex_seq(n / 16, (w - 1) as nat).push(hex_char_of(n % 16))
    }
}

/// The value that a run of digit characters denotes.
pub open spec fn hex_parse(s: Seq<char>) -> nat
    decreases s.len(),
{
    if s.len() == 0 {
        0
    } else {
        hex_parse(s.drop_last()) * 16 + hex_val(s.last())
    }
}

/// Every character of `s` is a digit.
pub open spec fn is_hex_seq(s: Seq<char>) -> bool {
    forall|i: int| 0 <= i < s.len() ==> hex_val(#[trigger] s[i]) < 16
}

/// Rendering a digit and reading it back is the identity.
pub proof fn lemma_hex_digit(d: nat)
    requires
        d < 16,
    ensures
        hex_val(hex_char_of(d)) == d,
{
}

/// A rendering is as wide as asked.
pub proof fn lemma_hex_seq_len(n: nat, w: nat)
    ensures
        hex_seq(n, w).len() == w,
    decreases w,
{
    if w > 0 {
        lemma_hex_seq_len(n / 16, (w - 1) as nat);
    }
}

/// A rendering holds digit characters only.
pub proof fn lemma_hex_seq_is_hex(n: nat, w: nat)
    ensures
        is_hex_seq(hex_seq(n, w)),
    decreases w,
{
    if w > 0 {
        lemma_hex_seq_is_hex(n / 16, (w - 1) as nat);
        lemma_mod_bound(n as int, 16);
        lemma_hex_digit(n % 16);
        let inner = hex_seq(n / 16, (w - 1) as nat);
        let s = hex_seq(n, w);
        assert forall|i: int| 0 <= i < s.len() implies hex_val(#[trigger] s[i]) < 16 by {
            if i < inner.len() {
                assert(s[i] == inner[i]);
            }
        }
    }
}

/// Parsing a `w`-digit rendering of `n` gives `n` back.
pub proof fn lemma_hex_round_trip(n: nat, w: nat)
    requires
        n < pow16(w),
    ensures
        hex_parse(hex_seq(n, w)) == n,
    decreases w,
{
    if w == 0 {
    } else {
        lemma_multiply_divide_lt(n as int, 16, pow16((w - 1) as nat) as int);
        lemma_hex_round_trip(n / 16, (w - 1) as nat);
        let inner = hex_seq(n / 16, (w - 1) as nat);
        let s = hex_seq(n, w);
        lemma_hex_seq_len(n, w);
        assert(s.drop_last() =~= inner);
        assert(s.last() == hex_char_of(n % 16));
        lemma_mod_bound(n as int, 16);
        lemma_hex_digit(n % 16);
        lemma_fundamental_div_mod(n as int, 16);
    }
}

/// What a run of `w` digits denotes is below sixteen to the `w`.
pub proof fn lemma_hex_parse_bound(s: Seq<char>)
    requires
        is_hex_seq(s),
    ensures
        hex_parse(s) < pow16(s.len()),
    decreases s.len(),
{
    if s.len() > 0 {
        let head = s.drop_last();
        assert(is_hex_seq(head)) by {
            assert forall|i: int| 0 <= i < head.len() implies hex_val(#[trigger] head[i]) < 16 by {
                assert(head[i] == s[i]);
            }
        }
        lemma_hex_parse_bound(head);
        assert(hex_val(s.last()) < 16) by {
            assert(s.last() == s[s.len() - 1]);
        }
    }
}

/// Sixteen to any power is positive.
pub proof fn lemma_pow16_pos(a: nat)
    ensures
        pow16(a) >= 1,
    decreases a,
{
    if a > 0 {
        lemma_pow16_pos((a - 1) as nat);
    }
}

/// Sixteen to the power is monotone in the exponent.
pub proof fn lemma_pow16_le(a: nat, b: nat)
    requires
        a <= b,
    ensures
        pow16(a) <= pow16(b),
        pow16(a) >= 1,
    decreases b,
{
    lemma_pow16_pos(a);
    if a < b {
        lemma_pow16_le(a, (b - 1) as nat);
    }
}

/// Sixteen to the sixteenth, the bound of a sixteen-digit field.
pub proof fn lemma_pow16_16()
    ensures
        pow16(16) == 0x10000000000000000,
{
    reveal_with_fuel(pow16, 17);
}

/// Sixteen to the thirty-second, the bound of a thirty-two-digit field.
pub proof fn lemma_pow16_32()
    ensures
        pow16(32) == 0x100000000000000000000000000000000,
{
    reveal_with_fuel(pow16, 33);
}

/// The digit character for a value below sixteen.
pub fn hex_char(d: u8) -> (c: char)
    requires
        d < 16,
    ensures
        c == hex_char_of(d as nat),
{
    if d == 0 { '0' }
    else if d == 1 { '1' }
    else if d == 2 { '2' }
    else if d == 3 { '3' }
    else if d == 4 { '4' }
    else if d == 5 { '5' }
    else if d == 6 { '6' }
    else if d == 7 { '7' }
    else if d == 8 { '8' }
    else if d == 9 { '9' }
    else if d == 10 { 'a' }
    else if d == 11 { 'b' }
    else if d == 12 { 'c' }
    else if d == 13 { 'd' }
    else if d == 14 { 'e' }
    else { 'f' }
}

/// The value of a digit character; sixteen for a character that is no digit.
pub fn hex_value(c: char) -> (d: u8)
    ensures
        d as nat == hex_val(c),
        d <= 16,
{
    if c == '0' { 0 }
    else if c == '1' { 1 }
    else if c == '2' { 2 }
    else if c == '3' { 3 }
    else if c == '4' { 4 }
    else if c == '5' { 5 }
    else if c == '6' { 6 }
    else if c == '7' { 7 }
    else if c == '8' { 8 }
    else if c == '9' { 9 }
    else if c == 'a' { 10 }
    else if c == 'b' { 11 }
    else if c == 'c' { 12 }
    else if c == 'd' { 13 }
    else if c == 'e' { 14 }
    else if c == 'f' { 15 }
    else { 16 }
}

/// Appends the `w`-digit rendering of `n` to `out`.
pub fn push_hex(out: &mut Vec<char>, n: u128, w: u32)
    requires
        (n as nat) < pow16(w as nat),
    ensures
        final(out)@ == old(out)@ + hex_seq(n as nat, w as nat),
    decreases w,
{
    if w == 0 {
        assert(out@ =~= old(out)@ + hex_seq(n as nat, 0));
        return;
    }
    proof {
        lemma_multiply_divide_lt(n as int, 16, pow16((w - 1) as nat) as int);
    }
    push_hex(out, n / 16, w - 1);
    proof {
        lemma_mod_bound(n as int, 16);
    }
    let d: u8 = (n % 16) as u8;
    let c = hex_char(d);
    out.push(c);
    assert(out@ =~= old(out)@ + hex_seq(n as nat, w as nat));
}

/// Reads the value of the `w` characters of `v` that start at `from`;
/// `None` when one of them is no digit.
pub fn parse_hex(v: &Vec<char>, from: usize, w: usize) -> (r: Option<u128>)
    requires
        from + w <= v@.len(),
        w <= 32,
    ensures
        match r {
            Some(n) => is_hex_seq(v@.subrange(from as int, from + w))
                && n as nat == hex_parse(v@.subrange(from as int, from + w)),
            None => !is_hex_seq(v@.subrange(from as int, from + w)),
        },
{
    let vlen: usize = v.len();
    let mut acc: u128 = 0;
    let mut i: usize = 0;
    while i < w
        invariant
            from + w <= vlen,
            vlen == v@.len(),
            w <= 32,
            i <= w,
            is_hex_seq(v@.subrange(from as int, from + i)),
            acc as nat == hex_parse(v@.subrange(from as int, from + i)),
        decreases w - i,
    {
        let d = hex_value(v[from + i]);
        if d >= 16 {
            assert(!is_hex_seq(v@.subrange(from as int, from + w))) by {
                let win = v@.subrange(from as int, from + w);
                assert(win[i as int] == v@[from + i]);
                assert(hex_val(win[i as int]) >= 16);
            }
            return None;
        }
        proof {
            let pre = v@.subrange(from as int, from + i);
            lemma_hex_parse_bound(pre);
            lemma_pow16_le(i as nat, 31);
            lemma_pow16_32();
            assert(pow16(32) == 16 * pow16(31));
            assert(acc * 16 + 15 < pow16(32));
        }
        acc = acc * 16 + (d as u128);
        proof {
            let pre = v@.subrange(from as int, from + i);
            let nxt = v@.subrange(from as int, from + i + 1);
            assert(nxt.drop_last() =~= pre);
            assert(nxt.last() == v@[from + i]);
            assert forall|j: int| 0 <= j < nxt.len() implies hex_val(#[trigger] nxt[j]) < 16 by {
                if j < i {
                    assert(nxt[j] == pre[j]);
                } else {
                    assert(nxt[j] == v@[from + i]);
                }
            }
        }
        i += 1;
    }
    assert(v@.subrange(from as int, from + i) =~= v@.subrange(from as int, from + w));
    Some(acc)
}

} // verus!
