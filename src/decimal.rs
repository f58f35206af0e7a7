use vstd::prelude::*;

verus! {

/// The character of the decimal digit `d` (0 to 9).
pub open spec fn digit_char(d: nat) -> char {
    if d == 0 { '0' }
    else if d == 1 { '1' }
    else if d == 2 { '2' }
    else if d == 3 { '3' }
    else if d == 4 { '4' }
    else if d == 5 { '5' }
    else if d == 6 { '6' }
    else if d == 7 { '7' }
    else if d == 8 { '8' }
    else { '9' }
}

pub open spec fn pow10(k: nat) -> nat
    decreases k,
{
    if k == 0 { 1 } else { 10 * pow10((k - 1) as nat) }
}

/// How many digits `n` has in decimal, without leading zeros.
pub open spec fn num_digits(n: nat) -> nat
    decreases n,
{
    if n < 10 { 1 } else { 1 + num_digits(n / 10) }
}

/// The last `k` decimal digits of `n`, most significant first, with leading
/// zeros where `n` has fewer than `k` digits.
pub open spec fn fixed_digits(n: nat, k: nat) -> Seq<char>
    decreases k,
{
    if k == 0 { seq![] } else { fixed_digits(n / 10, (k - 1) as nat).push(digit_char(n % 10)) }
}

pub open spec fn max_nat(a: nat, b: nat) -> nat {
    if a >= b { a } else { b }
}

/// `n` in decimal, padded with zeros to at least `width` characters; a
/// negative number carries a leading `-` that counts towards the width.
pub open spec fn padded_decimal(n: int, width: nat) -> Seq<char> {
    if n >= 0 {
        fixed_digits(n as nat, max_nat(width, num_digits(n as nat)))
    } else {
        let w = if width > 0 { (width - 1) as nat } else { 0 };
        seq!['-'] + fixed_digits((-n) as nat, max_nat(w, num_digits((-n) as nat)))
    }
}

pub open spec fn is_digit(c: char) -> bool {
    '0' <= c && c <= '9'
}

pub open spec fn all_digits(s: Seq<char>) -> bool {
    forall|i: int| 0 <= i < s.len() ==> is_digit(#[trigger] s[i])
}

pub open spec fn digit_value(c: char) -> int {
    c as int - '0' as int
}

/// The number that the digit string `s` denotes.
pub open spec fn decimal_value(s: Seq<char>) -> int
    decreases s.len(),
{
    if s.len() == 0 { 0 } else { decimal_value(s.drop_last()) * 10 + digit_value(s.last()) }
}

/// The value of a non-empty string of decimal digits that fits in an `i64`;
/// `None` for any other string.
pub open spec fn read_decimal(s: Seq<char>) -> Option<i64> {
    match read_digits(s, i64::MAX as int) {
        Some(v) => Some(v as i64),
        None => None,
    }
}

/// The value of a non-empty string of decimal digits that is at most
/// `bound`; `None` for any other string.
pub open spec fn read_digits(s: Seq<char>, bound: int) -> Option<int> {
    if s.len() > 0 && all_digits(s) && decimal_value(s) <= bound {
        Some(decimal_value(s))
    } else {
        None
    }
}

/// The `i64` that `s` writes in decimal, with a leading `-` for a negative
/// number; `None` for any other string.
pub open spec fn read_signed(s: Seq<char>) -> Option<i64> {
    if s.len() > 0 && s[0] == '-' {
        match read_digits(s.drop_first(), 0x8000_0000_0000_0000) {
            Some(v) => Some((-v) as i64),
            None => None,
        }
    } else {
        read_decimal(s)
    }
}

proof fn lemma_num_digits_le(n: nat, k: nat)
    requires
        1 <= k,
        n < pow10(k),
    ensures
        num_digits(n) <= k,
    decreases k,
{
    if n >= 10 {
        assert(pow10(k) == 10 * pow10((k - 1) as nat));
        if k == 1 {
            assert(pow10(0) == 1);
        } else {
            let p = pow10((k - 1) as nat);
            assert(n / 10 < p) by (nonlinear_arith)
                requires
                    n < 10 * p,
            ;
            lemma_num_digits_le(n / 10, (k - 1) as nat);
        }
    }
}

proof fn lemma_fixed_digits_all_digits(n: nat, k: nat)
    ensures
        all_digits(fixed_digits(n, k)),
        fixed_digits(n, k).len() == k,
    decreases k,
{
    if k > 0 {
        lemma_fixed_digits_all_digits(n / 10, (k - 1) as nat);
        let s = fixed_digits(n, k);
        assert forall|i: int| 0 <= i < s.len() implies is_digit(#[trigger] s[i]) by {
            if i < k - 1 {
                assert(s[i] == fixed_digits(n / 10, (k - 1) as nat)[i]);
            }
        }
    }
}

proof fn lemma_digit_char_value(d: nat)
    requires
        d < 10,
    ensures
        digit_value(digit_char(d)) == d,
        is_digit(digit_char(d)),
{
}

proof fn lemma_fixed_digits_value(n: nat, k: nat)
    requires
        k >= num_digits(n),
    ensures
        decimal_value(fixed_digits(n, k)) == n,
    decreases k,
{
    let s = fixed_digits(n, k);
    assert(s.drop_last() =~= fixed_digits(n / 10, (k - 1) as nat));
    assert(s.last() == digit_char(n % 10));
    lemma_digit_char_value(n % 10);
    assert(k >= 1);
    if k == 1 {
        assert(n < 10);
        assert(fixed_digits(n / 10, 0) =~= seq![]);
        assert(decimal_value(s.drop_last()) == 0);
    } else {
        lemma_fixed_digits_value(n / 10, (k - 1) as nat);
    }
    assert(decimal_value(s) == decimal_value(s.drop_last()) * 10 + digit_value(s.last()));
    assert(n == (n / 10) * 10 + n % 10);
}

/// The digits of a non-negative number, padded or not, read back as that
/// number.
pub(crate) proof fn lemma_read_padded(n: int, width: nat)
    requires
        0 <= n <= i64::MAX,
    ensures
        read_decimal(padded_decimal(n, width)) == Some(n as i64),
        read_signed(padded_decimal(n, width)) == Some(n as i64),
        all_digits(padded_decimal(n, width)),
        padded_decimal(n, width).len() > 0,
{
    let k = max_nat(width, num_digits(n as nat));
    lemma_fixed_digits_all_digits(n as nat, k);
    lemma_fixed_digits_value(n as nat, k);
    assert(is_digit(padded_decimal(n, width)[0]));
}

/// Any `i64`, padded or not, is read back from its decimal text.
pub(crate) proof fn lemma_read_signed_padded(n: i64, width: nat)
    ensures
        read_signed(padded_decimal(n as int, width)) == Some(n),
        padded_decimal(n as int, width).len() > 0,
        n < 0 ==> padded_decimal(n as int, width)[0] == '-' && all_digits(
            padded_decimal(n as int, width).drop_first(),
        ),
        n >= 0 ==> all_digits(padded_decimal(n as int, width)),
{
    if n >= 0 {
        lemma_read_padded(n as int, width);
    } else {
        let w: nat = if width > 0 { (width - 1) as nat } else { 0 };
        let m = (-n) as nat;
        let k = max_nat(w, num_digits(m));
        lemma_fixed_digits_all_digits(m, k);
        lemma_fixed_digits_value(m, k);
        let p = padded_decimal(n as int, width);
        assert(p.drop_first() =~= fixed_digits(m, k));
    }
}

proof fn lemma_decimal_value_prefix(s: Seq<char>, i: int)
    requires
        all_digits(s),
        0 <= i <= s.len(),
    ensures
        decimal_value(s.subrange(0, i)) <= decimal_value(s),
        0 <= decimal_value(s.subrange(0, i)),
    decreases s.len(),
{
    if s.len() > 0 {
        let t = s.drop_last();
        assert(all_digits(t)) by {
            assert forall|j: int| 0 <= j < t.len() implies is_digit(#[trigger] t[j]) by {
                assert(t[j] == s[j]);
            }
        }
        assert(is_digit(s[s.len() - 1]));
        if i == s.len() {
            assert(s.subrange(0, i) =~= s);
            lemma_decimal_value_prefix(t, t.len() as int);
            assert(t.subrange(0, t.len() as int) =~= t);
        } else {
            lemma_decimal_value_prefix(t, i);
            assert(t.subrange(0, i) =~= s.subrange(0, i));
            lemma_decimal_value_prefix(t, t.len() as int);
            assert(t.subrange(0, t.len() as int) =~= t);
        }
    } else {
        assert(s.subrange(0, i) =~= s);
    }
}

fn digit_str(d: u64) -> (r: &'static str)
    requires
        d < 10,
    ensures
        r@ == seq![digit_char(d as nat)],
{
    proof {
        reveal_strlit("0");
        reveal_strlit("1");
        reveal_strlit("2");
        reveal_strlit("3");
        reveal_strlit("4");
        reveal_strlit("5");
        reveal_strlit("6");
        reveal_strlit("7");
        reveal_strlit("8");
        reveal_strlit("9");
    }
    if d == 0 {
        assert("0"@ =~= seq!['0']);
        "0"
    } else if d == 1 {
        assert("1"@ =~= seq!['1']);
        "1"
    } else if d == 2 {
        assert("2"@ =~= seq!['2']);
        "2"
    } else if d == 3 {
        assert("3"@ =~= seq!['3']);
        "3"
    } else if d == 4 {
        assert("4"@ =~= seq!['4']);
        "4"
    } else if d == 5 {
        assert("5"@ =~= seq!['5']);
        "5"
    } else if d == 6 {
        assert("6"@ =~= seq!['6']);
        "6"
    } else if d == 7 {
        assert("7"@ =~= seq!['7']);
        "7"
    } else if d == 8 {
        assert("8"@ =~= seq!['8']);
        "8"
    } else {
        assert("9"@ =~= seq!['9']);
        "9"
    }
}

fn count_digits(n: u64) -> (r: usize)
    ensures
        r == num_digits(n as nat),
        r <= 20,
    decreases n,
{
    if n < 10 {
        1
    } else {
        let k = count_digits(n / 10);
        proof {
            reveal_with_fuel(pow10, 20);
            lemma_num_digits_le((n / 10) as nat, 19);
        }
        1 + k
    }
}

fn push_fixed_digits(out: &mut String, n: u64, k: usize)
    ensures
        final(out)@ == old(out)@ + fixed_digits(n as nat, k as nat),
    decreases k,
{
    if k > 0 {
        push_fixed_digits(out, n / 10, k - 1);
        out.append(digit_str(n % 10));
        assert(final(out)@ =~= old(out)@ + fixed_digits(n as nat, k as nat));
    } else {
        assert(final(out)@ =~= old(out)@ + fixed_digits(n as nat, k as nat));
    }
}

/// Writes `n` in decimal, zero-padded to at least `width` characters.
pub fn render_padded(n: i64, width: usize) -> (r: String)
    ensures
        r@ == padded_decimal(n as int, width as nat),
{
    let mut out = String::new();
    if n >= 0 {
        let m = n as u64;
        let nd = count_digits(m);
        let k = if width >= nd { width } else { nd };
        push_fixed_digits(&mut out, m, k);
        assert(out@ =~= padded_decimal(n as int, width as nat));
    } else {
        proof {
            reveal_strlit("-");
        }
        out.append("-");
        let m = (0 - n as i128) as u64;
        let w = if width > 0 { width - 1 } else { 0 };
        let nd = count_digits(m);
        let k = if w >= nd { w } else { nd };
        push_fixed_digits(&mut out, m, k);
        assert(out@ =~= padded_decimal(n as int, width as nat));
    }
    out
}

/// Reads a non-empty string of decimal digits whose value is at most `bound`.
fn parse_digits(s: &str, bound: u64) -> (r: Option<u64>)
    ensures
        match r {
            Some(v) => read_digits(s@, bound as int) == Some(v as int),
            None => read_digits(s@, bound as int) is None,
        },
{
    let len = s.unicode_len();
    if len == 0 {
        return None;
    }
    let mut v: u64 = 0;
    let mut i: usize = 0;
    while i < len
        invariant
            len == s@.len(),
            0 <= i <= len,
            all_digits(s@.subrange(0, i as int)),
            v == decimal_value(s@.subrange(0, i as int)),
            v <= bound,
        decreases len - i,
    {
        let c = s.get_char(i);
        if !('0' <= c && c <= '9') {
            assert(!all_digits(s@)) by {
                assert(!is_digit(s@[i as int]));
            }
            return None;
        }
        let next: u128 = v as u128 * 10 + (c as u32 - '0' as u32) as u128;
        let ghost pre = s@.subrange(0, i as int + 1);
        assert(pre.drop_last() =~= s@.subrange(0, i as int));
        assert(pre.last() == c);
        assert((c as u32 - '0' as u32) as int == digit_value(c));
        assert(next == decimal_value(pre));
        assert(all_digits(pre)) by {
            assert forall|j: int| 0 <= j < pre.len() implies is_digit(#[trigger] pre[j]) by {
                if j < i {
                    assert(pre[j] == s@.subrange(0, i as int)[j]);
                }
            }
        }
        if next > bound as u128 {
            proof {
                if all_digits(s@) {
                    lemma_decimal_value_prefix(s@, i as int + 1);
                }
            }
            return None;
        }
        v = next as u64;
        i = i + 1;
    }
    assert(s@.subrange(0, len as int) =~= s@);
    Some(v)
}

/// Reads a non-empty string of decimal digits whose value fits in an `i64`.
pub fn parse_decimal(s: &str) -> (r: Option<i64>)
    ensures
        r == read_decimal(s@),
{
    match parse_digits(s, 0x7fff_ffff_ffff_ffff) {
        Some(v) => Some(v as i64),
        None => None,
    }
}

/// Reads an `i64` written in decimal, with a leading `-` where it is negative.
pub fn parse_signed_decimal(s: &str) -> (r: Option<i64>)
    ensures
        r == read_signed(s@),
{
    let len = s.unicode_len();
    if len > 0 && s.get_char(0) == '-' {
        let rest = s.substring_char(1, len);
        assert(rest@ =~= s@.drop_first());
        match parse_digits(rest, 0x8000_0000_0000_0000) {
            Some(v) => Some((0 - v as i128) as i64),
            None => None,
        }
    } else {
        parse_decimal(s)
    }
}

} // verus!
