use crate::decimal::{
    all_digits, is_digit, lemma_read_padded, lemma_read_signed_padded, padded_decimal, parse_decimal,
    parse_signed_decimal, read_decimal, read_signed, render_padded,
};
use crate::murmur::{murmur32, murmur32_of};
use crate::timestamp::{HlcError, Timestamp};
use crate::wall_clock::{
    date_in_range, four_digit_year, DATE_MAX_MS, DATE_MIN_MS, rfc3339_millis, rfc3339_of, rfc3339_parse, rfc3339_text,
};
use vstd::prelude::*;

verus! {

/// Width to which the counter is zero-padded in the canonical text.
pub const COUNTER_WIDTH: usize = 4;

/// Width to which the node is zero-padded in the canonical text.
pub const NODE_WIDTH: usize = 16;

/// The canonical text of a timestamp: the RFC 3339 UTC date-time of its
/// physical component, a `-`, the counter padded to four digits, a `-`, and
/// the node padded to sixteen digits.
pub open spec fn canonical_text(t: Timestamp) -> Seq<char> {
    compose_text(rfc3339_of(t.millis as int), t.counter as int, t.node as int)
}

/// A date-time text followed by the counter and the node, each after a `-`
/// and zero-padded to its width.
pub open spec fn compose_text(date: Seq<char>, counter: int, node: int) -> Seq<char> {
    date + seq!['-'] + padded_decimal(counter, COUNTER_WIDTH as nat) + seq!['-'] + padded_decimal(
        node,
        NODE_WIDTH as nat,
    )
}

/// Writes the canonical text of a timestamp whose date-time is already
/// rendered as `date`.
pub fn compose(date: &str, counter: i64, node: i64) -> (r: String)
    ensures
        r@ == compose_text(date@, counter as int, node as int),
{
    proof {
        reveal_strlit("-");
    }
    let mut out = String::from_str(date);
    out.append("-");
    let c = render_padded(counter, COUNTER_WIDTH);
    out.append(c.as_str());
    out.append("-");
    let n = render_padded(node, NODE_WIDTH);
    out.append(n.as_str());
    assert(out@ =~= compose_text(date@, counter as int, node as int));
    out
}

/// The timestamps whose canonical text reads back as themselves: a date with
/// a four-digit year and a counter written without a sign.
pub open spec fn has_canonical_form(t: Timestamp) -> bool {
    four_digit_year(t.millis as int) && t.counter >= 0
}

/// Index of the last `-` in `s`, or -1 where there is none.
pub open spec fn last_hyphen(s: Seq<char>) -> int
    decreases s.len(),
{
    if s.len() == 0 {
        -1
    } else if s.last() == '-' {
        s.len() - 1
    } else {
        last_hyphen(s.drop_last())
    }
}

/// Index where the run of decimal digits that ends `s` starts (`s.len()`
/// where `s` does not end in a digit).
pub open spec fn digit_run_start(s: Seq<char>) -> int
    decreases s.len(),
{
    if s.len() == 0 {
        0
    } else if is_digit(s.last()) {
        digit_run_start(s.drop_last())
    } else {
        s.len() as int
    }
}

/// Index of the `-` that comes before the node field, or -1. The node is the
/// digit run that ends the text, with a `-` sign where a second `-` comes
/// before it (the counter ends in a digit).
pub open spec fn node_separator(s: Seq<char>) -> int {
    let k = digit_run_start(s);
    if k < s.len() && k >= 1 && s[k - 1] == '-' {
        if k >= 2 && s[k - 2] == '-' {
            k - 2
        } else {
            k - 1
        }
    } else {
        -1
    }
}

/// A timestamp from its date-time (already read) and the texts of its
/// counter and node.
pub open spec fn assemble(
    date: Option<i64>,
    counter: Option<i64>,
    node: Option<i64>,
) -> Result<Timestamp, HlcError> {
    match (date, counter, node) {
        (Some(m), Some(c), Some(n)) => Ok(Timestamp { millis: m, counter: c, node: n }),
        _ => Err(HlcError::ParseError),
    }
}

/// The fields that `s` is cut into: the node after the `-` given by
/// `node_separator`, the counter between that and the `-` before it, and an
/// RFC 3339 date-time before that.
pub open spec fn parse_text(s: Seq<char>) -> Result<Timestamp, HlcError> {
    let j = node_separator(s);
    let i = last_hyphen(s.subrange(0, j));
    if j < 0 || i < 0 {
        Err(HlcError::ParseError)
    } else {
        assemble(
            rfc3339_millis(s.subrange(0, i)),
            read_decimal(s.subrange(i + 1, j)),
            read_signed(s.subrange(j + 1, s.len() as int)),
        )
    }
}

/// What parsing `s` yields: the timestamp whose canonical text `s` is, and
/// `ParseError` for any other text.
pub open spec fn read_canonical(s: Seq<char>) -> Result<Timestamp, HlcError> {
    match parse_text(s) {
        Ok(t) => if date_in_range(t.millis as int) && canonical_text(t) == s {
            Ok(t)
        } else {
            Err(HlcError::ParseError)
        },
        Err(e) => Err(e),
    }
}

proof fn lemma_last_hyphen_before_digits(a: Seq<char>, b: Seq<char>)
    requires
        all_digits(b),
    ensures
        last_hyphen(a + seq!['-'] + b) == a.len(),
    decreases b.len(),
{
    let s = a + seq!['-'] + b;
    if b.len() > 0 {
        assert(is_digit(b[b.len() - 1]));
        assert(s.last() == b.last());
        assert(s.drop_last() =~= a + seq!['-'] + b.drop_last());
        assert(all_digits(b.drop_last())) by {
            assert forall|k: int| 0 <= k < b.drop_last().len() implies is_digit(#[trigger] b.drop_last()[k]) by {
                assert(b.drop_last()[k] == b[k]);
            }
        }
        lemma_last_hyphen_before_digits(a, b.drop_last());
    } else {
        assert(s =~= a + seq!['-']);
    }
}

proof fn lemma_digit_run_start(a: Seq<char>, b: Seq<char>)
    requires
        all_digits(b),
        a.len() > 0,
        !is_digit(a.last()),
    ensures
        digit_run_start(a + b) == a.len(),
    decreases b.len(),
{
    let s = a + b;
    if b.len() > 0 {
        assert(is_digit(b[b.len() - 1]));
        assert(s.last() == b.last());
        assert(s.drop_last() =~= a + b.drop_last());
        assert(all_digits(b.drop_last())) by {
            assert forall|k: int| 0 <= k < b.drop_last().len() implies is_digit(#[trigger] b.drop_last()[k]) by {
                assert(b.drop_last()[k] == b[k]);
            }
        }
        lemma_digit_run_start(a, b.drop_last());
    } else {
        assert(s =~= a);
    }
}

/// The canonical text of a timestamp with a counter written without a sign
/// is cut back into its three parts.
proof fn lemma_canonical_split(t: Timestamp)
    requires
        t.counter >= 0,
    ensures
        ({
            let s = canonical_text(t);
            let d = rfc3339_of(t.millis as int);
            let c = padded_decimal(t.counter as int, COUNTER_WIDTH as nat);
            let n = padded_decimal(t.node as int, NODE_WIDTH as nat);
            let j: int = d.len() as int + 1 + c.len() as int;
            &&& node_separator(s) == j
            &&& last_hyphen(s.subrange(0, j)) == d.len()
            &&& s.subrange(0, d.len() as int) == d
            &&& s.subrange(d.len() as int + 1, j) == c
            &&& s.subrange(j + 1, s.len() as int) == n
            &&& read_decimal(c) == Some(t.counter)
            &&& read_signed(n) == Some(t.node)
        }),
{
    let s = canonical_text(t);
    let d = rfc3339_of(t.millis as int);
    let c = padded_decimal(t.counter as int, COUNTER_WIDTH as nat);
    let n = padded_decimal(t.node as int, NODE_WIDTH as nat);
    let j: int = d.len() as int + 1 + c.len() as int;
    lemma_read_padded(t.counter as int, COUNTER_WIDTH as nat);
    lemma_read_signed_padded(t.node, NODE_WIDTH as nat);
    let head = d + seq!['-'] + c;
    assert(s =~= head + seq!['-'] + n);
    assert(is_digit(c[c.len() - 1]));
    if t.node >= 0 {
        lemma_digit_run_start(head + seq!['-'], n);
        assert(s =~= (head + seq!['-']) + n);
    } else {
        let f = n.drop_first();
        assert(n =~= seq!['-'] + f);
        lemma_digit_run_start(head + seq!['-'] + seq!['-'], f);
        assert(s =~= (head + seq!['-'] + seq!['-']) + f);
    }
    assert(s.subrange(0, j) =~= d + seq!['-'] + c);
    lemma_last_hyphen_before_digits(d, c);
    assert(s.subrange(0, d.len() as int) =~= d);
    assert(s.subrange(d.len() as int + 1, j) =~= c);
    assert(s.subrange(j + 1, s.len() as int) =~= n);
}

/// Index of the last `-` among the first `end` characters of `s`.
fn find_last_hyphen(s: &str, end: usize) -> (r: Option<usize>)
    requires
        end <= s@.len(),
    ensures
        match r {
            Some(k) => k < end && k == last_hyphen(s@.subrange(0, end as int)),
            None => last_hyphen(s@.subrange(0, end as int)) == -1,
        },
{
    let mut i: usize = end;
    while i > 0
        invariant
            i <= end <= s@.len(),
            last_hyphen(s@.subrange(0, end as int)) == last_hyphen(s@.subrange(0, i as int)),
        decreases i,
    {
        let c = s.get_char(i - 1);
        let ghost pre = s@.subrange(0, i as int);
        assert(pre.drop_last() =~= s@.subrange(0, i - 1));
        if c == '-' {
            return Some(i - 1);
        }
        i = i - 1;
    }
    None
}

/// Index where the run of decimal digits that ends `s` starts.
fn find_digit_run_start(s: &str) -> (r: usize)
    ensures
        r == digit_run_start(s@),
{
    let len = s.unicode_len();
    assert(s@.subrange(0, len as int) =~= s@);
    let mut i: usize = len;
    while i > 0
        invariant
            i <= len == s@.len(),
            digit_run_start(s@) == digit_run_start(s@.subrange(0, i as int)),
        decreases i,
    {
        let c = s.get_char(i - 1);
        let ghost pre = s@.subrange(0, i as int);
        assert(pre.drop_last() =~= s@.subrange(0, i - 1));
        if !('0' <= c && c <= '9') {
            return i;
        }
        i = i - 1;
    }
    0
}

impl Timestamp {
    /// The canonical text of the timestamp, e.g.
    /// `1970-01-01T00:00:00+00:00-0000-0000000000000000`.
    pub fn to_string(&self) -> (r: String)
        requires
            date_in_range(self.millis as int),
        ensures
            r@ == canonical_text(*self),
    {
        let date = rfc3339_text(self.millis);
        compose(date.as_str(), self.counter, self.node)
    }

    /// Builds a timestamp from its date-time, as read from RFC 3339 text
    /// (`None` where that text did not parse), and the decimal texts of its
    /// counter and node.
    pub fn from_fields(date: Option<i64>, counter: &str, node: &str) -> (r: Result<Timestamp, HlcError>)
        ensures
            r == assemble(date, read_decimal(counter@), read_signed(node@)),
    {
        let c = parse_decimal(counter);
        let n = parse_signed_decimal(node);
        match (date, c, n) {
            (Some(m), Some(c), Some(n)) => Ok(Timestamp { millis: m, counter: c, node: n }),
            _ => Err(HlcError::ParseError),
        }
    }

    /// Reads a timestamp back from its canonical text; any other text is a
    /// `ParseError`. Every timestamp in canonical form is read back from its
    /// own text unchanged.
    pub fn parse(s: &str) -> (r: Result<Timestamp, HlcError>)
        ensures
            r == read_canonical(s@),
            forall|t: Timestamp|
                has_canonical_form(t) && #[trigger] canonical_text(t) == s@ ==> r == Ok::<Timestamp, HlcError>(t),
    {
        let len = s.unicode_len();
        let k = find_digit_run_start(s);
        if !(k < len && k >= 1 && s.get_char(k - 1) == '-') {
            proof {
                assert forall|t: Timestamp| has_canonical_form(t) && #[trigger] canonical_text(t) == s@ implies false by {
                    lemma_canonical_split(t);
                }
            }
            return Err(HlcError::ParseError);
        }
        let j = if k >= 2 && s.get_char(k - 2) == '-' { k - 2 } else { k - 1 };
        let i = match find_last_hyphen(s, j) {
            Some(i) => i,
            None => {
                proof {
                    assert forall|t: Timestamp| has_canonical_form(t) && #[trigger] canonical_text(t) == s@ implies false by {
                        lemma_canonical_split(t);
                    }
                }
                return Err(HlcError::ParseError);
            },
        };
        let date = s.substring_char(0, i);
        let counter = s.substring_char(i + 1, j);
        let node = s.substring_char(j + 1, len);
        let millis = rfc3339_parse(date);
        let fields = Timestamp::from_fields(millis, counter, node);
        proof {
            assert forall|t: Timestamp| has_canonical_form(t) && #[trigger] canonical_text(t) == s@ implies fields == Ok::<Timestamp, HlcError>(t) by {
                lemma_canonical_split(t);
                assert(rfc3339_of(t.millis as int) == date@);
            }
        }
        match fields {
            Ok(t) => {
                if DATE_MIN_MS <= t.millis && t.millis <= DATE_MAX_MS {
                    let text = t.to_string();
                    let source = String::from_str(s);
                    if text == source {
                        Ok(t)
                    } else {
                        Err(HlcError::ParseError)
                    }
                } else {
                    Err(HlcError::ParseError)
                }
            },
            Err(e) => Err(e),
        }
    }

    /// A 32-bit MurmurHash of the canonical text.
    pub fn hash(&self) -> (r: u32)
        requires
            date_in_range(self.millis as int),
        ensures
            r == murmur32_of(canonical_text(*self)),
    {
        let text = self.to_string();
        murmur32(text.as_str())
    }
}

impl std::str::FromStr for Timestamp {
    type Err = HlcError;

    /// Reads a timestamp back from its canonical text, as `Timestamp::parse`.
    fn from_str(s: &str) -> (r: Result<Timestamp, HlcError>)
        ensures
            r == read_canonical(s@),
            forall|t: Timestamp|
                has_canonical_form(t) && #[trigger] canonical_text(t) == s@ ==> r == Ok::<Timestamp, HlcError>(t),
    {
        Timestamp::parse(s)
    }
}

} // verus!
