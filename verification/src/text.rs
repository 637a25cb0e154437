//! Decimal numerals and small character-level text helpers.

use vstd::prelude::*;
use vstd::relations::total_ordering;

verus! {

/// The decimal digit character for `d` (`d < 10`).
pub open spec fn digit_char(d: nat) -> char {
    if d == 0 { '0' }
    else if d == 1 { '1' }
    else if d == 2 { '2' }
    else if d == 3 { '3' }
    else if d == 4 { '4' }
    else if d == 5 { '5' }
    else if d == 6 { '6' }
    else if d == 7 { '7' }
    else if d == 8 { '8' }
    else { '9' }
}

/// The decimal numeral of `n`, without leading zeros.
pub open spec fn decimal(n: nat) -> Seq<char>
    decreases n,
{
    if n < 10 {
        seq![digit_char(n)]
    } else {
        decimal(n / 10).push(digit_char(n % 10))
    }
}

/// Appends one character to a string.
#[verifier::external_body]
pub(crate) fn push_char(s: &mut String, c: char)
    ensures
        final(s)@ == old(s)@.push(c),
{
    s.push(c);
}

fn digit(d: u64) -> (c: char)
    requires
        d < 10,
    ensures
        c == digit_char(d as nat),
{
    if d == 0 { '0' }
    else if d == 1 { '1' }
    else if d == 2 { '2' }
    else if d == 3 { '3' }
    else if d == 4 { '4' }
    else if d == 5 { '5' }
    else if d == 6 { '6' }
    else if d == 7 { '7' }
    else if d == 8 { '8' }
    else { '9' }
}

/// Appends the decimal numeral of `n` to `s`.
pub fn push_decimal(s: &mut String, n: u64)
    ensures
        final(s)@ == old(s)@ + decimal(n as nat),
    decreases n,
{
    if n >= 10 {
        push_decimal(s, n / 10);
    }
    push_char(s, digit(n % 10));
    proof {
        if n >= 10 {
            assert(decimal(n as nat) == decimal((n / 10) as nat).push(digit_char((n % 10) as nat)));
        }
    }
}

/// The decimal numeral of `n`, as `n.to_string()` writes it.
pub fn decimal_string(n: u64) -> (r: String)
    ensures
        r@ == decimal(n as nat),
{
    let mut s = String::new();
    push_decimal(&mut s, n);
    s
}

/// The characters of `s`, in order.
pub fn chars_of(s: &str) -> (v: Vec<char>)
    ensures
        v@ == s@,
{
    let mut v: Vec<char> = Vec::new();
    for c in it: s.chars()
        invariant
            it.seq() == s@,
            v@ == it.seq().take(it.index() as int),
    {
        v.push(c);
    }
    v
}

/// Whether `c` is one of the ASCII digits `0` to `9`.
pub open spec fn is_digit(c: char) -> bool {
    '0' <= c <= '9'
}

/// The value of the decimal numeral `s`, read most significant digit first.
pub open spec fn numeral_value(s: Seq<char>) -> nat
    decreases s.len(),
{
    if s.len() == 0 {
        0
    } else {
        numeral_value(s.drop_last()) * 10 + (s.last() as nat - '0' as nat) as nat
    }
}

/// `s` without its leading `+`, if it has one.
pub open spec fn unsigned_digits(s: Seq<char>) -> Seq<char> {
    if s.len() > 0 && s[0] == '+' { s.drop_first() } else { s }
}

/// Whether every character of `s` is an ASCII digit.
pub open spec fn all_digits(s: Seq<char>) -> bool {
    forall|i: int| 0 <= i < s.len() ==> is_digit(#[trigger] s[i])
}

/// What `str::parse` gives for an unsigned integer type whose largest value is
/// `max`: an optional leading `+`, then one or more ASCII digits whose value
/// does not exceed `max`; anything else is refused.
pub open spec fn parse_unsigned_spec(s: Seq<char>, max: nat) -> Option<nat> {
    let d = unsigned_digits(s);
    if d.len() > 0 && all_digits(d) && numeral_value(d) <= max {
        Some(numeral_value(d))
    } else {
        None
    }
}

/// The decimal numeral of `n` is a non-empty run of digits that reads back
/// as `n`.
pub proof fn law_decimal_reads_back(n: nat)
    ensures
        decimal(n).len() > 0,
        all_digits(decimal(n)),
        numeral_value(decimal(n)) == n,
    decreases n,
{
    let d = (n % 10) as nat;
    assert(is_digit(digit_char(d)));
    assert(digit_char(d) as nat - '0' as nat == d);
    if n < 10 {
        assert(decimal(n) == seq![digit_char(n)]);
        assert(decimal(n).drop_last() =~= Seq::<char>::empty());
        assert(numeral_value(Seq::<char>::empty()) == 0);
        assert(n % 10 == n);
    } else {
        law_decimal_reads_back(n / 10);
        let s = decimal(n / 10);
        assert(decimal(n) == s.push(digit_char(d)));
        assert(s.push(digit_char(d)).drop_last() =~= s);
        assert(numeral_value(decimal(n)) == numeral_value(s) * 10 + d);
        assert((n / 10) * 10 + n % 10 == n);
    }
}

/// `d` is a decimal numeral, made of digits only, whose value is `v`.
pub open spec fn shows_number(d: Seq<char>, v: nat) -> bool {
    &&& d.len() > 0
    &&& all_digits(d)
    &&& numeral_value(d) == v
}

/// The numeral of `n` read by the parser for a type whose largest value is
/// at least `n` gives `n` back.
pub proof fn law_parse_reads_decimal(n: nat, max: nat)
    requires
        n <= max,
    ensures
        parse_unsigned_spec(decimal(n), max) == Some(n),
{
    law_decimal_reads_back(n);
    assert(unsigned_digits(decimal(n)) == decimal(n));
}

/// The parser also reads the numeral of `n` after a `+` sign as `n`.
pub proof fn law_parse_reads_signed_decimal(n: nat, max: nat)
    requires
        n <= max,
    ensures
        parse_unsigned_spec(seq!['+'] + decimal(n), max) == Some(n),
{
    law_decimal_reads_back(n);
    assert((seq!['+'] + decimal(n)).drop_first() =~= decimal(n));
}

/// The parser refuses the empty text and a lone `+`, any character other
/// than a digit after the first, and a first character that is neither a
/// digit nor `+`.
pub proof fn law_parse_refuses_non_numerals(s: Seq<char>, max: nat, i: int)
    ensures
        s.len() == 0 ==> parse_unsigned_spec(s, max) is None,
        s == seq!['+'] ==> parse_unsigned_spec(s, max) is None,
        0 < i < s.len() && !is_digit(s[i]) ==> parse_unsigned_spec(s, max) is None,
        s.len() > 0 && s[0] != '+' && !is_digit(s[0]) ==> parse_unsigned_spec(s, max) is None,
{
    if s == seq!['+'] {
        assert(s.drop_first() =~= Seq::<char>::empty());
    }
    if 0 < i < s.len() && !is_digit(s[i]) {
        let d = unsigned_digits(s);
        if s[0] == '+' {
            assert(d[i - 1] == s[i]);
        } else {
            assert(d[i] == s[i]);
        }
    }
    if s.len() > 0 && s[0] != '+' && !is_digit(s[0]) {
        assert(unsigned_digits(s)[0] == s[0]);
    }
}

/// The parser refuses a numeral whose value exceeds the type's largest
/// value.
pub proof fn law_parse_refuses_too_large(n: nat, max: nat)
    requires
        n > max,
    ensures
        parse_unsigned_spec(decimal(n), max) is None,
        parse_unsigned_spec(seq!['+'] + decimal(n), max) is None,
{
    law_decimal_reads_back(n);
    assert((seq!['+'] + decimal(n)).drop_first() =~= decimal(n));
}

proof fn lemma_numeral_prefix_grows(s: Seq<char>, i: int)
    requires
        0 <= i <= s.len(),
        forall|j: int| 0 <= j < s.len() ==> is_digit(#[trigger] s[j]),
    ensures
        numeral_value(s.take(i)) <= numeral_value(s),
    decreases s.len() - i,
{
    if i < s.len() {
        lemma_numeral_prefix_grows(s, i + 1);
        assert(s.take(i + 1).drop_last() =~= s.take(i));
    } else {
        assert(s.take(i) =~= s);
    }
}

/// Parses `s` as `str::parse` parses an unsigned integer type whose largest
/// value is `max`.
pub fn parse_unsigned(s: &str, max: u128) -> (r: Option<u128>)
    ensures
        r == (match parse_unsigned_spec(s@, max as nat) {
            Some(v) => Some(v as u128),
            None => None,
        }),
{
    let chars = chars_of(s);
    let n = chars.len();
    let start: usize = if n > 0 && chars[0] == '+' { 1 } else { 0 };
    let ghost d = unsigned_digits(s@);
    assert(d =~= chars@.subrange(start as int, n as int));
    if start == n {
        return None;
    }
    let mut acc: u128 = 0;
    let mut i: usize = start;
    while i < n
        invariant
            start <= i <= n,
            n == chars@.len(),
            chars@ == s@,
            d =~= chars@.subrange(start as int, n as int),
            d == unsigned_digits(s@),
            forall|j: int| start <= j < i ==> is_digit(#[trigger] chars@[j]),
            acc as nat == numeral_value(d.take(i - start)),
            acc <= max,
        decreases n - i,
    {
        let c = chars[i];
        if !('0' <= c && c <= '9') {
            assert(!is_digit(d[i - start]));
            return None;
        }
        let dv = (c as u32 - '0' as u32) as u128;
        assert(d.take(i + 1 - start).drop_last() =~= d.take(i - start));
        let next = match acc.checked_mul(10) {
            Some(m) => m.checked_add(dv),
            None => None,
        };
        match next {
            Some(v) if v <= max => {
                acc = v;
            },
            _ => {
                proof {
                    assert(numeral_value(d.take(i + 1 - start)) > max);
                    if all_digits(d) {
                        lemma_numeral_prefix_grows(d, i + 1 - start);
                    }
                }
                return None;
            },
        }
        i = i + 1;
    }
    assert(d.take(n - start) =~= d);
    Some(acc)
}

/// Lexicographic order of texts by code point, the order of `str`'s `<=`:
/// a text comes before every longer text that it begins, and otherwise the
/// first differing character decides.
pub open spec fn text_le(a: Seq<char>, b: Seq<char>) -> bool
    decreases a.len(),
{
    if a.len() == 0 {
        true
    } else if b.len() == 0 {
        false
    } else if a[0] != b[0] {
        (a[0] as u32) < (b[0] as u32)
    } else {
        text_le(a.drop_first(), b.drop_first())
    }
}

proof fn lemma_text_le_reflexive(a: Seq<char>)
    ensures
        text_le(a, a),
    decreases a.len(),
{
    if a.len() > 0 {
        lemma_text_le_reflexive(a.drop_first());
    }
}

proof fn lemma_text_le_antisymmetric(a: Seq<char>, b: Seq<char>)
    requires
        text_le(a, b),
        text_le(b, a),
    ensures
        a == b,
    decreases a.len(),
{
    if a.len() > 0 && b.len() > 0 {
        if a[0] == b[0] {
            lemma_text_le_antisymmetric(a.drop_first(), b.drop_first());
            assert(a =~= seq![a[0]] + a.drop_first());
            assert(b =~= seq![b[0]] + b.drop_first());
        }
    } else {
        assert(a =~= b);
    }
}

proof fn lemma_text_le_transitive(a: Seq<char>, b: Seq<char>, c: Seq<char>)
    requires
        text_le(a, b),
        text_le(b, c),
    ensures
        text_le(a, c),
    decreases a.len(),
{
    if a.len() > 0 && b.len() > 0 && c.len() > 0 {
        if a[0] == b[0] && b[0] == c[0] {
            lemma_text_le_transitive(a.drop_first(), b.drop_first(), c.drop_first());
        }
    }
}

proof fn lemma_text_le_connected(a: Seq<char>, b: Seq<char>)
    ensures
        text_le(a, b) || text_le(b, a),
    decreases a.len(),
{
    if a.len() > 0 && b.len() > 0 {
        if a[0] == b[0] {
            lemma_text_le_connected(a.drop_first(), b.drop_first());
        } else {
            vstd::utf8::char_u32_cast(a[0], a[0] as u32);
            vstd::utf8::char_u32_cast(b[0], b[0] as u32);
        }
    }
}

/// A text comes no later than every text that it begins, and where two texts
/// first differ at a position, the one with the smaller character there
/// comes strictly first.
pub proof fn law_text_order(a: Seq<char>, b: Seq<char>, k: int)
    ensures
        a.len() <= b.len() && a == b.take(a.len() as int) ==> text_le(a, b),
        0 <= k < a.len() && k < b.len() && a.take(k) == b.take(k)
            && (a[k] as u32) < (b[k] as u32) ==> text_le(a, b) && !text_le(b, a),
    decreases a.len(),
{
    if a.len() > 0 && b.len() > 0 {
        if a.len() <= b.len() && a == b.take(a.len() as int) {
            assert(a[0] == b[0]);
            law_text_order(a.drop_first(), b.drop_first(), k - 1);
            assert(a.drop_first() =~= b.drop_first().take(a.drop_first().len() as int));
        }
        if 0 <= k < a.len() && k < b.len() && a.take(k) == b.take(k) && (a[k] as u32) < (b[k] as u32) {
            if k > 0 {
                assert(a[0] == a.take(k)[0]);
                assert(b[0] == b.take(k)[0]);
                assert(a.drop_first().take(k - 1) =~= b.drop_first().take(k - 1)) by {
                    assert forall|j: int| 0 <= j < k - 1 implies a.drop_first()[j] == b.drop_first()[j] by {
                        assert(a.take(k)[j + 1] == b.take(k)[j + 1]);
                    }
                }
                law_text_order(a.drop_first(), b.drop_first(), k - 1);
            } else {
                assert(a[0] != b[0]);
            }
        }
    }
}

/// `text_le` as a relation.
pub open spec fn text_order() -> spec_fn(Seq<char>, Seq<char>) -> bool {
    |a: Seq<char>, b: Seq<char>| text_le(a, b)
}

/// `text_le` is a total order on texts.
pub proof fn lemma_text_le_total()
    ensures
        total_ordering(text_order()),
{
    assert forall|a: Seq<char>| text_le(a, a) by {
        lemma_text_le_reflexive(a);
    }
    assert forall|a: Seq<char>, b: Seq<char>| text_le(a, b) && text_le(b, a) implies a == b by {
        lemma_text_le_antisymmetric(a, b);
    }
    assert forall|a: Seq<char>, b: Seq<char>, c: Seq<char>|
        text_le(a, b) && text_le(b, c) implies text_le(a, c) by {
        lemma_text_le_transitive(a, b, c);
    }
    assert forall|a: Seq<char>, b: Seq<char>| text_le(a, b) || text_le(b, a) by {
        lemma_text_le_connected(a, b);
    }
}

/// Whether `a` comes no later than `b` in `text_le` order.
pub fn text_le_exec(a: &str, b: &str) -> (r: bool)
    ensures
        r == text_le(a@, b@),
{
    let x = chars_of(a);
    let y = chars_of(b);
    let mut i: usize = 0;
    assert(x@.skip(0) =~= x@);
    assert(y@.skip(0) =~= y@);
    while i < x.len() && i < y.len()
        invariant
            i <= x@.len(),
            i <= y@.len(),
            x@ == a@,
            y@ == b@,
            text_le(a@, b@) == text_le(x@.skip(i as int), y@.skip(i as int)),
        decreases x@.len() - i,
    {
        if x[i] != y[i] {
            return (x[i] as u32) < (y[i] as u32);
        }
        assert(x@.skip(i as int).drop_first() =~= x@.skip(i + 1));
        assert(y@.skip(i as int).drop_first() =~= y@.skip(i + 1));
        i = i + 1;
    }
    i == x.len()
}

} // verus!
