//! Text primitives shared by the rest of the crate: the total order on strings
//! that keyed collections sort by, decimal numbers, prefixes and joins.

use vstd::prelude::*;
use vstd::string::StringSliceAdditionalSpecFns;
use vstd::utf8::encode_utf8;

verus! {

/// Outcome of comparing two strings.
#[derive(Clone, Copy, Debug, PartialEq, Eq, Structural)]
pub enum Order {
    Less,
    Equal,
    Greater,
}

/// `a` and `b` agree on their first `k` bytes, and at position `k` either `a`
/// has ended while `b` goes on, or `a` holds the smaller byte.
pub open spec fn precedes_at(a: Seq<u8>, b: Seq<u8>, k: int) -> bool {
    &&& 0 <= k <= a.len()
    &&& k < b.len()
    &&& forall|j: int| 0 <= j < k ==> a[j] == b[j]
    &&& (k < a.len() ==> a[k] < b[k])
}

/// Strict lexicographic order on byte strings.
pub open spec fn bytes_lt(a: Seq<u8>, b: Seq<u8>) -> bool {
    exists|k: int| precedes_at(a, b, k)
}

/// Strict order on strings: lexicographic on their UTF-8 encoding, which is
/// the order in which `str` values compare.
pub open spec fn key_lt(a: Seq<char>, b: Seq<char>) -> bool {
    bytes_lt(encode_utf8(a), encode_utf8(b))
}

/// A sequence of strings in strictly ascending order.
pub open spec fn ascending(keys: Seq<Seq<char>>) -> bool {
    forall|i: int, j: int| 0 <= i < j < keys.len() ==> key_lt(keys[i], keys[j])
}

/// No byte string precedes itself.
proof fn lemma_bytes_lt_irreflexive(a: Seq<u8>)
    ensures
        !bytes_lt(a, a),
{
}

/// What precedes a byte string precedes what that byte string precedes.
proof fn lemma_bytes_lt_transitive(a: Seq<u8>, b: Seq<u8>, c: Seq<u8>)
    requires
        bytes_lt(a, b),
        bytes_lt(b, c),
    ensures
        bytes_lt(a, c),
{
    let k1 = choose|k: int| precedes_at(a, b, k);
    let k2 = choose|k: int| precedes_at(b, c, k);
    let k = if k1 <= k2 { k1 } else { k2 };
    assert(precedes_at(a, c, k));
}

/// Of two byte strings at most one precedes the other.
proof fn lemma_bytes_lt_asymmetric(a: Seq<u8>, b: Seq<u8>)
    requires
        bytes_lt(a, b),
    ensures
        !bytes_lt(b, a),
{
    if bytes_lt(b, a) {
        lemma_bytes_lt_transitive(a, b, a);
        lemma_bytes_lt_irreflexive(a);
    }
}

/// Two byte strings that agree on their first `k` bytes are equal or ordered.
proof fn lemma_bytes_total_from(a: Seq<u8>, b: Seq<u8>, k: int)
    requires
        0 <= k <= a.len(),
        k <= b.len(),
        forall|j: int| 0 <= j < k ==> a[j] == b[j],
    ensures
        a == b || bytes_lt(a, b) || bytes_lt(b, a),
    decreases a.len() - k,
{
    if k == a.len() {
        if k == b.len() {
            assert(a =~= b);
        } else {
            assert(precedes_at(a, b, k));
        }
    } else if k == b.len() {
        assert(precedes_at(b, a, k));
    } else if a[k] < b[k] {
        assert(precedes_at(a, b, k));
    } else if b[k] < a[k] {
        assert(precedes_at(b, a, k));
    } else {
        lemma_bytes_total_from(a, b, k + 1);
    }
}

/// Strings with the same encoding are the same string.
pub proof fn lemma_encoding_injective(a: Seq<char>, b: Seq<char>)
    requires
        encode_utf8(a) == encode_utf8(b),
    ensures
        a == b,
{
    vstd::utf8::encode_utf8_decode_utf8(a);
    vstd::utf8::encode_utf8_decode_utf8(b);
}

/// `key_lt` is a strict total order.
pub proof fn lemma_key_lt_order(a: Seq<char>, b: Seq<char>, c: Seq<char>)
    ensures
        !key_lt(a, a),
        key_lt(a, b) ==> !key_lt(b, a),
        key_lt(a, b) && key_lt(b, c) ==> key_lt(a, c),
        a == b || key_lt(a, b) || key_lt(b, a),
{
    lemma_bytes_lt_irreflexive(encode_utf8(a));
    if key_lt(a, b) {
        lemma_bytes_lt_asymmetric(encode_utf8(a), encode_utf8(b));
        if key_lt(b, c) {
            lemma_bytes_lt_transitive(encode_utf8(a), encode_utf8(b), encode_utf8(c));
        }
    }
    lemma_bytes_total_from(encode_utf8(a), encode_utf8(b), 0);
    if encode_utf8(a) == encode_utf8(b) {
        lemma_encoding_injective(a, b);
    }
}

/// Strictly ascending sequences that hold the same strings are the same
/// sequence.
pub proof fn lemma_ascending_unique(a: Seq<Seq<char>>, b: Seq<Seq<char>>)
    requires
        ascending(a),
        ascending(b),
        forall|k: Seq<char>| a.contains(k) <==> b.contains(k),
    ensures
        a == b,
    decreases a.len(),
{
    if a.len() == 0 {
        if b.len() > 0 {
            assert(b.contains(b[0]));
        }
        assert(a =~= b);
    } else {
        let x = a.last();
        assert(a.contains(x));
        assert(b.contains(x));
        let y = b.last();
        assert(b.contains(y));
        assert(a.contains(y));
        let j = choose|j: int| 0 <= j < b.len() && b[j] == x;
        let i = choose|i: int| 0 <= i < a.len() && a[i] == y;
        lemma_key_lt_order(x, y, x);
        if j < b.len() - 1 {
            assert(key_lt(b[j], b[b.len() - 1]));
            if i < a.len() - 1 {
                assert(key_lt(a[i], a[a.len() - 1]));
            }
        }
        assert(x == y);
        let a0 = a.drop_last();
        let b0 = b.drop_last();
        assert forall|k: Seq<char>| a0.contains(k) <==> b0.contains(k) by {
            lemma_key_lt_order(k, x, k);
            if a0.contains(k) {
                let n = choose|n: int| 0 <= n < a0.len() && a0[n] == k;
                assert(a[n] == k);
                assert(key_lt(a[n], a[a.len() - 1]));
                assert(a.contains(k));
                let m = choose|m: int| 0 <= m < b.len() && b[m] == k;
                assert(b0[m] == k);
            }
            if b0.contains(k) {
                let n = choose|n: int| 0 <= n < b0.len() && b0[n] == k;
                assert(b[n] == k);
                assert(key_lt(b[n], b[b.len() - 1]));
                assert(b.contains(k));
                let m = choose|m: int| 0 <= m < a.len() && a[m] == k;
                assert(a0[m] == k);
            }
        }
        assert forall|p: int, q: int| 0 <= p < q < a0.len() implies key_lt(a0[p], a0[q]) by {
            assert(a0[p] == a[p] && a0[q] == a[q]);
        }
        assert forall|p: int, q: int| 0 <= p < q < b0.len() implies key_lt(b0[p], b0[q]) by {
            assert(b0[p] == b[p] && b0[q] == b[q]);
        }
        lemma_ascending_unique(a0, b0);
        assert(a =~= a0.push(x));
        assert(b =~= b0.push(y));
    }
}

/// Compares two strings in the order `key_lt`.
pub fn compare(a: &str, b: &str) -> (o: Order)
    ensures
        o is Less <==> key_lt(a@, b@),
        o is Equal <==> a@ == b@,
        o is Greater <==> key_lt(b@, a@),
{
    let x = a.as_bytes();
    let y = b.as_bytes();
    let n = if x.len() < y.len() { x.len() } else { y.len() };
    proof {
        lemma_key_lt_order(a@, b@, a@);
        lemma_key_lt_order(b@, a@, b@);
    }
    let mut i: usize = 0;
    while i < n
        invariant
            i <= n,
            n <= x.len(),
            n <= y.len(),
            x@ == encode_utf8(a@),
            y@ == encode_utf8(b@),
            forall|j: int| 0 <= j < i ==> x@[j] == y@[j],
        decreases n - i,
    {
        if x[i] < y[i] {
            assert(precedes_at(x@, y@, i as int));
            return Order::Less;
        }
        if x[i] > y[i] {
            assert(precedes_at(y@, x@, i as int));
            return Order::Greater;
        }
        i += 1;
    }
    if x.len() < y.len() {
        assert(precedes_at(x@, y@, i as int));
        Order::Less
    } else if x.len() > y.len() {
        assert(precedes_at(y@, x@, i as int));
        Order::Greater
    } else {
        proof {
            assert(x@ =~= y@);
            lemma_encoding_injective(a@, b@);
        }
        Order::Equal
    }
}

/// The character that writes the digit `d`.
pub open spec fn digit_char(d: nat) -> char {
    if d == 0 {
        '0'
    } else if d == 1 {
        '1'
    } else if d == 2 {
        '2'
    } else if d == 3 {
        '3'
    } else if d == 4 {
        '4'
    } else if d == 5 {
        '5'
    } else if d == 6 {
        '6'
    } else if d == 7 {
        '7'
    } else if d == 8 {
        '8'
    } else {
        '9'
    }
}

/// The decimal notation of `n`, without sign or leading zeros.
pub open spec fn decimal(n: nat) -> Seq<char>
    decreases n,
{
    if n < 10 {
        seq![digit_char(n)]
    } else {
        decimal(n / 10).push(digit_char(n % 10))
    }
}

/// The text of the digit `d`.
fn digit_str(d: u64) -> (s: &'static str)
    requires
        d < 10,
    ensures
        s@ == seq![digit_char(d as nat)],
{
    proof {
        reveal_strlit("0");
        reveal_strlit("1");
        reveal_strlit("2");
        reveal_strlit("3");
        reveal_strlit("4");
        reveal_strlit("5");
        reveal_strlit("6");
        reveal_strlit("7");
        reveal_strlit("8");
        reveal_strlit("9");
    }
    let s = if d == 0 {
        "0"
    } else if d == 1 {
        "1"
    } else if d == 2 {
        "2"
    } else if d == 3 {
        "3"
    } else if d == 4 {
        "4"
    } else if d == 5 {
        "5"
    } else if d == 6 {
        "6"
    } else if d == 7 {
        "7"
    } else if d == 8 {
        "8"
    } else {
        "9"
    };
    assert(s@ =~= seq![digit_char(d as nat)]);
    s
}

/// Appends the decimal notation of `n` to `out`.
pub fn push_decimal(out: &mut String, n: u64)
    ensures
        final(out)@ == old(out)@ + decimal(n as nat),
    decreases n,
{
    if n >= 10 {
        push_decimal(out, n / 10);
    }
    out.append(digit_str(n % 10));
    assert(out@ =~= old(out)@ + decimal(n as nat));
}

/// The decimal notation of `n` as a string.
pub fn decimal_string(n: u64) -> (s: String)
    ensures
        s@ == decimal(n as nat),
{
    let mut s = String::new();
    push_decimal(&mut s, n);
    assert(s@ =~= decimal(n as nat));
    s
}

/// Whether `c` is one of the digits `0` to `9`.
pub open spec fn is_digit(c: char) -> bool {
    '0' <= c <= '9'
}

/// Whether `s` consists of digits only.
pub open spec fn all_digits(s: Seq<char>) -> bool {
    forall|i: int| 0 <= i < s.len() ==> is_digit(#[trigger] s[i])
}

/// The number that the digits of `s` write in decimal notation.
pub open spec fn number(s: Seq<char>) -> nat
    decreases s.len(),
{
    if s.len() == 0 {
        0
    } else {
        number(s.drop_last()) * 10 + (s.last() as u32 - '0' as u32) as nat
    }
}

/// `s` without the plus sign that may stand in front of a number.
pub open spec fn unsigned(s: Seq<char>) -> Seq<char> {
    if s.len() > 0 && s[0] == '+' {
        s.skip(1)
    } else {
        s
    }
}

/// The number up to `max` that `s` writes: one or more digits, which a plus
/// sign may precede. Anything else writes no such number.
pub open spec fn parsed_number(s: Seq<char>, max: u32) -> Option<u32> {
    let digits = unsigned(s);
    if digits.len() > 0 && all_digits(digits) && number(digits) <= max {
        Some(number(digits) as u32)
    } else {
        None
    }
}

/// The number below 65536 that `s` writes.
pub open spec fn parsed_u16(s: Seq<char>) -> Option<u16> {
    match parsed_number(s, 0xFFFF) {
        Some(n) => Some(n as u16),
        None => None,
    }
}

/// A number is no smaller than the number that its leading digits write.
proof fn lemma_number_grows(s: Seq<char>, m: int)
    requires
        all_digits(s),
        0 <= m <= s.len(),
    ensures
        number(s.take(m)) <= number(s),
    decreases s.len() - m,
{
    if m == s.len() {
        assert(s.take(m) =~= s);
    } else {
        lemma_number_grows(s, m + 1);
        assert(s.take(m + 1).drop_last() =~= s.take(m));
        assert(is_digit(s[m]));
    }
}

/// Reads the number up to `max` that `s` writes.
pub fn parse_number(s: &str, max: u32) -> (r: Option<u32>)
    ensures
        r == parsed_number(s@, max),
{
    let ghost digits = unsigned(s@);
    if !s.is_ascii() {
        proof {
            let i = choose|i: int| 0 <= i < s@.len() && !('\0' <= #[trigger] s@[i] <= '\u{7f}');
            if i == 0 {
                if digits.len() > 0 {
                    assert(!is_digit(digits[0]));
                }
            } else {
                if s@[0] == '+' {
                    assert(digits[i - 1] == s@[i]);
                    assert(!is_digit(digits[i - 1]));
                } else {
                    assert(!is_digit(digits[i]));
                }
            }
        }
        return None;
    }
    let n = s.unicode_len();
    let start: usize = if n > 0 && s.get_ascii(0) == 43 {
        1
    } else {
        0
    };
    assert(digits =~= s@.skip(start as int));
    if start == n {
        return None;
    }
    let mut value: u64 = 0;
    let mut i: usize = start;
    assert(digits.take(0) =~= Seq::empty());
    while i < n
        invariant
            start <= i <= n,
            n == s@.len(),
            s.is_ascii(),
            digits == s@.skip(start as int),
            digits == unsigned(s@),
            all_digits(digits.take(i - start)),
            value == number(digits.take(i - start)),
            value <= max,
        decreases n - i,
    {
        let b = s.get_ascii(i);
        let ghost c = s@[i as int];
        assert(digits[i - start] == c);
        assert(digits.take(i - start + 1).drop_last() =~= digits.take(i - start));
        assert(digits.take(i - start + 1).last() == c);
        if b < 48 || b > 57 {
            assert(!is_digit(digits[i - start]));
            return None;
        }
        assert(is_digit(c));
        assert((c as u32 - '0' as u32) as nat == (b - 48) as nat);
        value = value * 10 + (b - 48) as u64;
        if value > max as u64 {
            proof {
                if all_digits(digits) {
                    lemma_number_grows(digits, i - start + 1);
                }
            }
            return None;
        }
        assert forall|j: int| 0 <= j < digits.take(i - start + 1).len() implies is_digit(
            #[trigger] digits.take(i - start + 1)[j],
        ) by {
            if j < i - start {
                assert(digits.take(i - start + 1)[j] == digits.take(i - start)[j]);
            }
        }
        i += 1;
    }
    assert(digits.take(n - start) =~= digits);
    Some(value as u32)
}

/// Reads the number below 65536 that `s` writes.
pub fn parse_u16(s: &str) -> (r: Option<u16>)
    ensures
        r == parsed_u16(s@),
{
    match parse_number(s, 0xFFFF) {
        Some(n) => Some(n as u16),
        None => None,
    }
}

/// The first `n` characters of `s`, or all of `s` where it has fewer.
pub open spec fn prefix(s: Seq<char>, n: nat) -> Seq<char> {
    if s.len() >= n {
        s.subrange(0, n as int)
    } else {
        s
    }
}

/// The first `n` characters of `s`, or all of `s` where it has fewer.
pub fn leading(s: &str, n: usize) -> (p: String)
    ensures
        p@ == prefix(s@, n as nat),
{
    if s.unicode_len() >= n {
        s.substring_char(0, n).to_owned()
    } else {
        s.to_owned()
    }
}

/// The items of `parts` written one after another with `sep` between
/// neighbours.
pub open spec fn joined(parts: Seq<Seq<char>>, sep: Seq<char>) -> Seq<char>
    decreases parts.len(),
{
    if parts.len() == 0 {
        Seq::empty()
    } else if parts.len() == 1 {
        parts[0]
    } else {
        joined(parts.drop_last(), sep) + sep + parts.last()
    }
}

/// The views of a vector of strings.
pub open spec fn views(parts: Seq<String>) -> Seq<Seq<char>> {
    Seq::new(parts.len(), |i: int| parts[i]@)
}

/// `s` without the white space at its start and at its end.
pub uninterp spec fn trimmed(s: Seq<char>) -> Seq<char>;

/// `s` without leading and trailing white space, as `str::trim` returns it.
/// What counts as white space is for `str::trim` to say; the contract gives
/// the result a name and claims only that it depends on `s` alone.
#[verifier::external_body]
pub(crate) fn trim(s: &str) -> (t: String)
    ensures
        t@ == trimmed(s@),
{
    s.trim().to_string()
}

/// Whether two strings are the same.
pub fn same(a: &str, b: &str) -> (r: bool)
    ensures
        r == (a@ == b@),
{
    match compare(a, b) {
        Order::Equal => true,
        _ => false,
    }
}

/// Whether `s` is among `parts`.
pub fn contains(parts: &Vec<String>, s: &str) -> (r: bool)
    ensures
        r == views(parts@).contains(s@),
{
    let mut i: usize = 0;
    while i < parts.len()
        invariant
            i <= parts.len(),
            forall|j: int| 0 <= j < i ==> views(parts@)[j] != s@,
        decreases parts.len() - i,
    {
        if same(parts[i].as_str(), s) {
            assert(views(parts@)[i as int] == s@);
            return true;
        }
        i += 1;
    }
    false
}

/// A copy of a vector of strings.
pub fn copy_strings(parts: &Vec<String>) -> (copy: Vec<String>)
    ensures
        copy.deep_view() == parts.deep_view(),
{
    let mut copy: Vec<String> = Vec::new();
    let mut i: usize = 0;
    while i < parts.len()
        invariant
            i <= parts.len(),
            copy@.len() == i,
            forall|j: int| 0 <= j < i ==> copy@[j]@ == parts@[j]@,
        decreases parts.len() - i,
    {
        copy.push(parts[i].clone());
        i += 1;
    }
    assert(copy.deep_view() =~= parts.deep_view());
    copy
}

/// Joins `parts` with `sep` between neighbours.
pub fn join(parts: &Vec<String>, sep: &str) -> (s: String)
    ensures
        s@ == joined(views(parts@), sep@),
{
    let mut s = String::new();
    let mut i: usize = 0;
    while i < parts.len()
        invariant
            i <= parts.len(),
            s@ == joined(views(parts@).take(i as int), sep@),
        decreases parts.len() - i,
    {
        let ghost before = views(parts@).take(i as int);
        let ghost after = views(parts@).take(i + 1);
        proof {
            assert(after.drop_last() =~= before);
            assert(after.last() == parts@[i as int]@);
        }
        if i > 0 {
            s.append(sep);
        }
        s.append(parts[i].as_str());
        proof {
            if i == 0 {
                assert(s@ =~= parts@[0]@);
            }
        }
        i += 1;
    }
    assert(views(parts@).take(parts.len() as int) =~= views(parts@));
    s
}

} // verus!
