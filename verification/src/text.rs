//! Text as sequences of characters: case, white space, splitting, decimal numbers and order.

use vstd::prelude::*;
use vstd::slice::{slice_subrange, slice_to_vec};

verus! {

/// `String::push` of the standard library: appends one character at the end of the string.
pub assume_specification[ String::push ](s: &mut String, c: char)
    ensures
        final(s)@ == old(s)@.push(c),
;

// ---------------------------------------------------------------------------------------------
// Copies
// ---------------------------------------------------------------------------------------------

/// The characters of `s`, in order.
pub(crate) fn chars_of(s: &str) -> (v: Vec<char>)
    ensures
        v@ == s@,
{
    let mut v: Vec<char> = Vec::new();
    for c in it: s.chars()
        invariant
            it.seq() == s@,
            v@ == s@.take(it.index() as int),
    {
        v.push(c);
    }
    v
}

/// The string made of the characters `s`.
pub(crate) fn text_of(s: &[char]) -> (r: String)
    ensures
        r@ == s@,
{
    let mut r = String::new();
    let n = s.len();
    for i in 0..n
        invariant
            n == s@.len(),
            r@ == s@.take(i as int),
    {
        r.push(s[i]);
    }
    r
}

/// `a`, `b` and `c` one after the other.
pub(crate) fn join3(a: &str, b: &str, c: &str) -> (r: String)
    ensures
        r@ == a@ + b@ + c@,
{
    let mut r = a.to_owned();
    r.append(b);
    r.append(c);
    r
}

/// Whether `a` and `b` hold the same characters.
pub(crate) fn same_text(a: &str, b: &str) -> (r: bool)
    ensures
        r == (a@ == b@),
{
    a.to_owned() == b.to_owned()
}

// ---------------------------------------------------------------------------------------------
// ASCII case
// ---------------------------------------------------------------------------------------------

/// `c` with an ASCII capital turned into its small letter.
pub open spec fn lower_char(c: char) -> char {
    if 'A' <= c <= 'Z' {
        ((c as u32) + 32) as char
    } else {
        c
    }
}

/// `s` with every ASCII capital turned into its small letter.
pub open spec fn lower(s: Seq<char>) -> Seq<char> {
    Seq::new(s.len(), |i: int| lower_char(s[i]))
}

/// `s` with every ASCII capital turned into its small letter.
pub(crate) fn lowered(s: &[char]) -> (r: Vec<char>)
    ensures
        r@ == lower(s@),
{
    let mut r: Vec<char> = Vec::new();
    let n = s.len();
    for i in 0..n
        invariant
            n == s@.len(),
            r@ == lower(s@).take(i as int),
    {
        let c = s[i];
        if 'A' <= c && c <= 'Z' {
            r.push(((c as u8) + 32) as char);
        } else {
            r.push(c);
        }
    }
    r
}

// ---------------------------------------------------------------------------------------------
// White space
// ---------------------------------------------------------------------------------------------

/// The characters with the Unicode property `White_Space`.
pub open spec fn is_white(c: char) -> bool {
    ||| '\u{9}' <= c <= '\u{d}'
    ||| c == ' '
    ||| c == '\u{85}'
    ||| c == '\u{a0}'
    ||| c == '\u{1680}'
    ||| '\u{2000}' <= c <= '\u{200a}'
    ||| c == '\u{2028}'
    ||| c == '\u{2029}'
    ||| c == '\u{202f}'
    ||| c == '\u{205f}'
    ||| c == '\u{3000}'
}

/// `s` without the white space it starts with.
pub open spec fn trim_start(s: Seq<char>) -> Seq<char>
    decreases s.len(),
{
    if s.len() > 0 && is_white(s.first()) {
        trim_start(s.drop_first())
    } else {
        s
    }
}

/// `s` without the white space it ends with.
pub open spec fn trim_end(s: Seq<char>) -> Seq<char>
    decreases s.len(),
{
    if s.len() > 0 && is_white(s.last()) {
        trim_end(s.drop_last())
    } else {
        s
    }
}

/// `s` without white space at either end.
pub open spec fn trim(s: Seq<char>) -> Seq<char> {
    trim_end(trim_start(s))
}

/// Whether `s` holds nothing but white space.
pub open spec fn is_blank(s: Seq<char>) -> bool {
    trim(s).len() == 0
}

fn white(c: char) -> (r: bool)
    ensures
        r == is_white(c),
{
    ('\u{9}' <= c && c <= '\u{d}') || c == ' ' || c == '\u{85}' || c == '\u{a0}' || c == '\u{1680}'
        || ('\u{2000}' <= c && c <= '\u{200a}') || c == '\u{2028}' || c == '\u{2029}' || c
        == '\u{202f}' || c == '\u{205f}' || c == '\u{3000}'
}

/// `s` without white space at either end.
pub(crate) fn trimmed(s: &[char]) -> (r: &[char])
    ensures
        r@ == trim(s@),
{
    let mut a: usize = 0;
    let mut b: usize = s.len();
    assert(s@.subrange(0, s@.len() as int) =~= s@);
    while a < b && white(s[a])
        invariant
            0 <= a <= b == s@.len(),
            trim_start(s@.subrange(a as int, b as int)) == trim_start(s@),
        decreases b - a,
    {
        assert(s@.subrange(a as int, b as int).drop_first() =~= s@.subrange(a + 1, b as int));
        a = a + 1;
    }
    while a < b && white(s[b - 1])
        invariant
            0 <= a <= b <= s@.len(),
            trim_end(s@.subrange(a as int, b as int)) == trim(s@),
        decreases b - a,
    {
        assert(s@.subrange(a as int, b as int).drop_last() =~= s@.subrange(a as int, b - 1));
        b = b - 1;
    }
    slice_subrange(s, a, b)
}

pub(crate) proof fn lemma_lower_keeps(c: char)
    ensures
        lower_char(lower_char(c)) == lower_char(c),
        is_white(lower_char(c)) == is_white(c),
        is_digit(lower_char(c)) == is_digit(c),
        is_digit(c) ==> lower_char(c) == c,
        !('a' <= lower_char(c) <= 'z') ==> lower_char(c) == c,
        !('A' <= lower_char(c) <= 'Z'),
{
}

pub(crate) proof fn lemma_trim_lower(s: Seq<char>)
    ensures
        trim(lower(s)) == lower(trim(s)),
{
    lemma_trim_start_lower(s);
    lemma_trim_end_lower(trim_start(s));
}

proof fn lemma_trim_start_lower(s: Seq<char>)
    ensures
        trim_start(lower(s)) == lower(trim_start(s)),
    decreases s.len(),
{
    if s.len() > 0 {
        lemma_lower_keeps(s.first());
        assert(lower(s).drop_first() =~= lower(s.drop_first()));
        lemma_trim_start_lower(s.drop_first());
    }
}

proof fn lemma_trim_end_lower(s: Seq<char>)
    ensures
        trim_end(lower(s)) == lower(trim_end(s)),
    decreases s.len(),
{
    if s.len() > 0 {
        lemma_lower_keeps(s.last());
        assert(lower(s).drop_last() =~= lower(s.drop_last()));
        lemma_trim_end_lower(s.drop_last());
    }
}

proof fn lemma_trim_start_bound(s: Seq<char>)
    ensures
        trim_start(s).len() > 0 ==> !is_white(trim_start(s).first()),
    decreases s.len(),
{
    if s.len() > 0 && is_white(s.first()) {
        lemma_trim_start_bound(s.drop_first());
    }
}

proof fn lemma_trim_end_bound(s: Seq<char>)
    ensures
        trim_end(s).len() > 0 ==> !is_white(trim_end(s).last()) && trim_end(s).first() == s.first(),
        trim_end(s).len() <= s.len(),
    decreases s.len(),
{
    if s.len() > 0 && is_white(s.last()) {
        lemma_trim_end_bound(s.drop_last());
    }
}

/// Trimming a trimmed text changes nothing.
pub proof fn trim_is_final(s: Seq<char>)
    ensures
        trim(trim(s)) == trim(s),
{
    lemma_trim_start_bound(s);
    lemma_trim_end_bound(trim_start(s));
}

// ---------------------------------------------------------------------------------------------
// Searching and splitting
// ---------------------------------------------------------------------------------------------

/// The pieces of `s` between the occurrences of `sep`, in order; one piece if there is none.
pub open spec fn split(s: Seq<char>, sep: char) -> Seq<Seq<char>>
    decreases s.len(),
    when true
    via split_terminates
{
    match s.index_of_first(sep) {
        None => seq![s],
        Some(i) => seq![s.take(i)] + split(s.skip(i + 1), sep),
    }
}

#[via_fn]
proof fn split_terminates(s: Seq<char>, sep: char) {
    s.index_of_first_ensures(sep);
}

/// The pieces of two texts with a separator between them are the pieces of the one and then those
/// of the other.
pub proof fn split_joins(a: Seq<char>, sep: char, b: Seq<char>)
    ensures
        split(a + seq![sep] + b, sep) == split(a, sep) + split(b, sep),
    decreases a.len(),
{
    let s = a + seq![sep] + b;
    a.index_of_first_ensures(sep);
    s.index_of_first_ensures(sep);
    assert(s[a.len() as int] == sep);
    assert(s.contains(sep));
    match a.index_of_first(sep) {
        None => {
            assert forall|i: int| 0 <= i < a.len() implies s[i] != sep by {
                assert(s[i] == a[i]);
                assert(a.contains(a[i]));
            }
            assert(s.index_of_first(sep) == Some(a.len() as int));
            assert(s.take(a.len() as int) =~= a);
            assert(s.skip(a.len() as int + 1) =~= b);
        },
        Some(k) => {
            assert(s[k] == a[k]);
            assert forall|i: int| 0 <= i < k implies s[i] != sep by {
                assert(s[i] == a[i]);
            }
            assert(s.index_of_first(sep) == Some(k));
            let rest = a.skip(k + 1);
            assert(s.take(k) =~= a.take(k));
            assert(s.skip(k + 1) =~= rest + seq![sep] + b);
            split_joins(rest, sep, b);
            assert(seq![a.take(k)] + (split(rest, sep) + split(b, sep)) =~= seq![a.take(k)] + split(
                rest,
                sep,
            ) + split(b, sep));
        },
    }
}

/// A text without the separator is its own only piece.
pub proof fn split_of_one_piece(s: Seq<char>, sep: char)
    requires
        !s.contains(sep),
    ensures
        split(s, sep) == seq![s],
{
    s.index_of_first_ensures(sep);
}

/// Whether `s` starts with `prefix`.
pub open spec fn starts_with(s: Seq<char>, prefix: Seq<char>) -> bool {
    &&& prefix.len() <= s.len()
    &&& s.take(prefix.len() as int) == prefix
}

/// Whether `s` starts with `prefix`.
pub(crate) fn has_prefix(s: &str, prefix: &str) -> (r: bool)
    ensures
        r == starts_with(s@, prefix@),
{
    let v = chars_of(s);
    let p = chars_of(prefix);
    if p.len() > v.len() {
        return false;
    }
    for i in 0..p.len()
        invariant
            p@.len() <= v@.len(),
            v@.take(i as int) =~= p@.take(i as int),
            v@ == s@,
            p@ == prefix@,
    {
        if v[i] != p[i] {
            assert(v@.take(p@.len() as int)[i as int] == v@[i as int]);
            return false;
        }
        assert(v@.take(i + 1) =~= v@.take(i as int).push(v@[i as int]));
        assert(p@.take(i + 1) =~= p@.take(i as int).push(p@[i as int]));
    }
    assert(p@.take(p@.len() as int) =~= p@);
    true
}

/// The place of the first `c` in `s`.
pub(crate) fn first_index(s: &[char], c: char) -> (r: Option<usize>)
    ensures
        match r {
            Some(i) => i < s@.len() && s@.index_of_first(c) == Some(i as int),
            None => s@.index_of_first(c) is None,
        },
{
    let n = s.len();
    for i in 0..n
        invariant
            n == s@.len(),
            forall|j: int| 0 <= j < i ==> s@[j] != c,
    {
        if s[i] == c {
            proof {
                s@.index_of_first_ensures(c);
            }
            return Some(i);
        }
    }
    proof {
        s@.index_of_first_ensures(c);
    }
    None
}

/// The place of the last `c` in `s`.
pub(crate) fn last_index(s: &[char], c: char) -> (r: Option<usize>)
    ensures
        match r {
            Some(i) => i < s@.len() && s@.index_of_last(c) == Some(i as int),
            None => s@.index_of_last(c) is None,
        },
{
    let n = s.len();
    let mut i: usize = n;
    while i > 0
        invariant
            i <= n == s@.len(),
            forall|j: int| i <= j < n ==> s@[j] != c,
        decreases i,
    {
        i = i - 1;
        if s[i] == c {
            proof {
                s@.index_of_last_ensures(c);
            }
            return Some(i);
        }
    }
    proof {
        s@.index_of_last_ensures(c);
    }
    None
}

/// The pieces of `s` between the occurrences of `sep`, in order.
pub(crate) fn pieces(s: &[char], sep: char) -> (r: Vec<Vec<char>>)
    ensures
        r@.map_values(|v: Vec<char>| v@) == split(s@, sep),
{
    let mut r: Vec<Vec<char>> = Vec::new();
    let mut rest: &[char] = s;
    assert(r@.map_values(|v: Vec<char>| v@) + split(rest@, sep) =~= split(s@, sep));
    loop
        invariant
            r@.map_values(|v: Vec<char>| v@) + split(rest@, sep) == split(s@, sep),
        decreases rest@.len(),
    {
        let ghost done = r@.map_values(|v: Vec<char>| v@);
        match first_index(rest, sep) {
            None => {
                r.push(slice_to_vec(rest));
                assert(r@.map_values(|v: Vec<char>| v@) =~= done + seq![rest@]);
                return r;
            },
            Some(i) => {
                let n = rest.len();
                let head = slice_subrange(rest, 0, i);
                let tail = slice_subrange(rest, i + 1, n);
                r.push(slice_to_vec(head));
                proof {
                    assert(rest@.take(i as int) =~= head@);
                    assert(rest@.skip(i + 1) =~= tail@);
                    assert(split(rest@, sep) == seq![head@] + split(tail@, sep));
                    assert(r@.map_values(|v: Vec<char>| v@) =~= done.push(head@));
                    assert(done.push(head@) + split(tail@, sep) =~= done + (seq![head@] + split(
                        tail@,
                        sep,
                    )));
                }
                rest = tail;
            },
        }
    }
}

// ---------------------------------------------------------------------------------------------
// Decimal numbers
// ---------------------------------------------------------------------------------------------

pub open spec fn is_digit(c: char) -> bool {
    '0' <= c <= '9'
}

/// The number that the decimal digits `s` write.
pub open spec fn digits_value(s: Seq<char>) -> nat
    decreases s.len(),
{
    if s.len() == 0 {
        0
    } else {
        digits_value(s.drop_last()) * 10 + (s.last() as u32 - '0' as u32) as nat
    }
}

/// `s` without the plus sign that may start it.
pub open spec fn without_plus(s: Seq<char>) -> Seq<char> {
    if s.len() > 0 && s.first() == '+' {
        s.drop_first()
    } else {
        s
    }
}

/// The natural number that `s` writes in decimal, if it writes one: digits, at least one, after
/// an optional plus sign.
pub open spec fn natural(s: Seq<char>) -> Option<nat> {
    let d = without_plus(s);
    if d.len() > 0 && (forall|i: int| 0 <= i < d.len() ==> is_digit(#[trigger] d[i])) {
        Some(digits_value(d))
    } else {
        None
    }
}

/// The number that `s` writes in decimal, if it writes one that is at most `max`.
pub open spec fn number_up_to(s: Seq<char>, max: nat) -> Option<nat> {
    match natural(s) {
        Some(n) if n <= max => Some(n),
        _ => None,
    }
}

proof fn lemma_digits_prefix(s: Seq<char>, k: int)
    requires
        0 <= k <= s.len(),
    ensures
        digits_value(s.take(k)) <= digits_value(s),
    decreases s.len() - k,
{
    if k == s.len() {
        assert(s.take(k) =~= s);
    } else {
        assert(s.take(k + 1).drop_last() =~= s.take(k));
        lemma_digits_prefix(s, k + 1);
    }
}

/// The number that `s` writes in decimal, if it writes one that is at most `max`.
pub(crate) fn parse_number(s: &[char], max: u64) -> (r: Option<u64>)
    ensures
        match r {
            Some(n) => number_up_to(s@, max as nat) == Some(n as nat),
            None => number_up_to(s@, max as nat) is None,
        },
{
    let d = if s.len() > 0 && s[0] == '+' {
        slice_subrange(s, 1, s.len())
    } else {
        s
    };
    assert(d@ =~= without_plus(s@));
    let n = d.len();
    if n == 0 {
        return None;
    }
    let mut value: u64 = 0;
    for i in 0..n
        invariant
            n == d@.len(),
            d@ == without_plus(s@),
            value == digits_value(d@.take(i as int)),
            value <= max,
            forall|j: int| 0 <= j < i ==> is_digit(#[trigger] d@[j]),
    {
        let c = d[i];
        if !('0' <= c && c <= '9') {
            assert(!is_digit(d@[i as int]));
            return None;
        }
        let digit: u64 = (c as u64) - ('0' as u64);
        assert(d@.take(i + 1).drop_last() =~= d@.take(i as int));
        assert(digits_value(d@.take(i + 1)) == value * 10 + digit);
        if value > max / 10 || digit > max - value * 10 {
            proof {
                lemma_digits_prefix(d@, i + 1);
            }
            return None;
        }
        value = value * 10 + digit;
    }
    assert(d@.take(n as int) =~= d@);
    Some(value)
}

pub(crate) proof fn lemma_number_lower(s: Seq<char>, max: nat)
    ensures
        number_up_to(lower(s), max) == number_up_to(s, max),
{
    let d = without_plus(s);
    let e = without_plus(lower(s));
    if s.len() > 0 {
        lemma_lower_keeps(s.first());
    }
    assert(e =~= lower(d));
    assert forall|i: int| 0 <= i < d.len() implies is_digit(#[trigger] d[i]) == is_digit(e[i]) && (
    is_digit(d[i]) ==> d[i] == e[i]) by {
        lemma_lower_keeps(d[i]);
    }
    if forall|i: int| 0 <= i < d.len() ==> is_digit(#[trigger] d[i]) {
        assert(e =~= d);
    } else {
        let i = choose|i: int| 0 <= i < d.len() && !is_digit(#[trigger] d[i]);
        assert(!is_digit(e[i]));
    }
}

/// A number is written with digits and a plus sign at most.
pub(crate) proof fn lemma_number_chars(s: Seq<char>)
    requires
        natural(s) is Some,
    ensures
        s.len() > 0,
        forall|i: int| 0 <= i < s.len() ==> is_digit(#[trigger] s[i]) || s[i] == '+',
{
    let d = without_plus(s);
    assert forall|i: int| 0 <= i < s.len() implies is_digit(#[trigger] s[i]) || s[i] == '+' by {
        if s.first() == '+' {
            if i > 0 {
                assert(d[i - 1] == s[i]);
            }
        } else {
            assert(d[i] == s[i]);
        }
    }
}

/// The digit that writes `n`, which is less than ten.
pub open spec fn digit_char(n: nat) -> char {
    (('0' as u32) + n) as char
}

/// `n` in decimal, without leading zeros.
pub open spec fn decimal(n: nat) -> Seq<char>
    decreases n,
{
    if n < 10 {
        seq![digit_char(n)]
    } else {
        decimal(n / 10).push(digit_char(n % 10))
    }
}

/// `n` in decimal, without leading zeros.
pub(crate) fn decimal_text(n: u64) -> (r: String)
    ensures
        r@ == decimal(n as nat),
    decreases n,
{
    let last = (('0' as u8) + (n % 10) as u8) as char;
    let mut r = if n < 10 {
        String::new()
    } else {
        decimal_text(n / 10)
    };
    r.push(last);
    assert(n < 10 ==> r@ =~= seq![digit_char(n as nat)]);
    r
}

/// What is written without leading zeros reads back as the same number.
pub proof fn decimal_reads_back(n: nat)
    ensures
        natural(decimal(n)) == Some(n),
        decimal(n).len() > 0,
        forall|i: int| 0 <= i < decimal(n).len() ==> is_digit(#[trigger] decimal(n)[i]),
    decreases n,
{
    lemma_decimal_value(n);
}

proof fn lemma_decimal_value(n: nat)
    ensures
        digits_value(decimal(n)) == n,
        decimal(n).len() > 0,
        forall|i: int| 0 <= i < decimal(n).len() ==> is_digit(#[trigger] decimal(n)[i]),
    decreases n,
{
    if n < 10 {
        assert(decimal(n).drop_last() =~= Seq::<char>::empty());
        assert(digits_value(Seq::<char>::empty()) == 0);
        assert(decimal(n).last() == digit_char(n));
    } else {
        lemma_decimal_value(n / 10);
        assert(decimal(n).drop_last() =~= decimal(n / 10));
    }
}

// ---------------------------------------------------------------------------------------------
// Order
// ---------------------------------------------------------------------------------------------

/// The lexicographic order by code point, which is the order of strings.
pub open spec fn text_before(a: Seq<char>, b: Seq<char>) -> bool
    decreases a.len(),
{
    if b.len() == 0 {
        false
    } else if a.len() == 0 {
        true
    } else if a[0] != b[0] {
        a[0] < b[0]
    } else {
        text_before(a.drop_first(), b.drop_first())
    }
}

/// Whether the texts of `s` ascend strictly.
pub open spec fn ascending(s: Seq<Seq<char>>) -> bool {
    forall|i: int, j: int| 0 <= i < j < s.len() ==> text_before(#[trigger] s[i], #[trigger] s[j])
}

/// No text comes before itself.
pub proof fn text_before_irreflexive(a: Seq<char>)
    ensures
        !text_before(a, a),
    decreases a.len(),
{
    if a.len() > 0 {
        text_before_irreflexive(a.drop_first());
    }
}

/// What comes before a text comes before what that text comes before.
pub proof fn text_before_transitive(a: Seq<char>, b: Seq<char>, c: Seq<char>)
    requires
        text_before(a, b),
        text_before(b, c),
    ensures
        text_before(a, c),
    decreases a.len(),
{
    if a.len() > 0 && a[0] == b[0] && b[0] == c[0] {
        text_before_transitive(a.drop_first(), b.drop_first(), c.drop_first());
    }
}

/// Of two different texts one comes before the other.
pub proof fn text_before_total(a: Seq<char>, b: Seq<char>)
    ensures
        a == b || text_before(a, b) || text_before(b, a),
    decreases a.len(),
{
    if a.len() > 0 && b.len() > 0 && a[0] == b[0] {
        text_before_total(a.drop_first(), b.drop_first());
        if a.drop_first() == b.drop_first() {
            assert(a =~= seq![a[0]] + a.drop_first());
            assert(b =~= seq![b[0]] + b.drop_first());
        }
    } else if a.len() == 0 && b.len() == 0 {
        assert(a =~= b);
    }
}

/// Two strictly ascending lists of the same texts are the same list.
pub proof fn ascending_unique(a: Seq<Seq<char>>, b: Seq<Seq<char>>)
    requires
        ascending(a),
        ascending(b),
        forall|x: Seq<char>| a.contains(x) <==> b.contains(x),
    ensures
        a == b,
    decreases a.len(),
{
    if a.len() == 0 {
        if b.len() > 0 {
            assert(b.contains(b[0]));
            assert(a.contains(b[0]));
        }
        assert(a =~= b);
    } else {
        assert(a.contains(a.last()));
        assert(b.contains(a.last()));
        let k = choose|k: int| 0 <= k < b.len() && b[k] == a.last();
        assert(b.contains(b.last()));
        assert(a.contains(b.last()));
        let m = choose|m: int| 0 <= m < a.len() && a[m] == b.last();
        if k < b.len() - 1 {
            assert(text_before(b[k], b[b.len() - 1]));
            if m < a.len() - 1 {
                assert(text_before(a[m], a[a.len() - 1]));
                text_before_transitive(a.last(), b.last(), a.last());
            }
            text_before_irreflexive(a.last());
        }
        assert(a.last() == b.last());
        let a1 = a.drop_last();
        let b1 = b.drop_last();
        assert forall|x: Seq<char>| a1.contains(x) <==> b1.contains(x) by {
            text_before_irreflexive(a.last());
            if a1.contains(x) {
                let i = choose|i: int| 0 <= i < a1.len() && a1[i] == x;
                assert(a[i] == x);
                assert(text_before(a[i], a[a.len() - 1]));
                assert(a.contains(x) && b.contains(x));
                let j = choose|j: int| 0 <= j < b.len() && b[j] == x;
                assert(b1[j] == x);
            }
            if b1.contains(x) {
                let i = choose|i: int| 0 <= i < b1.len() && b1[i] == x;
                assert(b[i] == x);
                assert(text_before(b[i], b[b.len() - 1]));
                assert(b.contains(x) && a.contains(x));
                let j = choose|j: int| 0 <= j < a.len() && a[j] == x;
                assert(a1[j] == x);
            }
        }
        ascending_unique(a1, b1);
        assert(a =~= a1.push(a.last()));
        assert(b =~= b1.push(b.last()));
    }
}

/// Whether `a` comes before `b` in the order of strings.
pub(crate) fn is_before(a: &str, b: &str) -> (r: bool)
    ensures
        r == text_before(a@, b@),
{
    let x = chars_of(a);
    let y = chars_of(b);
    let mut i: usize = 0;
    assert(x@.skip(0) =~= x@ && y@.skip(0) =~= y@);
    while i < x.len() && i < y.len() && x[i] == y[i]
        invariant
            i <= x@.len(),
            i <= y@.len(),
            text_before(x@.skip(i as int), y@.skip(i as int)) == text_before(x@, y@),
        decreases x@.len() - i,
    {
        assert(x@.skip(i as int).drop_first() =~= x@.skip(i + 1));
        assert(y@.skip(i as int).drop_first() =~= y@.skip(i + 1));
        i = i + 1;
    }
    if i >= y.len() {
        false
    } else if i >= x.len() {
        true
    } else {
        x[i] < y[i]
    }
}

// ---------------------------------------------------------------------------------------------
// Laws
// ---------------------------------------------------------------------------------------------

/// The small letters of ASCII are the twenty-six that the alphabet lists.
pub proof fn small_letters(c: char)
    ensures
        "abcdefghijklmnopqrstuvwxyz"@.contains(c) <==> 'a' <= c <= 'z',
        "abcdefghijklmnopqrstuvwxyz"@.contains(c) <==> 97 <= c as u32 <= 122,
        97 <= c as u32 <= 122 ==> "abcdefghijklmnopqrstuvwxyz"@[c as u32 - 97] == c,
        "abcdefghijklmnopqrstuvwxyz"@.len() == 26,
{
    reveal_strlit("abcdefghijklmnopqrstuvwxyz");
    let all = "abcdefghijklmnopqrstuvwxyz"@;
    assert forall|k: int| 0 <= k < 26 implies #[trigger] all[k] as u32 == 97 + k by {
        assert(k == 0 || k == 1 || k == 2 || k == 3 || k == 4 || k == 5 || k == 6 || k == 7 || k
            == 8 || k == 9 || k == 10 || k == 11 || k == 12 || k == 13 || k == 14 || k == 15 || k
            == 16 || k == 17 || k == 18 || k == 19 || k == 20 || k == 21 || k == 22 || k == 23 || k
            == 24 || k == 25);
    }
    if 97 <= c as u32 <= 122 {
        assert(all[c as u32 - 97] as u32 == c as u32);
    }
}

/// The capitals of ASCII are the twenty-six that the alphabet lists.
pub proof fn capital_letters(c: char)
    ensures
        "ABCDEFGHIJKLMNOPQRSTUVWXYZ"@.contains(c) <==> 'A' <= c <= 'Z',
        "ABCDEFGHIJKLMNOPQRSTUVWXYZ"@.contains(c) <==> 65 <= c as u32 <= 90,
        65 <= c as u32 <= 90 ==> "ABCDEFGHIJKLMNOPQRSTUVWXYZ"@[c as u32 - 65] == c,
        "ABCDEFGHIJKLMNOPQRSTUVWXYZ"@.len() == 26,
{
    reveal_strlit("ABCDEFGHIJKLMNOPQRSTUVWXYZ");
    let all = "ABCDEFGHIJKLMNOPQRSTUVWXYZ"@;
    assert forall|k: int| 0 <= k < 26 implies #[trigger] all[k] as u32 == 65 + k by {
        assert(k == 0 || k == 1 || k == 2 || k == 3 || k == 4 || k == 5 || k == 6 || k == 7 || k
            == 8 || k == 9 || k == 10 || k == 11 || k == 12 || k == 13 || k == 14 || k == 15 || k
            == 16 || k == 17 || k == 18 || k == 19 || k == 20 || k == 21 || k == 22 || k == 23 || k
            == 24 || k == 25);
    }
    if 65 <= c as u32 <= 90 {
        assert(all[c as u32 - 65] as u32 == c as u32);
    }
}

/// The decimal digits are the ten that are listed, each at the place of its value.
pub proof fn decimal_digits(c: char)
    ensures
        "0123456789"@.contains(c) <==> '0' <= c <= '9',
        "0123456789"@.contains(c) <==> 48 <= c as u32 <= 57,
        48 <= c as u32 <= 57 ==> "0123456789"@[c as u32 - 48] == c,
        "0123456789"@.len() == 10,
        forall|d: int| 0 <= d < 10 ==> #[trigger] "0123456789"@[d] as u32 == 48 + d,
{
    reveal_strlit("0123456789");
    let all = "0123456789"@;
    assert forall|k: int| 0 <= k < 10 implies #[trigger] all[k] as u32 == 48 + k by {
        assert(k == 0 || k == 1 || k == 2 || k == 3 || k == 4 || k == 5 || k == 6 || k == 7 || k
            == 8 || k == 9);
    }
    if 48 <= c as u32 <= 57 {
        assert(all[c as u32 - 48] as u32 == c as u32);
    }
}

/// Lowering keeps the number of characters, puts for each capital the small letter at the same
/// place of the alphabet, and leaves every other character.
pub proof fn lowering_turns_capitals(s: Seq<char>, i: int, k: int)
    requires
        0 <= i < s.len(),
        0 <= k < 26,
    ensures
        lower(s).len() == s.len(),
        s[i] == "ABCDEFGHIJKLMNOPQRSTUVWXYZ"@[k] ==> lower(s)[i]
            == "abcdefghijklmnopqrstuvwxyz"@[k],
        !"ABCDEFGHIJKLMNOPQRSTUVWXYZ"@.contains(s[i]) ==> lower(s)[i] == s[i],
{
    capital_letters((65 + k) as char);
    small_letters((97 + k) as char);
    capital_letters(s[i]);
}

/// The characters that count as white space, each by its code point.
pub proof fn white_space_characters(c: char)
    ensures
        is_white(c) <==> {
            let n = c as u32;
            ||| n == 0x9
            ||| n == 0xa
            ||| n == 0xb
            ||| n == 0xc
            ||| n == 0xd
            ||| n == 0x20
            ||| n == 0x85
            ||| n == 0xa0
            ||| n == 0x1680
            ||| n == 0x2000
            ||| n == 0x2001
            ||| n == 0x2002
            ||| n == 0x2003
            ||| n == 0x2004
            ||| n == 0x2005
            ||| n == 0x2006
            ||| n == 0x2007
            ||| n == 0x2008
            ||| n == 0x2009
            ||| n == 0x200a
            ||| n == 0x2028
            ||| n == 0x2029
            ||| n == 0x202f
            ||| n == 0x205f
            ||| n == 0x3000
        },
{
}

/// Trimming cuts white space off both ends and nothing else: what is kept is one stretch of the
/// text, all before and behind it is white space, and it neither starts nor ends with any.
pub proof fn trimming_cuts_the_ends(s: Seq<char>) -> (kept: (int, int))
    ensures
        0 <= kept.0 <= kept.1 <= s.len(),
        trim(s) == s.subrange(kept.0, kept.1),
        forall|k: int| 0 <= k < kept.0 || kept.1 <= k < s.len() ==> is_white(#[trigger] s[k]),
        kept.0 < kept.1 ==> !is_white(s[kept.0]) && !is_white(s[kept.1 - 1]),
{
    let i = lemma_trim_start_cut(s);
    let middle = trim_start(s);
    let n = lemma_trim_end_cut(middle);
    lemma_trim_start_bound(s);
    lemma_trim_end_bound(middle);
    assert(trim(s) =~= s.subrange(i, i + n));
    assert forall|k: int| i + n <= k < s.len() implies is_white(#[trigger] s[k]) by {
        assert(middle[k - i] == s[k]);
    }
    (i, i + n)
}

proof fn lemma_trim_start_cut(s: Seq<char>) -> (i: int)
    ensures
        0 <= i <= s.len(),
        trim_start(s) == s.skip(i),
        forall|k: int| 0 <= k < i ==> is_white(#[trigger] s[k]),
    decreases s.len(),
{
    if s.len() > 0 && is_white(s.first()) {
        let rest = s.drop_first();
        let j = lemma_trim_start_cut(rest);
        assert(rest.skip(j) =~= s.skip(j + 1));
        assert forall|k: int| 0 <= k < j + 1 implies is_white(#[trigger] s[k]) by {
            if k > 0 {
                assert(rest[k - 1] == s[k]);
            }
        }
        j + 1
    } else {
        assert(s.skip(0) =~= s);
        0
    }
}

proof fn lemma_trim_end_cut(s: Seq<char>) -> (n: int)
    ensures
        0 <= n <= s.len(),
        trim_end(s) == s.take(n),
        forall|k: int| n <= k < s.len() ==> is_white(#[trigger] s[k]),
    decreases s.len(),
{
    if s.len() > 0 && is_white(s.last()) {
        let rest = s.drop_last();
        let n = lemma_trim_end_cut(rest);
        assert(rest.take(n) =~= s.take(n));
        assert forall|k: int| n <= k < s.len() implies is_white(#[trigger] s[k]) by {
            if k < rest.len() {
                assert(rest[k] == s[k]);
            }
        }
        n
    } else {
        assert(s.take(s.len() as int) =~= s);
        s.len() as int
    }
}

/// A text is blank exactly where every character of it is white space.
pub proof fn blank_texts(s: Seq<char>)
    ensures
        is_blank(s) <==> forall|k: int| 0 <= k < s.len() ==> is_white(#[trigger] s[k]),
{
    let kept = trimming_cuts_the_ends(s);
    if is_blank(s) {
        assert(kept.0 == kept.1);
    } else {
        assert(!is_white(s[kept.0]));
    }
}

/// A text starts with a prefix exactly where it is the prefix with something behind it.
pub proof fn prefixes(s: Seq<char>, prefix: Seq<char>)
    ensures
        starts_with(s, prefix) <==> exists|rest: Seq<char>| s == #[trigger] (prefix + rest),
{
    if starts_with(s, prefix) {
        assert(s =~= prefix + s.skip(prefix.len() as int));
    }
    if exists|rest: Seq<char>| s == #[trigger] (prefix + rest) {
        let rest = choose|rest: Seq<char>| s == #[trigger] (prefix + rest);
        assert(s.take(prefix.len() as int) =~= prefix);
    }
}

/// A text writes a number exactly where it is made of digits, at least one, behind a plus sign or
/// none.
pub proof fn numbers_are_digits(s: Seq<char>)
    ensures
        natural(s) is Some <==> {
            let first = if s.len() > 0 && s[0] == '+' {
                1int
            } else {
                0int
            };
            &&& first < s.len()
            &&& forall|i: int| first <= i < s.len() ==> "0123456789"@.contains(#[trigger] s[i])
        },
{
    let d = without_plus(s);
    let first = if s.len() > 0 && s[0] == '+' {
        1int
    } else {
        0int
    };
    assert forall|i: int| 0 <= i < s.len() implies "0123456789"@.contains(#[trigger] s[i])
        == is_digit(s[i]) by {
        decimal_digits(s[i]);
    }
    assert forall|i: int| first <= i < s.len() implies #[trigger] s[i] == d[i - first] by {}
    assert forall|i: int| 0 <= i < d.len() implies #[trigger] d[i] == s[i + first] by {}
    if natural(s) is Some {
        assert forall|i: int| first <= i < s.len() implies "0123456789"@.contains(
            #[trigger] s[i],
        ) by {
            assert(is_digit(d[i - first]));
        }
    }
}

/// A single digit writes its value; a digit behind a number makes ten times the number and the
/// digit; a plus sign before a number changes nothing.
pub proof fn numbers_grow_by_digits(s: Seq<char>, d: nat)
    requires
        d < 10,
    ensures
        natural(seq!["0123456789"@[d as int]]) == Some(d),
        natural(s) is Some ==> natural(s.push("0123456789"@[d as int])) == Some(
            10 * natural(s)->0 + d,
        ),
        natural(s) is Some && s[0] != '+' ==> natural(seq!['+'] + s) == natural(s),
{
    let c = "0123456789"@[d as int];
    decimal_digits(c);
    assert(c as u32 == 48 + d);
    let one = seq![c];
    assert(without_plus(one) == one);
    assert(one.drop_last() =~= Seq::<char>::empty());
    assert(digits_value(Seq::<char>::empty()) == 0);
    assert(one.last() == c);
    if natural(s) is Some {
        let w = without_plus(s);
        let t = s.push(c);
        assert(t[0] == s[0]);
        assert(without_plus(t) =~= w.push(c));
        assert(w.push(c).drop_last() =~= w);
        assert forall|i: int| 0 <= i < w.push(c).len() implies is_digit(
            #[trigger] w.push(c)[i],
        ) by {
            if i < w.len() {
                assert(is_digit(w[i]));
            }
        }
        if s[0] != '+' {
            assert(without_plus(seq!['+'] + s) =~= s);
        }
    }
}

/// A number counts where it is at most the greatest allowed.
pub proof fn numbers_have_a_bound(s: Seq<char>, max: nat, n: nat)
    ensures
        number_up_to(s, max) == Some(n) <==> natural(s) == Some(n) && n <= max,
        number_up_to(s, max) is None <==> natural(s) is None || natural(s)->0 > max,
{
}

/// A number is written in digits, of which the first is no zero but for the number zero, which
/// is one digit.
pub proof fn decimals_are_short(n: nat)
    ensures
        forall|i: int|
            0 <= i < decimal(n).len() ==> "0123456789"@.contains(#[trigger] decimal(n)[i]),
        n > 0 ==> decimal(n)[0] != '0',
        n == 0 ==> decimal(n).len() == 1,
        natural(decimal(n)) == Some(n),
    decreases n,
{
    decimal_reads_back(n);
    assert forall|i: int| 0 <= i < decimal(n).len() implies "0123456789"@.contains(
        #[trigger] decimal(n)[i],
    ) by {
        decimal_digits(decimal(n)[i]);
    }
    if n >= 10 {
        decimals_are_short(n / 10);
        decimal_reads_back(n / 10);
        assert(decimal(n)[0] == decimal(n / 10)[0]);
    }
}

/// A text comes before another exactly where they are alike up to some place, and there the
/// first has ended or has the smaller character.
pub proof fn text_order(a: Seq<char>, b: Seq<char>)
    ensures
        text_before(a, b) <==> exists|k: int|
            0 <= k <= a.len() && k < b.len() && #[trigger] a.take(k) == b.take(k) && (k == a.len()
                || a[k] < b[k]),
    decreases a.len(),
{
    if b.len() == 0 {
    } else if a.len() == 0 {
        assert(a.take(0) =~= b.take(0));
    } else if a[0] != b[0] {
        assert(a.take(0) =~= b.take(0));
        assert forall|k: int| k > 0 && k <= a.len() && k < b.len() implies #[trigger] a.take(k)
            != b.take(k) by {
            assert(a.take(k)[0] == a[0] && b.take(k)[0] == b[0]);
        }
    } else {
        let x = a.drop_first();
        let y = b.drop_first();
        text_order(x, y);
        if text_before(x, y) {
            let k = choose|k: int|
                0 <= k <= x.len() && k < y.len() && #[trigger] x.take(k) == y.take(k) && (k
                    == x.len() || x[k] < y[k]);
            assert(a.take(k + 1) =~= seq![a[0]] + x.take(k));
            assert(b.take(k + 1) =~= seq![b[0]] + y.take(k));
        }
        if exists|k: int|
            0 <= k <= a.len() && k < b.len() && #[trigger] a.take(k) == b.take(k) && (k == a.len()
                || a[k] < b[k]) {
            let k = choose|k: int|
                0 <= k <= a.len() && k < b.len() && #[trigger] a.take(k) == b.take(k) && (k
                    == a.len() || a[k] < b[k]);
            assert(k > 0);
            assert(x.take(k - 1) =~= a.take(k).drop_first());
            assert(y.take(k - 1) =~= b.take(k).drop_first());
        }
    }
}

} // verus!
