//! Text utilities: code-point order on strings, case folding, decimal
//! numerals, and a stable ordering of items by a text key.

use vstd::prelude::*;

verus! {

/// Lexicographic order on texts, character by character by code point
/// (the order of `str` and `String`).
pub open spec fn text_lt(a: Seq<char>, b: Seq<char>) -> bool
    decreases a.len(),
{
    if a.len() == 0 {
        b.len() > 0
    } else if b.len() == 0 {
        false
    } else if a[0] != b[0] {
        (a[0] as u32) < (b[0] as u32)
    } else {
        text_lt(a.drop_first(), b.drop_first())
    }
}

/// No text precedes itself.
pub proof fn lemma_text_lt_irreflexive(a: Seq<char>)
    ensures
        !text_lt(a, a),
    decreases a.len(),
{
    if a.len() > 0 {
        lemma_text_lt_irreflexive(a.drop_first());
    }
}

/// The order on texts is transitive.
pub proof fn lemma_text_lt_transitive(a: Seq<char>, b: Seq<char>, c: Seq<char>)
    requires
        text_lt(a, b),
        text_lt(b, c),
    ensures
        text_lt(a, c),
    decreases a.len(),
{
    if a.len() > 0 && b.len() > 0 && c.len() > 0 {
        if a[0] == b[0] && b[0] == c[0] {
            lemma_text_lt_transitive(a.drop_first(), b.drop_first(), c.drop_first());
        }
    }
}

/// Of two different texts, one precedes the other.
pub proof fn lemma_text_lt_total(a: Seq<char>, b: Seq<char>)
    ensures
        a == b || text_lt(a, b) || text_lt(b, a),
    decreases a.len(),
{
    if a.len() > 0 && b.len() > 0 && a[0] == b[0] {
        lemma_text_lt_total(a.drop_first(), b.drop_first());
        if a.drop_first() == b.drop_first() {
            assert(a =~= seq![a[0]] + a.drop_first());
            assert(b =~= seq![b[0]] + b.drop_first());
        }
    } else if a.len() > 0 && b.len() > 0 {
        vstd::utf8::char_u32_cast(a[0], a[0] as u32);
        vstd::utf8::char_u32_cast(b[0], b[0] as u32);
        assert((a[0] as u32) != (b[0] as u32));
    } else if a.len() == 0 && b.len() == 0 {
        assert(a =~= b);
    }
}

/// Not-after is transitive.
pub proof fn lemma_text_le_transitive(a: Seq<char>, b: Seq<char>, c: Seq<char>)
    requires
        !text_lt(b, a),
        !text_lt(c, b),
    ensures
        !text_lt(c, a),
{
    lemma_text_lt_total(a, b);
    lemma_text_lt_total(b, c);
    if text_lt(c, a) {
        if text_lt(a, b) {
            lemma_text_lt_transitive(c, a, b);
            if text_lt(b, c) {
                lemma_text_lt_transitive(c, b, c);
                lemma_text_lt_irreflexive(c);
            }
        } else {
            if text_lt(b, c) {
                lemma_text_lt_transitive(b, c, a);
                lemma_text_lt_irreflexive(a);
            }
            lemma_text_lt_irreflexive(c);
        }
    }
}

/// The characters of a text.
pub fn chars_of(s: &str) -> (v: Vec<char>)
    ensures
        v@ == s@,
{
    let n = s.unicode_len();
    let mut v: Vec<char> = Vec::new();
    let mut i: usize = 0;
    while i < n
        invariant
            n == s@.len(),
            i <= n,
            v@ == s@.take(i as int),
        decreases n - i,
    {
        let c = s.get_char(i);
        v.push(c);
        assert(v@ =~= s@.take(i + 1));
        i = i + 1;
    }
    assert(s@.take(n as int) =~= s@);
    v
}

/// Whether two texts are equal.
pub fn text_equal(a: &str, b: &str) -> (r: bool)
    ensures
        r == (a@ == b@),
{
    let ca = chars_of(a);
    let cb = chars_of(b);
    if ca.len() != cb.len() {
        return false;
    }
    let mut i: usize = 0;
    while i < ca.len()
        invariant
            ca@ == a@,
            cb@ == b@,
            ca@.len() == cb@.len(),
            i <= ca@.len(),
            forall|k: int| 0 <= k < i ==> ca@[k] == cb@[k],
        decreases ca@.len() - i,
    {
        if ca[i] != cb[i] {
            return false;
        }
        i = i + 1;
    }
    assert(ca@ =~= cb@);
    true
}

/// Whether `s` ends with `suffix`.
pub open spec fn spec_ends_with(s: Seq<char>, suffix: Seq<char>) -> bool {
    suffix.len() <= s.len() && s.subrange(s.len() - suffix.len(), s.len() as int) == suffix
}

/// Whether `s` ends with `suffix` (`str::ends_with` with a text pattern).
pub fn ends_with(s: &str, suffix: &str) -> (r: bool)
    ensures
        r == spec_ends_with(s@, suffix@),
{
    let cs = chars_of(s);
    let cx = chars_of(suffix);
    if cx.len() > cs.len() {
        return false;
    }
    let off = cs.len() - cx.len();
    let mut i: usize = 0;
    while i < cx.len()
        invariant
            cs@ == s@,
            cx@ == suffix@,
            cx@.len() <= cs@.len(),
            off == cs@.len() - cx@.len(),
            i <= cx@.len(),
            forall|k: int| 0 <= k < i ==> cs@[off + k] == cx@[k],
        decreases cx@.len() - i,
    {
        assert(off + i < cs.len());
        if cs[off + i] != cx[i] {
            assert(s@.subrange(off as int, s@.len() as int)[i as int] != suffix@[i as int]);
            return false;
        }
        i = i + 1;
    }
    assert(s@.subrange(off as int, s@.len() as int) =~= suffix@);
    true
}

/// Whether a text begins with an ASCII digit.
pub open spec fn starts_with_digit(s: Seq<char>) -> bool {
    s.len() > 0 && is_digit(s[0])
}

/// Whether a text begins with an ASCII digit.
pub fn begins_with_digit(s: &str) -> (r: bool)
    ensures
        r == starts_with_digit(s@),
{
    if s.unicode_len() == 0 {
        return false;
    }
    let c = s.get_char(0);
    '0' <= c && c <= '9'
}

/// Whether `a` comes strictly before `b` in code-point order.
pub fn chars_lt(a: &Vec<char>, b: &Vec<char>) -> (r: bool)
    ensures
        r == text_lt(a@, b@),
{
    let mut i: usize = 0;
    assert(a@.skip(0) =~= a@);
    assert(b@.skip(0) =~= b@);
    while i < a.len() && i < b.len() && a[i] == b[i]
        invariant
            i <= a@.len(),
            i <= b@.len(),
            a@.take(i as int) == b@.take(i as int),
            text_lt(a@, b@) == text_lt(a@.skip(i as int), b@.skip(i as int)),
        decreases a@.len() - i,
    {
        assert(a@.skip(i as int).drop_first() =~= a@.skip(i + 1));
        assert(b@.skip(i as int).drop_first() =~= b@.skip(i + 1));
        assert(a@.take(i + 1) =~= a@.take(i as int).push(a@[i as int]));
        assert(b@.take(i + 1) =~= b@.take(i as int).push(b@[i as int]));
        i = i + 1;
    }
    if i == a.len() {
        i < b.len()
    } else if i == b.len() {
        false
    } else {
        assert(a@.skip(i as int)[0] == a@[i as int]);
        assert(b@.skip(i as int)[0] == b@[i as int]);
        (a[i] as u32) < (b[i] as u32)
    }
}

/// The lower-case form of a text under Unicode case mapping.
pub uninterp spec fn spec_lowercase(s: Seq<char>) -> Seq<char>;

/// `str::to_lowercase`: Unicode lower-case mapping of the text. Trusted: the
/// result is the named lower-case form of the argument.
#[verifier::external_body]
pub fn to_lowercase(s: &str) -> (r: String)
    ensures
        r@ == spec_lowercase(s@),
{
    s.to_lowercase()
}

/// `order` lists each index below `n` exactly once.
pub open spec fn is_index_permutation(n: nat, order: Seq<usize>) -> bool {
    &&& order.len() == n
    &&& forall|i: int| 0 <= i < n ==> order[i] < n
    &&& forall|i: int, j: int| 0 <= i < j < n ==> order[i] != order[j]
}

/// `order` arranges the indices of `keys` by key, keeping the original order
/// among equal keys: the order a stable sort produces.
pub open spec fn is_stable_order(keys: Seq<Seq<char>>, order: Seq<usize>) -> bool {
    &&& is_index_permutation(keys.len(), order)
    &&& forall|i: int, j: int|
        0 <= i < j < order.len() ==> !text_lt(keys[order[j] as int], keys[order[i] as int])
    &&& forall|i: int, j: int|
        0 <= i < j < order.len() && keys[order[i] as int] == keys[order[j] as int] ==> order[i]
            < order[j]
}

/// `res` is `pre` stably sorted by `keys` (one key per item of `pre`).
pub open spec fn is_stable_sort_of<V>(pre: Seq<V>, keys: Seq<Seq<char>>, res: Seq<V>) -> bool {
    &&& keys.len() == pre.len()
    &&& res.len() == pre.len()
    &&& exists|order: Seq<usize>|
        is_stable_order(keys, order) && forall|k: int|
            0 <= k < res.len() ==> #[trigger] res[k] == pre[order[k] as int]
}

/// A stable sort only rearranges: each item of the result is an item of the input.
pub proof fn lemma_stable_sort_member<V>(pre: Seq<V>, keys: Seq<Seq<char>>, res: Seq<V>, k: int)
    requires
        is_stable_sort_of(pre, keys, res),
        0 <= k < res.len(),
    ensures
        pre.contains(res[k]),
{
    let order = choose|order: Seq<usize>|
        is_stable_order(keys, order) && forall|k: int|
            0 <= k < res.len() ==> #[trigger] res[k] == pre[order[k] as int];
    assert(res[k] == pre[order[k] as int]);
}

/// A stable sort loses nothing: each item of the input is an item of the result.
pub proof fn lemma_stable_sort_complete<V>(pre: Seq<V>, keys: Seq<Seq<char>>, res: Seq<V>, j: int)
    requires
        is_stable_sort_of(pre, keys, res),
        0 <= j < pre.len(),
    ensures
        res.contains(pre[j]),
{
    let order = choose|order: Seq<usize>|
        is_stable_order(keys, order) && forall|k: int|
            0 <= k < res.len() ==> #[trigger] res[k] == pre[order[k] as int];
    let n = pre.len() as int;
    let x = vstd::set_lib::set_int_range(0, n);
    let f = |i: int| order[i] as int;
    vstd::set_lib::lemma_int_range(0, n);
    assert forall|a: int, b: int| x.contains(a) && x.contains(b) && #[trigger] f(a) == #[trigger] f(b) implies a == b by {
        if a < b {
            assert(order[a] != order[b]);
        } else if b < a {
            assert(order[b] != order[a]);
        }
    }
    let y = x.map(f);
    vstd::set_lib::lemma_map_size(x, y, f);
    assert forall|b: int| y.contains(b) implies x.contains(b) by {
        let a = choose|a: int| x.contains(a) && b == f(a);
        assert(order[a] < n);
    }
    vstd::set_lib::lemma_subset_equality(y, x);
    assert(x.contains(j));
    assert(y.contains(j));
    let i = choose|i: int| x.contains(i) && j == f(i);
    assert(res[i] == pre[order[i] as int]);
}

/// The result of a stable sort is in key order.
pub proof fn lemma_stable_sort_sorted<V>(
    pre: Seq<V>,
    keys: Seq<Seq<char>>,
    res: Seq<V>,
    key: spec_fn(V) -> Seq<char>,
    i: int,
    j: int,
)
    requires
        is_stable_sort_of(pre, keys, res),
        forall|a: int| 0 <= a < pre.len() ==> keys[a] == key(#[trigger] pre[a]),
        0 <= i < j < res.len(),
    ensures
        !text_lt(key(res[j]), key(res[i])),
{
    let order = choose|order: Seq<usize>|
        is_stable_order(keys, order) && forall|k: int|
            0 <= k < res.len() ==> #[trigger] res[k] == pre[order[k] as int];
    assert(res[i] == pre[order[i] as int]);
    assert(res[j] == pre[order[j] as int]);
}

/// The indices of `keys` in stable sorted order (insertion sort).
pub fn stable_order(keys: &Vec<Vec<char>>) -> (order: Vec<usize>)
    ensures
        is_stable_order(keys@.map_values(|k: Vec<char>| k@), order@),
{
    let ghost kv = keys@.map_values(|k: Vec<char>| k@);
    let mut order: Vec<usize> = Vec::new();
    let n = keys.len();
    let mut i: usize = 0;
    while i < n
        invariant
            n == keys@.len(),
            kv == keys@.map_values(|k: Vec<char>| k@),
            i <= n,
            order@.len() == i,
            forall|a: int| 0 <= a < i ==> order@[a] < i,
            forall|a: int, b: int| 0 <= a < b < i ==> order@[a] != order@[b],
            forall|a: int, b: int|
                0 <= a < b < i ==> !text_lt(kv[order@[b] as int], kv[order@[a] as int]),
            forall|a: int, b: int|
                0 <= a < b < i && kv[order@[a] as int] == kv[order@[b] as int] ==> order@[a]
                    < order@[b],
        decreases n - i,
    {
        let mut p: usize = i;
        while p > 0 && chars_lt(&keys[i], &keys[order[p - 1]])
            invariant
                n == keys@.len(),
                kv == keys@.map_values(|k: Vec<char>| k@),
                i < n,
                p <= i,
                order@.len() == i,
                forall|a: int| 0 <= a < i ==> order@[a] < i,
                forall|a: int| p <= a < i ==> text_lt(kv[i as int], kv[order@[a] as int]),
            decreases p,
        {
            p = p - 1;
        }
        let ghost old_order = order@;
        proof {
            assert forall|a: int| 0 <= a < p implies !text_lt(kv[i as int], kv[old_order[a] as int]) by {
                if p > 0 {
                    assert(!text_lt(kv[i as int], kv[old_order[p - 1] as int]));
                    if a < p - 1 {
                        lemma_text_le_transitive(
                            kv[old_order[a] as int],
                            kv[old_order[p - 1] as int],
                            kv[i as int],
                        );
                    }
                }
            }
            assert forall|a: int| p <= a < i implies kv[i as int] != kv[old_order[a] as int] by {
                lemma_text_lt_irreflexive(kv[i as int]);
            }
            assert forall|a: int| p <= a < i implies !text_lt(kv[old_order[a] as int], kv[i as int]) by {
                if text_lt(kv[old_order[a] as int], kv[i as int]) {
                    lemma_text_lt_transitive(kv[i as int], kv[old_order[a] as int], kv[i as int]);
                    lemma_text_lt_irreflexive(kv[i as int]);
                }
            }
        }
        order.insert(p, i);
        assert(order@ =~= old_order.subrange(0, p as int).push(i).add(old_order.subrange(p as int, i as int)));
        i = i + 1;
    }
    order
}

/// The character of a decimal digit.
pub open spec fn digit_char(d: nat) -> char {
    (48 + d) as char
}

/// Decimal numeral of `n`, without sign or leading zeros.
pub open spec fn decimal(n: nat) -> Seq<char>
    decreases n,
{
    if n < 10 {
        seq![digit_char(n)]
    } else {
        decimal(n / 10).push(digit_char(n % 10))
    }
}

fn digit_str(d: u64) -> (s: &'static str)
    requires
        d < 10,
    ensures
        s@ == seq![digit_char(d as nat)],
{
    proof {
        reveal_strlit("0");
        reveal_strlit("1");
        reveal_strlit("2");
        reveal_strlit("3");
        reveal_strlit("4");
        reveal_strlit("5");
        reveal_strlit("6");
        reveal_strlit("7");
        reveal_strlit("8");
        reveal_strlit("9");
    }
    let s = match d {
        0 => "0",
        1 => "1",
        2 => "2",
        3 => "3",
        4 => "4",
        5 => "5",
        6 => "6",
        7 => "7",
        8 => "8",
        _ => "9",
    };
    assert(s@ =~= seq![digit_char(d as nat)]);
    s
}

/// Decimal numeral of `n` (what `to_string` gives for an unsigned integer).
pub fn decimal_text(n: u64) -> (s: String)
    ensures
        s@ == decimal(n as nat),
    decreases n,
{
    if n < 10 {
        String::from_str(digit_str(n))
    } else {
        let mut s = decimal_text(n / 10);
        s.append(digit_str(n % 10));
        s
    }
}

/// Whether a character is an ASCII decimal digit.
pub open spec fn is_digit(c: char) -> bool {
    '0' <= c && c <= '9'
}

/// Value of a string of decimal digits.
pub open spec fn digits_value(s: Seq<char>) -> nat
    decreases s.len(),
{
    if s.len() == 0 {
        0
    } else {
        digits_value(s.drop_last()) * 10 + (s.last() as nat - 48) as nat
    }
}

/// The decimal numeral of a number is digits only, never empty, and has
/// that number as its value.
pub proof fn lemma_decimal_digits(n: nat)
    ensures
        decimal(n).len() > 0,
        forall|i: int| 0 <= i < decimal(n).len() ==> is_digit(#[trigger] decimal(n)[i]),
        digits_value(decimal(n)) == n,
    decreases n,
{
    if n < 10 {
        assert(decimal(n) =~= seq![digit_char(n)]);
        assert(decimal(n).drop_last() =~= Seq::<char>::empty());
        assert(digit_char(n) as nat == 48 + n);
        assert(decimal(n).last() == digit_char(n));
        assert(digits_value(decimal(n).drop_last()) == 0);
        assert(digits_value(decimal(n)) == digits_value(decimal(n).drop_last()) * 10 + (decimal(n).last() as nat - 48) as nat);
    } else {
        lemma_decimal_digits(n / 10);
        let d = decimal(n / 10);
        assert(decimal(n).drop_last() =~= d);
        assert(digit_char(n % 10) as nat == 48 + n % 10);
        assert(decimal(n).last() == digit_char(n % 10));
        assert((n / 10) * 10 + n % 10 == n);
        assert(digits_value(decimal(n)) == digits_value(d) * 10 + (decimal(n).last() as nat - 48) as nat);
        assert forall|i: int| 0 <= i < decimal(n).len() implies is_digit(#[trigger] decimal(n)[i]) by {
            if i < d.len() {
                assert(decimal(n)[i] == d[i]);
            }
        }
    }
}

/// The digits of an unsigned numeral: the text without one leading `+`.
pub open spec fn unsigned_digits(s: Seq<char>) -> Seq<char> {
    if s.len() > 0 && s[0] == '+' {
        s.drop_first()
    } else {
        s
    }
}

/// What parsing `s` as an unsigned integer no greater than `max` gives
/// (`FromStr` of the unsigned integer types): an optional `+`, then at least
/// one ASCII digit and nothing else, of value at most `max`.
pub open spec fn spec_parse_unsigned(s: Seq<char>, max: nat) -> Option<nat> {
    let d = unsigned_digits(s);
    if d.len() > 0 && (forall|i: int| 0 <= i < d.len() ==> is_digit(#[trigger] d[i]))
        && digits_value(d) <= max {
        Some(digits_value(d))
    } else {
        None
    }
}

/// Reading back the decimal numeral of a number gives the number, whenever
/// it does not exceed the bound.
pub proof fn law_decimal_parses_back(n: nat, max: nat)
    requires
        n <= max,
    ensures
        spec_parse_unsigned(decimal(n), max) == Some(n),
{
    lemma_decimal_digits(n);
    assert(is_digit(decimal(n)[0]));
    assert(unsigned_digits(decimal(n)) == decimal(n));
}

proof fn lemma_digits_value_prefix(s: Seq<char>, i: int)
    requires
        0 <= i <= s.len(),
        forall|k: int| 0 <= k < s.len() ==> is_digit(#[trigger] s[k]),
    ensures
        digits_value(s.take(i)) <= digits_value(s),
    decreases s.len(),
{
    if i < s.len() {
        assert(s.drop_last().take(i) =~= s.take(i));
        lemma_digits_value_prefix(s.drop_last(), i);
    } else {
        assert(s.take(i) =~= s);
    }
}

/// Parses an unsigned decimal numeral no greater than `max`.
pub fn parse_unsigned(s: &str, max: u64) -> (r: Option<u64>)
    ensures
        match r {
            Some(v) => spec_parse_unsigned(s@, max as nat) == Some(v as nat),
            None => spec_parse_unsigned(s@, max as nat) is None,
        },
{
    let cs = chars_of(s);
    let ghost d = unsigned_digits(s@);
    let mut start: usize = 0;
    if cs.len() > 0 && cs[0] == '+' {
        start = 1;
    }
    assert(d =~= cs@.skip(start as int));
    if start >= cs.len() {
        return None;
    }
    let mut value: u64 = 0;
    let mut i: usize = start;
    while i < cs.len()
        invariant
            start <= i <= cs@.len(),
            d == cs@.skip(start as int),
            d == unsigned_digits(s@),
            value <= max,
            value == digits_value(d.take(i - start)),
            forall|k: int| 0 <= k < i - start ==> is_digit(#[trigger] d[k]),
        decreases cs@.len() - i,
    {
        let c = cs[i];
        if !('0' <= c && c <= '9') {
            assert(d[i - start] == c);
            assert(!is_digit(d[i - start]));
            assert(!(forall|k: int| 0 <= k < d.len() ==> is_digit(#[trigger] d[k])));
            assert(spec_parse_unsigned(s@, max as nat) is None);
            return None;
        }
        let digit: u64 = (c as u32 - 48) as u64;
        assert(d.take(i + 1 - start).drop_last() =~= d.take(i - start));
        assert(d.take(i + 1 - start).last() == c);
        if digit > max || value > (max - digit) / 10 {
            proof {
                assert(digits_value(d.take(i + 1 - start)) == value * 10 + digit);
                if digit <= max {
                    assert(value * 10 + digit > max) by (nonlinear_arith)
                        requires
                            value > (max - digit) / 10,
                            digit <= max,
                    ;
                }
                if forall|k: int| 0 <= k < d.len() ==> is_digit(#[trigger] d[k]) {
                    lemma_digits_value_prefix(d, i + 1 - start);
                    assert(digits_value(d) > max);
                }
                assert(spec_parse_unsigned(s@, max as nat) is None);
            }
            return None;
        }
        proof {
            assert(value * 10 + digit <= max) by (nonlinear_arith)
                requires
                    value <= (max - digit) / 10,
                    digit <= max,
            ;
        }
        value = value * 10 + digit;
        i = i + 1;
    }
    assert(d.take(i - start) =~= d);
    Some(value)
}

} // verus!
