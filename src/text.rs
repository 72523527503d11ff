//! Small string utilities with exact specifications: equality, decimal
//! rendering with zero padding, and joining.
use vstd::prelude::*;

verus! {

/// The ten decimal digits, in order.
pub open spec fn digit_chars() -> Seq<char> {
    "0123456789"@
}

/// The decimal rendering of `n`, most significant digit first, without
/// leading zeros (a lone `0` for zero).
pub open spec fn decimal(n: nat) -> Seq<char>
    decreases n,
{
    if n < 10 {
        seq![digit_chars()[n as int]]
    } else {
        decimal(n / 10).push(digit_chars()[(n % 10) as int])
    }
}

/// `s` left-padded with `'0'` to at least `width` characters.
pub open spec fn zero_pad(s: Seq<char>, width: nat) -> Seq<char> {
    if s.len() >= width {
        s
    } else {
        Seq::new((width - s.len()) as nat, |i: int| '0') + s
    }
}

/// The items joined with `sep` between neighbours.
pub open spec fn join(items: Seq<Seq<char>>, sep: Seq<char>) -> Seq<char>
    decreases items.len(),
{
    if items.len() == 0 {
        Seq::empty()
    } else if items.len() == 1 {
        items[0]
    } else {
        join(items.drop_last(), sep) + sep + items.last()
    }
}

/// Character-wise equality of two strings.
pub fn str_eq(a: &str, b: &str) -> (r: bool)
    ensures
        r == (a@ == b@),
{
    let n = a.unicode_len();
    if n != b.unicode_len() {
        return false;
    }
    let mut i: usize = 0;
    while i < n
        invariant
            n == a@.len(),
            n == b@.len(),
            i <= n,
            a@.subrange(0, i as int) == b@.subrange(0, i as int),
        decreases n - i,
    {
        if a.get_char(i) != b.get_char(i) {
            return false;
        }
        assert(a@.subrange(0, i + 1) == a@.subrange(0, i as int).push(a@[i as int]));
        assert(b@.subrange(0, i + 1) == b@.subrange(0, i as int).push(b@[i as int]));
        i = i + 1;
    }
    assert(a@ == a@.subrange(0, n as int));
    assert(b@ == b@.subrange(0, n as int));
    true
}

/// The one-character string holding the decimal digit `d`.
fn digit_string(d: u64) -> (r: String)
    requires
        d < 10,
    ensures
        r@ == seq![digit_chars()[d as int]],
{
    let digits = "0123456789";
    proof {
        reveal_strlit("0123456789");
    }
    let s = digits.substring_char(d as usize, d as usize + 1);
    assert(s@ =~= seq![digit_chars()[d as int]]);
    String::from_str(s)
}

/// Renders `n` in decimal.
pub fn decimal_string(n: u64) -> (r: String)
    ensures
        r@ == decimal(n as nat),
{
    let mut rest: u64 = n / 10;
    let mut out = digit_string(n % 10);
    while rest > 0
        invariant
            rest > 0 ==> decimal(rest as nat) + out@ == decimal(n as nat),
            rest == 0 ==> out@ == decimal(n as nat),
        decreases rest,
    {
        let d = digit_string(rest % 10);
        proof {
            let r = rest as nat;
            if r >= 10 {
                assert(decimal(r) == decimal(r / 10).push(digit_chars()[(r % 10) as int]));
                assert(decimal(r / 10) + d@ + out@ == decimal(r) + out@);
            }
        }
        out = d.concat(out.as_str());
        rest = rest / 10;
    }
    out
}

/// Renders `n` in decimal, left-padded with zeros to `width` digits.
pub fn zero_padded_decimal(n: u64, width: usize) -> (r: String)
    ensures
        r@ == zero_pad(decimal(n as nat), width as nat),
{
    let digits = decimal_string(n);
    let len = digits.as_str().unicode_len();
    if len >= width {
        return digits;
    }
    let mut pad = String::new();
    let mut k: usize = 0;
    while k < width - len
        invariant
            len < width,
            k <= width - len,
            pad@ =~= Seq::new(k as nat, |i: int| '0'),
        decreases width - len - k,
    {
        proof {
            reveal_strlit("0");
        }
        pad.append("0");
        k = k + 1;
    }
    pad.concat(digits.as_str())
}

/// Joins `items` with `sep` between neighbours.
pub fn join_strings(items: &Vec<String>, sep: &str) -> (r: String)
    ensures
        r@ == join(items.deep_view(), sep@),
{
    let mut out = String::new();
    let mut i: usize = 0;
    while i < items.len()
        invariant
            i <= items.len(),
            out@ == join(items.deep_view().subrange(0, i as int), sep@),
        decreases items.len() - i,
    {
        let ghost prev = items.deep_view().subrange(0, i as int);
        let ghost next = items.deep_view().subrange(0, i + 1);
        assert(next.drop_last() =~= prev);
        if i > 0 {
            out.append(sep);
        }
        out.append(items[i].as_str());
        i = i + 1;
    }
    assert(items.deep_view().subrange(0, items.len() as int) =~= items.deep_view());
    out
}

/// Whether `a` comes no later than `b` in lexicographic order of their
/// characters (the order of `String`'s comparison).
pub open spec fn lex_le(a: Seq<char>, b: Seq<char>) -> bool
    decreases a.len(),
{
    if a.len() == 0 {
        true
    } else if b.len() == 0 {
        false
    } else if a[0] != b[0] {
        (a[0] as u32) < (b[0] as u32)
    } else {
        lex_le(a.drop_first(), b.drop_first())
    }
}

/// Where `x` goes in `s`: before the first item at index `i` or later that
/// it does not come after.
pub open spec fn insert_pos(s: Seq<Seq<char>>, x: Seq<char>, i: int) -> int
    decreases s.len() - i,
{
    if i >= s.len() {
        s.len() as int
    } else if lex_le(x, s[i]) {
        i
    } else {
        insert_pos(s, x, i + 1)
    }
}

/// `items` in lexicographic order, by insertion in turn; equal items keep
/// their order.
pub open spec fn sorted_strings(items: Seq<Seq<char>>) -> Seq<Seq<char>>
    decreases items.len(),
{
    if items.len() == 0 {
        Seq::empty()
    } else {
        let s = sorted_strings(items.drop_last());
        s.insert(insert_pos(s, items.last(), 0), items.last())
    }
}

/// Lexicographic comparison of two strings by character.
pub fn str_le(a: &str, b: &str) -> (r: bool)
    ensures
        r == lex_le(a@, b@),
{
    let n = a.unicode_len();
    let m = b.unicode_len();
    let mut i: usize = 0;
    assert(a@.subrange(0, n as int) =~= a@);
    assert(b@.subrange(0, m as int) =~= b@);
    while i < n && i < m
        invariant
            n == a@.len(),
            m == b@.len(),
            i <= n,
            i <= m,
            lex_le(a@, b@) == lex_le(a@.subrange(i as int, n as int), b@.subrange(i as int, m as int)),
        decreases n - i,
    {
        let x = a.get_char(i);
        let y = b.get_char(i);
        let ghost ra = a@.subrange(i as int, n as int);
        let ghost rb = b@.subrange(i as int, m as int);
        assert(ra[0] == x && rb[0] == y);
        if x != y {
            return (x as u32) < (y as u32);
        }
        assert(ra.drop_first() =~= a@.subrange(i + 1, n as int));
        assert(rb.drop_first() =~= b@.subrange(i + 1, m as int));
        i = i + 1;
    }
    i == n
}

/// The strings in lexicographic order (a stable sort).
pub fn sort_strings(items: &Vec<String>) -> (r: Vec<String>)
    ensures
        r.deep_view() == sorted_strings(items.deep_view()),
{
    let mut out: Vec<String> = Vec::new();
    let mut k: usize = 0;
    while k < items.len()
        invariant
            k <= items@.len(),
            out.deep_view() == sorted_strings(items.deep_view().subrange(0, k as int)),
        decreases items@.len() - k,
    {
        let ghost pre = items.deep_view().subrange(0, k + 1);
        assert(pre.drop_last() =~= items.deep_view().subrange(0, k as int));
        let x = &items[k];
        let ghost s = out.deep_view();
        let mut i: usize = 0;
        while i < out.len() && !str_le(x.as_str(), out[i].as_str())
            invariant
                s == out.deep_view(),
                i <= out@.len(),
                x@ == items.deep_view()[k as int],
                insert_pos(s, x@, i as int) == insert_pos(s, x@, 0),
            decreases out@.len() - i,
        {
            i = i + 1;
        }
        assert(insert_pos(s, x@, i as int) == i);
        let ghost before = out.deep_view();
        let item = x.clone();
        out.insert(i, item);
        assert(out.deep_view() =~= before.insert(i as int, item@));
        k = k + 1;
    }
    assert(items.deep_view().subrange(0, items@.len() as int) =~= items.deep_view());
    out
}

proof fn lemma_lex_refl(a: Seq<char>)
    ensures
        lex_le(a, a),
    decreases a.len(),
{
    if a.len() > 0 {
        lemma_lex_refl(a.drop_first());
    }
}

proof fn lemma_lex_total(a: Seq<char>, b: Seq<char>)
    ensures
        lex_le(a, b) || lex_le(b, a),
    decreases a.len(),
{
    if a.len() > 0 && b.len() > 0 {
        if a[0] == b[0] {
            lemma_lex_total(a.drop_first(), b.drop_first());
        } else {
            vstd::utf8::char_u32_cast(a[0], a[0] as u32);
            vstd::utf8::char_u32_cast(b[0], b[0] as u32);
        }
    }
}

proof fn lemma_lex_antisym(a: Seq<char>, b: Seq<char>)
    requires
        lex_le(a, b),
        lex_le(b, a),
    ensures
        a == b,
    decreases a.len(),
{
    if a.len() == 0 {
        assert(b.len() == 0);
        assert(a =~= b);
    } else {
        assert(b.len() > 0);
        assert(a[0] == b[0]);
        lemma_lex_antisym(a.drop_first(), b.drop_first());
        assert(a =~= seq![a[0]] + a.drop_first());
        assert(b =~= seq![b[0]] + b.drop_first());
    }
}

proof fn lemma_lex_trans(a: Seq<char>, b: Seq<char>, c: Seq<char>)
    requires
        lex_le(a, b),
        lex_le(b, c),
    ensures
        lex_le(a, c),
    decreases a.len(),
{
    if a.len() > 0 && b.len() > 0 && c.len() > 0 && a[0] == b[0] && b[0] == c[0] {
        lemma_lex_trans(a.drop_first(), b.drop_first(), c.drop_first());
    }
}

/// Whether the items are in lexicographic order.
pub open spec fn is_sorted(s: Seq<Seq<char>>) -> bool {
    forall|i: int, j: int| 0 <= i < j < s.len() ==> lex_le(#[trigger] s[i], #[trigger] s[j])
}

proof fn lemma_insert_pos(s: Seq<Seq<char>>, x: Seq<char>, i: int)
    requires
        0 <= i <= s.len(),
    ensures
        i <= insert_pos(s, x, i) <= s.len(),
        forall|k: int| i <= k < insert_pos(s, x, i) ==> !lex_le(x, #[trigger] s[k]),
        insert_pos(s, x, i) < s.len() ==> lex_le(x, s[insert_pos(s, x, i)]),
    decreases s.len() - i,
{
    if i < s.len() && !lex_le(x, s[i]) {
        lemma_insert_pos(s, x, i + 1);
    }
}

proof fn lemma_insert_sorted(s: Seq<Seq<char>>, x: Seq<char>)
    requires
        is_sorted(s),
    ensures
        0 <= insert_pos(s, x, 0) <= s.len(),
        is_sorted(s.insert(insert_pos(s, x, 0), x)),
{
    lemma_insert_pos(s, x, 0);
    let p = insert_pos(s, x, 0);
    let t = s.insert(p, x);
    assert forall|i: int, j: int| 0 <= i < j < t.len() implies lex_le(#[trigger] t[i], #[trigger] t[j]) by {
        if j < p {
            assert(t[i] == s[i] && t[j] == s[j]);
        } else if j == p {
            assert(t[i] == s[i] && t[j] == x);
            assert(!lex_le(x, s[i]));
            lemma_lex_total(x, s[i]);
        } else if i == p {
            assert(t[j] == s[j - 1]);
            if j - 1 > p {
                assert(lex_le(s[p], s[j - 1]));
                lemma_lex_trans(x, s[p], s[j - 1]);
            }
        } else if i < p {
            assert(t[i] == s[i] && t[j] == s[j - 1]);
        } else {
            assert(t[i] == s[i - 1] && t[j] == s[j - 1]);
        }
    }
}

proof fn lemma_sorted_strings(items: Seq<Seq<char>>)
    ensures
        is_sorted(sorted_strings(items)),
        sorted_strings(items).to_multiset() == items.to_multiset(),
    decreases items.len(),
{
    broadcast use vstd::seq_lib::group_to_multiset_ensures;
    if items.len() == 0 {
        assert(sorted_strings(items).to_multiset() =~= items.to_multiset());
    } else {
        let d = items.drop_last();
        let x = items.last();
        lemma_sorted_strings(d);
        let s = sorted_strings(d);
        lemma_insert_sorted(s, x);
        let p = insert_pos(s, x, 0);
        let t = s.insert(p, x);
        assert(t.remove(p) =~= s);
        assert(t[p] == x);
        assert(t.contains(x));
        assert(s.to_multiset() =~= t.to_multiset().remove(x));
        assert(t.to_multiset() =~= s.to_multiset().insert(x));
        assert(items =~= d.push(x));
    }
}

proof fn lemma_sorted_unique(s: Seq<Seq<char>>, t: Seq<Seq<char>>)
    requires
        is_sorted(s),
        is_sorted(t),
        s.to_multiset() == t.to_multiset(),
    ensures
        s == t,
    decreases s.len(),
{
    broadcast use vstd::seq_lib::group_to_multiset_ensures;
    assert(s.len() == s.to_multiset().len() && t.len() == t.to_multiset().len());
    if s.len() == 0 {
        assert(s =~= t);
    } else {
        assert(s.contains(s[0]) && t.contains(t[0]));
        assert(t.to_multiset().count(s[0]) > 0 && s.to_multiset().count(t[0]) > 0);
        let j = choose|j: int| 0 <= j < t.len() && t[j] == s[0];
        let i = choose|i: int| 0 <= i < s.len() && s[i] == t[0];
        lemma_lex_refl(s[0]);
        lemma_lex_refl(t[0]);
        if i > 0 {
            assert(lex_le(s[0], s[i]));
        }
        if j > 0 {
            assert(lex_le(t[0], t[j]));
        }
        lemma_lex_antisym(s[0], t[0]);
        let s1 = s.remove(0);
        let t1 = t.remove(0);
        assert(s1 =~= s.drop_first());
        assert(t1 =~= t.drop_first());
        assert(is_sorted(s1)) by {
            assert forall|a: int, b: int| 0 <= a < b < s1.len() implies lex_le(#[trigger] s1[a], #[trigger] s1[b]) by {
                assert(s1[a] == s[a + 1] && s1[b] == s[b + 1]);
            }
        }
        assert(is_sorted(t1)) by {
            assert forall|a: int, b: int| 0 <= a < b < t1.len() implies lex_le(#[trigger] t1[a], #[trigger] t1[b]) by {
                assert(t1[a] == t[a + 1] && t1[b] == t[b + 1]);
            }
        }
        lemma_sorted_unique(s1, t1);
        assert forall|k: int| 0 <= k < s.len() implies s[k] == t[k] by {
            if k > 0 {
                assert(s[k] == s1[k - 1] && t[k] == t1[k - 1]);
            }
        }
        assert(s =~= t);
    }
}

/// Sorting ignores the order of its input: lists that hold the same
/// strings, each as often, sort to the same list.
pub proof fn lemma_sort_ignores_order(a: Seq<Seq<char>>, b: Seq<Seq<char>>)
    requires
        a.to_multiset() == b.to_multiset(),
    ensures
        sorted_strings(a) == sorted_strings(b),
        is_sorted(sorted_strings(a)),
        sorted_strings(a).to_multiset() == a.to_multiset(),
{
    lemma_sorted_strings(a);
    lemma_sorted_strings(b);
    lemma_sorted_unique(sorted_strings(a), sorted_strings(b));
}

} // verus!
