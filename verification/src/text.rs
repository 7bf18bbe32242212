//! Character-level string helpers with specifications over `Seq<char>`.
use vstd::prelude::*;

verus! {

/// Unicode `White_Space` property, as `char::is_whitespace` defines it.
pub open spec fn is_ws(c: char) -> bool {
    ||| c == '\t' || c == '\n' || c == '\u{0B}' || c == '\u{0C}' || c == '\r' || c == ' '
    ||| c == '\u{85}' || c == '\u{A0}' || c == '\u{1680}'
    ||| ('\u{2000}' <= c && c <= '\u{200A}')
    ||| c == '\u{2028}' || c == '\u{2029}' || c == '\u{202F}' || c == '\u{205F}' || c == '\u{3000}'
}

/// ASCII whitespace, as `u8::is_ascii_whitespace` defines it.
pub open spec fn is_ascii_ws(c: char) -> bool {
    c == '\t' || c == '\n' || c == '\u{0C}' || c == '\r' || c == ' '
}

pub open spec fn is_ascii_digit(c: char) -> bool {
    '0' <= c && c <= '9'
}

pub open spec fn is_ascii_alpha(c: char) -> bool {
    ('a' <= c && c <= 'z') || ('A' <= c && c <= 'Z')
}

pub open spec fn is_ascii_alnum(c: char) -> bool {
    is_ascii_alpha(c) || is_ascii_digit(c)
}

/// A character that may occur in a variable name: `[A-Za-z0-9_]`.
pub open spec fn is_name_char(c: char) -> bool {
    is_ascii_alnum(c) || c == '_'
}

pub fn char_is_ws(c: char) -> (r: bool)
    ensures
        r == is_ws(c),
{
    c == '\t' || c == '\n' || c == '\u{0B}' || c == '\u{0C}' || c == '\r' || c == ' ' || c
        == '\u{85}' || c == '\u{A0}' || c == '\u{1680}' || ('\u{2000}' <= c && c <= '\u{200A}')
        || c == '\u{2028}' || c == '\u{2029}' || c == '\u{202F}' || c == '\u{205F}' || c
        == '\u{3000}'
}

pub fn char_is_ascii_ws(c: char) -> (r: bool)
    ensures
        r == is_ascii_ws(c),
{
    c == '\t' || c == '\n' || c == '\u{0C}' || c == '\r' || c == ' '
}

pub fn char_is_digit(c: char) -> (r: bool)
    ensures
        r == is_ascii_digit(c),
{
    '0' <= c && c <= '9'
}

pub fn char_is_alpha(c: char) -> (r: bool)
    ensures
        r == is_ascii_alpha(c),
{
    ('a' <= c && c <= 'z') || ('A' <= c && c <= 'Z')
}

pub fn char_is_name(c: char) -> (r: bool)
    ensures
        r == is_name_char(c),
{
    char_is_alpha(c) || char_is_digit(c) || c == '_'
}

/// `String::push`: appends one character.
#[verifier::external_body]
pub fn push_char(s: &mut String, c: char)
    ensures
        final(s)@ == old(s)@.push(c),
{
    s.push(c);
}

/// The characters of a string, in order.
pub fn chars_of(s: &str) -> (r: Vec<char>)
    ensures
        r@ == s@,
{
    let n = s.unicode_len();
    let mut v: Vec<char> = Vec::new();
    let mut i: usize = 0;
    while i < n
        invariant
            n == s@.len(),
            i <= n,
            v@ == s@.subrange(0, i as int),
        decreases n - i,
    {
        let c = s.get_char(i);
        v.push(c);
        i = i + 1;
        assert(v@ =~= s@.subrange(0, i as int));
    }
    assert(v@ =~= s@);
    v
}

/// The views of a sequence of strings.
pub open spec fn views(v: Seq<String>) -> Seq<Seq<char>> {
    v.map_values(|s: String| s@)
}

/// A copy of a list of strings.
pub fn clone_strings(v: &Vec<String>) -> (r: Vec<String>)
    ensures
        r@ == v@,
{
    let mut r: Vec<String> = Vec::new();
    let mut i: usize = 0;
    while i < v.len()
        invariant
            i <= v@.len(),
            r@ == v@.subrange(0, i as int),
        decreases v@.len() - i,
    {
        r.push(v[i].clone());
        i = i + 1;
        assert(r@ =~= v@.subrange(0, i as int));
    }
    assert(v@.subrange(0, v@.len() as int) =~= v@);
    r
}

/// Whether one of the strings of `v` equals `s`.
pub fn string_in(v: &Vec<String>, s: &str) -> (r: bool)
    ensures
        r == views(v@).contains(s@),
{
    let mut i: usize = 0;
    while i < v.len()
        invariant
            i <= v@.len(),
            forall|j: int| 0 <= j < i ==> v@[j]@ != s@,
        decreases v@.len() - i,
    {
        if str_eq(v[i].as_str(), s) {
            assert(views(v@)[i as int] == s@);
            return true;
        }
        i = i + 1;
    }
    proof {
        if views(v@).contains(s@) {
            let k = choose|k: int| 0 <= k < views(v@).len() && views(v@)[k] == s@;
            assert(v@[k]@ == s@);
        }
    }
    false
}

/// The string made of the characters `v[from..to]`.
pub fn string_of_range(v: &Vec<char>, from: usize, to: usize) -> (r: String)
    requires
        from <= to <= v@.len(),
    ensures
        r@ == v@.subrange(from as int, to as int),
{
    let mut r = String::new();
    let mut i = from;
    while i < to
        invariant
            from <= i <= to <= v@.len(),
            r@ == v@.subrange(from as int, i as int),
        decreases to - i,
    {
        push_char(&mut r, v[i]);
        i = i + 1;
        assert(r@ =~= v@.subrange(from as int, i as int));
    }
    r
}

/// The string made of all the characters of `v`.
pub fn string_of_chars(v: &Vec<char>) -> (r: String)
    ensures
        r@ == v@,
{
    let r = string_of_range(v, 0, v.len());
    assert(v@.subrange(0, v@.len() as int) =~= v@);
    r
}

/// A fresh string with the given contents.
pub fn owned(s: &str) -> (r: String)
    ensures
        r@ == s@,
{
    String::from_str(s)
}

/// Concatenation of two strings.
pub fn concat(a: &str, b: &str) -> (r: String)
    ensures
        r@ == a@ + b@,
{
    let mut r = String::from_str(a);
    r.append(b);
    r
}

/// Concatenation of three strings.
pub fn concat3(a: &str, b: &str, c: &str) -> (r: String)
    ensures
        r@ == a@ + b@ + c@,
{
    let mut r = String::from_str(a);
    r.append(b);
    r.append(c);
    r
}

pub fn str_eq(a: &str, b: &str) -> (r: bool)
    ensures
        r == (a@ == b@),
{
    let av = chars_of(a);
    let bv = chars_of(b);
    if av.len() != bv.len() {
        return false;
    }
    let mut i: usize = 0;
    while i < av.len()
        invariant
            av@ == a@,
            bv@ == b@,
            av@.len() == bv@.len(),
            i <= av@.len(),
            forall|j: int| 0 <= j < i ==> av@[j] == bv@[j],
        decreases av@.len() - i,
    {
        if av[i] != bv[i] {
            return false;
        }
        i = i + 1;
    }
    assert(av@ =~= bv@);
    true
}

/// Whether `p` occurs in `s` at position `i`.
pub open spec fn occurs_at(s: Seq<char>, p: Seq<char>, i: int) -> bool {
    0 <= i && i + p.len() <= s.len() && s.subrange(i, i + p.len()) == p
}

pub open spec fn contains_seq(s: Seq<char>, p: Seq<char>) -> bool {
    exists|i: int| occurs_at(s, p, i)
}

/// Whether `p` occurs in the character vector `v` at position `i`.
pub fn occurs_at_exec(v: &Vec<char>, p: &Vec<char>, i: usize) -> (r: bool)
    ensures
        r == occurs_at(v@, p@, i as int),
{
    if i > v.len() || p.len() > v.len() - i {
        return false;
    }
    let mut k: usize = 0;
    while k < p.len()
        invariant
            i + p@.len() <= v@.len(),
            v@.len() <= usize::MAX,
            k <= p@.len(),
            forall|j: int| 0 <= j < k ==> v@[i + j] == p@[j],
        decreases p@.len() - k,
    {
        if v[i + k] != p[k] {
            assert(v@.subrange(i as int, i + p@.len())[k as int] != p@[k as int]);
            return false;
        }
        k = k + 1;
    }
    assert(v@.subrange(i as int, i + p@.len()) =~= p@);
    true
}

/// `str::contains` with a string pattern.
pub fn contains(s: &str, p: &str) -> (r: bool)
    ensures
        r == contains_seq(s@, p@),
{
    let v = chars_of(s);
    let pv = chars_of(p);
    if pv.len() > v.len() {
        return false;
    }
    if pv.len() == 0 {
        assert(s@.subrange(0, 0) =~= p@);
        assert(occurs_at(s@, p@, 0));
        return true;
    }
    let mut i: usize = 0;
    while i <= v.len() - pv.len()
        invariant
            v@ == s@,
            pv@ == p@,
            0 < pv@.len() <= v@.len(),
            i <= v@.len() - pv@.len() + 1,
            forall|j: int| 0 <= j < i ==> !occurs_at(s@, p@, j),
        decreases v@.len() - pv@.len() + 1 - i,
    {
        if occurs_at_exec(&v, &pv, i) {
            return true;
        }
        i = i + 1;
    }
    assert forall|j: int| !occurs_at(s@, p@, j) by {
        if 0 <= j && j + p@.len() <= s@.len() {
        }
    }
    false
}

pub fn contains_char(s: &str, c: char) -> (r: bool)
    ensures
        r == s@.contains(c),
{
    let v = chars_of(s);
    let mut i: usize = 0;
    while i < v.len()
        invariant
            v@ == s@,
            i <= v@.len(),
            forall|j: int| 0 <= j < i ==> v@[j] != c,
        decreases v@.len() - i,
    {
        if v[i] == c {
            return true;
        }
        i = i + 1;
    }
    false
}

pub fn starts_with(s: &str, p: &str) -> (r: bool)
    ensures
        r == p@.is_prefix_of(s@),
{
    let v = chars_of(s);
    let pv = chars_of(p);
    let r = occurs_at_exec(&v, &pv, 0);
    proof {
        if r {
            assert(s@.subrange(0, p@.len() as int) == p@);
        }
        if p@.is_prefix_of(s@) {
            assert(s@.subrange(0, p@.len() as int) =~= p@);
        }
    }
    r
}

pub fn ends_with(s: &str, p: &str) -> (r: bool)
    ensures
        r == p@.is_suffix_of(s@),
{
    let v = chars_of(s);
    let pv = chars_of(p);
    if pv.len() > v.len() {
        return false;
    }
    let r = occurs_at_exec(&v, &pv, v.len() - pv.len());
    proof {
        let k = s@.len() - p@.len();
        if r {
            assert forall|i: int| 0 <= i < p@.len() implies p@[i] == s@[s@.len() - p@.len() + i] by {
                assert(s@.subrange(k, k + p@.len())[i] == s@[k + i]);
            }
        }
        if p@.is_suffix_of(s@) {
            assert(s@.subrange(k, k + p@.len()) =~= p@);
        }
    }
    r
}

/// Leftmost, non-overlapping replacement of every occurrence of `from` by `to`,
/// scanning left to right, as `str::replace` does for a non-empty pattern.
pub open spec fn replace_spec(s: Seq<char>, from: Seq<char>, to: Seq<char>) -> Seq<char>
    decreases s.len(),
{
    if from.len() == 0 || s.len() < from.len() {
        s
    } else if s.subrange(0, from.len() as int) == from {
        to + replace_spec(s.skip(from.len() as int), from, to)
    } else {
        seq![s[0]] + replace_spec(s.drop_first(), from, to)
    }
}

/// `str::replace` for a non-empty pattern.
pub fn replace(s: &str, from: &str, to: &str) -> (r: String)
    requires
        from@.len() > 0,
    ensures
        r@ == replace_spec(s@, from@, to@),
{
    let v = chars_of(s);
    let fv = chars_of(from);
    let mut r = String::new();
    let mut i: usize = 0;
    assert(s@.skip(0) =~= s@);
    while i < v.len()
        invariant
            v@ == s@,
            fv@ == from@,
            fv@.len() > 0,
            i <= v@.len(),
            r@ + replace_spec(s@.skip(i as int), from@, to@) == replace_spec(s@, from@, to@),
        decreases v@.len() - i,
    {
        let ghost rest = s@.skip(i as int);
        if fv.len() <= v.len() - i && occurs_at_exec(&v, &fv, i) {
            assert(rest.subrange(0, from@.len() as int) =~= s@.subrange(
                i as int,
                i + from@.len(),
            ));
            assert(rest.skip(from@.len() as int) =~= s@.skip(i + from@.len()));
            r.append(to);
            i = i + fv.len();
        } else {
            proof {
                if rest.len() >= from@.len() {
                    assert(rest.subrange(0, from@.len() as int) =~= s@.subrange(
                        i as int,
                        i + from@.len(),
                    ));
                }
            }
            assert(rest.drop_first() =~= s@.skip(i + 1));
            assert(rest[0] == v@[i as int]);
            push_char(&mut r, v[i]);
            i = i + 1;
        }
        assert(r@ + replace_spec(s@.skip(i as int), from@, to@) == replace_spec(s@, from@, to@))
            by {
            assert(r@ + replace_spec(s@.skip(i as int), from@, to@) =~= r@ + replace_spec(
                s@.skip(i as int),
                from@,
                to@,
            ));
        }
    }
    assert(replace_spec(s@.skip(i as int), from@, to@) =~= Seq::<char>::empty());
    assert(r@ =~= r@ + Seq::<char>::empty());
    r
}

/// Number of leading whitespace characters.
pub open spec fn lead_ws(s: Seq<char>) -> nat
    decreases s.len(),
{
    if s.len() > 0 && is_ws(s[0]) {
        1 + lead_ws(s.drop_first())
    } else {
        0
    }
}

/// Number of trailing whitespace characters.
pub open spec fn trail_ws(s: Seq<char>) -> nat
    decreases s.len(),
{
    if s.len() > 0 && is_ws(s.last()) {
        1 + trail_ws(s.drop_last())
    } else {
        0
    }
}

pub open spec fn trim_start_spec(s: Seq<char>) -> Seq<char> {
    s.skip(lead_ws(s) as int)
}

pub open spec fn trim_end_spec(s: Seq<char>) -> Seq<char> {
    s.take(s.len() - trail_ws(s))
}

/// `str::trim`: strips leading and trailing Unicode whitespace.
pub open spec fn trim_spec(s: Seq<char>) -> Seq<char> {
    trim_end_spec(trim_start_spec(s))
}

proof fn lemma_lead_ws_bound(s: Seq<char>)
    ensures
        lead_ws(s) <= s.len(),
        forall|j: int| 0 <= j < lead_ws(s) ==> is_ws(#[trigger] s[j]),
        lead_ws(s) < s.len() ==> !is_ws(s[lead_ws(s) as int]),
    decreases s.len(),
{
    if s.len() > 0 && is_ws(s[0]) {
        lemma_lead_ws_bound(s.drop_first());
        assert forall|j: int| 0 <= j < lead_ws(s) implies is_ws(#[trigger] s[j]) by {
            if j > 0 {
                assert(s[j] == s.drop_first()[j - 1]);
            }
        }
    }
}

proof fn lemma_trail_ws_bound(s: Seq<char>)
    ensures
        trail_ws(s) <= s.len(),
        forall|j: int| s.len() - trail_ws(s) <= j < s.len() ==> is_ws(#[trigger] s[j]),
        trail_ws(s) < s.len() ==> !is_ws(s[s.len() - trail_ws(s) - 1]),
    decreases s.len(),
{
    if s.len() > 0 && is_ws(s.last()) {
        lemma_trail_ws_bound(s.drop_last());
        assert forall|j: int| s.len() - trail_ws(s) <= j < s.len() implies is_ws(
            #[trigger] s[j],
        ) by {
            if j < s.len() - 1 {
                assert(s[j] == s.drop_last()[j]);
            }
        }
    }
}

/// Characterizes `lead_ws` by the position of the first non-whitespace character.
proof fn lemma_lead_ws_is(s: Seq<char>, k: int)
    requires
        0 <= k <= s.len(),
        forall|j: int| 0 <= j < k ==> is_ws(#[trigger] s[j]),
        k < s.len() ==> !is_ws(s[k]),
    ensures
        lead_ws(s) == k,
    decreases s.len(),
{
    if k > 0 {
        assert(is_ws(s[0]));
        assert forall|j: int| 0 <= j < k - 1 implies is_ws(#[trigger] s.drop_first()[j]) by {
            assert(s.drop_first()[j] == s[j + 1]);
        }
        if k - 1 < s.len() - 1 {
            assert(s.drop_first()[k - 1] == s[k]);
        }
        lemma_lead_ws_is(s.drop_first(), k - 1);
    }
}

proof fn lemma_trail_ws_is(s: Seq<char>, k: int)
    requires
        0 <= k <= s.len(),
        forall|j: int| s.len() - k <= j < s.len() ==> is_ws(#[trigger] s[j]),
        k < s.len() ==> !is_ws(s[s.len() - k - 1]),
    ensures
        trail_ws(s) == k,
    decreases s.len(),
{
    if k > 0 {
        assert(is_ws(s[s.len() - 1]));
        assert forall|j: int| s.len() - 1 - (k - 1) <= j < s.len() - 1 implies is_ws(
            #[trigger] s.drop_last()[j],
        ) by {
            assert(s.drop_last()[j] == s[j]);
        }
        if k - 1 < s.len() - 1 {
            assert(s.drop_last()[s.len() - 1 - (k - 1) - 1] == s[s.len() - k - 1]);
        }
        lemma_trail_ws_is(s.drop_last(), k - 1);
    }
}

/// `str::trim`.
pub fn trim(s: &str) -> (r: String)
    ensures
        r@ == trim_spec(s@),
{
    let v = chars_of(s);
    let n = v.len();
    let mut a: usize = 0;
    while a < n && char_is_ws(v[a])
        invariant
            v@ == s@,
            n == v@.len(),
            a <= n,
            forall|j: int| 0 <= j < a ==> is_ws(#[trigger] v@[j]),
        decreases n - a,
    {
        a = a + 1;
    }
    proof {
        lemma_lead_ws_is(s@, a as int);
    }
    let ghost t = s@.skip(a as int);
    let mut b: usize = n;
    while b > a && char_is_ws(v[b - 1])
        invariant
            v@ == s@,
            n == v@.len(),
            a <= b <= n,
            t == s@.skip(a as int),
            forall|j: int| b <= j < n ==> is_ws(#[trigger] v@[j]),
        decreases b - a,
    {
        b = b - 1;
    }
    proof {
        let k = (n - b) as int;
        assert forall|j: int| t.len() - k <= j < t.len() implies is_ws(#[trigger] t[j]) by {
            assert(t[j] == s@[j + a]);
        }
        if k < t.len() {
            assert(t[t.len() - k - 1] == s@[b - 1]);
        }
        lemma_trail_ws_is(t, k);
        assert(trim_spec(s@) =~= s@.subrange(a as int, b as int));
    }
    string_of_range(&v, a, b)
}

/// The part of `s` before the first occurrence of `c` (all of `s` when `c` does not
/// occur), as `s.split(c).next().unwrap()` yields it.
pub open spec fn before_char(s: Seq<char>, c: char) -> Seq<char>
    decreases s.len(),
{
    if s.len() == 0 {
        s
    } else if s[0] == c {
        Seq::<char>::empty()
    } else {
        seq![s[0]] + before_char(s.drop_first(), c)
    }
}

pub fn split_first(s: &str, c: char) -> (r: String)
    ensures
        r@ == before_char(s@, c),
{
    let v = chars_of(s);
    let mut i: usize = 0;
    assert(s@.skip(0) =~= s@);
    while i < v.len() && v[i] != c
        invariant
            v@ == s@,
            i <= v@.len(),
            v@.subrange(0, i as int) + before_char(s@.skip(i as int), c) == before_char(s@, c),
        decreases v@.len() - i,
    {
        let ghost rest = s@.skip(i as int);
        assert(rest.drop_first() =~= s@.skip(i + 1));
        i = i + 1;
        assert(v@.subrange(0, i as int) =~= v@.subrange(0, i - 1) + seq![rest[0]]);
        assert(v@.subrange(0, i as int) + before_char(s@.skip(i as int), c) =~= v@.subrange(
            0,
            i - 1,
        ) + (seq![rest[0]] + before_char(rest.drop_first(), c)));
    }
    assert(before_char(s@.skip(i as int), c) =~= Seq::<char>::empty());
    assert(v@.subrange(0, i as int) + Seq::<char>::empty() =~= v@.subrange(0, i as int));
    string_of_range(&v, 0, i)
}

} // verus!

verus! {

/// Decimal value of a sequence of ASCII digits.
pub open spec fn digits_value(d: Seq<char>) -> int
    decreases d.len(),
{
    if d.len() == 0 {
        0
    } else {
        digits_value(d.drop_last()) * 10 + (d.last() as int - '0' as int)
    }
}

pub open spec fn all_digits(d: Seq<char>) -> bool {
    forall|i: int| 0 <= i < d.len() ==> is_ascii_digit(#[trigger] d[i])
}

/// `u64::from_str`: an optional `+`, then one or more ASCII digits whose value fits.
pub open spec fn u64_parse_spec(s: Seq<char>) -> Option<int> {
    let body = if s.len() > 0 && s[0] == '+' {
        s.drop_first()
    } else {
        s
    };
    if body.len() > 0 && all_digits(body) && digits_value(body) <= u64::MAX {
        Some(digits_value(body))
    } else {
        None
    }
}

pub proof fn lemma_digits_value_nonneg(d: Seq<char>)
    requires
        all_digits(d),
    ensures
        digits_value(d) >= 0,
    decreases d.len(),
{
    if d.len() > 0 {
        assert(all_digits(d.drop_last())) by {
            assert forall|i: int| 0 <= i < d.drop_last().len() implies is_ascii_digit(
                #[trigger] d.drop_last()[i],
            ) by {
                assert(d.drop_last()[i] == d[i]);
            }
        }
        lemma_digits_value_nonneg(d.drop_last());
        assert(is_ascii_digit(d[d.len() - 1]));
    }
}

pub proof fn lemma_digits_value_mono(d: Seq<char>, c: char)
    requires
        all_digits(d),
        is_ascii_digit(c),
    ensures
        digits_value(d.push(c)) == digits_value(d) * 10 + (c as int - '0' as int),
        digits_value(d.push(c)) >= digits_value(d),
{
    assert(d.push(c).drop_last() =~= d);
    lemma_digits_value_nonneg(d);
}

/// Decimal value of the digits `v[from..to]`, or `None` when it exceeds `u64::MAX`.
pub fn digits_to_u64(v: &Vec<char>, from: usize, to: usize) -> (r: Option<u64>)
    requires
        from <= to <= v@.len(),
        all_digits(v@.subrange(from as int, to as int)),
    ensures
        match r {
            Some(n) => n == digits_value(v@.subrange(from as int, to as int)),
            None => digits_value(v@.subrange(from as int, to as int)) > u64::MAX,
        },
{
    let mut acc: u64 = 0;
    let mut i = from;
    while i < to
        invariant
            from <= i <= to <= v@.len(),
            all_digits(v@.subrange(from as int, to as int)),
            acc == digits_value(v@.subrange(from as int, i as int)),
        decreases to - i,
    {
        let ghost d = v@.subrange(from as int, i as int);
        assert(v@.subrange(from as int, to as int)[i - from] == v@[i as int]);
        assert(all_digits(d)) by {
            assert forall|k: int| 0 <= k < d.len() implies is_ascii_digit(#[trigger] d[k]) by {
                assert(d[k] == v@.subrange(from as int, to as int)[k]);
            }
        }
        assert(v@.subrange(from as int, i + 1) =~= d.push(v@[i as int]));
        proof {
            lemma_digits_value_mono(d, v@[i as int]);
        }
        let dv = (v[i] as u32 - '0' as u32) as u64;
        if acc > 1844674407370955161u64 || (acc == 1844674407370955161u64 && dv > 5) {
            proof {
                // every further digit only increases the value
                lemma_digits_value_prefix_mono(v@.subrange(from as int, to as int), (i + 1 - from) as int);
            }
            assert(v@.subrange(from as int, to as int).subrange(0, (i + 1 - from) as int) =~= v@.subrange(from as int, i + 1));
            return None;
        }
        acc = acc * 10 + dv;
        i = i + 1;
    }
    Some(acc)
}

/// The value of a digit string is at least the value of any of its prefixes.
pub proof fn lemma_digits_value_prefix_mono(d: Seq<char>, k: int)
    requires
        all_digits(d),
        0 <= k <= d.len(),
    ensures
        digits_value(d) >= digits_value(d.subrange(0, k)),
    decreases d.len() - k,
{
    if k < d.len() {
        let p = d.subrange(0, k);
        assert(d.subrange(0, k + 1) =~= p.push(d[k]));
        assert(all_digits(p)) by {
            assert forall|j: int| 0 <= j < p.len() implies is_ascii_digit(#[trigger] p[j]) by {
                assert(p[j] == d[j]);
            }
        }
        lemma_digits_value_mono(p, d[k]);
        lemma_digits_value_prefix_mono(d, k + 1);
    } else {
        assert(d.subrange(0, k) =~= d);
    }
}

/// `str::parse::<u64>`.
pub fn parse_u64(s: &str) -> (r: Option<u64>)
    ensures
        match u64_parse_spec(s@) {
            Some(n) => r matches Some(x) && x == n,
            None => r is None,
        },
{
    let v = chars_of(s);
    let start: usize = if v.len() > 0 && v[0] == '+' {
        1
    } else {
        0
    };
    let ghost body = if s@.len() > 0 && s@[0] == '+' {
        s@.drop_first()
    } else {
        s@
    };
    assert(body =~= v@.subrange(start as int, v@.len() as int));
    if start >= v.len() {
        return None;
    }
    let mut i = start;
    while i < v.len()
        invariant
            v@ == s@,
            start <= i <= v@.len(),
            body == v@.subrange(start as int, v@.len() as int),
            body == (if s@.len() > 0 && s@[0] == '+' {
                s@.drop_first()
            } else {
                s@
            }),
            forall|k: int| start <= k < i ==> is_ascii_digit(#[trigger] v@[k]),
        decreases v@.len() - i,
    {
        if !char_is_digit(v[i]) {
            assert(body[i - start] == v@[i as int]);
            assert(!all_digits(body));
            assert(u64_parse_spec(s@) is None);
            return None;
        }
        i = i + 1;
    }
    assert(all_digits(body)) by {
        assert forall|k: int| 0 <= k < body.len() implies is_ascii_digit(#[trigger] body[k]) by {
            assert(body[k] == v@[k + start]);
        }
    }
    proof {
        lemma_digits_value_nonneg(body);
    }
    digits_to_u64(&v, start, v.len())
}

/// The character of a decimal digit.
pub open spec fn digit_char(d: int) -> char {
    if d == 0 {
        '0'
    } else if d == 1 {
        '1'
    } else if d == 2 {
        '2'
    } else if d == 3 {
        '3'
    } else if d == 4 {
        '4'
    } else if d == 5 {
        '5'
    } else if d == 6 {
        '6'
    } else if d == 7 {
        '7'
    } else if d == 8 {
        '8'
    } else {
        '9'
    }
}

/// The decimal writing of `n`, without leading zeros.
pub open spec fn decimal(n: nat) -> Seq<char>
    decreases n,
{
    if n < 10 {
        seq![digit_char(n as int)]
    } else {
        decimal(n / 10).push(digit_char((n % 10) as int))
    }
}

fn digit_to_char(d: u64) -> (r: char)
    requires
        d < 10,
    ensures
        r == digit_char(d as int),
{
    if d == 0 {
        '0'
    } else if d == 1 {
        '1'
    } else if d == 2 {
        '2'
    } else if d == 3 {
        '3'
    } else if d == 4 {
        '4'
    } else if d == 5 {
        '5'
    } else if d == 6 {
        '6'
    } else if d == 7 {
        '7'
    } else if d == 8 {
        '8'
    } else {
        '9'
    }
}

/// The decimal writing of `n` (as `n.to_string()` gives it).
pub fn u64_to_string(n: u64) -> (r: String)
    ensures
        r@ == decimal(n as nat),
    decreases n,
{
    if n < 10 {
        let mut s = String::new();
        push_char(&mut s, digit_to_char(n));
        assert(s@ =~= decimal(n as nat));
        s
    } else {
        let mut s = u64_to_string(n / 10);
        push_char(&mut s, digit_to_char(n % 10));
        s
    }
}

/// The decimal writing of a signed `n`, with a leading `-` when negative.
pub open spec fn signed_decimal(n: int) -> Seq<char> {
    if n < 0 {
        seq!['-'] + decimal((-n) as nat)
    } else {
        decimal(n as nat)
    }
}

/// The decimal writing of `n` (as `n.to_string()` gives it).
pub fn i64_to_string(n: i64) -> (r: String)
    ensures
        r@ == signed_decimal(n as int),
{
    if n < 0 {
        let m: u64 = if n == i64::MIN {
            9223372036854775808u64
        } else {
            (-n) as u64
        };
        let digits = u64_to_string(m);
        let mut s = String::new();
        push_char(&mut s, '-');
        s.append(digits.as_str());
        assert(s@ =~= signed_decimal(n as int));
        s
    } else {
        u64_to_string(n as u64)
    }
}

/// The parts written one after another with `sep` between each two.
pub open spec fn joined(parts: Seq<Seq<char>>, sep: Seq<char>) -> Seq<char>
    decreases parts.len(),
{
    if parts.len() == 0 {
        Seq::empty()
    } else if parts.len() == 1 {
        parts[0]
    } else {
        joined(parts.drop_last(), sep) + sep + parts.last()
    }
}

/// `parts.join(sep)`.
pub fn join_strings(parts: &Vec<String>, sep: &str) -> (r: String)
    ensures
        r@ == joined(views(parts@), sep@),
{
    let mut r = String::new();
    let mut i: usize = 0;
    let ghost pv = views(parts@);
    assert(pv.subrange(0, 0) =~= Seq::<Seq<char>>::empty());
    while i < parts.len()
        invariant
            pv == views(parts@),
            pv.len() == parts@.len(),
            i <= parts@.len(),
            r@ == joined(pv.subrange(0, i as int), sep@),
        decreases parts@.len() - i,
    {
        assert(pv[i as int] == parts@[i as int]@);
        let ghost sub = pv.subrange(0, i + 1);
        assert(sub.drop_last() =~= pv.subrange(0, i as int));
        if i > 0 {
            r.append(sep);
        }
        r.append(parts[i].as_str());
        proof {
            if i == 0 {
                assert(sub.len() == 1);
            }
        }
        i = i + 1;
    }
    assert(pv.subrange(0, parts@.len() as int) =~= pv);
    r
}

/// Position of the first `c` in `s`, or -1.
pub open spec fn char_pos(s: Seq<char>, c: char) -> int
    decreases s.len(),
{
    if s.len() == 0 {
        -1
    } else if s.last() != c && char_pos(s.drop_last(), c) < 0 {
        -1
    } else if char_pos(s.drop_last(), c) >= 0 {
        char_pos(s.drop_last(), c)
    } else {
        s.len() - 1
    }
}

pub proof fn lemma_char_pos(s: Seq<char>, c: char)
    ensures
        -1 <= char_pos(s, c) < s.len(),
        char_pos(s, c) >= 0 ==> s[char_pos(s, c)] == c,
        forall|j: int| 0 <= j < s.len() && (char_pos(s, c) < 0 || j < char_pos(s, c)) ==> s[j] != c,
    decreases s.len(),
{
    if s.len() > 0 {
        lemma_char_pos(s.drop_last(), c);
        assert forall|j: int| 0 <= j < s.len() - 1 implies s[j] == s.drop_last()[j] by {}
    }
}

/// Position of the first `c` among the characters `v`.
pub fn find_char(v: &Vec<char>, c: char) -> (r: Option<usize>)
    ensures
        match r {
            Some(i) => i as int == char_pos(v@, c),
            None => char_pos(v@, c) == -1,
        },
{
    proof {
        lemma_char_pos(v@, c);
    }
    let mut i: usize = 0;
    while i < v.len()
        invariant
            i <= v@.len(),
            forall|j: int| 0 <= j < i ==> v@[j] != c,
            -1 <= char_pos(v@, c) < v@.len(),
            char_pos(v@, c) >= 0 ==> v@[char_pos(v@, c)] == c,
            forall|j: int| 0 <= j < v@.len() && (char_pos(v@, c) < 0 || j < char_pos(v@, c)) ==> v@[j] != c,
        decreases v@.len() - i,
    {
        if v[i] == c {
            return Some(i);
        }
        i = i + 1;
    }
    None
}

/// Length of the run of non-whitespace characters that starts `s`.
pub open spec fn word_len(s: Seq<char>) -> nat
    decreases s.len(),
{
    if s.len() > 0 && !is_ws(s[0]) {
        1 + word_len(s.drop_first())
    } else {
        0
    }
}

pub proof fn lemma_word_len(s: Seq<char>)
    ensures
        word_len(s) <= s.len(),
        s.len() > 0 && !is_ws(s[0]) ==> word_len(s) >= 1,
    decreases s.len(),
{
    if s.len() > 0 && !is_ws(s[0]) {
        lemma_word_len(s.drop_first());
    }
}

proof fn lemma_word_len_is(s: Seq<char>, a: int, j: int)
    requires
        0 <= a <= j <= s.len(),
        forall|k: int| a <= k < j ==> !is_ws(#[trigger] s[k]),
        j < s.len() ==> is_ws(s[j]),
    ensures
        word_len(s.skip(a)) == j - a,
    decreases j - a,
{
    if a < j {
        assert(s.skip(a)[0] == s[a]);
        assert(s.skip(a).drop_first() =~= s.skip(a + 1));
        lemma_word_len_is(s, a + 1, j);
    } else if j < s.len() {
        assert(s.skip(a)[0] == s[j]);
    }
}

/// The whitespace-separated words of `s`, in order (`str::split_whitespace`).
pub open spec fn ws_words(s: Seq<char>) -> Seq<Seq<char>>
    decreases s.len(),
{
    if s.len() == 0 {
        Seq::empty()
    } else if is_ws(s[0]) {
        ws_words(s.drop_first())
    } else {
        let k = word_len(s);
        proof {
            lemma_word_len(s);
        }
        seq![s.subrange(0, k as int)] + ws_words(s.skip(k as int))
    }
}

/// `s.split_whitespace()`, collected.
pub fn split_whitespace(s: &str) -> (r: Vec<String>)
    ensures
        views(r@) == ws_words(s@),
{
    let v = chars_of(s);
    let n = v.len();
    let mut out: Vec<String> = Vec::new();
    let mut i: usize = 0;
    assert(s@.skip(0) =~= s@);
    while i < n
        invariant
            v@ == s@,
            n == v@.len(),
            i <= n,
            ws_words(s@) == views(out@) + ws_words(s@.skip(i as int)),
        decreases n - i,
    {
        let ghost rest = s@.skip(i as int);
        assert(rest[0] == v@[i as int]);
        if char_is_ws(v[i]) {
            assert(rest.drop_first() =~= s@.skip(i + 1));
            i = i + 1;
        } else {
            let mut j = i;
            while j < n && !char_is_ws(v[j])
                invariant
                    v@ == s@,
                    n == v@.len(),
                    i <= j <= n,
                    forall|k: int| i <= k < j ==> !is_ws(#[trigger] v@[k]),
                decreases n - j,
            {
                j = j + 1;
            }
            proof {
                lemma_word_len_is(s@, i as int, j as int);
                assert(rest.subrange(0, (j - i) as int) =~= s@.subrange(i as int, j as int));
                assert(rest.skip((j - i) as int) =~= s@.skip(j as int));
            }
            let w = string_of_range(&v, i, j);
            let ghost before = views(out@);
            out.push(w);
            assert(views(out@) =~= before.push(w@));
            assert(before.push(w@) + ws_words(s@.skip(j as int)) =~= before + (seq![w@] + ws_words(
                s@.skip(j as int),
            )));
            i = j;
        }
    }
    assert(s@.skip(n as int) =~= Seq::<char>::empty());
    assert(views(out@) + Seq::<Seq<char>>::empty() =~= views(out@));
    out
}

/// `str::to_lowercase`: the Unicode lowercase mapping of a string.
pub uninterp spec fn lowercase_of(s: Seq<char>) -> Seq<char>;

/// Whether every character is ASCII.
pub open spec fn all_ascii(s: Seq<char>) -> bool {
    forall|i: int| 0 <= i < s.len() ==> (#[trigger] s[i] as int) < 128
}

/// An ASCII letter in lower case; any other character as it is.
pub open spec fn ascii_lower(c: char) -> char {
    if 'A' <= c && c <= 'Z' {
        ((c as int) + 32) as char
    } else {
        c
    }
}

/// An ASCII letter in upper case; any other character as it is.
pub open spec fn ascii_upper(c: char) -> char {
    if 'a' <= c && c <= 'z' {
        ((c as int) - 32) as char
    } else {
        c
    }
}

/// `str::to_lowercase`. Besides naming the result, the contract states what Unicode's
/// lowercase mapping gives on ASCII text: each letter in lower case, every other
/// character unchanged.
#[verifier::external_body]
pub fn to_lowercase(s: &str) -> (r: String)
    ensures
        r@ == lowercase_of(s@),
        all_ascii(s@) ==> r@ == s@.map_values(|c: char| ascii_lower(c)),
{
    s.to_lowercase()
}

/// The UTF-8 encoding of a concatenation is the concatenation of the encodings.
pub proof fn lemma_encode_utf8_concat(a: Seq<char>, b: Seq<char>)
    ensures
        vstd::utf8::encode_utf8(a + b) == vstd::utf8::encode_utf8(a) + vstd::utf8::encode_utf8(b),
    decreases a.len(),
{
    if a.len() == 0 {
        assert(a + b =~= b);
        assert(vstd::utf8::encode_utf8(a) =~= Seq::<u8>::empty());
        assert(vstd::utf8::encode_utf8(a) + vstd::utf8::encode_utf8(b) =~= vstd::utf8::encode_utf8(b));
    } else {
        assert((a + b).drop_first() =~= a.drop_first() + b);
        assert((a + b)[0] == a[0]);
        lemma_encode_utf8_concat(a.drop_first(), b);
        assert(vstd::utf8::encode_utf8(a + b) =~= vstd::utf8::encode_utf8(a) + vstd::utf8::encode_utf8(b));
    }
}

/// Trimming keeps a middle part of the string, so its encoding is no longer.
pub proof fn lemma_trim_bytes(s: Seq<char>)
    ensures
        vstd::utf8::encode_utf8(trim_spec(s)).len() <= vstd::utf8::encode_utf8(s).len(),
{
    lemma_lead_ws_bound(s);
    let u = trim_start_spec(s);
    lemma_trail_ws_bound(u);
    let t = trim_spec(s);
    let x = s.subrange(0, lead_ws(s) as int);
    let y = u.subrange(u.len() - trail_ws(u), u.len() as int);
    assert(u =~= t + y);
    assert(s =~= x + u);
    lemma_encode_utf8_concat(t, y);
    lemma_encode_utf8_concat(x, u);
}

/// The pieces of `s` between the occurrences of `c` (`str::split` with a character).
pub open spec fn split_on(s: Seq<char>, c: char) -> Seq<Seq<char>>
    decreases s.len(),
{
    if char_pos(s, c) < 0 {
        seq![s]
    } else {
        proof {
            lemma_char_pos(s, c);
        }
        seq![s.take(char_pos(s, c))] + split_on(s.skip(char_pos(s, c) + 1), c)
    }
}

/// `s.split(c)`, collected.
pub fn split_char(s: &str, c: char) -> (r: Vec<String>)
    ensures
        views(r@) == split_on(s@, c),
{
    let v = chars_of(s);
    let n = v.len();
    let mut out: Vec<String> = Vec::new();
    let mut start: usize = 0;
    let mut i: usize = 0;
    assert(s@.skip(0) =~= s@);
    while i < n
        invariant
            v@ == s@,
            n == v@.len(),
            start <= i <= n,
            forall|j: int| start <= j < i ==> v@[j] != c,
            split_on(s@, c) == views(out@) + split_on(s@.skip(start as int), c),
        decreases n - i,
    {
        if v[i] == c {
            let ghost rest = s@.skip(start as int);
            proof {
                lemma_char_pos(rest, c);
                assert(rest[i - start] == c);
                assert forall|j: int| 0 <= j < i - start implies rest[j] != c by {
                    assert(rest[j] == v@[start + j]);
                }
                assert(char_pos(rest, c) == i - start);
                assert(rest.take(i - start) =~= s@.subrange(start as int, i as int));
                assert(rest.skip(i - start + 1) =~= s@.skip(i + 1));
            }
            let piece = string_of_range(&v, start, i);
            let ghost before = views(out@);
            out.push(piece);
            assert(views(out@) =~= before.push(piece@));
            assert(before.push(piece@) + split_on(s@.skip(i + 1), c) =~= before + (seq![piece@]
                + split_on(s@.skip(i + 1), c)));
            start = i + 1;
        }
        i = i + 1;
    }
    let ghost rest = s@.skip(start as int);
    proof {
        lemma_char_pos(rest, c);
        if char_pos(rest, c) >= 0 {
            assert(rest[char_pos(rest, c)] == v@[start + char_pos(rest, c)]);
        }
        assert(rest =~= s@.subrange(start as int, n as int));
    }
    let last = string_of_range(&v, start, n);
    let ghost before = views(out@);
    out.push(last);
    assert(views(out@) =~= before + seq![last@]);
    out
}

/// `s` with every trailing copy of `suffix` removed (`trim_end_matches`).
pub open spec fn strip_suffixes(s: Seq<char>, suffix: Seq<char>) -> Seq<char>
    decreases s.len(),
{
    if suffix.len() > 0 && suffix.len() <= s.len() && suffix.is_suffix_of(s) {
        strip_suffixes(s.take(s.len() - suffix.len()), suffix)
    } else {
        s
    }
}

/// `s.trim_end_matches(suffix)`.
pub fn trim_end_matches(s: &str, suffix: &str) -> (r: String)
    ensures
        r@ == strip_suffixes(s@, suffix@),
{
    let mut cur = String::from_str(s);
    let m = suffix.unicode_len();
    if m == 0 {
        return cur;
    }
    loop
        invariant
            m == suffix@.len(),
            m > 0,
            strip_suffixes(s@, suffix@) == strip_suffixes(cur@, suffix@),
        decreases cur@.len(),
    {
        if ends_with(cur.as_str(), suffix) {
            let n = cur.unicode_len();
            let shorter = cur.as_str().substring_char(0, n - m);
            assert(suffix@.len() <= cur@.len()) by {
                assert(suffix@.is_suffix_of(cur@));
            }
            assert(shorter@ =~= cur@.take(cur@.len() - suffix@.len()));
            cur = String::from_str(shorter);
        } else {
            return cur;
        }
    }
}

/// Position of the first occurrence of `p` in `s` from `k` on, or -1.
pub open spec fn find_from(s: Seq<char>, p: Seq<char>, k: nat) -> int
    decreases s.len() + 1 - k,
{
    if k + p.len() > s.len() {
        -1
    } else if occurs_at(s, p, k as int) {
        k as int
    } else {
        find_from(s, p, k + 1)
    }
}

/// The piece after the first occurrence of `p`, up to the next one (`split(p).nth(1)`);
/// empty when `p` does not occur.
pub open spec fn second_piece(s: Seq<char>, p: Seq<char>) -> Seq<char> {
    let i = find_from(s, p, 0);
    if i < 0 {
        Seq::empty()
    } else {
        let rest = s.skip(i + p.len());
        let j = find_from(rest, p, 0);
        if j < 0 {
            rest
        } else {
            rest.take(j)
        }
    }
}

pub proof fn lemma_find_from(s: Seq<char>, p: Seq<char>, k: nat)
    ensures
        find_from(s, p, k) == -1 || (k <= find_from(s, p, k) && find_from(s, p, k) + p.len()
            <= s.len()),
    decreases s.len() + 1 - k,
{
    if k + p.len() <= s.len() && !occurs_at(s, p, k as int) {
        lemma_find_from(s, p, k + 1);
    }
}

fn find_exec(v: &Vec<char>, p: &Vec<char>) -> (r: Option<usize>)
    ensures
        match r {
            Some(i) => i as int == find_from(v@, p@, 0),
            None => find_from(v@, p@, 0) == -1,
        },
{
    let mut k: usize = 0;
    while k <= v.len()
        invariant
            find_from(v@, p@, 0) == find_from(v@, p@, k as nat),
        decreases v@.len() + 1 - k,
    {
        if p.len() > v.len() - k {
            return None;
        }
        if occurs_at_exec(v, p, k) {
            return Some(k);
        }
        if k == v.len() {
            assert(find_from(v@, p@, (k + 1) as nat) == -1);
            return None;
        }
        k = k + 1;
    }
    None
}

/// `s.split(p).nth(1).unwrap_or("")`.
pub fn second_piece_of(s: &str, p: &str) -> (r: String)
    ensures
        r@ == second_piece(s@, p@),
{
    let v = chars_of(s);
    let pv = chars_of(p);
    proof {
        lemma_find_from(s@, p@, 0);
    }
    match find_exec(&v, &pv) {
        None => String::new(),
        Some(i) => {
            let n = v.len();
            let rest = string_of_range(&v, i + pv.len(), n);
            assert(rest@ =~= s@.skip(i + p@.len()));
            let rv = chars_of(rest.as_str());
            proof {
                lemma_find_from(rest@, p@, 0);
            }
            match find_exec(&rv, &pv) {
                None => rest,
                Some(j) => {
                    let r = string_of_range(&rv, 0, j);
                    assert(r@ =~= rest@.take(j as int));
                    r
                },
            }
        },
    }
}

/// Lexicographic order of strings, by characters (the order of `str`'s `Ord`).
pub open spec fn str_less(a: Seq<char>, b: Seq<char>) -> bool
    decreases a.len(),
{
    if a.len() == 0 {
        b.len() > 0
    } else if b.len() == 0 {
        false
    } else if a[0] != b[0] {
        (a[0] as int) < (b[0] as int)
    } else {
        str_less(a.drop_first(), b.drop_first())
    }
}

/// `a < b` for strings.
pub fn str_lt(a: &str, b: &str) -> (r: bool)
    ensures
        r == str_less(a@, b@),
{
    let va = chars_of(a);
    let vb = chars_of(b);
    let mut i: usize = 0;
    assert(a@.skip(0) =~= a@ && b@.skip(0) =~= b@);
    while i < va.len() && i < vb.len() && va[i] == vb[i]
        invariant
            va@ == a@,
            vb@ == b@,
            i <= va@.len(),
            i <= vb@.len(),
            str_less(a@, b@) == str_less(a@.skip(i as int), b@.skip(i as int)),
        decreases va@.len() - i,
    {
        assert(a@.skip(i as int)[0] == va@[i as int]);
        assert(b@.skip(i as int)[0] == vb@[i as int]);
        assert(a@.skip(i as int).drop_first() =~= a@.skip(i + 1));
        assert(b@.skip(i as int).drop_first() =~= b@.skip(i + 1));
        i = i + 1;
    }
    if i == va.len() {
        i < vb.len()
    } else if i == vb.len() {
        false
    } else {
        assert(a@.skip(i as int)[0] == va@[i as int]);
        assert(b@.skip(i as int)[0] == vb@[i as int]);
        va[i] < vb[i]
    }
}

/// Copies of the strings `v[from..to]`.
pub fn strings_range(v: &Vec<String>, from: usize, to: usize) -> (r: Vec<String>)
    requires
        from <= to <= v@.len(),
    ensures
        r@ == v@.subrange(from as int, to as int),
{
    let mut r: Vec<String> = Vec::new();
    let mut i: usize = from;
    while i < to
        invariant
            from <= i <= to <= v@.len(),
            r@ == v@.subrange(from as int, i as int),
        decreases to - i,
    {
        r.push(v[i].clone());
        i = i + 1;
        assert(r@ =~= v@.subrange(from as int, i as int));
    }
    r
}

/// `split_on` gives at least one piece.
pub proof fn lemma_split_on_len(s: Seq<char>, c: char)
    ensures
        split_on(s, c).len() >= 1,
{
}

pub proof fn lemma_str_less_irreflexive(a: Seq<char>)
    ensures
        !str_less(a, a),
    decreases a.len(),
{
    if a.len() > 0 {
        lemma_str_less_irreflexive(a.drop_first());
    }
}

pub proof fn lemma_str_less_transitive(a: Seq<char>, b: Seq<char>, c: Seq<char>)
    requires
        str_less(a, b),
        str_less(b, c),
    ensures
        str_less(a, c),
    decreases a.len(),
{
    if a.len() > 0 && b.len() > 0 && c.len() > 0 && a[0] == b[0] && b[0] == c[0] {
        lemma_str_less_transitive(a.drop_first(), b.drop_first(), c.drop_first());
    }
}

pub proof fn lemma_str_less_total(a: Seq<char>, b: Seq<char>)
    requires
        a != b,
    ensures
        str_less(a, b) || str_less(b, a),
    decreases a.len(),
{
    if a.len() > 0 && b.len() > 0 && a[0] == b[0] {
        if a.drop_first() == b.drop_first() {
            assert(a =~= seq![a[0]] + a.drop_first());
            assert(b =~= seq![b[0]] + b.drop_first());
        }
        lemma_str_less_total(a.drop_first(), b.drop_first());
    } else if a.len() > 0 && b.len() > 0 {
        assert((a[0] as int) != (b[0] as int));
    } else if a.len() == 0 && b.len() == 0 {
        assert(a =~= b);
    }
}

/// Every string of `s` comes before the next one: strictly ascending, so no two are
/// equal.
pub open spec fn sorted_strict(s: Seq<Seq<char>>) -> bool {
    forall|i: int, j: int| 0 <= i < j < s.len() ==> str_less(#[trigger] s[i], #[trigger] s[j])
}

/// Two strictly ascending lists with the same strings are the same list.
pub proof fn lemma_sorted_unique(a: Seq<Seq<char>>, b: Seq<Seq<char>>)
    requires
        sorted_strict(a),
        sorted_strict(b),
        forall|x: Seq<char>| a.contains(x) <==> b.contains(x),
    ensures
        a == b,
    decreases a.len(),
{
    if a.len() == 0 {
        if b.len() > 0 {
            assert(b.contains(b[0]));
        }
        assert(a =~= b);
    } else if b.len() == 0 {
        assert(a.contains(a[0]));
    } else {
        assert(a.contains(a[0]));
        assert(b.contains(b[0]));
        let i = choose|i: int| 0 <= i < b.len() && b[i] == a[0];
        let j = choose|j: int| 0 <= j < a.len() && a[j] == b[0];
        if i > 0 {
            assert(str_less(b[0], b[i]));
            if j > 0 {
                assert(str_less(a[0], a[j]));
                lemma_str_less_transitive(a[0], b[0], a[0]);
                lemma_str_less_irreflexive(a[0]);
            } else {
                lemma_str_less_irreflexive(a[0]);
            }
        }
        assert(a[0] == b[0]);
        let a1 = a.drop_first();
        let b1 = b.drop_first();
        assert forall|x: Seq<char>| a1.contains(x) <==> b1.contains(x) by {
            if a1.contains(x) {
                let k = choose|k: int| 0 <= k < a1.len() && a1[k] == x;
                assert(a[k + 1] == x);
                assert(str_less(a[0], a[k + 1]));
                assert(b.contains(x));
                let m = choose|m: int| 0 <= m < b.len() && b[m] == x;
                if m == 0 {
                    lemma_str_less_irreflexive(x);
                }
                assert(b1[m - 1] == x);
            }
            if b1.contains(x) {
                let k = choose|k: int| 0 <= k < b1.len() && b1[k] == x;
                assert(b[k + 1] == x);
                assert(str_less(b[0], b[k + 1]));
                assert(a.contains(x));
                let m = choose|m: int| 0 <= m < a.len() && a[m] == x;
                if m == 0 {
                    lemma_str_less_irreflexive(x);
                }
                assert(a1[m - 1] == x);
            }
        }
        assert forall|p: int, q: int| 0 <= p < q < a1.len() implies str_less(
            #[trigger] a1[p],
            #[trigger] a1[q],
        ) by {
            assert(a1[p] == a[p + 1] && a1[q] == a[q + 1]);
        }
        assert forall|p: int, q: int| 0 <= p < q < b1.len() implies str_less(
            #[trigger] b1[p],
            #[trigger] b1[q],
        ) by {
            assert(b1[p] == b[p + 1] && b1[q] == b[q + 1]);
        }
        lemma_sorted_unique(a1, b1);
        assert(a =~= seq![a[0]] + a1);
        assert(b =~= seq![b[0]] + b1);
    }
}

/// Add `x` to a strictly ascending list of strings, where it is not yet.
pub fn insert_sorted_unique(v: &mut Vec<String>, x: String)
    requires
        sorted_strict(views(old(v)@)),
    ensures
        sorted_strict(views(final(v)@)),
        forall|y: Seq<char>|
            views(final(v)@).contains(y) <==> (views(old(v)@).contains(y) || y == x@),
{
    let ghost s = views(v@);
    let n = v.len();
    let mut p: usize = 0;
    while p < n && str_lt(v[p].as_str(), x.as_str())
        invariant
            s == views(v@),
            n == s.len(),
            p <= n,
            forall|k: int| 0 <= k < p ==> str_less(#[trigger] s[k], x@),
        decreases n - p,
    {
        p = p + 1;
    }
    if p < n && str_eq(v[p].as_str(), x.as_str()) {
        assert(s[p as int] == x@);
        return;
    }
    proof {
        if p < n {
            assert(!str_less(s[p as int], x@));
            assert(s[p as int] != x@);
            lemma_str_less_total(s[p as int], x@);
            assert forall|k: int| p < k < n implies str_less(x@, #[trigger] s[k]) by {
                lemma_str_less_transitive(x@, s[p as int], s[k]);
            }
        }
    }
    v.insert(p, x);
    let ghost t = views(v@);
    assert(t =~= s.subrange(0, p as int) + seq![x@] + s.skip(p as int));
    assert forall|i: int, j: int| 0 <= i < j < t.len() implies str_less(
        #[trigger] t[i],
        #[trigger] t[j],
    ) by {
        if j < p {
            assert(t[i] == s[i] && t[j] == s[j]);
        } else if j == p {
            assert(t[i] == s[i]);
        } else if i < p {
            assert(t[i] == s[i] && t[j] == s[j - 1]);
            assert(str_less(s[i], x@));
            assert(str_less(x@, s[j - 1]));
            lemma_str_less_transitive(s[i], x@, s[j - 1]);
        } else if i == p {
            assert(t[j] == s[j - 1]);
        } else {
            assert(t[i] == s[i - 1] && t[j] == s[j - 1]);
        }
    }
    assert forall|y: Seq<char>| t.contains(y) <==> (s.contains(y) || y == x@) by {
        if t.contains(y) {
            let k = choose|k: int| 0 <= k < t.len() && t[k] == y;
            if k < p {
                assert(s[k] == y);
            } else if k > p {
                assert(s[k - 1] == y);
            }
        }
        if s.contains(y) {
            let k = choose|k: int| 0 <= k < s.len() && s[k] == y;
            if k < p {
                assert(t[k] == y);
            } else {
                assert(t[k + 1] == y);
            }
        }
        if y == x@ {
            assert(t[p as int] == y);
        }
    }
}

/// `a + b` holds what `a` or `b` holds.
pub proof fn lemma_contains_concat<A>(a: Seq<A>, b: Seq<A>, y: A)
    ensures
        (a + b).contains(y) <==> (a.contains(y) || b.contains(y)),
{
    if a.contains(y) {
        let i = choose|i: int| 0 <= i < a.len() && a[i] == y;
        assert((a + b)[i] == y);
    }
    if b.contains(y) {
        let j = choose|j: int| 0 <= j < b.len() && b[j] == y;
        assert((a + b)[a.len() + j] == y);
    }
    if (a + b).contains(y) {
        let k = choose|k: int| 0 <= k < (a + b).len() && (a + b)[k] == y;
        if k < a.len() {
            assert(a[k] == y);
        } else {
            assert(b[k - a.len()] == y);
        }
    }
}

/// `s.split_once(c)`: the text before the first `c` and the text after it.
pub fn split_once_char(s: &str, c: char) -> (r: Option<(String, String)>)
    ensures
        match r {
            Some(p) => char_pos(s@, c) >= 0 && p.0@ == s@.take(char_pos(s@, c)) && p.1@ == s@.skip(
                char_pos(s@, c) + 1,
            ),
            None => char_pos(s@, c) == -1,
        },
{
    let v = chars_of(s);
    let n = v.len();
    proof {
        lemma_char_pos(v@, c);
    }
    match find_char(&v, c) {
        None => None,
        Some(i) => {
            let a = string_of_range(&v, 0, i);
            let b = string_of_range(&v, i + 1, n);
            assert(a@ =~= s@.take(i as int));
            assert(b@ =~= s@.skip(i + 1));
            Some((a, b))
        },
    }
}

/// `s` without its leading copies of `c` (`trim_start_matches` with a character).
pub open spec fn drop_leading(s: Seq<char>, c: char) -> Seq<char>
    decreases s.len(),
{
    if s.len() > 0 && s[0] == c {
        drop_leading(s.drop_first(), c)
    } else {
        s
    }
}

/// `s.trim_start_matches(c)`.
pub fn trim_start_char(s: &str, c: char) -> (r: String)
    ensures
        r@ == drop_leading(s@, c),
{
    let v = chars_of(s);
    let mut i: usize = 0;
    assert(s@.skip(0) =~= s@);
    while i < v.len() && v[i] == c
        invariant
            v@ == s@,
            i <= v@.len(),
            drop_leading(s@, c) == drop_leading(s@.skip(i as int), c),
        decreases v@.len() - i,
    {
        assert(s@.skip(i as int).drop_first() =~= s@.skip(i + 1));
        i = i + 1;
    }
    let r = string_of_range(&v, i, v.len());
    assert(r@ =~= s@.skip(i as int));
    r
}

/// `s` with every leading copy of `prefix` removed (`trim_start_matches`).
pub open spec fn strip_prefixes(s: Seq<char>, prefix: Seq<char>) -> Seq<char>
    decreases s.len(),
{
    if prefix.len() > 0 && prefix.len() <= s.len() && prefix.is_prefix_of(s) {
        strip_prefixes(s.skip(prefix.len() as int), prefix)
    } else {
        s
    }
}

/// `s.trim_start_matches(prefix)`.
pub fn trim_start_matches(s: &str, prefix: &str) -> (r: String)
    ensures
        r@ == strip_prefixes(s@, prefix@),
{
    let mut cur = String::from_str(s);
    let m = prefix.unicode_len();
    if m == 0 {
        return cur;
    }
    loop
        invariant
            m == prefix@.len(),
            m > 0,
            strip_prefixes(s@, prefix@) == strip_prefixes(cur@, prefix@),
        decreases cur@.len(),
    {
        if starts_with(cur.as_str(), prefix) {
            let n = cur.unicode_len();
            let shorter = cur.as_str().substring_char(m, n);
            assert(shorter@ =~= cur@.skip(prefix@.len() as int));
            cur = String::from_str(shorter);
        } else {
            return cur;
        }
    }
}

/// The first `n` characters of `s` (`s.chars().take(n)`).
pub fn take_chars(s: &str, n: usize) -> (r: String)
    ensures
        r@ == if n < s@.len() {
            s@.take(n as int)
        } else {
            s@
        },
{
    let v = chars_of(s);
    let k = if n < v.len() {
        n
    } else {
        v.len()
    };
    let r = string_of_range(&v, 0, k);
    assert(r@ =~= if n < s@.len() {
        s@.take(n as int)
    } else {
        s@
    });
    r
}

} // verus!
