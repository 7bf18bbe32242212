//! `rules:` evaluation: the `if:` expression language and the first-match rule list.
use vstd::prelude::*;

use crate::collections::{entries_insert_all, job_entries, jobs_get_index, jobs_len, var_entries, vars_clone};
use crate::model::pipeline::Pipeline;
use crate::model::job::{AllowFailure, AllowFailureView, JobView, When};
use crate::model::variables::{get_value, insert_all, lookup_value, opt_view, opt_views, VariableView, Variables};
use crate::text::{clone_strings, str_eq, string_in, views, char_is_ascii_ws, char_is_name, chars_of, is_ascii_ws, is_name_char, string_of_range};

verus! {

// ---------------------------------------------------------------------------
// Scanning helpers
// ---------------------------------------------------------------------------
/// Length of the run of characters satisfying `f` that starts at `p`.
pub open spec fn run_while(s: Seq<char>, p: int, f: spec_fn(char) -> bool) -> nat
    decreases s.len() - p,
{
    if 0 <= p < s.len() && f(s[p]) {
        1 + run_while(s, p + 1, f)
    } else {
        0
    }
}

pub proof fn lemma_run_while_bound(s: Seq<char>, p: int, f: spec_fn(char) -> bool)
    requires
        0 <= p <= s.len(),
    ensures
        p + run_while(s, p, f) <= s.len(),
    decreases s.len() - p,
{
    if p < s.len() && f(s[p]) {
        lemma_run_while_bound(s, p + 1, f);
    }
}

/// The run that starts at `p` ends at `q`.
pub proof fn lemma_run_while_is(s: Seq<char>, p: int, q: int, f: spec_fn(char) -> bool)
    requires
        0 <= p <= q <= s.len(),
        forall|k: int| p <= k < q ==> f(#[trigger] s[k]),
        q < s.len() ==> !f(s[q]),
    ensures
        run_while(s, p, f) == q - p,
    decreases q - p,
{
    if p < q {
        lemma_run_while_is(s, p + 1, q, f);
    }
}

pub open spec fn ws_pred() -> spec_fn(char) -> bool {
    |c: char| is_ascii_ws(c)
}

pub open spec fn name_pred() -> spec_fn(char) -> bool {
    |c: char| is_name_char(c)
}

pub open spec fn not_char(q: char) -> spec_fn(char) -> bool {
    |c: char| c != q
}

/// A character that ends a bare word: ASCII whitespace or one of `) & | = !`.
pub open spec fn is_word_end(c: char) -> bool {
    is_ascii_ws(c) || c == ')' || c == '&' || c == '|' || c == '=' || c == '!'
}

pub open spec fn word_pred() -> spec_fn(char) -> bool {
    |c: char| !is_word_end(c)
}

/// The first position at or after `p` that is not ASCII whitespace.
pub open spec fn skip_ws(s: Seq<char>, p: int) -> int {
    p + run_while(s, p, ws_pred())
}

pub open spec fn at(s: Seq<char>, p: int, c: char) -> bool {
    0 <= p < s.len() && s[p] == c
}

pub open spec fn at2(s: Seq<char>, p: int, a: char, b: char) -> bool {
    at(s, p, a) && at(s, p + 1, b)
}

/// Whether `t` occurs in `s` at position `p`.
pub open spec fn starts_at(s: Seq<char>, p: int, t: Seq<char>) -> bool {
    0 <= p && p + t.len() <= s.len() && s.subrange(p, p + t.len()) == t
}

/// End of a `/.../` pattern body that starts at `q`: the first `/` not escaped by `\`.
pub open spec fn regex_end(s: Seq<char>, q: int) -> int
    decreases s.len() - q,
{
    if q < 0 || q >= s.len() {
        q
    } else if s[q] == '\\' && q + 1 < s.len() {
        regex_end(s, q + 2)
    } else if s[q] == '/' {
        q
    } else {
        regex_end(s, q + 1)
    }
}

pub proof fn lemma_regex_end_bound(s: Seq<char>, q: int)
    requires
        0 <= q <= s.len(),
    ensures
        q <= regex_end(s, q) <= s.len(),
        regex_end(s, q) < s.len() ==> s[regex_end(s, q)] == '/',
    decreases s.len() - q,
{
    if q < s.len() {
        if s[q] == '\\' && q + 1 < s.len() {
            lemma_regex_end_bound(s, q + 2);
        } else if s[q] != '/' {
            lemma_regex_end_bound(s, q + 1);
        }
    }
}

// ---------------------------------------------------------------------------
// The meaning of an `if:` expression
// ---------------------------------------------------------------------------
/// A variable reference whose `$` was just before `p`: `{NAME}` (to the next `}`)
/// or a run of `[A-Za-z0-9_]`. Its value, `None` when undefined, and the position after it.
pub open spec fn var_ref_spec(s: Seq<char>, vars: Seq<(Seq<char>, VariableView)>, p: int) -> (
    Option<Seq<char>>,
    int,
) {
    if at(s, p, '{') {
        let e = p + 1 + run_while(s, p + 1, not_char('}'));
        (lookup_value(vars, s.subrange(p + 1, e)), if at(s, e, '}') {
            e + 1
        } else {
            e
        })
    } else {
        let e = p + run_while(s, p, name_pred());
        (lookup_value(vars, s.subrange(p, e)), e)
    }
}

/// An operand: `$VAR`, `${VAR}`, `"text"`, `'text'`, `null` (no value), or a bare word
/// running to whitespace or one of `) & | = !`. At the end of the input there is no value.
pub open spec fn value_spec(s: Seq<char>, vars: Seq<(Seq<char>, VariableView)>, p: int) -> (
    Option<Seq<char>>,
    int,
) {
    let p0 = skip_ws(s, p);
    if p0 >= s.len() {
        (None, p0)
    } else if s[p0] == '$' {
        var_ref_spec(s, vars, p0 + 1)
    } else if s[p0] == '"' || s[p0] == '\'' {
        let q = s[p0];
        let e = p0 + 1 + run_while(s, p0 + 1, not_char(q));
        (Some(s.subrange(p0 + 1, e)), if at(s, e, q) {
            e + 1
        } else {
            e
        })
    } else if starts_at(s, p0, seq!['n', 'u', 'l', 'l']) {
        (None, p0 + 4)
    } else {
        let e = p0 + run_while(s, p0, word_pred());
        (Some(s.subrange(p0, e)), e)
    }
}

/// A `/pattern/` operand, its body kept as written (escapes included).
pub open spec fn regex_spec(s: Seq<char>, p: int) -> (Option<Seq<char>>, int) {
    let p0 = skip_ws(s, p);
    if !at(s, p0, '/') {
        (None, p0)
    } else {
        let e = regex_end(s, p0 + 1);
        (Some(s.subrange(p0 + 1, e)), if at(s, e, '/') {
            e + 1
        } else {
            e
        })
    }
}

/// The result of pattern matching as its outcome calls for: `=~` holds when the pattern
/// compiled and matched; `!~` holds unless it compiled and matched. `outcome` is `None`
/// when an operand is missing or the pattern does not compile.
pub open spec fn regex_condition_spec(negated: bool, outcome: Option<bool>) -> bool {
    match outcome {
        Some(m) => m != negated,
        None => negated,
    }
}

/// Whether a value matches a pattern: `None` when either is missing or the pattern does
/// not compile.
pub open spec fn regex_outcome(lhs: Option<Seq<char>>, pat: Option<Seq<char>>) -> Option<bool> {
    match (lhs, pat) {
        (Some(v), Some(p)) => regex_match(p, v),
        _ => None,
    }
}

/// `regex::Regex::new(pattern)` followed by `is_match(text)`: `None` when the pattern does
/// not compile.
pub uninterp spec fn regex_match(pattern: Seq<char>, text: Seq<char>) -> Option<bool>;

/// `regex::Regex::new(pattern)` and, when it compiles, `Regex::is_match(text)`.
/// The contract claims only that the outcome is the named `regex_match` of the pattern
/// and the text (a function of the two alone); `None` stands for a compile error.
#[verifier::external_body]
fn regex_is_match(pattern: &str, text: &str) -> (r: Option<bool>)
    ensures
        r == regex_match(pattern@, text@),
{
    match regex::Regex::new(pattern) {
        Ok(re) => Some(re.is_match(text)),
        Err(_) => None,
    }
}

/// primary = '(' or ')' | value ('==' | '!=') value | value ('=~' | '!~') regex | value
pub open spec fn primary_spec(s: Seq<char>, vars: Seq<(Seq<char>, VariableView)>, p: int) -> (
    bool,
    int,
)
    decreases s.len() - p, 0int,
{
    let p0 = skip_ws(s, p);
    if at(s, p0, '(') {
        let (r, p1) = or_spec(s, vars, p0 + 1);
        let p2 = skip_ws(s, p1);
        (r, if at(s, p2, ')') {
            p2 + 1
        } else {
            p2
        })
    } else {
        let (lhs, p1) = value_spec(s, vars, p0);
        let p2 = skip_ws(s, p1);
        if at2(s, p2, '=', '=') {
            let (rhs, p3) = value_spec(s, vars, p2 + 2);
            (lhs == rhs, p3)
        } else if at2(s, p2, '!', '=') {
            let (rhs, p3) = value_spec(s, vars, p2 + 2);
            (lhs != rhs, p3)
        } else if at2(s, p2, '=', '~') {
            let (pat, p3) = regex_spec(s, p2 + 2);
            (regex_condition_spec(false, regex_outcome(lhs, pat)), p3)
        } else if at2(s, p2, '!', '~') {
            let (pat, p3) = regex_spec(s, p2 + 2);
            (regex_condition_spec(true, regex_outcome(lhs, pat)), p3)
        } else {
            (
                match lhs {
                    Some(v) => v.len() > 0,
                    None => false,
                },
                p2,
            )
        }
    }
}

/// not = '!' primary | primary   (a `!` that starts `!=` or `!~` is no negation)
pub open spec fn not_spec(s: Seq<char>, vars: Seq<(Seq<char>, VariableView)>, p: int) -> (
    bool,
    int,
)
    decreases s.len() - p, 1int,
{
    let p0 = skip_ws(s, p);
    proof {
        if 0 <= p <= s.len() {
            lemma_run_while_bound(s, p, ws_pred());
        }
    }
    if at(s, p0, '!') && !at2(s, p0, '!', '=') && !at2(s, p0, '!', '~') {
        let (r, p1) = primary_spec(s, vars, p0 + 1);
        (!r, p1)
    } else if 0 <= p <= s.len() {
        primary_spec(s, vars, p0)
    } else {
        (false, p)
    }
}

/// and = not ('&&' not)*
pub open spec fn and_spec(s: Seq<char>, vars: Seq<(Seq<char>, VariableView)>, p: int) -> (
    bool,
    int,
)
    decreases s.len() - p, 3int,
{
    let (r, p1) = not_spec(s, vars, p);
    if p <= p1 <= s.len() {
        and_tail(s, vars, p1, r)
    } else {
        (r, p1)
    }
}

pub open spec fn and_tail(
    s: Seq<char>,
    vars: Seq<(Seq<char>, VariableView)>,
    q: int,
    acc: bool,
) -> (bool, int)
    decreases s.len() - q, 2int,
{
    let q0 = skip_ws(s, q);
    if at2(s, q0, '&', '&') {
        let (r, q1) = not_spec(s, vars, q0 + 2);
        if q0 + 2 <= q1 <= s.len() {
            and_tail(s, vars, q1, acc && r)
        } else {
            (acc && r, q1)
        }
    } else {
        (acc, q0)
    }
}

/// or = and ('||' and)*
pub open spec fn or_spec(s: Seq<char>, vars: Seq<(Seq<char>, VariableView)>, p: int) -> (
    bool,
    int,
)
    decreases s.len() - p, 5int,
{
    let (r, p1) = and_spec(s, vars, p);
    if p <= p1 <= s.len() {
        or_tail(s, vars, p1, r)
    } else {
        (r, p1)
    }
}

pub open spec fn or_tail(
    s: Seq<char>,
    vars: Seq<(Seq<char>, VariableView)>,
    q: int,
    acc: bool,
) -> (bool, int)
    decreases s.len() - q, 4int,
{
    let q0 = skip_ws(s, q);
    if at2(s, q0, '|', '|') {
        let (r, q1) = and_spec(s, vars, q0 + 2);
        if q0 + 2 <= q1 <= s.len() {
            or_tail(s, vars, q1, acc || r)
        } else {
            (acc || r, q1)
        }
    } else {
        (acc, q0)
    }
}

/// The truth of a `rules:if` expression under the given variables. Whatever follows
/// a complete expression is ignored.
pub open spec fn if_expr_holds(s: Seq<char>, vars: Seq<(Seq<char>, VariableView)>) -> bool {
    or_spec(s, vars, 0).0
}

// ---------------------------------------------------------------------------
// Positions only move forward
// ---------------------------------------------------------------------------
pub proof fn lemma_value_bounds(s: Seq<char>, vars: Seq<(Seq<char>, VariableView)>, p: int)
    requires
        0 <= p <= s.len(),
    ensures
        skip_ws(s, p) <= value_spec(s, vars, p).1 <= s.len(),
{
    lemma_run_while_bound(s, p, ws_pred());
    let p0 = skip_ws(s, p);
    if p0 < s.len() {
        if s[p0] == '$' {
            lemma_run_while_bound(s, p0 + 1, name_pred());
            if p0 + 2 <= s.len() {
                lemma_run_while_bound(s, p0 + 2, not_char('}'));
            }
        } else if s[p0] == '"' || s[p0] == '\'' {
            lemma_run_while_bound(s, p0 + 1, not_char(s[p0]));
        } else {
            lemma_run_while_bound(s, p0, word_pred());
        }
    }
}

pub proof fn lemma_regex_bounds(s: Seq<char>, p: int)
    requires
        0 <= p <= s.len(),
    ensures
        skip_ws(s, p) <= regex_spec(s, p).1 <= s.len(),
{
    lemma_run_while_bound(s, p, ws_pred());
    let p0 = skip_ws(s, p);
    if at(s, p0, '/') {
        lemma_regex_end_bound(s, p0 + 1);
    }
}

pub proof fn lemma_primary_bounds(s: Seq<char>, vars: Seq<(Seq<char>, VariableView)>, p: int)
    requires
        0 <= p <= s.len(),
    ensures
        p <= primary_spec(s, vars, p).1 <= s.len(),
    decreases s.len() - p, 0int,
{
    lemma_run_while_bound(s, p, ws_pred());
    let p0 = skip_ws(s, p);
    if at(s, p0, '(') {
        lemma_or_bounds(s, vars, p0 + 1);
        let p1 = or_spec(s, vars, p0 + 1).1;
        lemma_run_while_bound(s, p1, ws_pred());
    } else {
        lemma_value_bounds(s, vars, p0);
        let p1 = value_spec(s, vars, p0).1;
        lemma_run_while_bound(s, p1, ws_pred());
        let p2 = skip_ws(s, p1);
        if at2(s, p2, '=', '=') || at2(s, p2, '!', '=') {
            lemma_value_bounds(s, vars, p2 + 2);
        } else if at2(s, p2, '=', '~') || at2(s, p2, '!', '~') {
            lemma_regex_bounds(s, p2 + 2);
        }
    }
}

pub proof fn lemma_not_bounds(s: Seq<char>, vars: Seq<(Seq<char>, VariableView)>, p: int)
    requires
        0 <= p <= s.len(),
    ensures
        p <= not_spec(s, vars, p).1 <= s.len(),
    decreases s.len() - p, 1int,
{
    lemma_run_while_bound(s, p, ws_pred());
    let p0 = skip_ws(s, p);
    if at(s, p0, '!') && !at2(s, p0, '!', '=') && !at2(s, p0, '!', '~') {
        lemma_primary_bounds(s, vars, p0 + 1);
    } else {
        lemma_primary_bounds(s, vars, p0);
    }
}

pub proof fn lemma_and_tail_bounds(
    s: Seq<char>,
    vars: Seq<(Seq<char>, VariableView)>,
    q: int,
    acc: bool,
)
    requires
        0 <= q <= s.len(),
    ensures
        q <= and_tail(s, vars, q, acc).1 <= s.len(),
    decreases s.len() - q, 2int,
{
    lemma_run_while_bound(s, q, ws_pred());
    let q0 = skip_ws(s, q);
    if at2(s, q0, '&', '&') {
        lemma_not_bounds(s, vars, q0 + 2);
        let (r, q1) = not_spec(s, vars, q0 + 2);
        lemma_and_tail_bounds(s, vars, q1, acc && r);
    }
}

pub proof fn lemma_and_bounds(s: Seq<char>, vars: Seq<(Seq<char>, VariableView)>, p: int)
    requires
        0 <= p <= s.len(),
    ensures
        p <= and_spec(s, vars, p).1 <= s.len(),
    decreases s.len() - p, 3int,
{
    lemma_not_bounds(s, vars, p);
    let (r, p1) = not_spec(s, vars, p);
    lemma_and_tail_bounds(s, vars, p1, r);
}

pub proof fn lemma_or_tail_bounds(
    s: Seq<char>,
    vars: Seq<(Seq<char>, VariableView)>,
    q: int,
    acc: bool,
)
    requires
        0 <= q <= s.len(),
    ensures
        q <= or_tail(s, vars, q, acc).1 <= s.len(),
    decreases s.len() - q, 4int,
{
    lemma_run_while_bound(s, q, ws_pred());
    let q0 = skip_ws(s, q);
    if at2(s, q0, '|', '|') {
        lemma_and_bounds(s, vars, q0 + 2);
        let (r, q1) = and_spec(s, vars, q0 + 2);
        lemma_or_tail_bounds(s, vars, q1, acc || r);
    }
}

pub proof fn lemma_or_bounds(s: Seq<char>, vars: Seq<(Seq<char>, VariableView)>, p: int)
    requires
        0 <= p <= s.len(),
    ensures
        p <= or_spec(s, vars, p).1 <= s.len(),
    decreases s.len() - p, 5int,
{
    lemma_and_bounds(s, vars, p);
    let (r, p1) = and_spec(s, vars, p);
    lemma_or_tail_bounds(s, vars, p1, r);
}

// ---------------------------------------------------------------------------
// Recursive descent evaluation of `if:` expressions
// ---------------------------------------------------------------------------
/// The expression text and the variables it is evaluated under; each method takes the
/// position it starts at and returns the position after what it read.
struct ExprParser<'a> {
    chars: Vec<char>,
    variables: &'a Variables,
}

impl<'a> ExprParser<'a> {
    spec fn text(&self) -> Seq<char> {
        self.chars@
    }

    spec fn env(&self) -> Seq<(Seq<char>, VariableView)> {
        var_entries(*self.variables)
    }

    fn new(input: &str, variables: &'a Variables) -> (r: Self)
        ensures
            r.chars@ == input@,
            r.variables == variables,
    {
        ExprParser { chars: chars_of(input), variables }
    }

    fn skip_whitespace(&self, p: usize) -> (r: usize)
        requires
            p <= self.chars@.len(),
        ensures
            r == skip_ws(self.chars@, p as int),
            p <= r <= self.chars@.len(),
    {
        let mut q = p;
        while q < self.chars.len() && char_is_ascii_ws(self.chars[q])
            invariant
                p <= q <= self.chars@.len(),
                forall|k: int| p <= k < q ==> is_ascii_ws(#[trigger] self.chars@[k]),
            decreases self.chars@.len() - q,
        {
            q = q + 1;
        }
        proof {
            lemma_run_while_is(self.chars@, p as int, q as int, ws_pred());
        }
        q
    }

    /// Whether the character `c` stands at `p`.
    fn is_at(&self, p: usize, c: char) -> (r: bool)
        ensures
            r == at(self.chars@, p as int, c),
            self.chars@.len() <= usize::MAX,
    {
        p < self.chars.len() && self.chars[p] == c
    }

    fn peek(&self, p: usize) -> (r: Option<char>)
        ensures
            r == (if p < self.chars@.len() {
                Some(self.chars@[p as int])
            } else {
                None
            }),
            self.chars@.len() <= usize::MAX,
    {
        if p < self.chars.len() {
            Some(self.chars[p])
        } else {
            None
        }
    }

    /// Whether the two characters `a`, `b` stand at `p`.
    fn starts_with(&self, p: usize, a: char, b: char) -> (r: bool)
        ensures
            r == at2(self.chars@, p as int, a, b),
            self.chars@.len() <= usize::MAX,
    {
        p < self.chars.len() && p + 1 < self.chars.len() && self.chars[p] == a && self.chars[p
            + 1] == b
    }

    fn starts_with_null(&self, p: usize) -> (r: bool)
        ensures
            r == starts_at(self.chars@, p as int, seq!['n', 'u', 'l', 'l']),
            self.chars@.len() <= usize::MAX,
    {
        let ghost s = self.chars@;
        let n = self.chars.len();
        if p < n && n - p >= 4 && self.chars[p] == 'n' && self.chars[p + 1] == 'u' && self.chars[p
            + 2] == 'l' && self.chars[p + 3] == 'l' {
            assert(s.subrange(p as int, p + 4) =~= seq!['n', 'u', 'l', 'l']);
            true
        } else {
            proof {
                if starts_at(s, p as int, seq!['n', 'u', 'l', 'l']) {
                    assert(s.subrange(p as int, p + 4)[0] == s[p as int]);
                    assert(s.subrange(p as int, p + 4)[1] == s[p + 1]);
                    assert(s.subrange(p as int, p + 4)[2] == s[p + 2]);
                    assert(s.subrange(p as int, p + 4)[3] == s[p + 3]);
                }
            }
            false
        }
    }

    /// End of the run of characters other than `c` that starts at `p`.
    fn run_until(&self, p: usize, c: char) -> (r: usize)
        requires
            p <= self.chars@.len(),
        ensures
            r == p + run_while(self.chars@, p as int, not_char(c)),
            r <= self.chars@.len(),
    {
        let mut q = p;
        while q < self.chars.len() && self.chars[q] != c
            invariant
                p <= q <= self.chars@.len(),
                forall|k: int| p <= k < q ==> #[trigger] self.chars@[k] != c,
            decreases self.chars@.len() - q,
        {
            q = q + 1;
        }
        proof {
            lemma_run_while_is(self.chars@, p as int, q as int, not_char(c));
        }
        q
    }

    /// A reference whose `$` stands just before `p`.
    fn parse_variable_ref(&self, p: usize) -> (r: (Option<String>, usize))
        requires
            p <= self.chars@.len(),
        ensures
            opt_view(r.0) == var_ref_spec(self.text(), self.env(), p as int).0,
            r.1 == var_ref_spec(self.text(), self.env(), p as int).1,
    {
        let ghost s = self.chars@;
        let (start, end, next) = if self.is_at(p, '{') {
            let e = self.run_until(p + 1, '}');
            let nx = if self.is_at(e, '}') {
                e + 1
            } else {
                e
            };
            (p + 1, e, nx)
        } else {
            let mut q = p;
            while q < self.chars.len() && char_is_name(self.chars[q])
                invariant
                    p <= q <= self.chars@.len(),
                    forall|k: int| p <= k < q ==> is_name_char(#[trigger] self.chars@[k]),
                decreases self.chars@.len() - q,
            {
                q = q + 1;
            }
            proof {
                lemma_run_while_is(s, p as int, q as int, name_pred());
            }
            (p, q, q)
        };
        let name = string_of_range(&self.chars, start, end);
        let value = match get_value(self.variables, name.as_str()) {
            Some(v) => Some(String::from_str(v)),
            None => None,
        };
        (value, next)
    }

    /// A quoted string whose opening quote stands at `p`.
    fn parse_quoted_string(&self, p: usize, quote: char) -> (r: (String, usize))
        requires
            p < self.chars@.len(),
        ensures
            r.0@ == self.chars@.subrange(
                p + 1,
                p + 1 + run_while(self.chars@, p + 1, not_char(quote)),
            ),
            r.1 == (if at(self.chars@, p + 1 + run_while(self.chars@, p + 1, not_char(quote)), quote) {
                p + 2 + run_while(self.chars@, p + 1, not_char(quote))
            } else {
                p + 1 + run_while(self.chars@, p + 1, not_char(quote))
            }),
    {
        let n = self.chars.len();
        let e = self.run_until(p + 1, quote);
        let text = string_of_range(&self.chars, p + 1, e);
        if self.is_at(e, quote) {
            (text, e + 1)
        } else {
            (text, e)
        }
    }

    /// An operand; `None` for `null`, an undefined variable, or the end of the input.
    fn parse_value(&self, p: usize) -> (r: (Option<String>, usize))
        requires
            p <= self.chars@.len(),
        ensures
            opt_view(r.0) == value_spec(self.text(), self.env(), p as int).0,
            r.1 == value_spec(self.text(), self.env(), p as int).1,
    {
        let ghost s = self.chars@;
        let p0 = self.skip_whitespace(p);
        match self.peek(p0) {
            None => (None, p0),
            Some(c) => {
                if c == '$' {
                    self.parse_variable_ref(p0 + 1)
                } else if c == '"' || c == '\'' {
                    let (t, q) = self.parse_quoted_string(p0, c);
                    (Some(t), q)
                } else if self.starts_with_null(p0) {
                    (None, p0 + 4)
                } else {
                    let mut q = p0;
                    while q < self.chars.len() && !self.is_word_end_at(q)
                        invariant
                            p0 <= q <= self.chars@.len(),
                            forall|k: int| p0 <= k < q ==> !is_word_end(#[trigger] self.chars@[k]),
                        decreases self.chars@.len() - q,
                    {
                        q = q + 1;
                    }
                    proof {
                        lemma_run_while_is(s, p0 as int, q as int, word_pred());
                    }
                    (Some(string_of_range(&self.chars, p0, q)), q)
                }
            },
        }
    }

    fn is_word_end_at(&self, q: usize) -> (r: bool)
        requires
            q < self.chars@.len(),
        ensures
            r == is_word_end(self.chars@[q as int]),
    {
        let c = self.chars[q];
        char_is_ascii_ws(c) || c == ')' || c == '&' || c == '|' || c == '=' || c == '!'
    }

    /// A `/pattern/` operand, its body kept as written.
    fn parse_regex(&self, p: usize) -> (r: (Option<String>, usize))
        requires
            p <= self.chars@.len(),
        ensures
            opt_view(r.0) == regex_spec(self.text(), p as int).0,
            r.1 == regex_spec(self.text(), p as int).1,
    {
        let ghost s = self.chars@;
        let n = self.chars.len();
        let p0 = self.skip_whitespace(p);
        if !self.is_at(p0, '/') {
            return (None, p0);
        }
        let start = p0 + 1;
        let mut q = start;
        while q < n && self.chars[q] != '/'
            invariant
                n == s.len(),
                s == self.chars@,
                start <= q <= n,
                regex_end(s, q as int) == regex_end(s, start as int),
            decreases n - q,
        {
            if self.chars[q] == '\\' && q + 1 < n {
                q = q + 2;
            } else {
                q = q + 1;
            }
        }
        assert(q as int == regex_end(s, start as int));
        let pattern = string_of_range(&self.chars, start, q);
        if self.is_at(q, '/') {
            (Some(pattern), q + 1)
        } else {
            (Some(pattern), q)
        }
    }

    /// primary = '(' or ')' | comparison | bare value
    fn parse_primary(&self, p: usize) -> (r: (bool, usize))
        requires
            p <= self.chars@.len(),
        ensures
            r.0 == primary_spec(self.text(), self.env(), p as int).0,
            r.1 == primary_spec(self.text(), self.env(), p as int).1,
            p <= r.1 <= self.chars@.len(),
        decreases self.chars@.len() - p, 0int,
    {
        let ghost s = self.text();
        let ghost e = self.env();
        proof {
            lemma_primary_bounds(s, e, p as int);
        }
        let p0 = self.skip_whitespace(p);
        if self.is_at(p0, '(') {
            let (r, p1) = self.parse_or(p0 + 1);
            let p2 = self.skip_whitespace(p1);
            if self.is_at(p2, ')') {
                return (r, p2 + 1);
            }
            return (r, p2);
        }
        let (lhs, p1) = self.parse_value(p0);
        proof {
            lemma_value_bounds(s, e, p0 as int);
        }
        let p2 = self.skip_whitespace(p1);
        if self.starts_with(p2, '=', '=') {
            proof {
                lemma_value_bounds(s, e, p2 + 2);
            }
            let (rhs, p3) = self.parse_value(p2 + 2);
            let r = match (&lhs, &rhs) {
                (Some(l), Some(r)) => str_eq(l.as_str(), r.as_str()),
                (None, None) => true,
                _ => false,
            };
            return (r, p3);
        }
        if self.starts_with(p2, '!', '=') {
            proof {
                lemma_value_bounds(s, e, p2 + 2);
            }
            let (rhs, p3) = self.parse_value(p2 + 2);
            let r = match (&lhs, &rhs) {
                (Some(l), Some(r)) => !str_eq(l.as_str(), r.as_str()),
                (None, None) => false,
                _ => true,
            };
            return (r, p3);
        }
        if self.starts_with(p2, '=', '~') || self.starts_with(p2, '!', '~') {
            let negated = self.starts_with(p2, '!', '~');
            proof {
                lemma_regex_bounds(s, p2 + 2);
            }
            let (pattern, p3) = self.parse_regex(p2 + 2);
            let outcome = match (&lhs, &pattern) {
                (Some(val), Some(pat)) => regex_is_match(pat.as_str(), val.as_str()),
                _ => None,
            };
            return (regex_condition(negated, outcome), p3);
        }
        let truthy = match &lhs {
            Some(v) => v.unicode_len() > 0,
            None => false,
        };
        (truthy, p2)
    }

    /// not = '!' primary | primary
    fn parse_not(&self, p: usize) -> (r: (bool, usize))
        requires
            p <= self.chars@.len(),
        ensures
            r.0 == not_spec(self.text(), self.env(), p as int).0,
            r.1 == not_spec(self.text(), self.env(), p as int).1,
            p <= r.1 <= self.chars@.len(),
        decreases self.chars@.len() - p, 1int,
    {
        let p0 = self.skip_whitespace(p);
        if self.is_at(p0, '!') && !self.starts_with(p0, '!', '=') && !self.starts_with(
            p0,
            '!',
            '~',
        ) {
            let (r, p1) = self.parse_primary(p0 + 1);
            (!r, p1)
        } else {
            self.parse_primary(p0)
        }
    }

    /// and = not ('&&' not)*
    fn parse_and(&self, p: usize) -> (r: (bool, usize))
        requires
            p <= self.chars@.len(),
        ensures
            r.0 == and_spec(self.text(), self.env(), p as int).0,
            r.1 == and_spec(self.text(), self.env(), p as int).1,
            p <= r.1 <= self.chars@.len(),
        decreases self.chars@.len() - p, 3int,
    {
        let ghost s = self.text();
        let ghost e = self.env();
        let (first, p1) = self.parse_not(p);
        let mut result = first;
        let mut q = p1;
        loop
            invariant
                s == self.text(),
                e == self.env(),
                p <= p1 <= q <= self.chars@.len(),
                and_spec(s, e, p as int) == and_tail(s, e, q as int, result),
            decreases self.chars@.len() - q,
        {
            let q0 = self.skip_whitespace(q);
            if self.starts_with(q0, '&', '&') {
                let (rhs, q1) = self.parse_not(q0 + 2);
                result = result && rhs;
                q = q1;
            } else {
                return (result, q0);
            }
        }
    }

    /// or = and ('||' and)*
    fn parse_or(&self, p: usize) -> (r: (bool, usize))
        requires
            p <= self.chars@.len(),
        ensures
            r.0 == or_spec(self.text(), self.env(), p as int).0,
            r.1 == or_spec(self.text(), self.env(), p as int).1,
            p <= r.1 <= self.chars@.len(),
        decreases self.chars@.len() - p, 5int,
    {
        let ghost s = self.text();
        let ghost e = self.env();
        let (first, p1) = self.parse_and(p);
        let mut result = first;
        let mut q = p1;
        loop
            invariant
                s == self.text(),
                e == self.env(),
                p <= p1 <= q <= self.chars@.len(),
                or_spec(s, e, p as int) == or_tail(s, e, q as int, result),
            decreases self.chars@.len() - q,
        {
            let q0 = self.skip_whitespace(q);
            if self.starts_with(q0, '|', '|') {
                let (rhs, q1) = self.parse_and(q0 + 2);
                result = result || rhs;
                q = q1;
            } else {
                return (result, q0);
            }
        }
    }
}

/// The result of a `=~` (`negated` false) or `!~` (`negated` true) comparison, given
/// whether the value matched the pattern: `outcome` is `None` when an operand was
/// missing or the pattern did not compile.
pub fn regex_condition(negated: bool, outcome: Option<bool>) -> (r: bool)
    ensures
        r == regex_condition_spec(negated, outcome),
{
    match outcome {
        Some(m) => m != negated,
        None => negated,
    }
}

/// Evaluate a GitLab CI `rules:if` expression.
///
/// Operators: `==`, `!=`, `=~`, `!~`, `&&`, `||`, `!`, parentheses; operands `$VAR`,
/// `${VAR}` (no value when undefined), quoted strings and `null`. A bare `$VAR` is truthy
/// if the variable exists and is non-empty.
pub fn evaluate_if_expression(expr: &str, variables: &Variables) -> (r: bool)
    ensures
        r == if_expr_holds(expr@, var_entries(*variables)),
{
    let parser = ExprParser::new(expr, variables);
    let (r, _) = parser.parse_or(0);
    r
}

// ---------------------------------------------------------------------------
// Rules
// ---------------------------------------------------------------------------
/// A single rule entry in a job's `rules:` list.
#[derive(Debug)]
pub struct Rule {
    /// Conditional expression using CI/CD variable syntax.
    pub if_expr: Option<String>,
    /// Monitor file changes.
    pub changes: Option<ChangesConfig>,
    /// Check file existence.
    pub exists: Option<Vec<String>>,
    /// Override the job's `when` if this rule matches.
    pub when: Option<When>,
    /// Override allow_failure if this rule matches.
    pub allow_failure: Option<AllowFailure>,
    /// Override variables if this rule matches.
    pub variables: Option<Variables>,
}

/// File change monitoring configuration.
#[derive(Debug)]
pub enum ChangesConfig {
    Simple(Vec<String>),
    Detailed { paths: Vec<String>, compare_to: Option<String> },
}

/// What a `changes:` condition holds: its patterns and the ref it compares against.
pub struct ChangesView {
    pub paths: Seq<Seq<char>>,
    pub compare_to: Option<Seq<char>>,
    pub detailed: bool,
}

impl View for ChangesConfig {
    type V = ChangesView;

    open spec fn view(&self) -> ChangesView {
        match self {
            ChangesConfig::Simple(paths) => ChangesView {
                paths: views(paths@),
                compare_to: None,
                detailed: false,
            },
            ChangesConfig::Detailed { paths, compare_to } => ChangesView {
                paths: views(paths@),
                compare_to: opt_view(*compare_to),
                detailed: true,
            },
        }
    }
}

impl Clone for ChangesConfig {
    fn clone(&self) -> (r: ChangesConfig)
        ensures
            r@ == self@,
    {
        match self {
            ChangesConfig::Simple(paths) => ChangesConfig::Simple(clone_strings(paths)),
            ChangesConfig::Detailed { paths, compare_to } => ChangesConfig::Detailed {
                paths: clone_strings(paths),
                compare_to: match compare_to {
                    Some(c) => Some(c.clone()),
                    None => None,
                },
            },
        }
    }
}

/// What a rule holds.
pub struct RuleView {
    pub if_expr: Option<Seq<char>>,
    pub changes: Option<ChangesView>,
    pub exists: Option<Seq<Seq<char>>>,
    pub when: Option<When>,
    pub allow_failure: Option<AllowFailureView>,
    pub variables: Option<Seq<(Seq<char>, VariableView)>>,
}

impl View for Rule {
    type V = RuleView;

    open spec fn view(&self) -> RuleView {
        RuleView {
            if_expr: opt_view(self.if_expr),
            changes: match self.changes {
                Some(c) => Some(c@),
                None => None,
            },
            exists: opt_views(self.exists),
            when: self.when,
            allow_failure: match self.allow_failure {
                Some(a) => Some(a@),
                None => None,
            },
            variables: opt_entries(self.variables),
        }
    }
}

impl Clone for Rule {
    fn clone(&self) -> (r: Rule)
        ensures
            r@ == self@,
    {
        Rule {
            if_expr: match &self.if_expr {
                Some(e) => Some(e.clone()),
                None => None,
            },
            changes: match &self.changes {
                Some(c) => Some(c.clone()),
                None => None,
            },
            exists: match &self.exists {
                Some(v) => Some(clone_strings(v)),
                None => None,
            },
            when: self.when,
            allow_failure: match &self.allow_failure {
                Some(a) => Some(a.clone()),
                None => None,
            },
            variables: match &self.variables {
                Some(v) => Some(vars_clone(v)),
                None => None,
            },
        }
    }
}

/// The views of a list of rules.
pub open spec fn rule_views(v: Seq<Rule>) -> Seq<RuleView> {
    v.map_values(|r: Rule| r@)
}

/// A copy of a list of rules.
pub fn clone_rules(v: &Vec<Rule>) -> (r: Vec<Rule>)
    ensures
        rule_views(r@) == rule_views(v@),
{
    let mut r: Vec<Rule> = Vec::new();
    let mut i: usize = 0;
    while i < v.len()
        invariant
            i <= v@.len(),
            r@.len() == i,
            forall|j: int| 0 <= j < i ==> (#[trigger] r@[j])@ == v@[j]@,
        decreases v@.len() - i,
    {
        r.push(v[i].clone());
        i = i + 1;
    }
    assert(rule_views(r@) =~= rule_views(v@));
    r
}

/// Result of evaluating a rules list.
#[derive(Debug, Clone)]
pub enum RuleResult {
    /// A rule matched: use these settings.
    /// `allow_failure` is the rule's own, `None` where the rule does not set it.
    Matched { when: When, allow_failure: Option<AllowFailure>, variables: Option<Variables> },
    /// No rule matched: the job should not run.
    NotMatched,
}

/// The files that differ from one git ref, as far as they could be determined.
#[derive(Debug, Clone)]
pub struct ChangeSet {
    /// The ref compared against (`compare_to`, or `HEAD~1`).
    pub diff_ref: String,
    /// The changed paths; `None` when git could not tell.
    pub files: Option<Vec<String>>,
}

/// What the working tree says about the `changes:` and `exists:` conditions of rules.
#[derive(Debug, Clone)]
pub struct RuleContext {
    /// Changed files per ref; a ref missing here counts as undeterminable.
    pub changes: Vec<ChangeSet>,
    /// The `exists:` patterns that match a path on disk.
    pub existing: Vec<String>,
}

/// Whether `pattern` compiles as a glob.
pub uninterp spec fn glob_valid(pattern: Seq<char>) -> bool;

/// Whether the matcher built from the glob `pattern` matches `path`.
pub uninterp spec fn glob_match(pattern: Seq<char>, path: Seq<char>) -> bool;

/// `globset::GlobBuilder::new(pattern).literal_separator(false).build()`: whether the
/// pattern compiles. (`Glob::new` is the same builder with the same, default, separator
/// setting.) The result is only named.
#[verifier::external_body]
fn glob_compiles(pattern: &str) -> (r: bool)
    ensures
        r == glob_valid(pattern@),
{
    globset::GlobBuilder::new(pattern).literal_separator(false).build().is_ok()
}

/// Whether the parsed glob `pattern` builds into a matcher: its regular expression
/// compiles within `globset`'s size limits.
pub uninterp spec fn glob_builds(pattern: Seq<char>) -> bool;

/// The longest pattern, in bytes, that a matcher is built for: building one keeps its
/// literal parts in an automaton whose state count must stay below `i32::MAX`.
pub const GLOB_MAX_BYTES: usize = 0x4000_0000;

/// `globset::Glob::new(pattern)`, then a one-pattern `GlobSetBuilder::build()` and
/// `GlobSet::is_match(path)`: `None` when the pattern does not parse or its matcher does
/// not build (both errors are returned by `globset`, not raised), else whether it
/// matches. The three facts are only named.
#[verifier::external_body]
fn glob_is_match(pattern: &str, path: &str) -> (r: Option<bool>)
    requires
        vstd::utf8::encode_utf8(pattern@).len() as usize <= GLOB_MAX_BYTES,
    ensures
        match r {
            Some(b) => glob_valid(pattern@) && glob_builds(pattern@) && b == glob_match(pattern@, path@),
            None => !(glob_valid(pattern@) && glob_builds(pattern@)),
        },
{
    match globset::Glob::new(pattern) {
        Ok(g) => match globset::GlobSetBuilder::new().add(g).build() {
            Ok(set) => Some(set.is_match(path)),
            Err(_) => None,
        },
        Err(_) => None,
    }
}

/// A `changes:` pattern that is used: not longer than `GLOB_MAX_BYTES`, it parses and
/// its matcher builds.
pub open spec fn glob_usable(pattern: Seq<char>) -> bool {
    vstd::utf8::encode_utf8(pattern).len() as usize <= GLOB_MAX_BYTES && glob_valid(pattern)
        && glob_builds(pattern)
}

/// The ref that `changes:` compares against when it names none.
pub open spec fn default_diff_ref() -> Seq<char> {
    seq!['H', 'E', 'A', 'D', '~', '1']
}

/// The changed files recorded for `r` in the first change set for it; `None` when
/// there is none or git could not tell.
pub open spec fn files_for(cs: Seq<ChangeSet>, r: Seq<char>) -> Option<Seq<Seq<char>>>
    decreases cs.len(),
{
    if cs.len() == 0 {
        None
    } else if cs[0].diff_ref@ == r {
        match cs[0].files {
            Some(v) => Some(views(v@)),
            None => None,
        }
    } else {
        files_for(cs.drop_first(), r)
    }
}

/// A `changes:` condition holds when the changed files cannot be determined, or when
/// some usable pattern matches some changed file (a pattern that does not parse, whose
/// matcher does not build, or that is longer than `GLOB_MAX_BYTES` matches nothing).
pub open spec fn changes_hold(patterns: Seq<Seq<char>>, files: Option<Seq<Seq<char>>>) -> bool {
    match files {
        None => true,
        Some(fs) => any_glob_hit(patterns, fs),
    }
}

/// Some usable pattern matches some path.
pub open spec fn any_glob_hit(patterns: Seq<Seq<char>>, paths: Seq<Seq<char>>) -> bool {
    exists|i: int, j: int|
        0 <= i < patterns.len() && 0 <= j < paths.len() && glob_usable(#[trigger] patterns[i])
            && glob_match(patterns[i], #[trigger] paths[j])
}

/// An `exists:` condition holds when some compiling pattern matches a path on disk.
pub open spec fn exists_hold(patterns: Seq<Seq<char>>, existing: Seq<Seq<char>>) -> bool {
    exists|i: int|
        0 <= i < patterns.len() && glob_valid(#[trigger] patterns[i]) && existing.contains(
            patterns[i],
        )
}

/// The ref a `changes:` condition compares against.
pub open spec fn change_ref(c: ChangesView) -> Seq<char> {
    match c.compare_to {
        Some(r) => r,
        None => default_diff_ref(),
    }
}

/// A rule matches when each condition it has holds (a rule with none always matches).
pub open spec fn rule_holds(
    rule: RuleView,
    vars: Seq<(Seq<char>, VariableView)>,
    ctx: RuleContext,
) -> bool {
    &&& (rule.if_expr matches Some(e) ==> if_expr_holds(e, vars))
    &&& (rule.changes matches Some(c) ==> changes_hold(
        c.paths,
        files_for(ctx.changes@, change_ref(c)),
    ))
    &&& (rule.exists matches Some(ps) ==> exists_hold(ps, views(ctx.existing@)))
}

/// Whether some compiling pattern matches some changed file; `files` is `None` when the
/// changes could not be determined, which counts as changed.
pub fn check_git_changes(patterns: &Vec<String>, files: Option<&Vec<String>>) -> (r: bool)
    ensures
        r == changes_hold(
            views(patterns@),
            match files {
                Some(v) => Some(views(v@)),
                None => None,
            },
        ),
{
    match files {
        None => true,
        Some(fs) => any_glob_match(patterns, fs),
    }
}

/// Whether some compiling pattern of `patterns` matches some path of `fs`.
pub fn any_glob_match(patterns: &Vec<String>, fs: &Vec<String>) -> (r: bool)
    ensures
        r == any_glob_hit(views(patterns@), views(fs@)),
{
    let ghost ps = views(patterns@);
    let ghost fv = views(fs@);
    assert(ps.len() == patterns@.len() && fv.len() == fs@.len());
    if fs.len() == 0 {
        return false;
    }
    let mut i: usize = 0;
    while i < patterns.len()
        invariant
            i <= patterns@.len(),
            ps == views(patterns@),
            fv == views(fs@),
            ps.len() == patterns@.len(),
            fv.len() == fs@.len(),
            forall|a: int, b: int|
                0 <= a < i && 0 <= b < fv.len() ==> !(glob_usable(#[trigger] ps[a]) && glob_match(
                    ps[a],
                    #[trigger] fv[b],
                )),
        decreases patterns@.len() - i,
    {
        assert(ps[i as int] == patterns@[i as int]@);
        let pat = patterns[i].as_str();
        assert(pat@ == ps[i as int]);
        let plen = pat.len();
        assert(plen == vstd::utf8::encode_utf8(ps[i as int]).len() as usize);
        if plen > GLOB_MAX_BYTES {
            i = i + 1;
            continue;
        }
        let mut j: usize = 0;
        while j < fs.len()
            invariant
                i < patterns@.len(),
                j <= fs@.len(),
                ps == views(patterns@),
                fv == views(fs@),
                ps.len() == patterns@.len(),
                fv.len() == fs@.len(),
                vstd::utf8::encode_utf8(ps[i as int]).len() as usize <= GLOB_MAX_BYTES,
                forall|b: int|
                    0 <= b < j ==> !(glob_usable(ps[i as int]) && glob_match(
                        ps[i as int],
                        #[trigger] fv[b],
                    )),
            ensures
                forall|b: int|
                    0 <= b < fv.len() ==> !(glob_usable(ps[i as int]) && glob_match(
                        ps[i as int],
                        #[trigger] fv[b],
                    )),
            decreases fs@.len() - j,
        {
            assert(ps[i as int] == patterns@[i as int]@);
            assert(fv[j as int] == fs@[j as int]@);
            match glob_is_match(patterns[i].as_str(), fs[j].as_str()) {
                None => {
                    assert(!glob_usable(ps[i as int]));
                    break;
                },
                Some(m) => {
                    if m {
                        assert(glob_usable(ps[i as int]) && glob_match(ps[i as int], fv[j as int]));
                        assert(any_glob_hit(ps, fv));
                        return true;
                    }
                },
            }
            j = j + 1;
        }
        i = i + 1;
    }
    false
}

/// Whether some compiling pattern is among those found on disk.
pub fn check_files_exist(patterns: &Vec<String>, existing: &Vec<String>) -> (r: bool)
    ensures
        r == exists_hold(views(patterns@), views(existing@)),
{
    let ghost ps = views(patterns@);
    let ghost ev = views(existing@);
    let mut i: usize = 0;
    while i < patterns.len()
        invariant
            i <= patterns@.len(),
            ps == views(patterns@),
            ev == views(existing@),
            forall|a: int| 0 <= a < i ==> !(glob_valid(#[trigger] ps[a]) && ev.contains(ps[a])),
        decreases patterns@.len() - i,
    {
        assert(ps[i as int] == patterns@[i as int]@);
        if glob_compiles(patterns[i].as_str()) && string_in(existing, patterns[i].as_str()) {
            return true;
        }
        i = i + 1;
    }
    false
}

/// The changed files recorded for `diff_ref`.
fn lookup_changes<'a>(cs: &'a Vec<ChangeSet>, diff_ref: &str) -> (r: Option<&'a Vec<String>>)
    ensures
        match files_for(cs@, diff_ref@) {
            Some(v) => r matches Some(x) && views(x@) == v,
            None => r is None,
        },
{
    let mut i: usize = 0;
    assert(cs@.skip(0) =~= cs@);
    while i < cs.len()
        invariant
            i <= cs@.len(),
            files_for(cs@, diff_ref@) == files_for(cs@.skip(i as int), diff_ref@),
        decreases cs@.len() - i,
    {
        assert(cs@.skip(i as int)[0] == cs@[i as int]);
        assert(cs@.skip(i as int).drop_first() =~= cs@.skip(i + 1));
        if str_eq(cs[i].diff_ref.as_str(), diff_ref) {
            return match &cs[i].files {
                Some(v) => Some(v),
                None => None,
            };
        }
        i = i + 1;
    }
    None
}

/// Check if a single rule matches: each condition it has must hold.
pub fn rule_matches(rule: &Rule, variables: &Variables, ctx: &RuleContext) -> (r: bool)
    ensures
        r == rule_holds(rule@, var_entries(*variables), *ctx),
{
    let has_conditions = rule.if_expr.is_some() || rule.changes.is_some() || rule.exists.is_some();
    if !has_conditions {
        return true;
    }
    if let Some(expr) = &rule.if_expr {
        if !evaluate_if_expression(expr.as_str(), variables) {
            return false;
        }
    }
    if let Some(changes) = &rule.changes {
        let (patterns, compare_to) = match changes {
            ChangesConfig::Simple(paths) => (paths, None),
            ChangesConfig::Detailed { paths, compare_to } => (paths, compare_to.as_ref()),
        };
        let diff_ref = match compare_to {
            Some(r) => r.clone(),
            None => default_diff_ref_string(),
        };
        assert(diff_ref@ == change_ref(changes@));
        if !check_git_changes(patterns, lookup_changes(&ctx.changes, diff_ref.as_str())) {
            return false;
        }
    }
    if let Some(exists_patterns) = &rule.exists {
        if !check_files_exist(exists_patterns, &ctx.existing) {
            return false;
        }
    }
    true
}

fn default_diff_ref_string() -> (r: String)
    ensures
        r@ == default_diff_ref(),
{
    let r = String::from_str("HEAD~1");
    proof {
        reveal_strlit("HEAD~1");
    }
    assert(r@ =~= default_diff_ref());
    r
}

/// What an optional variables map holds.
pub open spec fn opt_entries(o: Option<Variables>) -> Option<Seq<(Seq<char>, VariableView)>> {
    match o {
        Some(m) => Some(var_entries(m)),
        None => None,
    }
}

/// The settings a matched rule gives.
pub open spec fn matched_settings(
    r: RuleResult,
    rule: RuleView,
    default_when: When,
) -> bool {
    match r {
        RuleResult::Matched { when, allow_failure, variables } => {
            &&& when == (match rule.when {
                Some(w) => w,
                None => default_when,
            })
            &&& (match allow_failure {
                Some(a) => Some(a@),
                None => None,
            }) == rule.allow_failure
            &&& opt_entries(variables) == rule.variables
        },
        RuleResult::NotMatched => false,
    }
}

/// The index of the first rule, from `k` on, that holds.
pub open spec fn first_match(
    rules: Seq<RuleView>,
    vars: Seq<(Seq<char>, VariableView)>,
    ctx: RuleContext,
    k: nat,
) -> Option<int>
    decreases rules.len() - k,
{
    if k >= rules.len() {
        None
    } else if rule_holds(rules[k as int], vars, ctx) {
        Some(k as int)
    } else {
        first_match(rules, vars, ctx, k + 1)
    }
}

/// Rules are OR'd and the first one that holds wins: `first_match` finds a rule that
/// holds with none holding before it, and finds none only when no rule holds.
pub proof fn lemma_first_match_wins(
    rules: Seq<RuleView>,
    vars: Seq<(Seq<char>, VariableView)>,
    ctx: RuleContext,
    k: nat,
)
    ensures
        match first_match(rules, vars, ctx, k) {
            Some(i) => k <= i < rules.len() && rule_holds(rules[i], vars, ctx) && forall|j: int|
                k <= j < i ==> !rule_holds(#[trigger] rules[j], vars, ctx),
            None => forall|j: int| k <= j < rules.len() ==> !rule_holds(#[trigger] rules[j], vars, ctx),
        },
    decreases rules.len() - k,
{
    if k < rules.len() && !rule_holds(rules[k as int], vars, ctx) {
        lemma_first_match_wins(rules, vars, ctx, k + 1);
    }
}

/// Evaluate a list of rules for a job: the first matching rule gives the settings;
/// when none matches, the job does not run.
pub fn evaluate_rules(
    rules: &[Rule],
    variables: &Variables,
    default_when: When,
    ctx: &RuleContext,
) -> (r: RuleResult)
    ensures
        match first_match(rule_views(rules@), var_entries(*variables), *ctx, 0) {
            Some(i) => matched_settings(r, rules@[i]@, default_when),
            None => r is NotMatched,
        },
{
    let mut i: usize = 0;
    while i < rules.len()
        invariant
            i <= rules@.len(),
            first_match(rule_views(rules@), var_entries(*variables), *ctx, 0) == first_match(
                rule_views(rules@),
                var_entries(*variables),
                *ctx,
                i as nat,
            ),
        decreases rules@.len() - i,
    {
        let rule = &rules[i];
        if rule_matches(rule, variables, ctx) {
            let when = match rule.when {
                Some(w) => w,
                None => default_when,
            };
            let allow_failure = match &rule.allow_failure {
                Some(a) => Some(a.clone()),
                None => None,
            };
            let vars = match &rule.variables {
                Some(v) => Some(vars_clone(v)),
                None => None,
            };
            let r = RuleResult::Matched { when, allow_failure, variables: vars };
            assert(matched_settings(r, rules@[i as int]@, default_when));
            return r;
        }
        i = i + 1;
    }
    RuleResult::NotMatched
}


/// Whether `workflow:rules` let the pipeline run: there are none, or the first that
/// holds does not say `when: never`.
pub open spec fn workflow_runs(
    rules: Seq<RuleView>,
    vars: Seq<(Seq<char>, VariableView)>,
    ctx: RuleContext,
) -> bool {
    rules.len() == 0 || match first_match(rules, vars, ctx, 0) {
        Some(i) => (match rules[i].when {
            Some(w) => w,
            None => When::Always,
        }) != When::Never,
        None => false,
    }
}

/// The variables a pipeline runs with after `workflow:rules`: those of the rule that
/// let it run are set over the others.
pub open spec fn workflow_vars(
    rules: Seq<RuleView>,
    vars: Seq<(Seq<char>, VariableView)>,
    ctx: RuleContext,
) -> Seq<(Seq<char>, VariableView)> {
    if rules.len() > 0 && workflow_runs(rules, vars, ctx) {
        match first_match(rules, vars, ctx, 0) {
            Some(i) => match rules[i].variables {
                Some(t) => entries_insert_all(vars, t),
                None => vars,
            },
            None => vars,
        }
    } else {
        vars
    }
}

/// Apply `workflow:rules` to a pipeline's variables: whether the pipeline runs, with
/// the matched rule's variables set when it does.
pub fn workflow_gate(rules: &[Rule], vars: &mut Variables, ctx: &RuleContext) -> (r: bool)
    ensures
        r == workflow_runs(rule_views(rules@), var_entries(*old(vars)), *ctx),
        var_entries(*final(vars)) == workflow_vars(
            rule_views(rules@),
            var_entries(*old(vars)),
            *ctx,
        ),
{
    if rules.len() == 0 {
        return true;
    }
    let ghost rv = rule_views(rules@);
    let ghost v0 = var_entries(*vars);
    proof {
        lemma_first_match_wins(rv, v0, *ctx, 0);
    }
    let result = evaluate_rules(rules, vars, When::Always, ctx);
    proof {
        if let Some(i) = first_match(rv, v0, *ctx, 0) {
            assert(rv[i] == rules@[i]@);
        }
    }
    match result {
        RuleResult::Matched { when, variables, .. } => {
            if when == When::Never {
                false
            } else {
                if let Some(wv) = &variables {
                    insert_all(vars, wv);
                }
                true
            }
        },
        RuleResult::NotMatched => false,
    }
}

/// Whether a rule's `changes:` compares against `r`.
pub open spec fn rule_asks_ref(rule: RuleView, r: Seq<char>) -> bool {
    rule.changes matches Some(c) && change_ref(c) == r
}

/// Whether a rule's `exists:` lists `p`.
pub open spec fn rule_asks_pattern(rule: RuleView, p: Seq<char>) -> bool {
    rule.exists matches Some(ps) && ps.contains(p)
}

/// Whether some rule of a list asks about ref `r`.
pub open spec fn asks_ref(rules: Seq<RuleView>, r: Seq<char>) -> bool {
    exists|i: int| 0 <= i < rules.len() && #[trigger] rule_asks_ref(rules[i], r)
}

/// Whether some rule of a list asks about pattern `p`.
pub open spec fn asks_pattern(rules: Seq<RuleView>, p: Seq<char>) -> bool {
    exists|i: int| 0 <= i < rules.len() && #[trigger] rule_asks_pattern(rules[i], p)
}

/// The ref a `changes:` condition compares against.
fn change_ref_of(c: &ChangesConfig) -> (r: String)
    ensures
        r@ == change_ref(c@),
{
    match c {
        ChangesConfig::Detailed { compare_to: Some(x), .. } => x.clone(),
        _ => default_diff_ref_string(),
    }
}

/// Add to `refs` and `patterns` the refs and `exists:` patterns that `rules` ask about,
/// each once.
fn collect_rule_queries(rules: &Vec<Rule>, refs: &mut Vec<String>, patterns: &mut Vec<String>)
    ensures
        forall|x: Seq<char>|
            #![trigger views(final(refs)@).contains(x)]
            views(final(refs)@).contains(x) <==> (views(old(refs)@).contains(x) || asks_ref(
                rule_views(rules@),
                x,
            )),
        forall|x: Seq<char>|
            #![trigger views(final(patterns)@).contains(x)]
            views(final(patterns)@).contains(x) <==> (views(old(patterns)@).contains(x)
                || asks_pattern(rule_views(rules@), x)),
{
    let ghost rv = rule_views(rules@);
    let ghost refs0 = views(refs@);
    let ghost pats0 = views(patterns@);
    let mut i: usize = 0;
    while i < rules.len()
        invariant
            i <= rules@.len(),
            rv == rule_views(rules@),
            refs0 == views(old(refs)@),
            pats0 == views(old(patterns)@),
            forall|x: Seq<char>|
                #![trigger views(refs@).contains(x)]
                views(refs@).contains(x) <==> (refs0.contains(x) || asks_ref(rv.take(i as int), x)),
            forall|x: Seq<char>|
                #![trigger views(patterns@).contains(x)]
                views(patterns@).contains(x) <==> (pats0.contains(x) || asks_pattern(
                    rv.take(i as int),
                    x,
                )),
        decreases rules@.len() - i,
    {
        let ghost t0 = rv.take(i as int);
        let ghost t1 = rv.take(i + 1);
        proof {
            assert(t1[i as int] == rv[i as int]);
            assert(rv[i as int] == rules@[i as int]@);
            assert forall|x: Seq<char>| asks_ref(t1, x) <==> (asks_ref(t0, x) || rule_asks_ref(rv[i as int], x)) by {
                if asks_ref(t1, x) {
                    let k = choose|k: int| 0 <= k < t1.len() && #[trigger] rule_asks_ref(t1[k], x);
                    if k < i {
                        assert(t0[k] == t1[k]);
                    }
                }
                if asks_ref(t0, x) {
                    let k = choose|k: int| 0 <= k < t0.len() && #[trigger] rule_asks_ref(t0[k], x);
                    assert(t1[k] == t0[k]);
                }
            }
            assert forall|x: Seq<char>| asks_pattern(t1, x) <==> (asks_pattern(t0, x) || rule_asks_pattern(rv[i as int], x)) by {
                if asks_pattern(t1, x) {
                    let k = choose|k: int| 0 <= k < t1.len() && #[trigger] rule_asks_pattern(t1[k], x);
                    if k < i {
                        assert(t0[k] == t1[k]);
                    }
                }
                if asks_pattern(t0, x) {
                    let k = choose|k: int| 0 <= k < t0.len() && #[trigger] rule_asks_pattern(t0[k], x);
                    assert(t1[k] == t0[k]);
                }
            }
        }
        let rule = &rules[i];
        let ghost refs_before = views(refs@);
        match &rule.changes {
            Some(c) => {
                let r = change_ref_of(c);
                if !string_in(refs, r.as_str()) {
                    refs.push(r);
                    assert(views(refs@) =~= refs_before.push(change_ref(c@)));
                }
            },
            None => {},
        }
        assert forall|x: Seq<char>| views(refs@).contains(x) <==> (refs_before.contains(x) || rule_asks_ref(rv[i as int], x)) by {
            if views(refs@).contains(x) && !refs_before.contains(x) {
                let k = choose|k: int| 0 <= k < views(refs@).len() && views(refs@)[k] == x;
                assert(k == refs_before.len());
            }
            if rule_asks_ref(rv[i as int], x) {
                if !refs_before.contains(x) {
                    assert(views(refs@)[refs_before.len() as int] == x);
                }
            }
            if refs_before.contains(x) {
                let k = choose|k: int| 0 <= k < refs_before.len() && refs_before[k] == x;
                assert(views(refs@)[k] == x);
            }
        }
        assert forall|x: Seq<char>| views(refs@).contains(x) <==> (refs0.contains(x) || asks_ref(t1, x)) by {
            assert(refs_before.contains(x) <==> (refs0.contains(x) || asks_ref(t0, x)));
        }
        let ghost pats_before = views(patterns@);
        match &rule.exists {
            Some(ps) => {
                let mut j: usize = 0;
                let ghost pats_mid = views(patterns@);
                while j < ps.len()
                    invariant
                        j <= ps@.len(),
                        forall|x: Seq<char>|
                            #![trigger views(patterns@).contains(x)]
                            views(patterns@).contains(x) <==> (pats_mid.contains(x)
                                || views(ps@).take(j as int).contains(x)),
                    decreases ps@.len() - j,
                {
                    let ghost before = views(patterns@);
                    let ghost vt0 = views(ps@).take(j as int);
                    let ghost vt1 = views(ps@).take(j + 1);
                    assert forall|x: Seq<char>| vt1.contains(x) <==> (vt0.contains(x) || x == views(ps@)[j as int]) by {
                        if vt1.contains(x) {
                            let k = choose|k: int| 0 <= k < vt1.len() && vt1[k] == x;
                            if k < j {
                                assert(vt0[k] == x);
                            }
                        }
                        if vt0.contains(x) {
                            let k = choose|k: int| 0 <= k < vt0.len() && vt0[k] == x;
                            assert(vt1[k] == x);
                        }
                        if x == views(ps@)[j as int] {
                            assert(vt1[j as int] == x);
                        }
                    }
                    if !string_in(patterns, ps[j].as_str()) {
                        patterns.push(ps[j].clone());
                        assert(views(patterns@) =~= before.push(views(ps@)[j as int]));
                    }
                    assert forall|x: Seq<char>| views(patterns@).contains(x) <==> (before.contains(x) || x == views(ps@)[j as int]) by {
                        if views(patterns@).contains(x) && !before.contains(x) {
                            let k = choose|k: int| 0 <= k < views(patterns@).len() && views(patterns@)[k] == x;
                            assert(k == before.len());
                        }
                        if x == views(ps@)[j as int] && !before.contains(x) {
                            assert(views(patterns@)[before.len() as int] == x);
                        }
                        if before.contains(x) {
                            let k = choose|k: int| 0 <= k < before.len() && before[k] == x;
                            assert(views(patterns@)[k] == x);
                        }
                    }
                    assert forall|x: Seq<char>| #![trigger views(patterns@).contains(x)] views(patterns@).contains(x) <==> (pats_mid.contains(x) || vt1.contains(x)) by {
                        assert(before.contains(x) <==> (pats_mid.contains(x) || vt0.contains(x)));
                        assert(vt1.contains(x) <==> (vt0.contains(x) || x == views(ps@)[j as int]));
                        assert(views(patterns@).contains(x) <==> (before.contains(x) || x == views(ps@)[j as int]));
                    }
                    j = j + 1;
                }
                assert(views(ps@).take(ps@.len() as int) =~= views(ps@));
                assert forall|x: Seq<char>| rule_asks_pattern(rv[i as int], x) <==> views(ps@).contains(x) by {}
            },
            None => {},
        }
        assert forall|x: Seq<char>| views(patterns@).contains(x) <==> (pats0.contains(x) || asks_pattern(t1, x)) by {
            assert(pats_before.contains(x) <==> (pats0.contains(x) || asks_pattern(t0, x)));
        }
        i = i + 1;
    }
    assert(rv.take(rules@.len() as int) =~= rv);
}

/// Whether a job's rules ask about ref `r`.
pub open spec fn job_asks_ref(j: JobView, r: Seq<char>) -> bool {
    j.rules matches Some(rs) && asks_ref(rs, r)
}

/// Whether a job's rules ask about pattern `p`.
pub open spec fn job_asks_pattern(j: JobView, p: Seq<char>) -> bool {
    j.rules matches Some(rs) && asks_pattern(rs, p)
}

/// Whether some rule of the pipeline, of `workflow:` or of a job, asks about ref `r`.
pub open spec fn pipeline_asks_ref(p: Pipeline, r: Seq<char>) -> bool {
    ||| (p.workflow matches Some(w) && asks_ref(rule_views(w.rules@), r))
    ||| exists|i: int| 0 <= i < job_entries(p.jobs).len() && #[trigger] job_asks_ref(job_entries(p.jobs)[i].1, r)
}

/// Whether some rule of the pipeline, of `workflow:` or of a job, asks about pattern `p`.
pub open spec fn pipeline_asks_pattern(p: Pipeline, x: Seq<char>) -> bool {
    ||| (p.workflow matches Some(w) && asks_pattern(rule_views(w.rules@), x))
    ||| exists|i: int|
        0 <= i < job_entries(p.jobs).len() && #[trigger] job_asks_pattern(job_entries(p.jobs)[i].1, x)
}

/// The refs that the `changes:` conditions of a pipeline's rules compare against, and
/// the patterns their `exists:` conditions list, each once: what a `RuleContext` for the
/// pipeline has to answer.
pub fn rule_queries(pipeline: &Pipeline) -> (r: (Vec<String>, Vec<String>))
    ensures
        forall|x: Seq<char>|
            #![trigger views(r.0@).contains(x)]
            views(r.0@).contains(x) <==> pipeline_asks_ref(*pipeline, x),
        forall|x: Seq<char>|
            #![trigger views(r.1@).contains(x)]
            views(r.1@).contains(x) <==> pipeline_asks_pattern(*pipeline, x),
{
    let mut refs: Vec<String> = Vec::new();
    let mut patterns: Vec<String> = Vec::new();
    match &pipeline.workflow {
        Some(w) => collect_rule_queries(&w.rules, &mut refs, &mut patterns),
        None => {},
    }
    let ghost wref = views(refs@);
    let ghost wpat = views(patterns@);
    let ghost e = job_entries(pipeline.jobs);
    let n = jobs_len(&pipeline.jobs);
    let mut i: usize = 0;
    while i < n
        invariant
            n == e.len(),
            e == job_entries(pipeline.jobs),
            i <= n,
            forall|x: Seq<char>|
                #![trigger wref.contains(x)]
                wref.contains(x) <==> (pipeline.workflow matches Some(w) && asks_ref(rule_views(w.rules@), x)),
            forall|x: Seq<char>|
                #![trigger wpat.contains(x)]
                wpat.contains(x) <==> (pipeline.workflow matches Some(w) && asks_pattern(rule_views(w.rules@), x)),
            forall|x: Seq<char>|
                #![trigger views(refs@).contains(x)]
                views(refs@).contains(x) <==> (wref.contains(x) || exists|k: int|
                    0 <= k < i && #[trigger] job_asks_ref(e[k].1, x)),
            forall|x: Seq<char>|
                #![trigger views(patterns@).contains(x)]
                views(patterns@).contains(x) <==> (wpat.contains(x) || exists|k: int|
                    0 <= k < i && #[trigger] job_asks_pattern(e[k].1, x)),
        decreases n - i,
    {
        let (_, job) = jobs_get_index(&pipeline.jobs, i);
        let ghost rb = views(refs@);
        let ghost pb = views(patterns@);
        match &job.rules {
            Some(rs) => {
                collect_rule_queries(rs, &mut refs, &mut patterns);
            },
            None => {},
        }
        assert forall|x: Seq<char>| views(refs@).contains(x) <==> (wref.contains(x) || exists|k: int|
            0 <= k < i + 1 && #[trigger] job_asks_ref(e[k].1, x)) by {
            assert(rb.contains(x) <==> (wref.contains(x) || exists|k: int|
                0 <= k < i && #[trigger] job_asks_ref(e[k].1, x)));
            if job_asks_ref(e[i as int].1, x) {
                assert(exists|k: int| 0 <= k < i + 1 && #[trigger] job_asks_ref(e[k].1, x));
            }
        }
        assert forall|x: Seq<char>| views(patterns@).contains(x) <==> (wpat.contains(x) || exists|k: int|
            0 <= k < i + 1 && #[trigger] job_asks_pattern(e[k].1, x)) by {
            assert(pb.contains(x) <==> (wpat.contains(x) || exists|k: int|
                0 <= k < i && #[trigger] job_asks_pattern(e[k].1, x)));
            if job_asks_pattern(e[i as int].1, x) {
                assert(exists|k: int| 0 <= k < i + 1 && #[trigger] job_asks_pattern(e[k].1, x));
            }
        }
        i = i + 1;
    }
    (refs, patterns)
}

} // verus!
