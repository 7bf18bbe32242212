//! Secrets: masking them in output, reading and writing the secrets file, finding the
//! GitLab project they come from, and scoping them to the jobs that use them.
use vstd::prelude::*;

use base64::Engine;
use vstd::string::StringSliceAdditionalSpecFns;

use crate::collections::{
    has_key,
    job_entries, jobs_get_index, jobs_len,
    entries_insert, key_index, var_entries, vars_get_index, vars_index_of, vars_insert, vars_len,
    vars_new,
};
use crate::model::job::{Job, JobView};
use crate::paths::{data_dir_spec, djb2, hex_digits, path_join, secrets_file, PathEnv};
use crate::model::pipeline::Pipeline;
use crate::model::variables::{
    expand_spec, expand_variables, VariableValue, VariableView, Variables, VAR_REFERENCE_PATTERN,
};
use crate::error::{error_message, LabError};
use crate::text::{
    contains, contains_seq, string_in, occurs_at, occurs_at_exec, is_name_char, char_is_name,
    insert_sorted_unique, lemma_contains_concat, lemma_sorted_unique, sorted_strict,
    concat, concat3, contains_char, join_strings, joined, lemma_split_on_len, second_piece, second_piece_of, starts_with,
    strings_range, strip_suffixes, trim_end_matches,
    char_pos, chars_of, find_char, lemma_char_pos, replace, replace_spec, split_char, split_on,
    str_eq, string_of_range, trim, trim_spec, views,
};

verus! {

// ---------------------------------------------------------------------------
// Masking
// ---------------------------------------------------------------------------
/// A base64 digit: `A`-`Z` for 0-25, `a`-`z` for 26-51, `0`-`9` for 52-61, then `+`
/// and `/`.
pub open spec fn b64_digit(v: int) -> char {
    if v < 26 {
        (65 + v) as char
    } else if v < 52 {
        (71 + v) as char
    } else if v < 62 {
        (v - 4) as char
    } else if v == 62 {
        '+'
    } else {
        '/'
    }
}

/// Standard base64 (RFC 4648 alphabet, `=` padding) of some bytes: each group of three
/// bytes gives four digits of six bits each; a last group of one or two bytes gives
/// two or three digits and is padded to four with `=`.
pub open spec fn base64_standard(data: Seq<u8>) -> Seq<char>
    decreases data.len(),
{
    if data.len() == 0 {
        Seq::empty()
    } else if data.len() == 1 {
        let a = data[0] as int;
        seq![b64_digit(a / 4), b64_digit((a % 4) * 16), '=', '=']
    } else if data.len() == 2 {
        let a = data[0] as int;
        let b = data[1] as int;
        seq![b64_digit(a / 4), b64_digit((a % 4) * 16 + b / 16), b64_digit((b % 16) * 4), '=']
    } else {
        let a = data[0] as int;
        let b = data[1] as int;
        let c = data[2] as int;
        seq![
            b64_digit(a / 4),
            b64_digit((a % 4) * 16 + b / 16),
            b64_digit((b % 16) * 4 + c / 64),
            b64_digit(c % 64),
        ] + base64_standard(data.skip(3))
    }
}

/// `base64::engine::general_purpose::STANDARD.encode` of the UTF-8 bytes of `s`. The
/// contract claims the standard encoding with padding, as the crate documents for its
/// `STANDARD` engine (the RFC 4648 alphabet, `PAD` configuration).
#[verifier::external_body]
fn base64_encode(s: &str) -> (r: String)
    requires
        s.spec_bytes().len() <= usize::MAX / 2,
    ensures
        r@ == base64_standard(s.spec_bytes()),
{
    base64::engine::general_purpose::STANDARD.encode(s)
}

/// The length in bytes of a string's UTF-8 encoding, as `str::len` gives it.
pub open spec fn byte_len(s: Seq<char>) -> nat {
    (vstd::utf8::encode_utf8(s).len() as usize) as nat
}

/// The masks an added value contributes: none when it is shorter than four bytes once
/// trimmed, else the trimmed value and, when it differs, its base64 encoding.
pub open spec fn masks_for(value: Seq<char>) -> Seq<Seq<char>> {
    let t = trim_spec(value);
    if byte_len(t) < 4 {
        Seq::empty()
    } else {
        let b = base64_standard(vstd::utf8::encode_utf8(t));
        if b == t {
            seq![t]
        } else {
            seq![t, b]
        }
    }
}

/// Insert `x` after every element at least as long (in bytes): the step of a stable
/// longest-first sort.
pub open spec fn insert_by_len(sorted: Seq<Seq<char>>, x: Seq<char>) -> Seq<Seq<char>>
    decreases sorted.len(),
{
    if sorted.len() == 0 {
        seq![x]
    } else if byte_len(sorted[0]) < byte_len(x) {
        seq![x] + sorted
    } else {
        seq![sorted[0]] + insert_by_len(sorted.drop_first(), x)
    }
}

/// The values sorted longest first, values of equal length keeping their order.
pub open spec fn longest_first(s: Seq<Seq<char>>) -> Seq<Seq<char>>
    decreases s.len(),
{
    if s.len() == 0 {
        Seq::empty()
    } else {
        insert_by_len(longest_first(s.drop_last()), s.last())
    }
}

/// The values with each run of equal neighbours kept once.
pub open spec fn dedup(s: Seq<Seq<char>>) -> Seq<Seq<char>>
    decreases s.len(),
{
    if s.len() == 0 {
        Seq::empty()
    } else if s.len() >= 2 && s[s.len() - 1] == s[s.len() - 2] {
        dedup(s.drop_last())
    } else {
        dedup(s.drop_last()).push(s.last())
    }
}

/// `text` with every occurrence of each secret, in turn, replaced by `[MASKED]`.
pub open spec fn masked(text: Seq<char>, secrets: Seq<Seq<char>>) -> Seq<char>
    decreases secrets.len(),
{
    if secrets.len() == 0 {
        text
    } else {
        replace_spec(masked(text, secrets.drop_last()), secrets.last(), "[MASKED]"@)
    }
}

/// Masks secret values in job output: every occurrence of a registered value, and of
/// its base64 encoding, is replaced with `[MASKED]`, longest values first.
#[derive(Clone)]
pub struct SecretMasker {
    values: Vec<String>,
}

impl SecretMasker {
    /// The values masked, in the order they are applied.
    pub closed spec fn masks(&self) -> Seq<Seq<char>> {
        views(self.values@)
    }

    pub fn new() -> (r: Self)
        ensures
            r.masks() == Seq::<Seq<char>>::empty(),
    {
        let r = SecretMasker { values: Vec::new() };
        assert(r.masks() =~= Seq::<Seq<char>>::empty());
        r
    }

    /// Register a value to be masked in output, and its base64 encoding too. Values
    /// shorter than four bytes once trimmed are ignored (too many false positives).
    pub fn add_value(&mut self, value: &str)
        requires
            value.spec_bytes().len() <= usize::MAX / 2,
        ensures
            final(self).masks() == old(self).masks() + masks_for(value@),
    {
        let trimmed = trim(value);
        proof {
            crate::text::lemma_trim_bytes(value@);
        }
        if trimmed.as_str().len() < 4 {
            assert(masks_for(value@) =~= Seq::<Seq<char>>::empty());
            assert(self.masks() + masks_for(value@) =~= self.masks());
            return;
        }
        let b64 = base64_encode(trimmed.as_str());
        let differs = !str_eq(b64.as_str(), trimmed.as_str());
        let ghost before = self.masks();
        proof {
            assert(trimmed@.len() > 0) by {
                if trimmed@.len() == 0 {
                    assert(vstd::utf8::encode_utf8(trimmed@) =~= Seq::<u8>::empty());
                }
            }
        }
        assert(b64@.len() > 0);
        self.values.push(trimmed);
        if differs {
            self.values.push(b64);
        }
        assert(self.masks() =~= before + masks_for(value@));
    }

    /// Build a masker from secret variables: every value, then `finalize`.
    pub fn from_secrets(secrets: &Variables) -> (r: Self)
        requires
            forall|i: int|
                0 <= i < var_entries(*secrets).len() ==> vstd::utf8::encode_utf8(
                    (#[trigger] var_entries(*secrets)[i]).1.value,
                ).len() <= usize::MAX / 2,
        ensures
            r.masks() == dedup(longest_first(all_masks(var_entries(*secrets)))),
    {
        let ghost e = var_entries(*secrets);
        let mut masker = SecretMasker::new();
        let n = vars_len(secrets);
        let mut i: usize = 0;
        assert(e.subrange(0, 0) =~= Seq::<(Seq<char>, VariableView)>::empty());
        assert(masker.masks() =~= all_masks(e.subrange(0, 0)));
        while i < n
            invariant
                n == e.len(),
                e == var_entries(*secrets),
                i <= n,
                forall|i: int| 0 <= i < e.len() ==> vstd::utf8::encode_utf8((#[trigger] e[i]).1.value).len() <= usize::MAX / 2,
                masker.masks() == all_masks(e.subrange(0, i as int)),
            decreases n - i,
        {
            let (_, v) = vars_get_index(secrets, i);
            assert(e.subrange(0, i + 1).drop_last() =~= e.subrange(0, i as int));
            masker.add_value(v.value());
            i = i + 1;
        }
        assert(e.subrange(0, n as int) =~= e);
        masker.finalize();
        masker
    }

    /// Sort values longest-first so longer secrets are masked before shorter
    /// substrings, and drop repeated neighbours. Call after all values are added.
    pub fn finalize(&mut self)
        ensures
            final(self).masks() == dedup(longest_first(old(self).masks())),
    {
        let mut values: Vec<String> = Vec::new();
        std::mem::swap(&mut values, &mut self.values);
        let ghost vs = views(values@);
        // stable insertion sort, longest first
        let mut sorted: Vec<String> = Vec::new();
        let mut i: usize = 0;
        assert(vs.subrange(0, 0) =~= Seq::<Seq<char>>::empty());
        while i < values.len()
            invariant
                i <= values@.len(),
                vs == views(values@),
                views(sorted@) == longest_first(vs.subrange(0, i as int)),
            decreases values@.len() - i,
        {
            let x = values[i].clone();
            let xl = x.as_str().len();
            let mut p: usize = 0;
            let ghost sv = views(sorted@);
            while p < sorted.len() && sorted[p].as_str().len() >= xl
                invariant
                    p <= sorted@.len(),
                    sv == views(sorted@),
                    xl == byte_len(x@),
                    forall|k: int| 0 <= k < p ==> byte_len(#[trigger] sv[k]) >= byte_len(x@),
                decreases sorted@.len() - p,
            {
                p = p + 1;
            }
            proof {
                lemma_insert_by_len(sv, x@, p as int);
                assert(vs.subrange(0, i + 1).drop_last() =~= vs.subrange(0, i as int));
                assert(vs[i as int] == x@);
            }
            sorted.insert(p, x);
            assert(views(sorted@) =~= sv.subrange(0, p as int) + seq![x@] + sv.skip(p as int));
            i = i + 1;
        }
        assert(vs.subrange(0, values@.len() as int) =~= vs);
        // drop repeated neighbours
        let ghost ss = views(sorted@);
        let mut out: Vec<String> = Vec::new();
        let mut j: usize = 0;
        assert(ss.subrange(0, 0) =~= Seq::<Seq<char>>::empty());
        while j < sorted.len()
            invariant
                j <= sorted@.len(),
                ss == views(sorted@),
                views(out@) == dedup(ss.subrange(0, j as int)),
            decreases sorted@.len() - j,
        {
            let ghost sub = ss.subrange(0, j + 1);
            assert(sub.drop_last() =~= ss.subrange(0, j as int));
            if j > 0 && str_eq(sorted[j].as_str(), sorted[j - 1].as_str()) {
                assert(sub[sub.len() - 1] == sub[sub.len() - 2]);
            } else {
                let ghost before = views(out@);
                out.push(sorted[j].clone());
                assert(views(out@) =~= before.push(ss[j as int]));
            }
            j = j + 1;
        }
        assert(ss.subrange(0, sorted@.len() as int) =~= ss);
        self.values = out;
    }

    /// Mask all secret values in the given text.
    pub fn mask(&self, text: &str) -> (r: String)
        ensures
            r@ == masked(text@, self.masks()),
    {
        let mut result = String::from_str(text);
        let mut i: usize = 0;
        let ghost ms = self.masks();
        assert(ms.subrange(0, 0) =~= Seq::<Seq<char>>::empty());
        while i < self.values.len()
            invariant
                i <= self.values@.len(),
                ms == self.masks(),
                ms == views(self.values@),
                result@ == masked(text@, ms.subrange(0, i as int)),
            decreases self.values@.len() - i,
        {
            assert(ms.subrange(0, i + 1).drop_last() =~= ms.subrange(0, i as int));
            assert(ms[i as int] == self.values@[i as int]@);
            if self.values[i].unicode_len() > 0 {
                result = replace(result.as_str(), self.values[i].as_str(), "[MASKED]");
            }
            i = i + 1;
        }
        assert(ms.subrange(0, self.values@.len() as int) =~= ms);
        result
    }

    pub fn has_values(&self) -> (r: bool)
        ensures
            r == (self.masks().len() > 0),
    {
        self.values.len() > 0
    }

    /// The debug text of a masker: its number of values, never the values.
    pub fn debug_text(&self) -> (r: String)
        ensures
            r@ == "SecretMasker { count: "@ + crate::text::decimal(self.masks().len()) + " }"@,
    {
        let c = crate::text::u64_to_string(self.values.len() as u64);
        crate::text::concat3("SecretMasker { count: ", c.as_str(), " }")
    }
}

/// The masks of every value, in order, before sorting.
pub open spec fn all_masks(e: Seq<(Seq<char>, VariableView)>) -> Seq<Seq<char>>
    decreases e.len(),
{
    if e.len() == 0 {
        Seq::empty()
    } else {
        all_masks(e.drop_last()) + masks_for(e.last().1.value)
    }
}

/// `insert_by_len` puts `x` at the first position holding a shorter value.
pub proof fn lemma_insert_by_len(sorted: Seq<Seq<char>>, x: Seq<char>, p: int)
    requires
        0 <= p <= sorted.len(),
        forall|k: int| 0 <= k < p ==> byte_len(#[trigger] sorted[k]) >= byte_len(x),
        p < sorted.len() ==> byte_len(sorted[p]) < byte_len(x),
    ensures
        insert_by_len(sorted, x) == sorted.subrange(0, p) + seq![x] + sorted.skip(p),
    decreases sorted.len(),
{
    if sorted.len() == 0 {
        assert(sorted.subrange(0, p) + seq![x] + sorted.skip(p) =~= seq![x]);
    } else if p == 0 {
        assert(sorted.subrange(0, p) + seq![x] + sorted.skip(p) =~= seq![x] + sorted);
    } else {
        let t = sorted.drop_first();
        assert forall|k: int| 0 <= k < p - 1 implies byte_len(#[trigger] t[k]) >= byte_len(x) by {
            assert(t[k] == sorted[k + 1]);
        }
        if p - 1 < t.len() {
            assert(t[p - 1] == sorted[p]);
        }
        lemma_insert_by_len(t, x, p - 1);
        assert(sorted.subrange(0, p) + seq![x] + sorted.skip(p) =~= seq![sorted[0]] + (t.subrange(
            0,
            p - 1,
        ) + seq![x] + t.skip(p - 1)));
    }
}

// ---------------------------------------------------------------------------
// Secrets files
// ---------------------------------------------------------------------------
/// A value written between double quotes loses them.
pub open spec fn unquote(v: Seq<char>) -> Seq<char> {
    if v.len() >= 2 && v[0] == '"' && v.last() == '"' {
        v.subrange(1, v.len() - 1)
    } else {
        v
    }
}

/// What one line of an env file defines: `KEY=VALUE` once trimmed, with the key and
/// value trimmed and the value unquoted. Blank lines, `#` comments, lines without `=`
/// and lines with an empty key define nothing.
pub open spec fn env_line(line: Seq<char>) -> Option<(Seq<char>, Seq<char>)> {
    let l = trim_spec(line);
    if l.len() == 0 || l[0] == '#' || char_pos(l, '=') < 0 {
        None
    } else {
        let key = trim_spec(l.take(char_pos(l, '=')));
        let value = unquote(trim_spec(l.skip(char_pos(l, '=') + 1)));
        if key.len() == 0 {
            None
        } else {
            Some((key, value))
        }
    }
}

/// The view of `VariableValue::Simple(v)`.
pub open spec fn simple_view(v: Seq<char>) -> VariableView {
    VariableView { value: v, description: None, expand: true, options: None, detailed: false }
}

/// The variables the lines define, each later line overriding the value of an earlier
/// one with the same key (the key keeps its first place).
pub open spec fn env_entries(lines: Seq<Seq<char>>) -> Seq<(Seq<char>, VariableView)>
    decreases lines.len(),
{
    if lines.len() == 0 {
        Seq::empty()
    } else {
        let prev = env_entries(lines.drop_last());
        match env_line(lines.last()) {
            Some(kv) => entries_insert(prev, kv.0, simple_view(kv.1)),
            None => prev,
        }
    }
}

fn unquote_string(s: String) -> (r: String)
    ensures
        r@ == unquote(s@),
{
    let v = chars_of(s.as_str());
    let n = v.len();
    if n >= 2 && v[0] == '"' && v[n - 1] == '"' {
        string_of_range(&v, 1, n - 1)
    } else {
        s
    }
}

fn parse_env_line(line: &str) -> (r: Option<(String, String)>)
    ensures
        match r {
            Some(kv) => env_line(line@) == Some((kv.0@, kv.1@)),
            None => env_line(line@) is None,
        },
{
    let l = trim(line);
    let v = chars_of(l.as_str());
    if v.len() == 0 || v[0] == '#' {
        return None;
    }
    match find_char(&v, '=') {
        None => None,
        Some(p) => {
            proof {
                lemma_char_pos(v@, '=');
            }
            let k0 = string_of_range(&v, 0, p);
            assert(k0@ =~= l@.take(p as int));
            let key = trim(k0.as_str());
            let v0 = string_of_range(&v, p + 1, v.len());
            assert(v0@ =~= l@.skip(p + 1));
            let t = trim(v0.as_str());
            let value = unquote_string(t);
            if key.unicode_len() == 0 {
                None
            } else {
                Some((key, value))
            }
        },
    }
}

/// The variables an env file defines, given its content (what `load_env_file` does
/// once the file is read). Lines are split at `\n`; a trailing `\r` goes with the
/// trimming.
pub fn parse_env_content(content: &str) -> (r: Variables)
    ensures
        var_entries(r) == env_entries(split_on(content@, '\n')),
{
    let lines = split_char(content, '\n');
    let ghost ls = views(lines@);
    let mut vars = vars_new();
    let mut i: usize = 0;
    while i < lines.len()
        invariant
            ls == views(lines@),
            ls == split_on(content@, '\n'),
            i <= lines@.len(),
            var_entries(vars) == env_entries(ls.take(i as int)),
        decreases lines@.len() - i,
    {
        assert(ls.take(i + 1).drop_last() =~= ls.take(i as int));
        assert(ls.take(i + 1).last() == lines@[i as int]@);
        match parse_env_line(lines[i].as_str()) {
            Some(kv) => {
                let (k, v) = kv;
                vars_insert(&mut vars, k, VariableValue::Simple(v));
            },
            None => {},
        }
        i = i + 1;
    }
    assert(ls.take(lines@.len() as int) =~= ls);
    vars
}


// ---------------------------------------------------------------------------
// GitLab project of a git remote
// ---------------------------------------------------------------------------
/// The GitLab project path a remote URL names: what follows the first `:` of a
/// `git@host:path` URL, or what follows the host of an `http(s)://host/path` URL,
/// either without trailing `.git`; `None` for any other URL.
pub open spec fn remote_project_path(url: Seq<char>) -> Option<Seq<char>> {
    if "git@"@.is_prefix_of(url) {
        Some(strip_suffixes(second_piece(url, ":"@), ".git"@))
    } else if "https://"@.is_prefix_of(url) || "http://"@.is_prefix_of(url) {
        Some(
            strip_suffixes(
                joined(split_on(second_piece(url, "//"@), '/').skip(1), "/"@),
                ".git"@,
            ),
        )
    } else {
        None
    }
}

/// The parent groups of a project path, innermost first: the `/`-separated parts
/// but the last, then but the last two, and so on down to the first part alone.
pub open spec fn parent_groups(project: Seq<char>) -> Seq<Seq<char>> {
    let parts = split_on(project, '/');
    Seq::new((parts.len() - 1) as nat, |j: int| joined(parts.take(parts.len() - 1 - j), "/"@))
}

/// The parent groups of a project path.
pub fn parent_group_paths(project: &str) -> (r: Vec<String>)
    ensures
        views(r@) == parent_groups(project@),
{
    let parts = split_char(project, '/');
    let ghost ps = views(parts@);
    proof {
        lemma_split_on_len(project@, '/');
    }
    let n = parts.len();
    let mut groups: Vec<String> = Vec::new();
    let mut i: usize = n - 1;
    while i >= 1
        invariant
            ps == views(parts@),
            ps == split_on(project@, '/'),
            n == ps.len(),
            n >= 1,
            i < n,
            groups@.len() == n - 1 - i,
            forall|j: int|
                0 <= j < groups@.len() ==> #[trigger] groups@[j]@ == joined(
                    ps.take(n - 1 - j),
                    "/"@,
                ),
        decreases i,
    {
        let prefix = strings_range(&parts, 0, i);
        assert(views(prefix@) =~= ps.take(i as int));
        let g = join_strings(&prefix, "/");
        groups.push(g);
        i = i - 1;
    }
    assert(views(groups@) =~= parent_groups(project@));
    groups
}

/// The GitLab project path and its parent groups, from the URL of the `origin` remote
/// (what `detect_gitlab_paths` computes once `git remote get-url origin` has answered).
/// A URL that is neither `git@…` nor `http(s)://…` is refused.
pub fn parse_gitlab_remote(remote: &str) -> (r: Result<(String, Vec<String>), LabError>)
    ensures
        match remote_project_path(trim_spec(remote@)) {
            Some(p) => match r {
                Ok(v) => v.0@ == p && views(v.1@) == parent_groups(p),
                Err(_) => false,
            },
            None => match r {
                Ok(_) => false,
                Err(e) => e is Other && error_message(e) == "unrecognized git remote URL: "@
                    + trim_spec(remote@),
            },
        },
{
    let url = trim(remote);
    let project: String;
    if starts_with(url.as_str(), "git@") {
        let after = second_piece_of(url.as_str(), ":");
        project = trim_end_matches(after.as_str(), ".git");
    } else if starts_with(url.as_str(), "https://") || starts_with(url.as_str(), "http://") {
        let rest = second_piece_of(url.as_str(), "//");
        let parts = split_char(rest.as_str(), '/');
        proof {
            lemma_split_on_len(rest@, '/');
        }
        let tail = strings_range(&parts, 1, parts.len());
        assert(views(tail@) =~= views(parts@).skip(1));
        let path = join_strings(&tail, "/");
        project = trim_end_matches(path.as_str(), ".git");
    } else {
        return Err(LabError::Other(concat("unrecognized git remote URL: ", url.as_str())));
    }
    let groups = parent_group_paths(project.as_str());
    Ok((project, groups))
}

// ---------------------------------------------------------------------------
// Pulling variables from GitLab
// ---------------------------------------------------------------------------
/// Metadata about a GitLab CI/CD variable.
#[derive(Debug)]
pub struct GitLabVarMeta {
    pub key: String,
    pub value: String,
    pub protected: bool,
    pub masked: bool,
    pub hidden: bool,
    pub environment_scope: String,
}

pub struct GitLabVarView {
    pub key: Seq<char>,
    pub value: Seq<char>,
    pub protected: bool,
    pub masked: bool,
    pub hidden: bool,
    pub environment_scope: Seq<char>,
}

impl View for GitLabVarMeta {
    type V = GitLabVarView;

    open spec fn view(&self) -> GitLabVarView {
        GitLabVarView {
            key: self.key@,
            value: self.value@,
            protected: self.protected,
            masked: self.masked,
            hidden: self.hidden,
            environment_scope: self.environment_scope@,
        }
    }
}

/// Result of pulling secrets, with what was left out and why.
#[derive(Debug)]
pub struct PullResult {
    pub included: Variables,
    pub skipped_protected: Vec<String>,
    pub skipped_hidden: Vec<String>,
    pub skipped_scope: Vec<(String, String)>,
    pub masked_keys: Vec<String>,
}

pub struct PullView {
    pub included: Seq<(Seq<char>, VariableView)>,
    pub skipped_protected: Seq<Seq<char>>,
    pub skipped_hidden: Seq<Seq<char>>,
    pub skipped_scope: Seq<(Seq<char>, Seq<char>)>,
    pub masked_keys: Seq<Seq<char>>,
}

pub open spec fn scope_views(v: Seq<(String, String)>) -> Seq<(Seq<char>, Seq<char>)> {
    v.map_values(|p: (String, String)| (p.0@, p.1@))
}

impl View for PullResult {
    type V = PullView;

    open spec fn view(&self) -> PullView {
        PullView {
            included: var_entries(self.included),
            skipped_protected: views(self.skipped_protected@),
            skipped_hidden: views(self.skipped_hidden@),
            skipped_scope: scope_views(self.skipped_scope@),
            masked_keys: views(self.masked_keys@),
        }
    }
}

impl Default for PullResult {
    fn default() -> (r: PullResult)
        ensures
            r@ == empty_pull(),
    {
        let r = PullResult {
            included: vars_new(),
            skipped_protected: Vec::new(),
            skipped_hidden: Vec::new(),
            skipped_scope: Vec::new(),
            masked_keys: Vec::new(),
        };
        assert(r@.skipped_scope =~= Seq::<(Seq<char>, Seq<char>)>::empty());
        assert(r@.skipped_hidden =~= Seq::<Seq<char>>::empty());
        assert(r@.skipped_protected =~= Seq::<Seq<char>>::empty());
        assert(r@.masked_keys =~= Seq::<Seq<char>>::empty());
        r
    }
}

pub open spec fn empty_pull() -> PullView {
    PullView {
        included: Seq::empty(),
        skipped_protected: Seq::empty(),
        skipped_hidden: Seq::empty(),
        skipped_scope: Seq::empty(),
        masked_keys: Seq::empty(),
    }
}

/// One fetched variable applied to the result: a hidden one, or one without a value, is
/// skipped; a protected one is skipped unless the branch is protected; any other is
/// included (overriding an earlier one with the same key), noted as masked when it is,
/// and noted with its scope when that scope is not `*`.
pub open spec fn pull_step(acc: PullView, m: GitLabVarView, branch_protected: bool) -> PullView {
    if m.hidden || m.value.len() == 0 {
        PullView {
            included: acc.included,
            skipped_protected: acc.skipped_protected,
            skipped_hidden: acc.skipped_hidden.push(m.key),
            skipped_scope: acc.skipped_scope,
            masked_keys: acc.masked_keys,
        }
    } else if m.protected && !branch_protected {
        PullView {
            included: acc.included,
            skipped_protected: acc.skipped_protected.push(m.key),
            skipped_hidden: acc.skipped_hidden,
            skipped_scope: acc.skipped_scope,
            masked_keys: acc.masked_keys,
        }
    } else {
        PullView {
            included: entries_insert(acc.included, m.key, simple_view(m.value)),
            skipped_protected: acc.skipped_protected,
            skipped_hidden: acc.skipped_hidden,
            skipped_scope: if m.environment_scope != seq!['*'] {
                acc.skipped_scope.push((m.key, m.environment_scope))
            } else {
                acc.skipped_scope
            },
            masked_keys: if m.masked {
                acc.masked_keys.push(m.key)
            } else {
                acc.masked_keys
            },
        }
    }
}

/// Every fetched variable applied in order, from an empty result.
pub open spec fn pull_fold(vars: Seq<GitLabVarView>, branch_protected: bool) -> PullView
    decreases vars.len(),
{
    if vars.len() == 0 {
        empty_pull()
    } else {
        pull_step(pull_fold(vars.drop_last(), branch_protected), vars.last(), branch_protected)
    }
}

pub open spec fn meta_views(v: Seq<GitLabVarMeta>) -> Seq<GitLabVarView> {
    v.map_values(|m: GitLabVarMeta| m@)
}

/// The decisions of `pull_secrets_full` once the variables of the groups (outermost
/// first) and then of the project were fetched, in that order, and it is known whether
/// the current branch is protected.
pub fn filter_pulled_variables(all_raw: Vec<GitLabVarMeta>, branch_protected: bool) -> (r:
    PullResult)
    ensures
        r@ == pull_fold(meta_views(all_raw@), branch_protected),
{
    let ghost ms = meta_views(all_raw@);
    let mut result = PullResult::default();
    let ghost orig = all_raw@;
    let mut rest = all_raw;
    let ghost total = orig.len();
    assert(ms.take(0) =~= Seq::<GitLabVarView>::empty());
    assert(orig.skip(0) =~= orig);
    while rest.len() > 0
        invariant
            ms == meta_views(orig),
            ms.len() == total,
            rest@.len() <= total,
            rest@ == orig.skip(total - rest@.len()),
            result@ == pull_fold(ms.take(total - rest@.len()), branch_protected),
        decreases rest@.len(),
    {
        let ghost done = total - rest@.len();
        let var = rest.remove(0);
        assert(var == orig[done]);
        assert(rest@ =~= orig.skip(done + 1));
        assert(var@ == ms[done]);
        assert(ms.take(done + 1).drop_last() =~= ms.take(done));
        let GitLabVarMeta { key, value, protected, masked, hidden, environment_scope } = var;
        let ghost before = result@;
        if hidden || value.unicode_len() == 0 {
            result.skipped_hidden.push(key);
            assert(result@.skipped_hidden =~= before.skipped_hidden.push(var@.key));
        } else if protected && !branch_protected {
            result.skipped_protected.push(key);
            assert(result@.skipped_protected =~= before.skipped_protected.push(var@.key));
        } else {
            if masked {
                result.masked_keys.push(key.clone());
                assert(result@.masked_keys =~= before.masked_keys.push(var@.key));
            }
            if !str_eq(environment_scope.as_str(), "*") {
                proof {
                    reveal_strlit("*");
                    assert("*"@ =~= seq!['*']);
                }
                result.skipped_scope.push((key.clone(), environment_scope));
                assert(result@.skipped_scope =~= before.skipped_scope.push(
                    (var@.key, var@.environment_scope),
                ));
            } else {
                proof {
                    reveal_strlit("*");
                    assert("*"@ =~= seq!['*']);
                }
            }
            vars_insert(&mut result.included, key, VariableValue::Simple(value));
        }
        assert(result@ == pull_step(before, var@, branch_protected));
    }
    assert(ms.take(total as int) =~= ms);
    result
}

/// `%`-encoding of `/` and of the space, enough for a branch name in an API path.
pub open spec fn url_encoded(s: Seq<char>) -> Seq<char> {
    replace_spec(replace_spec(s, "/"@, "%2F"@), " "@, "%20"@)
}

/// `s` with `/` written `%2F` and spaces `%20`.
pub fn urlencoding_simple(s: &str) -> (r: String)
    ensures
        r@ == url_encoded(s@),
{
    proof {
        reveal_strlit("/");
        reveal_strlit(" ");
    }
    let a = replace(s, "/", "%2F");
    replace(a.as_str(), " ", "%20")
}

/// The GitLab API path that answers whether `branch` of `project` is protected.
pub fn protected_branch_api_path(project: &str, branch: &str) -> (r: String)
    ensures
        r@ == "projects/"@ + replace_spec(project@, "/"@, "%2F"@) + "/protected_branches/"@
            + url_encoded(branch@),
{
    proof {
        reveal_strlit("/");
    }
    let p = replace(project, "/", "%2F");
    let b = urlencoding_simple(branch);
    let x = concat3("projects/", p.as_str(), "/protected_branches/");
    concat(x.as_str(), b.as_str())
}

/// One variable as the secrets file holds it: `KEY=VALUE`, after a comment line when the
/// value holds a newline or a double quote.
pub open spec fn secrets_file_entry(key: Seq<char>, value: Seq<char>) -> Seq<char> {
    let note = if value.contains('\n') || value.contains('"') {
        "# "@ + key + " (contains special chars, stored as-is)\n"@
    } else {
        Seq::empty()
    };
    note + key + "="@ + value + "\n"@
}

pub open spec fn secrets_file_body(e: Seq<(Seq<char>, VariableView)>) -> Seq<char>
    decreases e.len(),
{
    if e.len() == 0 {
        Seq::empty()
    } else {
        secrets_file_body(e.drop_last()) + secrets_file_entry(e.last().0, e.last().1.value)
    }
}

/// The content `save_secrets_file` writes: a header line, a blank line, then every
/// variable in order.
pub open spec fn secrets_file_text(e: Seq<(Seq<char>, VariableView)>) -> Seq<char> {
    "# Generated by `lab secrets pull`\n\n"@ + secrets_file_body(e)
}

/// The content of the secrets file for `vars`.
pub fn render_secrets_file(vars: &Variables) -> (r: String)
    ensures
        r@ == secrets_file_text(var_entries(*vars)),
{
    let ghost e = var_entries(*vars);
    let mut content = String::from_str("# Generated by `lab secrets pull`\n\n");
    let n = vars_len(vars);
    let mut i: usize = 0;
    assert(e.take(0) =~= Seq::<(Seq<char>, VariableView)>::empty());
    while i < n
        invariant
            e == var_entries(*vars),
            n == e.len(),
            i <= n,
            content@ == secrets_file_text(e.take(i as int)),
        decreases n - i,
    {
        let (key, val) = vars_get_index(vars, i);
        let value = val.value();
        let ghost before = content@;
        assert(e.take(i + 1).drop_last() =~= e.take(i as int));
        assert(e.take(i + 1).last() == e[i as int]);
        if contains_char(value, '\n') || contains_char(value, '"') {
            content.append("# ");
            content.append(key.as_str());
            content.append(" (contains special chars, stored as-is)\n");
        }
        content.append(key.as_str());
        content.append("=");
        content.append(value);
        content.append("\n");
        assert(content@ =~= before + secrets_file_entry(key@, value@));
        i = i + 1;
    }
    assert(e.take(n as int) =~= e);
    content
}

// ---------------------------------------------------------------------------
// Variables a pipeline references
// ---------------------------------------------------------------------------
/// The text of capture group 1 of every non-overlapping match of `pattern` in `text`,
/// leftmost first (empty where the group took no part), or `None` when `pattern` is
/// not a valid regular expression.
pub uninterp spec fn regex_group_one(pattern: Seq<char>, text: Seq<char>) -> Option<
    Seq<Seq<char>>,
>;

/// `regex::Regex::new(pattern)` and, when it compiles, `Regex::captures_iter(text)` read
/// at group 1. The contract names the result and claims nothing more of it.
#[verifier::external_body]
fn regex_captures_one(pattern: &str, text: &str) -> (r: Option<Vec<String>>)
    ensures
        match r {
            Some(v) => regex_group_one(pattern@, text@) == Some(views(v@)),
            None => regex_group_one(pattern@, text@) is None,
        },
{
    match regex::Regex::new(pattern) {
        Ok(re) => Some(
            re.captures_iter(text).map(
                |c: regex::Captures| c.get(1).map_or(String::new(), |m| m.as_str().to_string()),
            ).collect(),
        ),
        Err(_) => None,
    }
}

/// The names a text references as `$NAME` or `${NAME}`, in order.
pub open spec fn text_refs(text: Seq<char>) -> Seq<Seq<char>> {
    match regex_group_one(VAR_REFERENCE_PATTERN@, text) {
        Some(v) => v,
        None => Seq::empty(),
    }
}

/// The names a text references.
pub fn references_in(text: &str) -> (r: Vec<String>)
    ensures
        views(r@) == text_refs(text@),
{
    match regex_captures_one(VAR_REFERENCE_PATTERN, text) {
        Some(v) => v,
        None => Vec::new(),
    }
}

pub open spec fn opt_lines(o: Option<Seq<Seq<char>>>) -> Seq<Seq<char>> {
    match o {
        Some(v) => v,
        None => Seq::empty(),
    }
}

/// The values of the entries, in order.
pub open spec fn entry_values(e: Seq<(Seq<char>, VariableView)>) -> Seq<Seq<char>> {
    e.map_values(|p: (Seq<char>, VariableView)| p.1.value)
}

/// The texts of a job that can reference variables: its `script`, `before_script` and
/// `after_script` lines, then the values of its variables.
pub open spec fn job_texts(j: JobView) -> Seq<Seq<char>> {
    j.script + opt_lines(j.before_script) + opt_lines(j.after_script) + entry_values(j.variables)
}

fn extend_strings(dst: &mut Vec<String>, src: &Vec<String>)
    ensures
        views(final(dst)@) == views(old(dst)@) + views(src@),
{
    let ghost start = views(dst@);
    let mut i: usize = 0;
    while i < src.len()
        invariant
            i <= src@.len(),
            views(dst@) == start + views(src@).take(i as int),
        decreases src@.len() - i,
    {
        let ghost before = views(dst@);
        dst.push(src[i].clone());
        assert(views(dst@) =~= before.push(src@[i as int]@));
        assert(views(src@).take(i + 1) =~= views(src@).take(i as int).push(src@[i as int]@));
        i = i + 1;
    }
    assert(views(src@).take(src@.len() as int) =~= views(src@));
}

/// The texts of a job that can reference variables.
pub fn collect_job_texts(job: &Job) -> (r: Vec<String>)
    ensures
        views(r@) == job_texts(job@),
{
    let mut texts: Vec<String> = Vec::new();
    extend_strings(&mut texts, &job.script);
    assert(views(texts@) =~= job@.script);
    match &job.before_script {
        Some(bs) => extend_strings(&mut texts, bs),
        None => {},
    }
    assert(views(texts@) =~= job@.script + opt_lines(job@.before_script));
    match &job.after_script {
        Some(a) => extend_strings(&mut texts, a),
        None => {},
    }
    let ghost head = views(texts@);
    assert(head =~= job@.script + opt_lines(job@.before_script) + opt_lines(job@.after_script));
    let ghost e = var_entries(job.variables);
    let n = vars_len(&job.variables);
    let mut i: usize = 0;
    while i < n
        invariant
            e == var_entries(job.variables),
            n == e.len(),
            i <= n,
            views(texts@) == head + entry_values(e).take(i as int),
        decreases n - i,
    {
        let (_, val) = vars_get_index(&job.variables, i);
        let ghost before = views(texts@);
        texts.push(String::from_str(val.value()));
        assert(views(texts@) =~= before.push(e[i as int].1.value));
        assert(entry_values(e).take(i + 1) =~= entry_values(e).take(i as int).push(
            e[i as int].1.value,
        ));
        i = i + 1;
    }
    assert(entry_values(e).take(n as int) =~= entry_values(e));
    texts
}

/// The names the texts reference, text after text.
pub open spec fn texts_refs(texts: Seq<Seq<char>>) -> Seq<Seq<char>>
    decreases texts.len(),
{
    if texts.len() == 0 {
        Seq::empty()
    } else {
        texts_refs(texts.drop_last()) + text_refs(texts.last())
    }
}

/// The names the jobs reference, job after job.
pub open spec fn jobs_refs(jobs: Seq<(Seq<char>, JobView)>) -> Seq<Seq<char>>
    decreases jobs.len(),
{
    if jobs.len() == 0 {
        Seq::empty()
    } else {
        jobs_refs(jobs.drop_last()) + texts_refs(job_texts(jobs.last().1))
    }
}

/// The names a pipeline's jobs reference, each once, in ascending order.
pub open spec fn sorted_refs(jobs: Seq<(Seq<char>, JobView)>) -> Seq<Seq<char>> {
    choose|s: Seq<Seq<char>>|
        sorted_strict(s) && forall|y: Seq<char>| s.contains(y) <==> jobs_refs(jobs).contains(y)
}

/// Add every name of `names` to a strictly ascending list.
fn insert_all_sorted(acc: &mut Vec<String>, names: Vec<String>)
    requires
        sorted_strict(views(old(acc)@)),
    ensures
        sorted_strict(views(final(acc)@)),
        forall|y: Seq<char>|
            #![trigger views(final(acc)@).contains(y)]
            views(final(acc)@).contains(y) <==> (views(old(acc)@).contains(y) || views(
                names@,
            ).contains(y)),
{
    let ghost start = views(acc@);
    let ghost ns = views(names@);
    let mut rest = names;
    let ghost total = ns.len();
    while rest.len() > 0
        invariant
            total == ns.len(),
            rest@.len() <= total,
            views(rest@) == ns.skip(total - rest@.len()),
            sorted_strict(views(acc@)),
            forall|y: Seq<char>|
                #![trigger views(acc@).contains(y)]
                views(acc@).contains(y) <==> (start.contains(y) || ns.take(
                    total - rest@.len(),
                ).contains(y)),
        decreases rest@.len(),
    {
        let ghost done = total - rest@.len();
        let ghost before = views(acc@);
        let ghost old_rest = rest@;
        let x = rest.remove(0);
        assert forall|j: int| 0 <= j < rest@.len() implies #[trigger] views(rest@)[j] == ns.skip(
            done + 1,
        )[j] by {
            assert(rest@[j] == old_rest[j + 1]);
            assert(views(old_rest)[j + 1] == ns.skip(done)[j + 1]);
        }
        assert(views(rest@) =~= ns.skip(done + 1));
        assert(x@ == ns[done]) by {
            assert(ns.skip(done)[0] == ns[done]);
        }
        insert_sorted_unique(acc, x);
        assert(ns.take(done + 1) =~= ns.take(done) + seq![ns[done]]);
        assert forall|y: Seq<char>|
            views(acc@).contains(y) <==> (start.contains(y) || ns.take(done + 1).contains(
                y,
            )) by {
            lemma_contains_concat(ns.take(done), seq![ns[done]], y);
            if y == ns[done] {
                assert(seq![ns[done]][0] == y);
            }
        }
    }
    assert(ns.take(total as int) =~= ns);
    assert forall|y: Seq<char>|
        #![trigger views(acc@).contains(y)]
        views(acc@).contains(y) <==> (start.contains(y) || ns.contains(y)) by {
        assert(ns.take(total as int) == ns);
    }
}

/// The names the jobs of a pipeline reference (`find_referenced_variables`): each once,
/// in ascending order.
pub fn find_referenced_variables(pipeline: &Pipeline) -> (r: Vec<String>)
    ensures
        views(r@) == sorted_refs(job_entries(pipeline.jobs)),
        sorted_strict(views(r@)),
        forall|y: Seq<char>| views(r@).contains(y) <==> jobs_refs(job_entries(pipeline.jobs)).contains(y),
{
    let ghost jobs = job_entries(pipeline.jobs);
    let mut refs: Vec<String> = Vec::new();
    let n = jobs_len(&pipeline.jobs);
    let mut i: usize = 0;
    assert(jobs.take(0) =~= Seq::<(Seq<char>, JobView)>::empty());
    while i < n
        invariant
            jobs == job_entries(pipeline.jobs),
            n == jobs.len(),
            i <= n,
            sorted_strict(views(refs@)),
            forall|y: Seq<char>|
                #![trigger views(refs@).contains(y)]
                views(refs@).contains(y) <==> jobs_refs(jobs.take(i as int)).contains(y),
        decreases n - i,
    {
        let (_, job) = jobs_get_index(&pipeline.jobs, i);
        let texts = collect_job_texts(job);
        let ghost tv = views(texts@);
        let ghost before = views(refs@);
        let mut k: usize = 0;
        assert(tv.take(0) =~= Seq::<Seq<char>>::empty());
        while k < texts.len()
            invariant
                tv == views(texts@),
                k <= tv.len(),
                sorted_strict(views(refs@)),
                forall|y: Seq<char>|
                    #![trigger views(refs@).contains(y)]
                    views(refs@).contains(y) <==> (before.contains(y) || texts_refs(tv.take(k as int)).contains(y)),
            decreases tv.len() - k,
        {
            let names = references_in(texts[k].as_str());
            let ghost mid = views(refs@);
            let ghost nv = views(names@);
            assert(tv[k as int] == texts@[k as int]@);
            assert(nv == text_refs(tv[k as int]));
            insert_all_sorted(&mut refs, names);
            assert(tv.take(k + 1).drop_last() =~= tv.take(k as int));
            assert(tv.take(k + 1).last() == texts@[k as int]@);
            assert(texts_refs(tv.take(k + 1)) == texts_refs(tv.take(k as int)) + text_refs(tv[k as int]));
            assert forall|y: Seq<char>|
                #![trigger views(refs@).contains(y)]
                views(refs@).contains(y) <==> (before.contains(y) || texts_refs(tv.take(k + 1)).contains(y)) by {
                lemma_contains_concat(texts_refs(tv.take(k as int)), text_refs(tv[k as int]), y);
                assert(views(refs@).contains(y) <==> (mid.contains(y) || nv.contains(y)));
                assert(mid.contains(y) <==> (before.contains(y) || texts_refs(tv.take(k as int)).contains(y)));
            }
            k = k + 1;
        }
        assert(tv.take(tv.len() as int) =~= tv);
        assert(jobs.take(i + 1).drop_last() =~= jobs.take(i as int));
        assert(jobs.take(i + 1).last() == jobs[i as int]);
        assert(jobs_refs(jobs.take(i + 1)) == jobs_refs(jobs.take(i as int)) + texts_refs(job_texts(jobs[i as int].1)));
        assert forall|y: Seq<char>|
            #![trigger views(refs@).contains(y)]
            views(refs@).contains(y) <==> jobs_refs(jobs.take(i + 1)).contains(y) by {
            lemma_contains_concat(jobs_refs(jobs.take(i as int)), texts_refs(job_texts(jobs[i as int].1)), y);
        }
        i = i + 1;
    }
    assert(jobs.take(n as int) =~= jobs);
    proof {
        let s = sorted_refs(jobs);
        assert(exists|s: Seq<Seq<char>>|
            sorted_strict(s) && forall|y: Seq<char>| s.contains(y) <==> jobs_refs(jobs).contains(y)) by {
            assert(sorted_strict(views(refs@)));
        }
        lemma_sorted_unique(views(refs@), s);
    }
    refs
}

// ---------------------------------------------------------------------------
// Variables a pipeline defines, and those it lacks
// ---------------------------------------------------------------------------
/// Whether the variables of some job define `name`.
pub open spec fn jobs_define(jobs: Seq<(Seq<char>, JobView)>, name: Seq<char>) -> bool
    decreases jobs.len(),
{
    jobs.len() > 0 && (jobs_define(jobs.drop_last(), name) || has_key(
        jobs.last().1.variables,
        name,
    ))
}

/// Whether a pipeline defines `name`: among its global variables or those of a job.
pub open spec fn pipeline_defines(
    globals: Seq<(Seq<char>, VariableView)>,
    jobs: Seq<(Seq<char>, JobView)>,
    name: Seq<char>,
) -> bool {
    has_key(globals, name) || jobs_define(jobs, name)
}

/// Add the keys of `vars` to `acc`, each at most once.
fn add_keys(acc: &mut Vec<String>, vars: &Variables)
    ensures
        forall|y: Seq<char>|
            #![trigger views(final(acc)@).contains(y)]
            views(final(acc)@).contains(y) <==> (views(old(acc)@).contains(y) || has_key(
                var_entries(*vars),
                y,
            )),
{
    let ghost e = var_entries(*vars);
    let ghost start = views(acc@);
    let n = vars_len(vars);
    let mut i: usize = 0;
    while i < n
        invariant
            e == var_entries(*vars),
            n == e.len(),
            i <= n,
            forall|y: Seq<char>|
                #![trigger views(acc@).contains(y)]
                views(acc@).contains(y) <==> (start.contains(y) || has_key(e.take(i as int), y)),
        decreases n - i,
    {
        let (k, _) = vars_get_index(vars, i);
        let ghost before = views(acc@);
        assert(e.take(i + 1).drop_last() =~= e.take(i as int));
        assert(e.take(i + 1).last() == e[i as int]);
        if !string_in(acc, k.as_str()) {
            acc.push(k.clone());
            assert(views(acc@) =~= before.push(k@));
        }
        assert forall|y: Seq<char>|
            #![trigger views(acc@).contains(y)]
            views(acc@).contains(y) <==> (start.contains(y) || has_key(e.take(i + 1), y)) by {
            lemma_contains_concat(before, seq![k@], y);
            if y == k@ {
                assert(seq![k@][0] == y);
            }
            if views(acc@) =~= before.push(k@) {
                assert(before.push(k@) =~= before + seq![k@]);
            }
        }
        i = i + 1;
    }
    assert(e.take(n as int) =~= e);
}

/// The names a pipeline defines (`find_defined_variables`): its global variables and
/// those of its jobs, each once.
pub fn find_defined_variables(pipeline: &Pipeline) -> (r: Vec<String>)
    ensures
        forall|y: Seq<char>|
            #![trigger views(r@).contains(y)]
            views(r@).contains(y) <==> pipeline_defines(
                var_entries(pipeline.variables),
                job_entries(pipeline.jobs),
                y,
            ),
{
    let ghost jobs = job_entries(pipeline.jobs);
    let mut defined: Vec<String> = Vec::new();
    add_keys(&mut defined, &pipeline.variables);
    let n = jobs_len(&pipeline.jobs);
    let mut i: usize = 0;
    while i < n
        invariant
            jobs == job_entries(pipeline.jobs),
            n == jobs.len(),
            i <= n,
            forall|y: Seq<char>|
                #![trigger views(defined@).contains(y)]
                views(defined@).contains(y) <==> pipeline_defines(
                    var_entries(pipeline.variables),
                    jobs.take(i as int),
                    y,
                ),
        decreases n - i,
    {
        let (_, job) = jobs_get_index(&pipeline.jobs, i);
        add_keys(&mut defined, &job.variables);
        assert(jobs.take(i + 1).drop_last() =~= jobs.take(i as int));
        assert(jobs.take(i + 1).last() == jobs[i as int]);
        i = i + 1;
    }
    assert(jobs.take(n as int) =~= jobs);
    defined
}

/// Whether `text` mentions the variable `name` as `$name` or `${name}`.
pub open spec fn mentions(text: Seq<char>, name: Seq<char>) -> bool {
    contains_seq(text, "$"@ + name) || contains_seq(text, "${"@ + name + "}"@)
}

/// The texts of a job joined with spaces, as searched for mentions.
pub open spec fn job_text(j: JobView) -> Seq<char> {
    joined(job_texts(j), " "@)
}

fn mentions_exec(text: &str, name: &str) -> (r: bool)
    ensures
        r == mentions(text@, name@),
{
    let a = concat("$", name);
    let b = concat3("${", name, "}");
    contains(text, a.as_str()) || contains(text, b.as_str())
}

/// The names of the jobs, in order, whose texts mention `name`.
pub open spec fn jobs_using(jobs: Seq<(Seq<char>, JobView)>, name: Seq<char>) -> Seq<Seq<char>>
    decreases jobs.len(),
{
    if jobs.len() == 0 {
        Seq::empty()
    } else {
        let prev = jobs_using(jobs.drop_last(), name);
        if mentions(job_text(jobs.last().1), name) {
            prev.push(jobs.last().0)
        } else {
            prev
        }
    }
}

fn jobs_using_exec(pipeline: &Pipeline, name: &str) -> (r: Vec<String>)
    ensures
        views(r@) == jobs_using(job_entries(pipeline.jobs), name@),
{
    let ghost jobs = job_entries(pipeline.jobs);
    let mut out: Vec<String> = Vec::new();
    let n = jobs_len(&pipeline.jobs);
    let mut i: usize = 0;
    assert(views(out@) =~= jobs_using(jobs.take(0), name@));
    while i < n
        invariant
            jobs == job_entries(pipeline.jobs),
            n == jobs.len(),
            i <= n,
            views(out@) == jobs_using(jobs.take(i as int), name@),
        decreases n - i,
    {
        let (jname, job) = jobs_get_index(&pipeline.jobs, i);
        let texts = collect_job_texts(job);
        let combined = join_strings(&texts, " ");
        assert(jobs.take(i + 1).drop_last() =~= jobs.take(i as int));
        assert(jobs.take(i + 1).last() == jobs[i as int]);
        if mentions_exec(combined.as_str(), name) {
            let ghost before = views(out@);
            out.push(jname.clone());
            assert(views(out@) =~= before.push(jname@));
        }
        i = i + 1;
    }
    assert(jobs.take(n as int) =~= jobs);
    out
}

/// A variable a pipeline needs and lacks, with the jobs that use it.
pub struct MissingSecret {
    pub name: String,
    pub used_in_jobs: Vec<String>,
}

pub struct MissingView {
    pub name: Seq<char>,
    pub used_in_jobs: Seq<Seq<char>>,
}

impl View for MissingSecret {
    type V = MissingView;

    open spec fn view(&self) -> MissingView {
        MissingView { name: self.name@, used_in_jobs: views(self.used_in_jobs@) }
    }
}

pub open spec fn missing_views(v: Seq<MissingSecret>) -> Seq<MissingView> {
    v.map_values(|m: MissingSecret| m@)
}

/// Names that GitLab provides itself, not checked for.
pub open spec fn predefined_name(name: Seq<char>) -> bool {
    "CI_"@.is_prefix_of(name) || "GITLAB_"@.is_prefix_of(name)
}

/// Whether a referenced name is missing: the pipeline does not define it, nothing
/// available holds it, and GitLab does not provide it.
pub open spec fn is_missing(
    name: Seq<char>,
    globals: Seq<(Seq<char>, VariableView)>,
    jobs: Seq<(Seq<char>, JobView)>,
    available: Seq<(Seq<char>, VariableView)>,
) -> bool {
    !pipeline_defines(globals, jobs, name) && !has_key(available, name) && !predefined_name(name)
}

/// The missing names among `names`, in order, each with the jobs that use it.
pub open spec fn missing_secrets(
    names: Seq<Seq<char>>,
    globals: Seq<(Seq<char>, VariableView)>,
    jobs: Seq<(Seq<char>, JobView)>,
    available: Seq<(Seq<char>, VariableView)>,
) -> Seq<MissingView>
    decreases names.len(),
{
    if names.len() == 0 {
        Seq::empty()
    } else {
        let prev = missing_secrets(names.drop_last(), globals, jobs, available);
        let n = names.last();
        if is_missing(n, globals, jobs, available) {
            prev.push(MissingView { name: n, used_in_jobs: jobs_using(jobs, n) })
        } else {
            prev
        }
    }
}

/// The variables a pipeline references but neither defines nor finds in `available`,
/// nor gets from GitLab (`CI_…`, `GITLAB_…`), in ascending order, each with the jobs
/// that use it.
pub fn check_secrets(pipeline: &Pipeline, available: &Variables) -> (r: Vec<MissingSecret>)
    ensures
        missing_views(r@) == missing_secrets(
            sorted_refs(job_entries(pipeline.jobs)),
            var_entries(pipeline.variables),
            job_entries(pipeline.jobs),
            var_entries(*available),
        ),
{
    let ghost globals = var_entries(pipeline.variables);
    let ghost jobs = job_entries(pipeline.jobs);
    let ghost avail = var_entries(*available);
    let referenced = find_referenced_variables(pipeline);
    let defined = find_defined_variables(pipeline);
    let ghost names = views(referenced@);
    let mut missing: Vec<MissingSecret> = Vec::new();
    let mut i: usize = 0;
    assert(missing_views(missing@) =~= missing_secrets(names.take(0), globals, jobs, avail));
    while i < referenced.len()
        invariant
            names == views(referenced@),
            i <= names.len(),
            globals == var_entries(pipeline.variables),
            jobs == job_entries(pipeline.jobs),
            avail == var_entries(*available),
            forall|y: Seq<char>|
                #![trigger views(defined@).contains(y)]
                views(defined@).contains(y) <==> pipeline_defines(globals, jobs, y),
            missing_views(missing@) == missing_secrets(names.take(i as int), globals, jobs, avail),
        decreases names.len() - i,
    {
        let name = &referenced[i];
        assert(names.take(i + 1).drop_last() =~= names.take(i as int));
        assert(names.take(i + 1).last() == name@);
        let is_defined = string_in(&defined, name.as_str());
        let present = match vars_index_of(available, name.as_str()) {
            Some(_) => true,
            None => false,
        };
        let pre = starts_with(name.as_str(), "CI_") || starts_with(name.as_str(), "GITLAB_");
        if !is_defined && !present && !pre {
            let used = jobs_using_exec(pipeline, name.as_str());
            let ghost before = missing_views(missing@);
            let m = MissingSecret { name: name.clone(), used_in_jobs: used };
            missing.push(m);
            assert(missing_views(missing@) =~= before.push(m@));
        }
        i = i + 1;
    }
    assert(names.take(names.len() as int) =~= names);
    missing
}

/// Whether `$name` stands at position `i` of `text` as a whole reference: no name
/// character follows it.
pub open spec fn bare_ref_at(text: Seq<char>, name: Seq<char>, i: int) -> bool {
    occurs_at(text, "$"@ + name, i) && (i + name.len() + 1 == text.len() || !is_name_char(
        text[i + name.len() + 1],
    ))
}

/// Whether `text` references the variable `name`: as `${name}`, or as `$name` not
/// followed by a character of `[A-Za-z0-9_]` (so `$AWS_KEY` does not reference `AWS`).
pub open spec fn references_var(text: Seq<char>, name: Seq<char>) -> bool {
    contains_seq(text, "${"@ + name + "}"@) || exists|i: int| bare_ref_at(text, name, i)
}

fn references_exec(text: &str, name: &str) -> (r: bool)
    ensures
        r == references_var(text@, name@),
{
    let braced = concat3("${", name, "}");
    if contains(text, braced.as_str()) {
        return true;
    }
    let v = chars_of(text);
    let dollar = concat("$", name);
    let pv = chars_of(dollar.as_str());
    proof {
        reveal_strlit("$");
        assert(pv@.len() == name@.len() + 1);
    }
    let mut i: usize = 0;
    while i < v.len()
        invariant
            v@ == text@,
            pv@ == "$"@ + name@,
            pv@.len() == name@.len() + 1,
            i <= v@.len(),
            forall|j: int| 0 <= j < i ==> !bare_ref_at(text@, name@, j),
        decreases v@.len() - i,
    {
        if occurs_at_exec(&v, &pv, i) {
            let end = i + pv.len();
            if end == v.len() {
                assert(bare_ref_at(text@, name@, i as int));
                return true;
            }
            if !char_is_name(v[end]) {
                assert(bare_ref_at(text@, name@, i as int));
                return true;
            }
        }
        i = i + 1;
    }
    assert forall|j: int| !bare_ref_at(text@, name@, j) by {
        if j >= v@.len() {
            assert(!occurs_at(text@, "$"@ + name@, j));
        }
    }
    false
}

/// The entries of `e` whose key the text references, in their order.
pub open spec fn scoped_entries(e: Seq<(Seq<char>, VariableView)>, text: Seq<char>) -> Seq<
    (Seq<char>, VariableView),
>
    decreases e.len(),
{
    if e.len() == 0 {
        Seq::empty()
    } else {
        let prev = scoped_entries(e.drop_last(), text);
        if references_var(text, e.last().0) {
            entries_insert(prev, e.last().0, e.last().1)
        } else {
            prev
        }
    }
}

/// The secrets a job references as `$KEY` or `${KEY}` among its texts, in their order:
/// a job gets no secret it does not use.
pub fn scope_secrets_for_job(job: &Job, all_secrets: &Variables) -> (r: Variables)
    ensures
        var_entries(r) == scoped_entries(var_entries(*all_secrets), job_text(job@)),
{
    let ghost e = var_entries(*all_secrets);
    let texts = collect_job_texts(job);
    let combined = join_strings(&texts, " ");
    let mut out = vars_new();
    let n = vars_len(all_secrets);
    let mut i: usize = 0;
    assert(e.take(0) =~= Seq::<(Seq<char>, VariableView)>::empty());
    while i < n
        invariant
            e == var_entries(*all_secrets),
            n == e.len(),
            i <= n,
            combined@ == job_text(job@),
            var_entries(out) == scoped_entries(e.take(i as int), combined@),
        decreases n - i,
    {
        let (k, v) = vars_get_index(all_secrets, i);
        assert(e.take(i + 1).drop_last() =~= e.take(i as int));
        assert(e.take(i + 1).last() == e[i as int]);
        if references_exec(combined.as_str(), k.as_str()) {
            vars_insert(&mut out, k.clone(), v.clone());
        }
        i = i + 1;
    }
    assert(e.take(n as int) =~= e);
    out
}

/// Names left out of the example file: those GitLab or the Docker setup provide.
pub open spec fn example_skips(name: Seq<char>) -> bool {
    "CI_"@.is_prefix_of(name) || "GITLAB_"@.is_prefix_of(name) || "DOCKER_HOST"@.is_prefix_of(
        name,
    ) || "DOCKER_TLS"@.is_prefix_of(name) || "DOCKER_CERT"@.is_prefix_of(name)
}

pub open spec fn example_body(
    names: Seq<Seq<char>>,
    globals: Seq<(Seq<char>, VariableView)>,
    jobs: Seq<(Seq<char>, JobView)>,
) -> Seq<char>
    decreases names.len(),
{
    if names.len() == 0 {
        Seq::empty()
    } else {
        let n = names.last();
        example_body(names.drop_last(), globals, jobs) + if !pipeline_defines(globals, jobs, n)
            && !example_skips(n) {
            n + "=\n"@
        } else {
            Seq::empty()
        }
    }
}

/// The content of `secrets.env.example`: two comment lines, a blank line, then
/// `NAME=` for every referenced name the pipeline does not define, in ascending order.
pub open spec fn secrets_example_text(
    names: Seq<Seq<char>>,
    globals: Seq<(Seq<char>, VariableView)>,
    jobs: Seq<(Seq<char>, JobView)>,
) -> Seq<char> {
    "# Required CI/CD variables for this pipeline\n"@ + "# Run `lab secrets pull` to fetch from GitLab\n\n"@
        + example_body(names, globals, jobs)
}

/// The content `generate_secrets_example` writes for a pipeline.
pub fn secrets_example_content(pipeline: &Pipeline) -> (r: String)
    ensures
        r@ == secrets_example_text(
            sorted_refs(job_entries(pipeline.jobs)),
            var_entries(pipeline.variables),
            job_entries(pipeline.jobs),
        ),
{
    let ghost globals = var_entries(pipeline.variables);
    let ghost jobs = job_entries(pipeline.jobs);
    let referenced = find_referenced_variables(pipeline);
    let defined = find_defined_variables(pipeline);
    let ghost names = views(referenced@);
    let mut content = String::from_str("# Required CI/CD variables for this pipeline\n");
    content.append("# Run `lab secrets pull` to fetch from GitLab\n\n");
    let ghost head = content@;
    let mut i: usize = 0;
    assert(example_body(names.take(0), globals, jobs) =~= Seq::<char>::empty());
    while i < referenced.len()
        invariant
            names == views(referenced@),
            i <= names.len(),
            globals == var_entries(pipeline.variables),
            jobs == job_entries(pipeline.jobs),
            head == "# Required CI/CD variables for this pipeline\n"@
                + "# Run `lab secrets pull` to fetch from GitLab\n\n"@,
            forall|y: Seq<char>|
                #![trigger views(defined@).contains(y)]
                views(defined@).contains(y) <==> pipeline_defines(globals, jobs, y),
            content@ == head + example_body(names.take(i as int), globals, jobs),
        decreases names.len() - i,
    {
        let name = &referenced[i];
        assert(names.take(i + 1).drop_last() =~= names.take(i as int));
        assert(names.take(i + 1).last() == name@);
        let skip = string_in(&defined, name.as_str()) || starts_with(name.as_str(), "CI_")
            || starts_with(name.as_str(), "GITLAB_") || starts_with(name.as_str(), "DOCKER_HOST")
            || starts_with(name.as_str(), "DOCKER_TLS") || starts_with(name.as_str(), "DOCKER_CERT");
        if !skip {
            content.append(name.as_str());
            content.append("=\n");
        }
        i = i + 1;
    }
    assert(names.take(names.len() as int) =~= names);
    content
}

/// What the variable tool answers for an expression: its expansion in `vars` with
/// every secret of `secrets` masked (each value and its base64 encoding, longest
/// first).
pub fn expand_masked(expression: &str, vars: &Variables, secrets: &Variables) -> (r: String)
    requires
        forall|i: int|
            0 <= i < var_entries(*secrets).len() ==> vstd::utf8::encode_utf8(
                (#[trigger] var_entries(*secrets)[i]).1.value,
            ).len() <= usize::MAX / 2,
    ensures
        r@ == masked(
            expand_spec(expression@, var_entries(*vars), 0),
            dedup(longest_first(all_masks(var_entries(*secrets)))),
        ),
{
    let masker = SecretMasker::from_secrets(secrets);
    let expanded = expand_variables(expression, vars);
    masker.mask(expanded.as_str())
}

/// The secrets file of a project (`secrets_file_path`): `paths::secrets_file`.
pub fn secrets_file_path(env: &PathEnv, remote_project: Option<&str>, canonical: &str) -> (r:
    String)
    ensures
        r@ == path_join(
            path_join(
                path_join(data_dir_spec(*env), "secrets"@),
                match remote_project {
                    Some(p) => p@,
                    None => hex_digits(djb2(canonical.spec_bytes()) as nat, 16),
                },
            ),
            "secrets.env"@,
        ),
{
    secrets_file(env, remote_project, canonical)
}

} // verus!
