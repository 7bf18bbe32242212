//! Where lab keeps its data: the XDG directories and the per-project paths under them.
//! The environment and the working directory's canonical form are read by the caller.
use vstd::prelude::*;

use vstd::string::StringSliceAdditionalSpecFns;

use crate::text::{concat, concat3, owned, push_char, split_char, split_on, starts_with, str_eq, views};

verus! {

/// The environment values the directories depend on.
#[derive(Debug, Clone)]
pub struct PathEnv {
    /// `$XDG_DATA_HOME`, when set.
    pub xdg_data_home: Option<String>,
    /// `$XDG_CACHE_HOME`, when set.
    pub xdg_cache_home: Option<String>,
    /// `$HOME`, when set.
    pub home: Option<String>,
}

/// `PathBuf::join`: an absolute component replaces the base; otherwise it is added
/// after a `/` unless the base is empty or already ends with one.
pub open spec fn path_join(base: Seq<char>, comp: Seq<char>) -> Seq<char> {
    if comp.len() > 0 && comp[0] == '/' {
        comp
    } else if base.len() == 0 {
        comp
    } else if base.last() == '/' {
        base + comp
    } else {
        base + seq!['/'] + comp
    }
}

/// `base.join(comp)` for paths held as strings.
pub fn join_path(base: &str, comp: &str) -> (r: String)
    ensures
        r@ == path_join(base@, comp@),
{
    let bn = base.unicode_len();
    if comp.unicode_len() > 0 && comp.get_char(0) == '/' {
        owned(comp)
    } else if bn == 0 {
        owned(comp)
    } else if base.get_char(bn - 1) == '/' {
        concat(base, comp)
    } else {
        proof {
            reveal_strlit("/");
            assert("/"@ =~= seq!['/']);
        }
        concat3(base, "/", comp)
    }
}

pub open spec fn home_spec(env: PathEnv) -> Seq<char> {
    match env.home {
        Some(h) => h@,
        None => "/tmp"@,
    }
}

/// `$HOME`, or `/tmp` when it is not set.
pub fn home_dir(env: &PathEnv) -> (r: String)
    ensures
        r@ == home_spec(*env),
{
    match &env.home {
        Some(h) => h.clone(),
        None => String::from_str("/tmp"),
    }
}

pub open spec fn data_dir_spec(env: PathEnv) -> Seq<char> {
    match env.xdg_data_home {
        Some(x) => path_join(x@, "lab"@),
        None => path_join(home_spec(env), ".local/share/lab"@),
    }
}

pub open spec fn cache_dir_spec(env: PathEnv) -> Seq<char> {
    match env.xdg_cache_home {
        Some(x) => path_join(x@, "lab"@),
        None => path_join(home_spec(env), ".cache/lab"@),
    }
}

/// XDG data directory for lab (`$XDG_DATA_HOME/lab` or `~/.local/share/lab`).
pub fn data_dir(env: &PathEnv) -> (r: String)
    ensures
        r@ == data_dir_spec(*env),
{
    match &env.xdg_data_home {
        Some(x) => join_path(x.as_str(), "lab"),
        None => {
            let h = home_dir(env);
            join_path(h.as_str(), ".local/share/lab")
        },
    }
}

/// XDG cache directory for lab (`$XDG_CACHE_HOME/lab` or `~/.cache/lab`).
pub fn cache_dir(env: &PathEnv) -> (r: String)
    ensures
        r@ == cache_dir_spec(*env),
{
    match &env.xdg_cache_home {
        Some(x) => join_path(x.as_str(), "lab"),
        None => {
            let h = home_dir(env);
            join_path(h.as_str(), ".cache/lab")
        },
    }
}

/// The djb2 hash of a byte string: start at 5381, then for each byte multiply by 33
/// and add the byte, all modulo 2^64.
pub open spec fn djb2(bytes: Seq<u8>) -> u64
    decreases bytes.len(),
{
    if bytes.len() == 0 {
        5381
    } else {
        ((djb2(bytes.drop_last()) as int * 33 + bytes.last() as int) % 0x1_0000_0000_0000_0000) as u64
    }
}

/// The djb2 hash of the UTF-8 bytes of `input`.
pub fn simple_hash(input: &str) -> (r: u64)
    ensures
        r == djb2(input.spec_bytes()),
{
    let bytes = input.as_bytes();
    let mut hash: u64 = 5381;
    let mut i: usize = 0;
    assert(bytes@.subrange(0, 0) =~= Seq::<u8>::empty());
    while i < bytes.len()
        invariant
            bytes@ == input.spec_bytes(),
            i <= bytes@.len(),
            hash == djb2(bytes@.subrange(0, i as int)),
        decreases bytes@.len() - i,
    {
        let b = bytes[i];
        assert(bytes@.subrange(0, i + 1).drop_last() =~= bytes@.subrange(0, i as int));
        let m = hash.wrapping_mul(33);
        let h2 = m.wrapping_add(b as u64);
        assert(h2 == ((hash as int * 33 + b as int) % 0x1_0000_0000_0000_0000) as u64) by (nonlinear_arith)
            requires
                m == ((hash as int * 33) % 0x1_0000_0000_0000_0000) as u64,
                h2 == ((m as int + b as int) % 0x1_0000_0000_0000_0000) as u64,
        ;
        hash = h2;
        i = i + 1;
    }
    assert(bytes@.subrange(0, bytes@.len() as int) =~= bytes@);
    hash
}

/// The lowercase hex digit of `d` (0 to 15).
pub open spec fn hex_char(d: int) -> char {
    if d < 10 {
        crate::text::digit_char(d)
    } else if d == 10 {
        'a'
    } else if d == 11 {
        'b'
    } else if d == 12 {
        'c'
    } else if d == 13 {
        'd'
    } else if d == 14 {
        'e'
    } else {
        'f'
    }
}

/// The `k` lowest hex digits of `n`, most significant first.
pub open spec fn hex_digits(n: nat, k: nat) -> Seq<char>
    decreases k,
{
    if k == 0 {
        Seq::empty()
    } else {
        hex_digits(n / 16, (k - 1) as nat).push(hex_char((n % 16) as int))
    }
}

fn hex_digit(d: u64) -> (r: char)
    requires
        d < 16,
    ensures
        r == hex_char(d as int),
{
    if d == 0 {
        '0'
    } else if d == 1 {
        '1'
    } else if d == 2 {
        '2'
    } else if d == 3 {
        '3'
    } else if d == 4 {
        '4'
    } else if d == 5 {
        '5'
    } else if d == 6 {
        '6'
    } else if d == 7 {
        '7'
    } else if d == 8 {
        '8'
    } else if d == 9 {
        '9'
    } else if d == 10 {
        'a'
    } else if d == 11 {
        'b'
    } else if d == 12 {
        'c'
    } else if d == 13 {
        'd'
    } else if d == 14 {
        'e'
    } else {
        'f'
    }
}

/// `format!("{n:016x}")`: sixteen lowercase hex digits.
pub fn hex16(n: u64) -> (r: String)
    ensures
        r@ == hex_digits(n as nat, 16),
        r@.len() == 16,
{
    let mut digits: Vec<char> = Vec::new();
    let mut m = n;
    let mut k: u64 = 0;
    assert(pow16(0) == 1);
    assert(n as nat / 1 == n as nat);
    assert(digits@.reverse() =~= Seq::<char>::empty());
    assert(hex_digits(n as nat, 16) =~= hex_digits(n as nat, 16) + digits@.reverse());
    while k < 16
        invariant
            k <= 16,
            digits@.len() == k,
            m as nat == n as nat / crate::paths::pow16(k as nat),
            hex_digits(n as nat, 16) == hex_digits(m as nat, (16 - k) as nat) + digits@.reverse(),
        decreases 16 - k,
    {
        let ghost old_digits = digits@;
        let d = m % 16;
        digits.push(hex_digit(d));
        proof {
            lemma_pow16_step(n as nat, k as nat);
            assert(digits@.reverse() =~= seq![hex_char(d as int)] + old_digits.reverse());
            assert(hex_digits(m as nat, (16 - k) as nat) == hex_digits(m as nat / 16, (16 - k - 1) as nat).push(
                hex_char((m % 16) as int),
            ));
            assert(hex_digits(m as nat / 16, (16 - k - 1) as nat).push(hex_char((m % 16) as int))
                + old_digits.reverse() =~= hex_digits(m as nat / 16, (16 - k - 1) as nat)
                + digits@.reverse());
        }
        m = m / 16;
        k = k + 1;
    }
    let mut s = String::new();
    let mut i: usize = 16;
    while i > 0
        invariant
            i <= 16,
            digits@.len() == 16,
            s@ == digits@.subrange(i as int, 16).reverse(),
        decreases i,
    {
        i = i - 1;
        push_char(&mut s, digits[i]);
        assert(s@ =~= digits@.subrange(i as int, 16).reverse());
    }
    assert(digits@.subrange(0, 16) =~= digits@);
    assert(hex_digits(m as nat, 0) =~= Seq::<char>::empty());
    assert(hex_digits(n as nat, 16) =~= digits@.reverse());
    s
}

pub open spec fn pow16(k: nat) -> nat
    decreases k,
{
    if k == 0 {
        1
    } else {
        16 * pow16((k - 1) as nat)
    }
}

proof fn lemma_pow16_step(n: nat, k: nat)
    ensures
        n / pow16(k) / 16 == n / pow16(k + 1),
        pow16(k) > 0,
    decreases k,
{
    lemma_pow16_pos(k);
    vstd::arithmetic::div_mod::lemma_div_denominator(n as int, pow16(k) as int, 16);
    assert(pow16(k + 1) == 16 * pow16(k));
    assert(pow16(k) as int * 16 == 16 * pow16(k) as int) by (nonlinear_arith);
}

proof fn lemma_pow16_pos(k: nat)
    ensures
        pow16(k) > 0,
    decreases k,
{
    if k > 0 {
        lemma_pow16_pos((k - 1) as nat);
    }
}

/// Derive a stable key from the canonical working directory path: a 16-char hex hash.
pub fn workdir_key(canonical: &str) -> (r: String)
    ensures
        r@ == hex_digits(djb2(canonical.spec_bytes()) as nat, 16),
        r@.len() == 16,
{
    hex16(simple_hash(canonical))
}

/// The project's key: its GitLab project path when the remote names one, else the
/// working copy's key.
pub fn project_key(remote_project: Option<&str>, canonical: &str) -> (r: String)
    ensures
        r@ == match remote_project {
            Some(p) => p@,
            None => hex_digits(djb2(canonical.spec_bytes()) as nat, 16),
        },
{
    match remote_project {
        Some(p) => owned(p),
        None => workdir_key(canonical),
    }
}

/// `data_dir()/secrets/{project key}`.
pub fn secrets_dir(env: &PathEnv, remote_project: Option<&str>, canonical: &str) -> (r: String)
    ensures
        r@ == path_join(
            path_join(data_dir_spec(*env), "secrets"@),
            match remote_project {
                Some(p) => p@,
                None => hex_digits(djb2(canonical.spec_bytes()) as nat, 16),
            },
        ),
{
    let d = data_dir(env);
    let s = join_path(d.as_str(), "secrets");
    let k = project_key(remote_project, canonical);
    join_path(s.as_str(), k.as_str())
}

/// `secrets_dir()/secrets.env`.
pub fn secrets_file(env: &PathEnv, remote_project: Option<&str>, canonical: &str) -> (r: String)
    ensures
        r@ == path_join(
            path_join(
                path_join(data_dir_spec(*env), "secrets"@),
                match remote_project {
                    Some(p) => p@,
                    None => hex_digits(djb2(canonical.spec_bytes()) as nat, 16),
                },
            ),
            "secrets.env"@,
        ),
{
    let d = secrets_dir(env, remote_project, canonical);
    join_path(d.as_str(), "secrets.env")
}

/// `base/{sub}/{working copy key}`.
fn keyed_dir(base: &str, sub: &str, canonical: &str) -> (r: String)
    ensures
        r@ == path_join(path_join(base@, sub@), hex_digits(djb2(canonical.spec_bytes()) as nat, 16)),
{
    let a = join_path(base, sub);
    let k = workdir_key(canonical);
    join_path(a.as_str(), k.as_str())
}

/// `cache_dir()/artifacts/{working copy key}`.
pub fn artifacts_dir(env: &PathEnv, canonical: &str) -> (r: String)
    ensures
        r@ == path_join(path_join(cache_dir_spec(*env), "artifacts"@), hex_digits(
            djb2(canonical.spec_bytes()) as nat,
            16,
        )),
{
    let c = cache_dir(env);
    keyed_dir(c.as_str(), "artifacts", canonical)
}

/// `cache_dir()/cache/{working copy key}`.
pub fn cache_base_dir(env: &PathEnv, canonical: &str) -> (r: String)
    ensures
        r@ == path_join(path_join(cache_dir_spec(*env), "cache"@), hex_digits(
            djb2(canonical.spec_bytes()) as nat,
            16,
        )),
{
    let c = cache_dir(env);
    keyed_dir(c.as_str(), "cache", canonical)
}

/// `data_dir()/locks/{working copy key}`.
pub fn locks_dir(env: &PathEnv, canonical: &str) -> (r: String)
    ensures
        r@ == path_join(path_join(data_dir_spec(*env), "locks"@), hex_digits(
            djb2(canonical.spec_bytes()) as nat,
            16,
        )),
{
    let d = data_dir(env);
    keyed_dir(d.as_str(), "locks", canonical)
}

/// `data_dir()/runs/{working copy key}/last.json`.
pub fn last_run_file(env: &PathEnv, canonical: &str) -> (r: String)
    ensures
        r@ == path_join(
            path_join(path_join(data_dir_spec(*env), "runs"@), hex_digits(
                djb2(canonical.spec_bytes()) as nat,
                16,
            )),
            "last.json"@,
        ),
{
    let d = data_dir(env);
    let k = keyed_dir(d.as_str(), "runs", canonical);
    join_path(k.as_str(), "last.json")
}

/// `data_dir()/tmp/{working copy key}`.
pub fn tmp_dir(env: &PathEnv, canonical: &str) -> (r: String)
    ensures
        r@ == path_join(path_join(data_dir_spec(*env), "tmp"@), hex_digits(
            djb2(canonical.spec_bytes()) as nat,
            16,
        )),
{
    let d = data_dir(env);
    keyed_dir(d.as_str(), "tmp", canonical)
}

/// Whether a path handed to a tool leaves the working directory: it is absolute, or
/// one of its `/`-separated parts is `..`.
pub open spec fn escapes_workdir(p: Seq<char>) -> bool {
    "/"@.is_prefix_of(p) || split_on(p, '/').contains(".."@)
}

/// Whether a relative path stays inside the working directory (no absolute path, no
/// `..` part), as the MCP tools require of the files they read.
pub fn stays_in_workdir(p: &str) -> (r: bool)
    ensures
        r == !escapes_workdir(p@),
{
    if starts_with(p, "/") {
        return false;
    }
    let parts = split_char(p, '/');
    let ghost pv = views(parts@);
    let mut i: usize = 0;
    while i < parts.len()
        invariant
            i <= parts@.len(),
            pv == views(parts@),
            pv == split_on(p@, '/'),
            forall|j: int| 0 <= j < i ==> pv[j] != ".."@,
        decreases parts@.len() - i,
    {
        if str_eq(parts[i].as_str(), "..") {
            assert(pv[i as int] == ".."@);
            return false;
        }
        i = i + 1;
    }
    proof {
        if pv.contains(".."@) {
            let j = choose|j: int| 0 <= j < pv.len() && pv[j] == ".."@;
            assert(pv[j] != ".."@);
        }
    }
    true
}

} // verus!
