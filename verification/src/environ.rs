//! Environment variables over an explicit snapshot: lookup, decoded lookup,
//! mutation, enumeration, and the documented fallback chains for the home
//! and temporary directories.
//!
//! The live process environment is ambient operating-system state; callers
//! capture it once into an [`EnvSnapshot`] and every function here computes
//! on that snapshot. A snapshot, once produced, never changes behind the
//! caller's back, and mutations are applied to the snapshot value itself.

use crate::native::NativeString;
use crate::platform::Platform;
use vstd::prelude::*;
use vstd::utf8::{decode_utf8, valid_utf8};

verus! {

/// The value the key maps to, scanning the pairs front to back.
pub open spec fn env_lookup(s: Seq<(Seq<u8>, Seq<u8>)>, k: Seq<u8>) -> Option<Seq<u8>>
    decreases s.len(),
{
    if s.len() == 0 {
        None
    } else if s[0].0 == k {
        Some(s[0].1)
    } else {
        env_lookup(s.drop_first(), k)
    }
}

/// A key a variable may be set or removed under: non-empty, without `=` and
/// without NUL. Mutation with any other key is a caller contract violation.
pub open spec fn valid_key(k: Seq<u8>) -> bool {
    k.len() > 0 && !k.contains(61u8) && !k.contains(0u8)
}

/// A value a variable may be set to: without NUL.
pub open spec fn valid_value(v: Seq<u8>) -> bool {
    !v.contains(0u8)
}

/// The views of a sequence of native (key, value) pairs.
pub open spec fn entry_views(s: Seq<(NativeString, NativeString)>) -> Seq<(Seq<u8>, Seq<u8>)> {
    s.map_values(|pr: (NativeString, NativeString)| (pr.0@, pr.1@))
}

/// An eagerly captured snapshot of a process's environment variables. Its
/// view is the sequence of (key, value) byte-pair views; keys are unique
/// within one snapshot.
#[derive(Debug)]
pub struct EnvSnapshot {
    entries: Vec<(NativeString, NativeString)>,
}

impl View for EnvSnapshot {
    type V = Seq<(Seq<u8>, Seq<u8>)>;

    closed spec fn view(&self) -> Seq<(Seq<u8>, Seq<u8>)> {
        entry_views(self.entries@)
    }
}

impl EnvSnapshot {
    /// Keys are unique within the snapshot.
    pub open spec fn wf(&self) -> bool {
        forall|i: int, j: int|
            0 <= i < j < self@.len() ==> (#[trigger] self@[i]).0 != (#[trigger] self@[j]).0
    }

    /// An empty snapshot.
    pub fn new() -> (r: Self)
        ensures
            r@ == Seq::<(Seq<u8>, Seq<u8>)>::empty(),
            r.wf(),
    {
        let r = EnvSnapshot { entries: Vec::new() };
        proof {
            assert(r@ =~= Seq::<(Seq<u8>, Seq<u8>)>::empty());
        }
        r
    }

    /// The number of variables in the snapshot.
    pub fn len(&self) -> (r: usize)
        ensures
            r == self@.len(),
    {
        self.entries.len()
    }
}

proof fn lemma_env_lookup_append(s1: Seq<(Seq<u8>, Seq<u8>)>, s2: Seq<(Seq<u8>, Seq<u8>)>, k: Seq<u8>)
    ensures
        env_lookup(s1 + s2, k) == (match env_lookup(s1, k) {
            Option::Some(v) => Option::Some(v),
            Option::None => env_lookup(s2, k),
        }),
    decreases s1.len(),
{
    if s1.len() == 0 {
        assert(s1 + s2 =~= s2);
    } else {
        assert((s1 + s2)[0] == s1[0]);
        assert((s1 + s2).drop_first() =~= s1.drop_first() + s2);
        lemma_env_lookup_append(s1.drop_first(), s2, k);
    }
}

proof fn lemma_env_lookup_absent(s: Seq<(Seq<u8>, Seq<u8>)>, k: Seq<u8>)
    requires
        forall|j: int| 0 <= j < s.len() ==> (#[trigger] s[j]).0 != k,
    ensures
        env_lookup(s, k) is None,
    decreases s.len(),
{
    if s.len() > 0 {
        assert forall|j: int| 0 <= j < s.drop_first().len() implies (#[trigger] s.drop_first()[j]).0
            != k by {
            assert(s.drop_first()[j] == s[j + 1]);
        }
        lemma_env_lookup_absent(s.drop_first(), k);
    }
}

fn find_key(env: &EnvSnapshot, key: &NativeString) -> (r: Option<usize>)
    ensures
        match r {
            Option::Some(i) => i < env@.len() && env@[i as int].0 == key@ && (forall|j: int|
                0 <= j < i ==> (#[trigger] env@[j]).0 != key@),
            Option::None => forall|j: int| 0 <= j < env@.len() ==> (#[trigger] env@[j]).0 != key@,
        },
{
    let mut i: usize = 0;
    let n = env.entries.len();
    while i < n
        invariant
            n == env@.len(),
            i <= n,
            forall|j: int| 0 <= j < i ==> (#[trigger] env@[j]).0 != key@,
        decreases n - i,
    {
        if env.entries[i].0.eq_bytes(key) {
            proof {
                assert(env@[i as int] == (env.entries@[i as int].0@, env.entries@[i as int].1@));
            }
            return Some(i);
        }
        i = i + 1;
    }
    None
}

/// Fetches the variable `key` from the snapshot, returning `None` if the
/// variable is not set.
pub fn var_os(env: &EnvSnapshot, key: &NativeString) -> (r: Option<NativeString>)
    ensures
        match r {
            Option::Some(v) => env_lookup(env@, key@) == Option::Some(v@),
            Option::None => env_lookup(env@, key@) is None,
        },
{
    match find_key(env, key) {
        Option::Some(i) => {
            let v = env.entries[i].1.clone();
            proof {
                lemma_env_lookup_found(env@, i as int, key@);
            }
            Some(v)
        },
        Option::None => {
            proof {
                lemma_env_lookup_absent(env@, key@);
            }
            None
        },
    }
}

proof fn lemma_env_lookup_found(s: Seq<(Seq<u8>, Seq<u8>)>, i: int, k: Seq<u8>)
    requires
        0 <= i < s.len(),
        s[i].0 == k,
        forall|j: int| 0 <= j < i ==> (#[trigger] s[j]).0 != k,
    ensures
        env_lookup(s, k) == Option::Some(s[i].1),
    decreases i,
{
    if i == 0 {
    } else {
        assert forall|j: int| 0 <= j < i - 1 implies (#[trigger] s.drop_first()[j]).0 != k by {
            assert(s.drop_first()[j] == s[j + 1]);
        }
        assert(s.drop_first()[i - 1] == s[i]);
        lemma_env_lookup_found(s.drop_first(), i - 1, k);
    }
}

/// The error type of [`var`].
#[derive(Debug, PartialEq, Eq)]
pub enum VarError {
    /// The variable was not present in the snapshot.
    NotPresent,
    /// The variable was present but its value was not valid Unicode; the raw
    /// value is carried as the payload.
    NotUnicode(NativeString),
}

impl Clone for VarError {
    fn clone(&self) -> (r: Self)
        ensures
            match self {
                VarError::NotPresent => r is NotPresent,
                VarError::NotUnicode(n) => match r {
                    VarError::NotUnicode(m) => m@ == n@,
                    VarError::NotPresent => false,
                },
            },
    {
        match self {
            VarError::NotPresent => VarError::NotPresent,
            VarError::NotUnicode(n) => VarError::NotUnicode(n.clone()),
        }
    }
}

impl VarError {
    /// A short description of the error.
    pub fn description(&self) -> &'static str {
        match self {
            VarError::NotPresent => "environment variable not found",
            VarError::NotUnicode(_) => "environment variable was not valid unicode",
        }
    }
}

/// Fetches the variable `key` from the snapshot and decodes it as Unicode.
/// Fails with `NotPresent` when the variable is not set, and with
/// `NotUnicode` (carrying the raw value) when the value is not valid UTF-8.
pub fn var(env: &EnvSnapshot, key: &NativeString) -> (r: Result<String, VarError>)
    ensures
        match r {
            Result::Ok(s) => match env_lookup(env@, key@) {
                Option::Some(v) => valid_utf8(v) && s@ == decode_utf8(v),
                Option::None => false,
            },
            Result::Err(e) => match e {
                VarError::NotPresent => env_lookup(env@, key@) is None,
                VarError::NotUnicode(n) => env_lookup(env@, key@) == Option::Some(n@)
                    && !valid_utf8(n@),
            },
        },
{
    match var_os(env, key) {
        Option::Some(v) => match v.into_string() {
            Result::Ok(s) => Ok(s),
            Result::Err(n) => Err(VarError::NotUnicode(n)),
        },
        Option::None => Err(VarError::NotPresent),
    }
}

fn remove_entry(env: &mut EnvSnapshot, key: &NativeString)
    requires
        old(env).wf(),
    ensures
        final(env).wf(),
        forall|j: int| 0 <= j < final(env)@.len() ==> (#[trigger] final(env)@[j]).0 != key@,
        env_lookup(final(env)@, key@) is None,
        forall|k2: Seq<u8>|
            k2 != key@ ==> #[trigger] env_lookup(final(env)@, k2) == env_lookup(old(env)@, k2),
{
    let ghost s0 = env@;
    match find_key(env, key) {
        Option::None => {
            proof {
                lemma_env_lookup_absent(env@, key@);
            }
        },
        Option::Some(i) => {
            env.entries.remove(i);
            proof {
                let a = s0.take(i as int);
                let b = s0.skip(i as int + 1);
                assert(env@ =~= a + b);
                assert(s0 =~= a + (seq![s0[i as int]] + b));
                assert forall|j: int| 0 <= j < a.len() implies (#[trigger] a[j]).0 != key@ by {
                    assert(a[j] == s0[j]);
                }
                assert forall|j: int| 0 <= j < b.len() implies (#[trigger] b[j]).0 != key@ by {
                    assert(b[j] == s0[i as int + 1 + j]);
                }
                assert forall|j: int| 0 <= j < env@.len() implies (#[trigger] env@[j]).0 != key@ by {
                    if j < a.len() {
                        assert(env@[j] == a[j]);
                    } else {
                        assert(env@[j] == b[j - a.len()]);
                    }
                }
                lemma_env_lookup_absent(env@, key@);
                assert forall|i2: int, j2: int| 0 <= i2 < j2 < env@.len() implies (
                #[trigger] env@[i2]).0 != (#[trigger] env@[j2]).0 by {
                    let oi = if i2 < i { i2 } else { i2 + 1 };
                    let oj = if j2 < i { j2 } else { j2 + 1 };
                    assert(env@[i2] == s0[oi]);
                    assert(env@[j2] == s0[oj]);
                }
                assert forall|k2: Seq<u8>| k2 != key@ implies #[trigger] env_lookup(env@, k2)
                    == env_lookup(s0, k2) by {
                    lemma_env_lookup_append(a, b, k2);
                    lemma_env_lookup_append(a, seq![s0[i as int]] + b, k2);
                    assert((seq![s0[i as int]] + b)[0] == s0[i as int]);
                    assert((seq![s0[i as int]] + b).drop_first() =~= b);
                }
            }
        },
    }
}

/// Removes the variable `key` from the snapshot. The key must satisfy the
/// mutation contract: non-empty, without `=` and without NUL.
pub fn remove_var(env: &mut EnvSnapshot, key: &NativeString)
    requires
        old(env).wf(),
        valid_key(key@),
    ensures
        final(env).wf(),
        env_lookup(final(env)@, key@) is None,
        forall|k2: Seq<u8>|
            k2 != key@ ==> #[trigger] env_lookup(final(env)@, k2) == env_lookup(old(env)@, k2),
{
    remove_entry(env, key);
}

/// Sets the variable `key` to `value` in the snapshot, replacing any earlier
/// value. The key and value must satisfy the mutation contract: the key
/// non-empty, without `=` and without NUL; the value without NUL.
pub fn set_var(env: &mut EnvSnapshot, key: &NativeString, value: &NativeString)
    requires
        old(env).wf(),
        valid_key(key@),
        valid_value(value@),
    ensures
        final(env).wf(),
        env_lookup(final(env)@, key@) == Option::Some(value@),
        forall|k2: Seq<u8>|
            k2 != key@ ==> #[trigger] env_lookup(final(env)@, k2) == env_lookup(old(env)@, k2),
{
    remove_entry(env, key);
    let ghost s1 = env@;
    push_entry(env, key.clone(), value.clone());
    proof {
        assert(env@ =~= s1.push((key@, value@)));
        assert(env@ =~= s1 + seq![(key@, value@)]);
        assert forall|i2: int, j2: int| 0 <= i2 < j2 < env@.len() implies (#[trigger] env@[i2]).0
            != (#[trigger] env@[j2]).0 by {
            if j2 < s1.len() {
                assert(env@[i2] == s1[i2]);
                assert(env@[j2] == s1[j2]);
            } else {
                assert(env@[i2] == s1[i2]);
                assert(env@[j2] == (key@, value@));
            }
        }
        lemma_env_lookup_append(s1, seq![(key@, value@)], key@);
        assert(env_lookup(seq![(key@, value@)], key@) == Option::Some(value@)) by {
            assert(seq![(key@, value@)][0] == (key@, value@));
        }
        assert forall|k2: Seq<u8>| k2 != key@ implies #[trigger] env_lookup(env@, k2) == env_lookup(
            old(env)@,
            k2,
        ) by {
            lemma_env_lookup_append(s1, seq![(key@, value@)], k2);
            assert(seq![(key@, value@)][0].0 == key@);
            assert(seq![(key@, value@)].drop_first() =~= Seq::<(Seq<u8>, Seq<u8>)>::empty());
            assert(env_lookup(Seq::<(Seq<u8>, Seq<u8>)>::empty(), k2) is None);
            assert(env_lookup(seq![(key@, value@)], k2) is None);
            assert(env_lookup(s1, k2) == env_lookup(old(env)@, k2));
        }
    }
}

fn push_entry(env: &mut EnvSnapshot, key: NativeString, value: NativeString)
    ensures
        final(env)@ == old(env)@.push((key@, value@)),
{
    env.entries.push((key, value));
    proof {
        assert(env@ =~= old(env)@.push((key@, value@)));
    }
}

/// An iterator over a snapshot of environment variables as raw native
/// strings. Its view is the sequence of pairs not yet handed out.
#[derive(Debug)]
pub struct VarsOs {
    items: Vec<(NativeString, NativeString)>,
}

impl View for VarsOs {
    type V = Seq<(Seq<u8>, Seq<u8>)>;

    closed spec fn view(&self) -> Seq<(Seq<u8>, Seq<u8>)> {
        entry_views(self.items@)
    }
}

impl VarsOs {
    /// Hands out the next (key, value) pair.
    pub fn next(&mut self) -> (r: Option<(NativeString, NativeString)>)
        ensures
            match r {
                Option::None => old(self)@.len() == 0 && final(self)@ == old(self)@,
                Option::Some(pr) => old(self)@.len() > 0 && (pr.0@, pr.1@) == old(self)@[0]
                    && final(self)@ == old(self)@.drop_first(),
            },
    {
        if self.items.len() == 0 {
            None
        } else {
            let pr = self.items.remove(0);
            proof {
                assert(self@ =~= old(self)@.drop_first());
            }
            Some(pr)
        }
    }

    /// The exact number of pairs left, as a lower and upper bound.
    pub fn size_hint(&self) -> (r: (usize, Option<usize>))
        ensures
            r.0 == self@.len(),
            r.1 == Option::Some(r.0),
    {
        (self.items.len(), Some(self.items.len()))
    }
}

/// Captures the snapshot's variables as an iterator of raw (key, value)
/// pairs, in snapshot order.
pub fn vars_os(env: &EnvSnapshot) -> (r: VarsOs)
    ensures
        r@ == env@,
{
    let mut items: Vec<(NativeString, NativeString)> = Vec::new();
    let mut i: usize = 0;
    let n = env.entries.len();
    proof {
        assert(entry_views(items@) =~= env@.take(0));
    }
    while i < n
        invariant
            n == env@.len(),
            i <= n,
            entry_views(items@) == env@.take(i as int),
        decreases n - i,
    {
        let ghost items0 = items@;
        proof {
            assert(entry_views(items0).len() == items0.len());
            assert(env@.take(i as int).len() == i as int);
            assert(items0.len() == i as int);
        }
        let k = env.entries[i].0.clone();
        let v = env.entries[i].1.clone();
        let ghost kv = (k@, v@);
        items.push((k, v));
        i = i + 1;
        proof {
            let vi = i as int;
            assert(items@ == items0.push(items@[vi - 1]));
            assert(env@[vi - 1] == (env.entries@[vi - 1].0@, env.entries@[vi - 1].1@));
            assert(kv == env@[vi - 1]);
            assert forall|j: int| 0 <= j < vi implies entry_views(items@)[j] == env@.take(vi)[j] by {
                if j < vi - 1 {
                    assert(items@[j] == items0[j]);
                    assert(entry_views(items0)[j] == env@.take(vi - 1)[j]);
                } else {
                    assert(items@[j] == (k, v));
                    assert(entry_views(items@)[j] == kv);
                }
            }
            assert(entry_views(items@) =~= env@.take(vi));
        }
    }
    proof {
        assert(env@.take(n as int) =~= env@);
    }
    VarsOs { items }
}

/// True when every key and value of the snapshot is valid UTF-8.
pub open spec fn all_unicode_pairs(s: Seq<(Seq<u8>, Seq<u8>)>) -> bool {
    forall|i: int|
        0 <= i < s.len() ==> valid_utf8((#[trigger] s[i]).0) && valid_utf8(s[i].1)
}

/// The snapshot's pairs with keys and values decoded as Unicode.
pub open spec fn decoded_pairs(s: Seq<(Seq<u8>, Seq<u8>)>) -> Seq<(Seq<char>, Seq<char>)> {
    s.map_values(|pr: (Seq<u8>, Seq<u8>)| (decode_utf8(pr.0), decode_utf8(pr.1)))
}

/// The views of a sequence of Unicode (key, value) pairs.
pub open spec fn string_pair_views(s: Seq<(String, String)>) -> Seq<(Seq<char>, Seq<char>)> {
    s.map_values(|pr: (String, String)| (pr.0@, pr.1@))
}

/// An iterator over a snapshot of environment variables decoded as Unicode
/// strings. Its view is the sequence of pairs not yet handed out.
#[derive(Debug)]
pub struct Vars {
    items: Vec<(String, String)>,
}

impl View for Vars {
    type V = Seq<(Seq<char>, Seq<char>)>;

    closed spec fn view(&self) -> Seq<(Seq<char>, Seq<char>)> {
        string_pair_views(self.items@)
    }
}

impl Vars {
    /// Hands out the next decoded (key, value) pair.
    pub fn next(&mut self) -> (r: Option<(String, String)>)
        ensures
            match r {
                Option::None => old(self)@.len() == 0 && final(self)@ == old(self)@,
                Option::Some(pr) => old(self)@.len() > 0 && (pr.0@, pr.1@) == old(self)@[0]
                    && final(self)@ == old(self)@.drop_first(),
            },
    {
        if self.items.len() == 0 {
            None
        } else {
            let pr = self.items.remove(0);
            proof {
                assert(self@ =~= old(self)@.drop_first());
            }
            Some(pr)
        }
    }

    /// The exact number of pairs left, as a lower and upper bound.
    pub fn size_hint(&self) -> (r: (usize, Option<usize>))
        ensures
            r.0 == self@.len(),
            r.1 == Option::Some(r.0),
    {
        (self.items.len(), Some(self.items.len()))
    }
}

/// Captures the snapshot's variables as an iterator of Unicode (key, value)
/// pairs, in snapshot order. Every key and value must be valid UTF-8; use
/// [`try_vars`] to test that first, or [`vars_os`] for raw values.
pub fn vars(env: &EnvSnapshot) -> (r: Vars)
    requires
        all_unicode_pairs(env@),
    ensures
        r@ == decoded_pairs(env@),
{
    let mut items: Vec<(String, String)> = Vec::new();
    let mut i: usize = 0;
    let n = env.entries.len();
    proof {
        assert(string_pair_views(items@) =~= decoded_pairs(env@).take(0));
    }
    while i < n
        invariant
            all_unicode_pairs(env@),
            n == env@.len(),
            i <= n,
            string_pair_views(items@) == decoded_pairs(env@).take(i as int),
        decreases n - i,
    {
        let ghost items0 = items@;
        proof {
            assert(string_pair_views(items0).len() == items0.len());
            assert(decoded_pairs(env@).take(i as int).len() == i as int);
            assert(items0.len() == i as int);
            assert(env@[i as int] == (env.entries@[i as int].0@, env.entries@[i as int].1@));
            assert(valid_utf8(env@[i as int].0) && valid_utf8(env@[i as int].1));
        }
        let k = match env.entries[i].0.clone().into_string() {
            Result::Ok(s) => s,
            Result::Err(_) => {
                proof {
                    assert(false);
                }
                String::new()
            },
        };
        let v = match env.entries[i].1.clone().into_string() {
            Result::Ok(s) => s,
            Result::Err(_) => {
                proof {
                    assert(false);
                }
                String::new()
            },
        };
        let ghost kv = (k@, v@);
        items.push((k, v));
        i = i + 1;
        proof {
            let vi = i as int;
            assert(items@ == items0.push(items@[vi - 1]));
            assert(decoded_pairs(env@)[vi - 1] == (
                decode_utf8(env@[vi - 1].0),
                decode_utf8(env@[vi - 1].1),
            ));
            assert(kv == decoded_pairs(env@)[vi - 1]);
            assert forall|j: int| 0 <= j < vi implies string_pair_views(items@)[j] == decoded_pairs(
                env@,
            ).take(vi)[j] by {
                if j < vi - 1 {
                    assert(items@[j] == items0[j]);
                    assert(string_pair_views(items0)[j] == decoded_pairs(env@).take(vi - 1)[j]);
                } else {
                    assert(string_pair_views(items@)[j] == kv);
                }
            }
            assert(string_pair_views(items@) =~= decoded_pairs(env@).take(vi));
        }
    }
    proof {
        assert(decoded_pairs(env@).take(n as int) =~= decoded_pairs(env@));
    }
    Vars { items }
}

/// The byte string `HOME`.
pub open spec fn home_key() -> Seq<u8> {
    seq![72u8, 79u8, 77u8, 69u8]
}

/// The byte string `USERPROFILE`.
pub open spec fn userprofile_key() -> Seq<u8> {
    seq![85u8, 83u8, 69u8, 82u8, 80u8, 82u8, 79u8, 70u8, 73u8, 76u8, 69u8]
}

/// The byte string `TMPDIR`.
pub open spec fn tmpdir_key() -> Seq<u8> {
    seq![84u8, 77u8, 80u8, 68u8, 73u8, 82u8]
}

/// The byte string `TMP`.
pub open spec fn tmp_key() -> Seq<u8> {
    seq![84u8, 77u8, 80u8]
}

/// The byte string `TEMP`.
pub open spec fn temp_key() -> Seq<u8> {
    seq![84u8, 69u8, 77u8, 80u8]
}

fn home_key_native() -> (r: NativeString)
    ensures
        r@ == home_key(),
{
    let r = NativeString::from_bytes(vec![72u8, 79u8, 77u8, 69u8]);
    proof {
        assert(r@ =~= home_key());
    }
    r
}

fn userprofile_key_native() -> (r: NativeString)
    ensures
        r@ == userprofile_key(),
{
    let r = NativeString::from_bytes(
        vec![85u8, 83u8, 69u8, 82u8, 80u8, 82u8, 79u8, 70u8, 73u8, 76u8, 69u8],
    );
    proof {
        assert(r@ =~= userprofile_key());
    }
    r
}

fn tmpdir_key_native() -> (r: NativeString)
    ensures
        r@ == tmpdir_key(),
{
    let r = NativeString::from_bytes(vec![84u8, 77u8, 80u8, 68u8, 73u8, 82u8]);
    proof {
        assert(r@ =~= tmpdir_key());
    }
    r
}

fn tmp_key_native() -> (r: NativeString)
    ensures
        r@ == tmp_key(),
{
    let r = NativeString::from_bytes(vec![84u8, 77u8, 80u8]);
    proof {
        assert(r@ =~= tmp_key());
    }
    r
}

fn temp_key_native() -> (r: NativeString)
    ensures
        r@ == temp_key(),
{
    let r = NativeString::from_bytes(vec![84u8, 69u8, 77u8, 80u8]);
    proof {
        assert(r@ =~= temp_key());
    }
    r
}

/// The value of `k` when it is set and non-empty.
pub open spec fn nonempty_lookup(s: Seq<(Seq<u8>, Seq<u8>)>, k: Seq<u8>) -> Option<Seq<u8>> {
    match env_lookup(s, k) {
        Option::Some(v) => if v.len() > 0 {
            Option::Some(v)
        } else {
            Option::None
        },
        Option::None => Option::None,
    }
}

/// The view of an optional native string.
pub open spec fn opt_view(o: Option<NativeString>) -> Option<Seq<u8>> {
    match o {
        Option::Some(n) => Option::Some(n@),
        Option::None => Option::None,
    }
}

/// The home directory the documented resolution order yields: the `HOME`
/// variable when set and non-empty; on Windows-like platforms then
/// `USERPROFILE` when set and non-empty; else whatever the host's user
/// database reports, supplied as `fb`.
pub open spec fn home_dir_spec(
    s: Seq<(Seq<u8>, Seq<u8>)>,
    p: Platform,
    fb: Option<Seq<u8>>,
) -> Option<Seq<u8>> {
    match p {
        Platform::Posix => match nonempty_lookup(s, home_key()) {
            Option::Some(v) => Option::Some(v),
            Option::None => fb,
        },
        Platform::Windows => match nonempty_lookup(s, home_key()) {
            Option::Some(v) => Option::Some(v),
            Option::None => match nonempty_lookup(s, userprofile_key()) {
                Option::Some(v) => Option::Some(v),
                Option::None => fb,
            },
        },
    }
}

/// The path of the current user's home directory, when known. `fallback` is
/// what the host's user-database lookup reported; it is consulted only when
/// no suitable variable is set.
pub fn home_dir(env: &EnvSnapshot, p: Platform, fallback: Option<NativeString>) -> (r: Option<
    NativeString,
>)
    ensures
        opt_view(r) == home_dir_spec(env@, p, opt_view(fallback)),
{
    let hk = home_key_native();
    let hv = var_os(env, &hk);
    let hv_ok = match &hv {
        Option::Some(v) => v.len() > 0,
        Option::None => false,
    };
    if hv_ok {
        return hv;
    }
    match p {
        Platform::Posix => fallback,
        Platform::Windows => {
            let uk = userprofile_key_native();
            let uv = var_os(env, &uk);
            let uv_ok = match &uv {
                Option::Some(v) => v.len() > 0,
                Option::None => false,
            };
            if uv_ok {
                uv
            } else {
                fallback
            }
        },
    }
}

/// The temporary directory the documented resolution order yields: on
/// POSIX-like platforms the `TMPDIR` variable when set, else the host's
/// default temporary path `fb`; on Windows-like platforms the first of
/// `TMP`, `TEMP`, `USERPROFILE` that is set and non-empty, else `fb`.
pub open spec fn temp_dir_spec(s: Seq<(Seq<u8>, Seq<u8>)>, p: Platform, fb: Seq<u8>) -> Seq<u8> {
    match p {
        Platform::Posix => match env_lookup(s, tmpdir_key()) {
            Option::Some(v) => v,
            Option::None => fb,
        },
        Platform::Windows => match nonempty_lookup(s, tmp_key()) {
            Option::Some(v) => v,
            Option::None => match nonempty_lookup(s, temp_key()) {
                Option::Some(v) => v,
                Option::None => match nonempty_lookup(s, userprofile_key()) {
                    Option::Some(v) => v,
                    Option::None => fb,
                },
            },
        },
    }
}

/// The path of a temporary directory. `fallback` is the host's default
/// temporary path; it is consulted only when no suitable variable is set.
pub fn temp_dir(env: &EnvSnapshot, p: Platform, fallback: NativeString) -> (r: NativeString)
    ensures
        r@ == temp_dir_spec(env@, p, fallback@),
{
    match p {
        Platform::Posix => {
            let tk = tmpdir_key_native();
            match var_os(env, &tk) {
                Option::Some(v) => v,
                Option::None => fallback,
            }
        },
        Platform::Windows => {
            let tk = tmp_key_native();
            let tv = var_os(env, &tk);
            let tv_ok = match &tv {
                Option::Some(v) => v.len() > 0,
                Option::None => false,
            };
            if tv_ok {
                return tv.unwrap();
            }
            let ek = temp_key_native();
            let ev = var_os(env, &ek);
            let ev_ok = match &ev {
                Option::Some(v) => v.len() > 0,
                Option::None => false,
            };
            if ev_ok {
                return ev.unwrap();
            }
            let uk = userprofile_key_native();
            let uv = var_os(env, &uk);
            let uv_ok = match &uv {
                Option::Some(v) => v.len() > 0,
                Option::None => false,
            };
            if uv_ok {
                return uv.unwrap();
            }
            fallback
        },
    }
}

/// Captures the snapshot's variables as Unicode pairs when every key and
/// value decodes; returns `None` as soon as one does not.
pub fn try_vars(env: &EnvSnapshot) -> (r: Option<Vars>)
    ensures
        match r {
            Option::Some(v) => all_unicode_pairs(env@) && v@ == decoded_pairs(env@),
            Option::None => !all_unicode_pairs(env@),
        },
{
    let mut i: usize = 0;
    let n = env.entries.len();
    while i < n
        invariant
            n == env@.len(),
            i <= n,
            forall|j: int|
                0 <= j < i ==> valid_utf8((#[trigger] env@[j]).0) && valid_utf8(env@[j].1),
        decreases n - i,
    {
        if !env.entries[i].0.is_unicode() || !env.entries[i].1.is_unicode() {
            proof {
                assert(env@[i as int] == (env.entries@[i as int].0@, env.entries@[i as int].1@));
                assert(!(valid_utf8(env@[i as int].0) && valid_utf8(env@[i as int].1)));
            }
            return None;
        }
        i = i + 1;
    }
    Some(vars(env))
}

} // verus!
