//! The `PATH`-list codec: splitting one native string into a list of paths
//! and joining a list of paths back into one native string, under the
//! platform's separator and quoting convention.
//!
//! Splitting is a single left-to-right pass. Outside quotes the separator
//! ends the current segment and the quote byte (where the convention has
//! one) opens a quoted region; inside quotes every byte, the separator
//! included, is copied verbatim until the closing quote; end of input closes
//! an unmatched quote and emits the last segment, even when empty. Joining
//! validates each path in order: a path holding a byte that the convention
//! cannot disambiguate is rejected, a path holding the separator is wrapped
//! in quotes where the convention allows it, and the encoded paths are
//! interspersed with the separator.

use crate::native::NativeString;
use crate::platform::{quote_byte, sep_byte, Platform};
use vstd::prelude::*;

verus! {

/// The views of a sequence of native strings.
pub open spec fn native_views(v: Seq<NativeString>) -> Seq<Seq<u8>> {
    v.map_values(|n: NativeString| n@)
}

/// True when the splitting pass copies this byte into the current segment
/// unchanged when read outside quotes.
pub open spec fn plain_byte(c: u8, p: Platform) -> bool {
    c != sep_byte(p) && quote_byte(p) != Some(c)
}

/// One run of the splitting pass over the remaining input `s`, with `cur`
/// the segment accumulated so far and `inq` whether a quoted region is open.
pub open spec fn split_state(s: Seq<u8>, p: Platform, cur: Seq<u8>, inq: bool) -> Seq<Seq<u8>>
    decreases s.len(),
{
    if s.len() == 0 {
        seq![cur]
    } else {
        let c = s[0];
        let rest = s.drop_first();
        if inq {
            if quote_byte(p) == Some(c) {
                split_state(rest, p, cur, false)
            } else {
                split_state(rest, p, cur.push(c), true)
            }
        } else if quote_byte(p) == Some(c) {
            split_state(rest, p, cur, true)
        } else if c == sep_byte(p) {
            seq![cur] + split_state(rest, p, Seq::<u8>::empty(), false)
        } else {
            split_state(rest, p, cur.push(c), false)
        }
    }
}

/// The list of paths that splitting the native string `s` yields under the
/// convention of `p`.
pub open spec fn split_paths_spec(s: Seq<u8>, p: Platform) -> Seq<Seq<u8>> {
    split_state(s, p, Seq::<u8>::empty(), false)
}

/// True when the path can stand as one entry of a `PATH`-style list under
/// the convention of `p`: on a convention without quoting it must not hold
/// the separator, on one with quoting it must not hold the quote byte.
pub open spec fn joinable(path: Seq<u8>, p: Platform) -> bool {
    match quote_byte(p) {
        None => !path.contains(sep_byte(p)),
        Some(q) => !path.contains(q),
    }
}

/// True when every path of the list can stand as one entry.
pub open spec fn all_joinable(v: Seq<Seq<u8>>, p: Platform) -> bool {
    forall|i: int| 0 <= i < v.len() ==> joinable(#[trigger] v[i], p)
}

/// One path as it stands inside the joined list: wrapped in quotes when it
/// holds the separator and the convention has a quote byte, else unchanged.
pub open spec fn encode_path(path: Seq<u8>, p: Platform) -> Seq<u8> {
    match quote_byte(p) {
        None => path,
        Some(q) => if path.contains(sep_byte(p)) {
            seq![q] + path + seq![q]
        } else {
            path
        },
    }
}

/// The native string that joining the list `v` yields under the convention
/// of `p`: the encoded paths interspersed with the separator.
pub open spec fn join_paths_spec(v: Seq<Seq<u8>>, p: Platform) -> Seq<u8>
    decreases v.len(),
{
    if v.len() == 0 {
        Seq::<u8>::empty()
    } else if v.len() == 1 {
        encode_path(v[0], p)
    } else {
        encode_path(v[0], p) + seq![sep_byte(p)] + join_paths_spec(v.drop_first(), p)
    }
}

/// The error of [`join_paths`]: one input path cannot be represented as a
/// single entry of a `PATH`-style list under the platform's convention.
/// `index` names the earliest offending path.
#[derive(Debug, PartialEq, Eq)]
pub struct JoinPathsError {
    pub index: usize,
}

impl JoinPathsError {
    /// A short description of the failure.
    pub fn description(&self) -> &'static str {
        "failed to join paths"
    }
}

/// An iterator over the paths that splitting a native string yielded, in
/// order. Its view is the sequence of paths not yet handed out.
#[derive(Debug)]
pub struct SplitPaths {
    items: Vec<NativeString>,
}

impl View for SplitPaths {
    type V = Seq<Seq<u8>>;

    closed spec fn view(&self) -> Seq<Seq<u8>> {
        native_views(self.items@)
    }
}

impl SplitPaths {
    /// Hands out the next path, front to back.
    pub fn next(&mut self) -> (r: Option<NativeString>)
        ensures
            match r {
                Option::None => old(self)@.len() == 0 && final(self)@ == old(self)@,
                Option::Some(n) => old(self)@.len() > 0 && n@ == old(self)@[0] && final(self)@
                    == old(self)@.drop_first(),
            },
    {
        if self.items.len() == 0 {
            None
        } else {
            let n = self.items.remove(0);
            proof {
                assert(native_views(self.items@) =~= native_views(old(self).items@).drop_first());
            }
            Some(n)
        }
    }

    /// The exact number of paths left, as a lower and upper bound.
    pub fn size_hint(&self) -> (r: (usize, Option<usize>))
        ensures
            r.0 == self@.len(),
            r.1 == Option::Some(r.0),
    {
        (self.items.len(), Some(self.items.len()))
    }
}

fn contains_byte(v: &Vec<u8>, b: u8) -> (r: bool)
    ensures
        r == v@.contains(b),
{
    let mut i: usize = 0;
    while i < v.len()
        invariant
            i <= v@.len(),
            forall|j: int| 0 <= j < i ==> v@[j] != b,
        decreases v@.len() - i,
    {
        if v[i] == b {
            return true;
        }
        i = i + 1;
    }
    proof {
        assert(!v@.contains(b));
    }
    false
}

fn append_bytes(out: &mut Vec<u8>, src: &Vec<u8>)
    ensures
        final(out)@ == old(out)@ + src@,
{
    let mut i: usize = 0;
    while i < src.len()
        invariant
            i <= src@.len(),
            out@ == old(out)@ + src@.take(i as int),
        decreases src@.len() - i,
    {
        out.push(src[i]);
        i = i + 1;
        proof {
            assert(old(out)@ + src@.take(i as int) =~= (old(out)@ + src@.take(i as int - 1)).push(
                src@[i as int - 1],
            ));
        }
    }
    proof {
        assert(old(out)@ + src@.take(src@.len() as int) =~= old(out)@ + src@);
    }
}

/// Splitting always yields at least one path: end of input emits the last
/// accumulated segment even when it is empty.
pub proof fn lemma_split_state_nonempty(s: Seq<u8>, p: Platform, cur: Seq<u8>, inq: bool)
    ensures
        split_state(s, p, cur, inq).len() >= 1,
    decreases s.len(),
{
    if s.len() > 0 {
        let c = s[0];
        let rest = s.drop_first();
        if inq {
            if quote_byte(p) == Some(c) {
                lemma_split_state_nonempty(rest, p, cur, false);
            } else {
                lemma_split_state_nonempty(rest, p, cur.push(c), true);
            }
        } else if quote_byte(p) == Some(c) {
            lemma_split_state_nonempty(rest, p, cur, true);
        } else if c == sep_byte(p) {
            lemma_split_state_nonempty(rest, p, Seq::<u8>::empty(), false);
        } else {
            lemma_split_state_nonempty(rest, p, cur.push(c), false);
        }
    }
}

/// Parses a native string as a `PATH`-style list under the convention of
/// `p`, yielding the contained paths in order.
pub fn split_paths(unparsed: &NativeString, p: Platform) -> (r: SplitPaths)
    ensures
        r@ == split_paths_spec(unparsed@, p),
        r@.len() >= 1,
{
    proof {
        lemma_split_state_nonempty(unparsed@, p, Seq::<u8>::empty(), false);
    }
    let s = unparsed.as_bytes();
    let sep = p.separator();
    let q = p.quote();
    let mut done: Vec<NativeString> = Vec::new();
    let mut cur: Vec<u8> = Vec::new();
    let mut inq: bool = false;
    let mut i: usize = 0;
    proof {
        assert(s@.skip(0) =~= s@);
        assert(native_views(done@) =~= Seq::<Seq<u8>>::empty());
        assert(native_views(done@) + split_state(s@, p, cur@, inq) =~= split_state(
            s@,
            p,
            Seq::<u8>::empty(),
            false,
        ));
    }
    while i < s.len()
        invariant
            i <= s@.len(),
            s@ == unparsed@,
            sep == sep_byte(p),
            q == quote_byte(p),
            native_views(done@) + split_state(s@.skip(i as int), p, cur@, inq) == split_paths_spec(
                unparsed@,
                p,
            ),
        decreases s@.len() - i,
    {
        let c = s[i];
        proof {
            assert(s@.skip(i as int).len() > 0);
            assert(s@.skip(i as int)[0] == s@[i as int]);
            assert(s@.skip(i as int).drop_first() =~= s@.skip(i as int + 1));
        }
        let is_quote = match q {
            Option::Some(qq) => c == qq,
            Option::None => false,
        };
        if inq {
            if is_quote {
                inq = false;
            } else {
                cur.push(c);
            }
        } else if is_quote {
            inq = true;
        } else if c == sep {
            let ghost done0 = done@;
            let finished = cur;
            cur = Vec::new();
            done.push(NativeString::from_bytes(finished));
            proof {
                assert(native_views(done@) =~= native_views(done0).push(finished@));
            }
        } else {
            cur.push(c);
        }
        i = i + 1;
        proof {
            let rest = s@.skip(i as int);
            assert(native_views(done@) + split_state(rest, p, cur@, inq) =~= split_paths_spec(
                unparsed@,
                p,
            ));
        }
    }
    proof {
        assert(s@.skip(s@.len() as int) =~= Seq::<u8>::empty());
        assert(split_state(Seq::<u8>::empty(), p, cur@, inq) == seq![cur@]);
    }
    let ghost done0 = done@;
    let last = cur;
    done.push(NativeString::from_bytes(last));
    proof {
        assert(native_views(done@) =~= native_views(done0).push(last@));
        assert(native_views(done@) =~= split_paths_spec(unparsed@, p));
    }
    SplitPaths { items: done }
}

/// Joins a list of paths into one native string under the convention of
/// `p`. Fails on the earliest path that cannot stand as one entry: one
/// holding the separator where the convention has no quoting, or one holding
/// the quote byte where it has.
pub fn join_paths(paths: &Vec<NativeString>, p: Platform) -> (r: Result<
    NativeString,
    JoinPathsError,
>)
    ensures
        match r {
            Result::Ok(n) => all_joinable(native_views(paths@), p) && n@ == join_paths_spec(
                native_views(paths@),
                p,
            ),
            Result::Err(e) => e.index < paths@.len() && !joinable(
                native_views(paths@)[e.index as int],
                p,
            ) && (forall|j: int|
                0 <= j < e.index ==> joinable(#[trigger] native_views(paths@)[j], p)),
        },
{
    let sep = p.separator();
    let q = p.quote();
    let mut out: Vec<u8> = Vec::new();
    let mut i: usize = 0;
    while i < paths.len()
        invariant
            i <= paths@.len(),
            sep == sep_byte(p),
            q == quote_byte(p),
            forall|j: int| 0 <= j < i ==> joinable(#[trigger] native_views(paths@)[j], p),
            out@ == join_paths_spec(native_views(paths@).take(i as int), p),
        decreases paths@.len() - i,
    {
        let path = &paths[i];
        let bytes = path.as_bytes();
        let ghost pv = native_views(paths@)[i as int];
        proof {
            assert(pv == bytes@);
        }
        let ghost out0 = out@;
        match q {
            Option::Some(qq) => {
                if contains_byte(bytes, qq) {
                    return Err(JoinPathsError { index: i });
                }
                if i > 0 {
                    out.push(sep);
                }
                if contains_byte(bytes, sep) {
                    out.push(qq);
                    append_bytes(&mut out, bytes);
                    out.push(qq);
                    proof {
                        assert(encode_path(pv, p) =~= seq![qq] + pv + seq![qq]);
                        if i > 0 {
                            assert(out@ =~= out0 + seq![sep] + encode_path(pv, p));
                        } else {
                            assert(out@ =~= encode_path(pv, p));
                        }
                    }
                } else {
                    append_bytes(&mut out, bytes);
                    proof {
                        assert(encode_path(pv, p) == pv);
                        if i > 0 {
                            assert(out@ =~= out0 + seq![sep] + encode_path(pv, p));
                        } else {
                            assert(out@ =~= encode_path(pv, p));
                        }
                    }
                }
            },
            Option::None => {
                if contains_byte(bytes, sep) {
                    return Err(JoinPathsError { index: i });
                }
                if i > 0 {
                    out.push(sep);
                }
                append_bytes(&mut out, bytes);
                proof {
                    assert(encode_path(pv, p) == pv);
                    if i > 0 {
                        assert(out@ =~= out0 + seq![sep] + encode_path(pv, p));
                    } else {
                        assert(out@ =~= encode_path(pv, p));
                    }
                }
            },
        }
        proof {
            lemma_join_push(native_views(paths@).take(i as int), pv, p);
            assert(native_views(paths@).take(i as int).push(pv) =~= native_views(paths@).take(
                i as int + 1,
            ));
            if i > 0 {
                assert(native_views(paths@).take(i as int).len() > 0);
            }
        }
        i = i + 1;
    }
    proof {
        assert(native_views(paths@).take(paths@.len() as int) =~= native_views(paths@));
    }
    Ok(NativeString::from_bytes(out))
}

proof fn lemma_join_push(v: Seq<Seq<u8>>, x: Seq<u8>, p: Platform)
    ensures
        join_paths_spec(v.push(x), p) == if v.len() == 0 {
            encode_path(x, p)
        } else {
            join_paths_spec(v, p) + seq![sep_byte(p)] + encode_path(x, p)
        },
    decreases v.len(),
{
    let w = v.push(x);
    if v.len() == 0 {
        assert(w.len() == 1);
        assert(w[0] == x);
    } else {
        assert(w[0] == v[0]);
        assert(w.drop_first() =~= v.drop_first().push(x));
        lemma_join_push(v.drop_first(), x, p);
        if v.len() == 1 {
            assert(join_paths_spec(w, p) == encode_path(v[0], p) + seq![sep_byte(p)]
                + encode_path(x, p));
        } else {
            assert(encode_path(v[0], p) + seq![sep_byte(p)] + (join_paths_spec(v.drop_first(), p)
                + seq![sep_byte(p)] + encode_path(x, p)) =~= (encode_path(v[0], p) + seq![
                sep_byte(p),
            ] + join_paths_spec(v.drop_first(), p)) + seq![sep_byte(p)] + encode_path(x, p));
        }
    }
}

proof fn lemma_split_plain(path: Seq<u8>, t: Seq<u8>, cur: Seq<u8>, p: Platform)
    requires
        forall|i: int| 0 <= i < path.len() ==> plain_byte(#[trigger] path[i], p),
    ensures
        split_state(path + t, p, cur, false) == split_state(t, p, cur + path, false),
    decreases path.len(),
{
    if path.len() == 0 {
        assert(path + t =~= t);
        assert(cur + path =~= cur);
    } else {
        let c = path[0];
        assert(plain_byte(c, p));
        assert((path + t)[0] == c);
        assert((path + t).drop_first() =~= path.drop_first() + t);
        assert forall|i: int| 0 <= i < path.drop_first().len() implies plain_byte(
            #[trigger] path.drop_first()[i],
            p,
        ) by {
            assert(path.drop_first()[i] == path[i + 1]);
        }
        lemma_split_plain(path.drop_first(), t, cur.push(c), p);
        assert(cur.push(c) + path.drop_first() =~= cur + path);
    }
}

proof fn lemma_split_quoted(path: Seq<u8>, t: Seq<u8>, cur: Seq<u8>, p: Platform, q: u8)
    requires
        quote_byte(p) == Some(q),
        forall|i: int| 0 <= i < path.len() ==> #[trigger] path[i] != q,
    ensures
        split_state(path + t, p, cur, true) == split_state(t, p, cur + path, true),
    decreases path.len(),
{
    if path.len() == 0 {
        assert(path + t =~= t);
        assert(cur + path =~= cur);
    } else {
        let c = path[0];
        assert((path + t)[0] == c);
        assert((path + t).drop_first() =~= path.drop_first() + t);
        assert forall|i: int| 0 <= i < path.drop_first().len() implies #[trigger] path.drop_first()[i]
            != q by {
            assert(path.drop_first()[i] == path[i + 1]);
        }
        lemma_split_quoted(path.drop_first(), t, cur.push(c), p, q);
        assert(cur.push(c) + path.drop_first() =~= cur + path);
    }
}

proof fn lemma_split_encoded(path: Seq<u8>, t: Seq<u8>, p: Platform)
    requires
        joinable(path, p),
    ensures
        split_state(encode_path(path, p) + t, p, Seq::<u8>::empty(), false) == split_state(
            t,
            p,
            path,
            false,
        ),
{
    match quote_byte(p) {
        Option::None => {
            assert forall|i: int| 0 <= i < path.len() implies plain_byte(#[trigger] path[i], p) by {
                assert(!path.contains(sep_byte(p)));
            }
            lemma_split_plain(path, t, Seq::<u8>::empty(), p);
            assert(Seq::<u8>::empty() + path =~= path);
        },
        Option::Some(q) => {
            if !path.contains(sep_byte(p)) {
                assert forall|i: int| 0 <= i < path.len() implies plain_byte(
                    #[trigger] path[i],
                    p,
                ) by {
                    assert(!path.contains(sep_byte(p)));
                    assert(!path.contains(q));
                }
                lemma_split_plain(path, t, Seq::<u8>::empty(), p);
                assert(Seq::<u8>::empty() + path =~= path);
            } else {
                let e = encode_path(path, p);
                assert(e =~= seq![q] + path + seq![q]);
                let s1 = path + (seq![q] + t);
                assert(e + t =~= seq![q] + s1);
                assert((seq![q] + s1)[0] == q);
                assert((seq![q] + s1).drop_first() =~= s1);
                assert(split_state(e + t, p, Seq::<u8>::empty(), false) == split_state(
                    s1,
                    p,
                    Seq::<u8>::empty(),
                    true,
                ));
                assert forall|i: int| 0 <= i < path.len() implies #[trigger] path[i] != q by {
                    assert(!path.contains(q));
                }
                lemma_split_quoted(path, seq![q] + t, Seq::<u8>::empty(), p, q);
                assert(Seq::<u8>::empty() + path =~= path);
                assert((seq![q] + t)[0] == q);
                assert((seq![q] + t).drop_first() =~= t);
                assert(split_state(seq![q] + t, p, path, true) == split_state(t, p, path, false));
            }
        },
    }
}

/// On every platform convention, splitting an empty string yields exactly
/// one empty path.
pub proof fn lemma_split_empty(p: Platform)
    ensures
        split_paths_spec(Seq::<u8>::empty(), p) == seq![Seq::<u8>::empty()],
{
}

/// The round-trip law of the codec: splitting the string that joining a
/// non-empty list of acceptable paths yielded gives back exactly that list.
pub proof fn lemma_split_join_roundtrip(v: Seq<Seq<u8>>, p: Platform)
    requires
        all_joinable(v, p),
        v.len() > 0,
    ensures
        split_paths_spec(join_paths_spec(v, p), p) == v,
    decreases v.len(),
{
    if v.len() == 1 {
        lemma_split_encoded(v[0], Seq::<u8>::empty(), p);
        assert(encode_path(v[0], p) + Seq::<u8>::empty() =~= encode_path(v[0], p));
        assert(split_state(Seq::<u8>::empty(), p, v[0], false) == seq![v[0]]);
        assert(seq![v[0]] =~= v);
    } else {
        let tail = v.drop_first();
        let sep = sep_byte(p);
        let rest = seq![sep] + join_paths_spec(tail, p);
        assert(join_paths_spec(v, p) =~= encode_path(v[0], p) + rest);
        lemma_split_encoded(v[0], rest, p);
        assert(quote_byte(p) != Some(sep));
        assert(rest[0] == sep);
        assert(rest.drop_first() =~= join_paths_spec(tail, p));
        assert(split_state(rest, p, v[0], false) == seq![v[0]] + split_state(
            join_paths_spec(tail, p),
            p,
            Seq::<u8>::empty(),
            false,
        ));
        assert forall|i: int| 0 <= i < tail.len() implies joinable(#[trigger] tail[i], p) by {
            assert(tail[i] == v[i + 1]);
        }
        lemma_split_join_roundtrip(tail, p);
        assert(seq![v[0]] + tail =~= v);
    }
}

} // verus!
