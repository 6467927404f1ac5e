//! Process arguments over an explicit snapshot: double-ended iterators with
//! an exact remaining count, as raw native strings or decoded as Unicode.

use crate::native::NativeString;
use vstd::prelude::*;
use vstd::utf8::{decode_utf8, valid_utf8};

verus! {

/// The views of a sequence of native strings.
pub open spec fn arg_views(s: Seq<NativeString>) -> Seq<Seq<u8>> {
    s.map_values(|n: NativeString| n@)
}

/// The views of a sequence of Unicode strings.
pub open spec fn string_views(s: Seq<String>) -> Seq<Seq<char>> {
    s.map_values(|x: String| x@)
}

/// True when every argument is valid UTF-8.
pub open spec fn all_unicode_args(s: Seq<Seq<u8>>) -> bool {
    forall|i: int| 0 <= i < s.len() ==> valid_utf8(#[trigger] s[i])
}

/// The arguments decoded as Unicode.
pub open spec fn decoded_args(s: Seq<Seq<u8>>) -> Seq<Seq<char>> {
    s.map_values(|b: Seq<u8>| decode_utf8(b))
}

/// An iterator over a snapshot of the process's arguments as raw native
/// strings. Its view is the sequence of arguments not yet handed out, and
/// both ends can be consumed.
#[derive(Debug)]
pub struct ArgsOs {
    items: Vec<NativeString>,
}

impl View for ArgsOs {
    type V = Seq<Seq<u8>>;

    closed spec fn view(&self) -> Seq<Seq<u8>> {
        arg_views(self.items@)
    }
}

/// Wraps a captured argument list as a snapshot iterator. The first element
/// is traditionally the path of the executable, but it can be arbitrary.
pub fn args_os(argv: Vec<NativeString>) -> (r: ArgsOs)
    ensures
        r@ == arg_views(argv@),
{
    ArgsOs { items: argv }
}

impl ArgsOs {
    /// Hands out the next argument, front to back.
    pub fn next(&mut self) -> (r: Option<NativeString>)
        ensures
            match r {
                Option::None => old(self)@.len() == 0 && final(self)@ == old(self)@,
                Option::Some(n) => old(self)@.len() > 0 && n@ == old(self)@[0] && final(self)@
                    == old(self)@.drop_first(),
            },
    {
        if self.items.len() == 0 {
            None
        } else {
            let n = self.items.remove(0);
            proof {
                assert(self@ =~= old(self)@.drop_first());
            }
            Some(n)
        }
    }

    /// Hands out the next argument, back to front.
    pub fn next_back(&mut self) -> (r: Option<NativeString>)
        ensures
            match r {
                Option::None => old(self)@.len() == 0 && final(self)@ == old(self)@,
                Option::Some(n) => old(self)@.len() > 0 && n@ == old(self)@.last() && final(self)@
                    == old(self)@.drop_last(),
            },
    {
        match self.items.pop() {
            Option::Some(n) => {
                proof {
                    assert(self@ =~= old(self)@.drop_last());
                }
                Some(n)
            },
            Option::None => {
                proof {
                    assert(self@ =~= old(self)@);
                }
                None
            },
        }
    }

    /// The exact number of arguments left.
    pub fn len(&self) -> (r: usize)
        ensures
            r == self@.len(),
    {
        self.items.len()
    }

    /// True when no argument is left.
    pub fn is_empty(&self) -> (r: bool)
        ensures
            r == (self@.len() == 0),
    {
        self.items.len() == 0
    }

    /// The exact number of arguments left, as a lower and upper bound.
    pub fn size_hint(&self) -> (r: (usize, Option<usize>))
        ensures
            r.0 == self@.len(),
            r.1 == Option::Some(r.0),
    {
        (self.items.len(), Some(self.items.len()))
    }
}

/// An iterator over a snapshot of the process's arguments decoded as
/// Unicode strings. Its view is the sequence of arguments not yet handed
/// out, and both ends can be consumed.
#[derive(Debug)]
pub struct Args {
    items: Vec<String>,
}

impl View for Args {
    type V = Seq<Seq<char>>;

    closed spec fn view(&self) -> Seq<Seq<char>> {
        string_views(self.items@)
    }
}

/// Decodes a captured argument snapshot as Unicode strings. Every argument
/// must be valid UTF-8; use [`try_args`] to test that first, or the raw
/// [`ArgsOs`] when arguments may not be.
pub fn args(raw: &ArgsOs) -> (r: Args)
    requires
        all_unicode_args(raw@),
    ensures
        r@ == decoded_args(raw@),
{
    let mut items: Vec<String> = Vec::new();
    let mut i: usize = 0;
    let n = raw.items.len();
    proof {
        assert(string_views(items@) =~= decoded_args(raw@).take(0));
    }
    while i < n
        invariant
            all_unicode_args(raw@),
            n == raw@.len(),
            i <= n,
            string_views(items@) == decoded_args(raw@).take(i as int),
        decreases n - i,
    {
        let ghost items0 = items@;
        proof {
            assert(string_views(items0).len() == items0.len());
            assert(decoded_args(raw@).take(i as int).len() == i as int);
            assert(items0.len() == i as int);
            assert(raw@[i as int] == raw.items@[i as int]@);
            assert(valid_utf8(raw@[i as int]));
        }
        let a = match raw.items[i].clone().into_string() {
            Result::Ok(s) => s,
            Result::Err(_) => {
                proof {
                    assert(false);
                }
                String::new()
            },
        };
        let ghost av = a@;
        items.push(a);
        i = i + 1;
        proof {
            let vi = i as int;
            assert(items@ == items0.push(items@[vi - 1]));
            assert(decoded_args(raw@)[vi - 1] == decode_utf8(raw@[vi - 1]));
            assert(av == decoded_args(raw@)[vi - 1]);
            assert forall|j: int| 0 <= j < vi implies string_views(items@)[j] == decoded_args(
                raw@,
            ).take(vi)[j] by {
                if j < vi - 1 {
                    assert(items@[j] == items0[j]);
                    assert(string_views(items0)[j] == decoded_args(raw@).take(vi - 1)[j]);
                } else {
                    assert(string_views(items@)[j] == av);
                }
            }
            assert(string_views(items@) =~= decoded_args(raw@).take(vi));
        }
    }
    proof {
        assert(decoded_args(raw@).take(n as int) =~= decoded_args(raw@));
    }
    Args { items }
}

/// Decodes a captured argument snapshot as Unicode strings when every
/// argument decodes; returns `None` as soon as one does not.
pub fn try_args(raw: &ArgsOs) -> (r: Option<Args>)
    ensures
        match r {
            Option::Some(a) => all_unicode_args(raw@) && a@ == decoded_args(raw@),
            Option::None => !all_unicode_args(raw@),
        },
{
    let mut i: usize = 0;
    let n = raw.items.len();
    while i < n
        invariant
            n == raw@.len(),
            i <= n,
            forall|j: int| 0 <= j < i ==> valid_utf8(#[trigger] raw@[j]),
        decreases n - i,
    {
        if !raw.items[i].is_unicode() {
            proof {
                assert(raw@[i as int] == raw.items@[i as int]@);
                assert(!valid_utf8(raw@[i as int]));
            }
            return None;
        }
        proof {
            assert(raw@[i as int] == raw.items@[i as int]@);
        }
        i = i + 1;
    }
    Some(args(raw))
}

impl Args {
    /// Hands out the next decoded argument, front to back.
    pub fn next(&mut self) -> (r: Option<String>)
        ensures
            match r {
                Option::None => old(self)@.len() == 0 && final(self)@ == old(self)@,
                Option::Some(s) => old(self)@.len() > 0 && s@ == old(self)@[0] && final(self)@
                    == old(self)@.drop_first(),
            },
    {
        if self.items.len() == 0 {
            None
        } else {
            let s = self.items.remove(0);
            proof {
                assert(self@ =~= old(self)@.drop_first());
            }
            Some(s)
        }
    }

    /// Hands out the next decoded argument, back to front.
    pub fn next_back(&mut self) -> (r: Option<String>)
        ensures
            match r {
                Option::None => old(self)@.len() == 0 && final(self)@ == old(self)@,
                Option::Some(s) => old(self)@.len() > 0 && s@ == old(self)@.last() && final(self)@
                    == old(self)@.drop_last(),
            },
    {
        match self.items.pop() {
            Option::Some(s) => {
                proof {
                    assert(self@ =~= old(self)@.drop_last());
                }
                Some(s)
            },
            Option::None => {
                proof {
                    assert(self@ =~= old(self)@);
                }
                None
            },
        }
    }

    /// The exact number of arguments left.
    pub fn len(&self) -> (r: usize)
        ensures
            r == self@.len(),
    {
        self.items.len()
    }

    /// True when no argument is left.
    pub fn is_empty(&self) -> (r: bool)
        ensures
            r == (self@.len() == 0),
    {
        self.items.len() == 0
    }

    /// The exact number of arguments left, as a lower and upper bound.
    pub fn size_hint(&self) -> (r: (usize, Option<usize>))
        ensures
            r.0 == self@.len(),
            r.1 == Option::Some(r.0),
    {
        (self.items.len(), Some(self.items.len()))
    }
}

/// The arguments that repeated backward steps yield from a snapshot: the
/// last element first, then backward through the rest.
pub open spec fn back_enumeration(s: Seq<Seq<u8>>) -> Seq<Seq<u8>>
    decreases s.len(),
{
    if s.len() == 0 {
        Seq::<Seq<u8>>::empty()
    } else {
        seq![s.last()] + back_enumeration(s.drop_last())
    }
}

/// Reverse iteration hands out exactly the forward elements in reverse
/// order: element `i` of the backward enumeration is element `len - 1 - i`
/// of the snapshot.
pub proof fn lemma_back_enumeration_reverses(s: Seq<Seq<u8>>)
    ensures
        back_enumeration(s).len() == s.len(),
        forall|i: int| 0 <= i < s.len() ==> back_enumeration(s)[i] == s[s.len() - 1 - i],
    decreases s.len(),
{
    if s.len() > 0 {
        lemma_back_enumeration_reverses(s.drop_last());
        assert forall|i: int| 0 <= i < s.len() implies back_enumeration(s)[i] == s[s.len() - 1
            - i] by {
            if i == 0 {
                assert(back_enumeration(s)[0] == s.last());
            } else {
                assert(back_enumeration(s)[i] == back_enumeration(s.drop_last())[i - 1]);
                assert(back_enumeration(s.drop_last())[i - 1] == s.drop_last()[s.drop_last().len()
                    - 1 - (i - 1)]);
                assert(s.drop_last()[s.len() - 1 - i] == s[s.len() - 1 - i]);
            }
        }
    }
}

} // verus!
