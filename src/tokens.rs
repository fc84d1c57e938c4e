use vstd::prelude::*;
use vstd::string::StringSliceAdditionalSpecFns;
use crate::kernel::views;

verus! {

/// Whether `c` has the Unicode White_Space property, as `char::is_whitespace` decides.
pub uninterp spec fn whitespace(c: char) -> bool;

/// Relies on char::is_whitespace: whether the character is Unicode white space.
#[verifier::external_body]
fn is_space(c: char) -> (r: bool)
    ensures
        r == whitespace(c),
{
    c.is_whitespace()
}

/// The Unicode scalar values of a sequence of characters.
pub open spec fn scalars(s: Seq<char>) -> Seq<u32> {
    s.map_values(|c: char| c as u32)
}

/// Splits `s` on white space: the words completed so far and the word in progress.
pub open spec fn split_words(s: Seq<char>) -> (Seq<Seq<char>>, Seq<char>)
    decreases s.len(),
{
    if s.len() == 0 {
        (Seq::empty(), Seq::empty())
    } else {
        let (done, cur) = split_words(s.drop_last());
        if !whitespace(s.last()) {
            (done, cur.push(s.last()))
        } else if cur.len() > 0 {
            (done.push(cur), Seq::empty())
        } else {
            (done, Seq::empty())
        }
    }
}

/// The maximal runs of non-white-space characters of `s`, in order.
pub open spec fn words(s: Seq<char>) -> Seq<Seq<char>> {
    let (done, cur) = split_words(s);
    if cur.len() > 0 {
        done.push(cur)
    } else {
        done
    }
}

/// The words of `s`, each as its scalar values.
pub open spec fn word_scalars(s: Seq<char>) -> Seq<Seq<u32>> {
    words(s).map_values(|w: Seq<char>| scalars(w))
}

/// The bytes of the UTF-8 encoding of `s`.
pub fn byte_tokens(s: &str) -> (r: &[u8])
    ensures
        r@ == s.spec_bytes(),
{
    s.as_bytes()
}

/// The Unicode scalar values of `s`, one token per character.
pub fn char_tokens(s: &str) -> (r: Vec<u32>)
    ensures
        r@ == scalars(s@),
{
    broadcast use vstd::string::axiom_spec_iter;
    let mut r: Vec<u32> = Vec::new();
    for c in it: s.chars()
        invariant
            it.seq() == s@,
            r@ == scalars(it.seq().take(it.index() as int)),
    {
        proof {
            assert(scalars(it.seq().take(it.index() + 1)) =~= scalars(it.seq().take(it.index() as int)).push(c as u32));
        }
        r.push(c as u32);
    }
    proof {
        assert(s@.take(s@.len() as int) =~= s@);
    }
    r
}

/// The words of `s`: its maximal runs of non-white-space characters, each as
/// its scalar values.
pub fn word_tokens(s: &str) -> (r: Vec<Vec<u32>>)
    ensures
        views(r@) == word_scalars(s@),
{
    broadcast use vstd::string::axiom_spec_iter;
    let mut done: Vec<Vec<u32>> = Vec::new();
    let mut cur: Vec<u32> = Vec::new();
    for c in it: s.chars()
        invariant
            it.seq() == s@,
            views(done@) == split_words(it.seq().take(it.index() as int)).0.map_values(
                |w: Seq<char>| scalars(w),
            ),
            cur@ == scalars(split_words(it.seq().take(it.index() as int)).1),
    {
        let ghost p = it.seq().take(it.index() as int);
        let ghost q = it.seq().take(it.index() + 1);
        proof {
            assert(q.drop_last() =~= p);
            assert(q.last() == c);
        }
        if !is_space(c) {
            proof {
                assert(scalars(split_words(p).1.push(c)) =~= cur@.push(c as u32));
            }
            cur.push(c as u32);
        } else if cur.len() > 0 {
            proof {
                assert(views(done@.push(cur)) =~= views(done@).push(cur@));
                assert(split_words(p).0.push(split_words(p).1).map_values(|w: Seq<char>| scalars(w))
                    =~= split_words(p).0.map_values(|w: Seq<char>| scalars(w)).push(cur@));
            }
            done.push(cur);
            cur = Vec::new();
            proof {
                assert(cur@ =~= scalars(Seq::<char>::empty()));
            }
        } else {
            proof {
                assert(cur@ =~= scalars(Seq::<char>::empty()));
            }
        }
    }
    let ghost p = s@.take(s@.len() as int);
    proof {
        assert(p =~= s@);
    }
    if cur.len() > 0 {
        proof {
            assert(views(done@.push(cur)) =~= views(done@).push(cur@));
            assert(split_words(p).0.push(split_words(p).1).map_values(|w: Seq<char>| scalars(w))
                =~= split_words(p).0.map_values(|w: Seq<char>| scalars(w)).push(cur@));
        }
        done.push(cur);
    } else {
        proof {
            assert(split_words(p).1.len() == 0);
        }
    }
    done
}

} // verus!
