use vstd::prelude::*;
use vstd::string::StrSliceExecFns;

verus! {

/// How many times `c` occurs in `s`.
pub open spec fn count_char(s: Seq<char>, c: char) -> nat
    decreases s.len(),
{
    if s.len() == 0 {
        0
    } else {
        count_char(s.drop_last(), c) + if s.last() == c { 1nat } else { 0 }
    }
}

proof fn lemma_count_concat(s: Seq<char>, t: Seq<char>, c: char)
    ensures
        count_char(s + t, c) == count_char(s, c) + count_char(t, c),
    decreases t.len(),
{
    if t.len() == 0 {
        assert(s + t =~= s);
    } else {
        lemma_count_concat(s, t.drop_last(), c);
        assert((s + t).drop_last() =~= s + t.drop_last());
    }
}

/// Splits a record into the two fields on either side of `sep`. A record that
/// does not hold `sep` exactly once has no fields.
pub fn split_record<'a>(line: &'a str, sep: char) -> (r: Option<(&'a str, &'a str)>)
    ensures
        r is Some <==> count_char(line@, sep) == 1,
        r matches Some((a, b)) ==> {
            &&& line@ == a@ + seq![sep] + b@
            &&& count_char(a@, sep) == 0
            &&& count_char(b@, sep) == 0
        },
{
    broadcast use vstd::string::axiom_spec_iter;
    let n = line.unicode_len();
    let mut seen: usize = 0;
    let mut pos: usize = 0;
    let mut i: usize = 0;
    for c in it: line.chars()
        invariant
            it.seq() == line@,
            line@.len() == n,
            i == it.index(),
            seen == count_char(line@.take(i as int), sep),
            seen >= 1 ==> pos < i && line@[pos as int] == sep && count_char(
                line@.take(pos as int),
                sep,
            ) == 0,
            seen <= i,
    {
        proof {
            assert(line@.take(i + 1).drop_last() =~= line@.take(i as int));
        }
        if c == sep {
            if seen == 0 {
                pos = i;
            }
            seen = seen + 1;
        }
        i = i + 1;
    }
    proof {
        assert(line@.take(i as int) =~= line@);
    }
    if seen == 1 {
        let a = line.substring_char(0, pos);
        let b = line.substring_char(pos + 1, i);
        proof {
            assert(line@ =~= a@ + seq![sep] + b@);
            lemma_count_concat(a@ + seq![sep], b@, sep);
            lemma_count_concat(a@, seq![sep], sep);
            assert(seq![sep].drop_last() =~= Seq::<char>::empty());
        }
        Some((a, b))
    } else {
        None
    }
}

} // verus!
