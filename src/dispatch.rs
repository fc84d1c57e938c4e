use vstd::prelude::*;
use vstd::string::StringSliceAdditionalSpecFns;
use vstd::utf8::encode_utf8;
use crate::kernel::{levenshtein_distance, osa_distance, views};
use crate::metric::{lev, osa, max_nat, lemma_length_bounds};
use crate::tokens::{byte_tokens, char_tokens, word_tokens, scalars, split_words, words, word_scalars};

verus! {

/// Which edit distance to compute.
#[derive(Clone, Copy, Debug, PartialEq, Eq, Structural)]
pub enum Metric {
    /// Levenshtein: insert, delete, substitute.
    Lev,
    /// Optimal string alignment: Levenshtein plus adjacent swaps.
    OSA,
}

/// How a text is cut into tokens.
#[derive(Clone, Copy, Debug, PartialEq, Eq, Structural)]
pub enum Atom {
    /// The bytes of its UTF-8 encoding.
    Byte,
    /// Its Unicode scalar values.
    Char,
    /// Its maximal runs of non-white-space characters.
    Word,
}

/// An edit distance together with the larger of the two token counts.
#[derive(Clone, Copy, Debug, PartialEq, Eq, Structural)]
pub struct Score {
    pub distance: usize,
    pub longest: usize,
}

impl Score {
    /// The divisor of the normalized score: the larger token count, or 1 when
    /// both inputs have no tokens, so that two empty inputs score zero.
    pub fn denominator(&self) -> (r: usize)
        ensures
            r == if self.longest == 0 { 1 } else { self.longest },
    {
        if self.longest == 0 { 1 } else { self.longest }
    }
}

/// The distance that `metric` names.
pub open spec fn metric_distance<V>(metric: Metric, x: Seq<V>, y: Seq<V>) -> nat {
    match metric {
        Metric::Lev => lev(x, y),
        Metric::OSA => osa(x, y),
    }
}

/// The distance under `metric` between the tokens of `x` and `y` under `atom`.
pub open spec fn atom_distance(metric: Metric, atom: Atom, x: &str, y: &str) -> nat {
    match atom {
        Atom::Byte => metric_distance(metric, x.spec_bytes(), y.spec_bytes()),
        Atom::Char => metric_distance(metric, scalars(x@), scalars(y@)),
        Atom::Word => metric_distance(metric, word_scalars(x@), word_scalars(y@)),
    }
}

/// The larger of the token counts of `x` and `y` under `atom`.
pub open spec fn atom_longest(atom: Atom, x: &str, y: &str) -> nat {
    match atom {
        Atom::Byte => max_nat(x.spec_bytes().len(), y.spec_bytes().len()),
        Atom::Char => max_nat(x@.len(), y@.len()),
        Atom::Word => max_nat(words(x@).len(), words(y@).len()),
    }
}

/// A text has at least as many bytes as characters.
pub proof fn lemma_chars_le_bytes(s: Seq<char>)
    ensures
        s.len() <= encode_utf8(s).len(),
    decreases s.len(),
{
    if s.len() > 0 {
        lemma_chars_le_bytes(s.drop_first());
    }
}

/// A text holding a character outside ASCII has more bytes than characters, so
/// its byte tokens outnumber its character tokens.
pub proof fn lemma_multibyte_more_bytes(s: Seq<char>, i: int)
    requires
        0 <= i < s.len(),
        s[i] as u32 >= 0x80,
    ensures
        s.len() < encode_utf8(s).len(),
    decreases s.len(),
{
    if i == 0 {
        lemma_chars_le_bytes(s.drop_first());
    } else {
        lemma_multibyte_more_bytes(s.drop_first(), i - 1);
    }
}

proof fn lemma_split_words_len(s: Seq<char>)
    ensures
        split_words(s).0.len() + (if split_words(s).1.len() > 0 { 1int } else { 0 }) <= s.len(),
        split_words(s).1.len() <= s.len(),
    decreases s.len(),
{
    if s.len() > 0 {
        lemma_split_words_len(s.drop_last());
    }
}

/// A text has at most as many words as characters.
pub proof fn lemma_words_le_chars(s: Seq<char>)
    ensures
        words(s).len() <= s.len(),
{
    lemma_split_words_len(s);
}

proof fn lemma_product_le(a: int, b: int, c: int, d: int)
    requires
        0 <= a <= c,
        0 <= b <= d,
    ensures
        a * b <= c * d,
{
    assert(a * b <= c * b) by (nonlinear_arith)
        requires
            0 <= a <= c,
            0 <= b,
    ;
    assert(c * b <= c * d) by (nonlinear_arith)
        requires
            0 <= c,
            0 <= b <= d,
    ;
}

/// A distance computation bound to a metric and an atom.
#[derive(Clone, Copy, Debug, PartialEq, Eq, Structural)]
pub struct Runner {
    pub atom: Atom,
    pub metric: Metric,
}

/// The runner for `atom` and `metric`.
pub fn get_runner(atom: Atom, metric: Metric) -> (r: Runner)
    ensures
        r.atom == atom,
        r.metric == metric,
{
    Runner { atom, metric }
}

impl Runner {
    /// Cuts `x` and `y` into tokens under the runner's atom and computes the
    /// distance under its metric, with the larger token count.
    pub fn run(&self, x: &str, y: &str) -> (r: Score)
        requires
            x.spec_bytes().len() * y.spec_bytes().len() <= usize::MAX,
        ensures
            r.distance == atom_distance(self.metric, self.atom, x, y),
            r.longest == atom_longest(self.atom, x, y),
            r.distance <= r.longest,
    {
        broadcast use vstd::laws_eq::group_laws_eq, vstd::std_specs::vec::lemma_vec_obeys_view_eq;

        proof {
            lemma_chars_le_bytes(x@);
            lemma_chars_le_bytes(y@);
            lemma_words_le_chars(x@);
            lemma_words_le_chars(y@);
        }
        match self.atom {
            Atom::Byte => {
                let xt = byte_tokens(x);
                let yt = byte_tokens(y);
                proof {
                    assert(views(xt@) =~= xt@);
                    assert(views(yt@) =~= yt@);
                    lemma_length_bounds(xt@, yt@);
                }
                let d = match self.metric {
                    Metric::Lev => levenshtein_distance(xt, yt),
                    Metric::OSA => osa_distance(xt, yt),
                };
                let longest = if xt.len() >= yt.len() { xt.len() } else { yt.len() };
                Score { distance: d, longest }
            },
            Atom::Char => {
                let xt = char_tokens(x);
                let yt = char_tokens(y);
                proof {
                    assert(views(xt@) =~= xt@);
                    assert(views(yt@) =~= yt@);
                    lemma_length_bounds(xt@, yt@);
                    lemma_product_le(xt@.len() as int, yt@.len() as int, x.spec_bytes().len() as int, y.spec_bytes().len() as int);
                }
                let d = match self.metric {
                    Metric::Lev => levenshtein_distance(xt.as_slice(), yt.as_slice()),
                    Metric::OSA => osa_distance(xt.as_slice(), yt.as_slice()),
                };
                let longest = if xt.len() >= yt.len() { xt.len() } else { yt.len() };
                Score { distance: d, longest }
            },
            Atom::Word => {
                let xt = word_tokens(x);
                let yt = word_tokens(y);
                proof {
                    lemma_length_bounds(views(xt@), views(yt@));
                    lemma_product_le(xt@.len() as int, yt@.len() as int, x.spec_bytes().len() as int, y.spec_bytes().len() as int);
                }
                let d = match self.metric {
                    Metric::Lev => levenshtein_distance(xt.as_slice(), yt.as_slice()),
                    Metric::OSA => osa_distance(xt.as_slice(), yt.as_slice()),
                };
                let longest = if xt.len() >= yt.len() { xt.len() } else { yt.len() };
                Score { distance: d, longest }
            },
        }
    }
}

} // verus!
