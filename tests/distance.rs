use edit_distance::dispatch::{get_runner, Atom, Metric, Score};
use edit_distance::kernel::{
    levenshtein_distance, levenshtein_distance_helper, osa_distance, osa_distance_helper,
};
use edit_distance::record::split_record;
use edit_distance::tokens::{byte_tokens, char_tokens, word_tokens};

fn lev_str(x: &str, y: &str) -> usize {
    levenshtein_distance(x.as_bytes(), y.as_bytes())
}

fn osa_str(x: &str, y: &str) -> usize {
    osa_distance(x.as_bytes(), y.as_bytes())
}

fn ratio(s: Score) -> f64 {
    s.distance as f64 / s.denominator() as f64
}

#[test]
fn distance_to_self_is_zero() {
    for s in ["", "a", "kitten", "abcabc", "hello world"] {
        assert_eq!(lev_str(s, s), 0);
        assert_eq!(osa_str(s, s), 0);
    }
}

#[test]
fn distances_are_symmetric() {
    let pairs = [("kitten", "sitting"), ("ab", "ba"), ("abcd", "badc"), ("", "xyz"), ("flaw", "lawn")];
    for (x, y) in pairs {
        assert_eq!(lev_str(x, y), lev_str(y, x));
        assert_eq!(osa_str(x, y), osa_str(y, x));
    }
}

#[test]
fn levenshtein_triangle_inequality_on_examples() {
    let words = ["kitten", "sitting", "mitten", "", "kit", "smitten"];
    for x in words {
        for y in words {
            for z in words {
                assert!(lev_str(x, z) <= lev_str(x, y) + lev_str(y, z));
            }
        }
    }
}

#[test]
fn distance_between_length_gap_and_longer_length() {
    let pairs = [("kitten", "sitting"), ("a", "abcdef"), ("abc", "xyz"), ("ab", "ba")];
    for (x, y) in pairs {
        let gap = (x.len() as i64 - y.len() as i64).unsigned_abs() as usize;
        let longest = x.len().max(y.len());
        for d in [lev_str(x, y), osa_str(x, y)] {
            assert!(d >= gap);
            assert!(d <= longest);
        }
    }
}

#[test]
fn osa_never_exceeds_levenshtein() {
    let pairs = [("ab", "ba"), ("abcd", "badc"), ("kitten", "sitting"), ("ca", "abc"), ("", "q")];
    for (x, y) in pairs {
        assert!(osa_str(x, y) <= lev_str(x, y));
    }
    assert_eq!(osa_str("abcd", "badc"), 2);
}

#[test]
fn adjacent_swap() {
    assert_eq!(osa_str("ab", "ba"), 1);
    assert_eq!(lev_str("ab", "ba"), 2);
}

#[test]
fn osa_restricted_edit_distance() {
    // A swapped pair is not edited again, so "ca" to "abc" costs three.
    assert_eq!(osa_str("ca", "abc"), 3);
    assert_eq!(lev_str("ca", "abc"), 3);
}

#[test]
fn empty_against_empty_scores_zero() {
    for metric in [Metric::Lev, Metric::OSA] {
        for atom in [Atom::Byte, Atom::Char, Atom::Word] {
            let s = get_runner(atom, metric).run("", "");
            assert_eq!(s, Score { distance: 0, longest: 0 });
            assert_eq!(s.denominator(), 1);
            assert_eq!(ratio(s), 0.0);
        }
    }
    assert_eq!(get_runner(Atom::Word, Metric::Lev).run("   ", "\t").distance, 0);
}

#[test]
fn empty_against_non_empty_is_length() {
    for s in ["a", "kitten", "four"] {
        assert_eq!(lev_str(s, ""), s.len());
        assert_eq!(osa_str(s, ""), s.len());
        assert_eq!(lev_str("", s), s.len());
    }
    let r = get_runner(Atom::Char, Metric::Lev).run("héllo", "");
    assert_eq!(r, Score { distance: 5, longest: 5 });
    assert_eq!(ratio(r), 1.0);
}

#[test]
fn byte_and_char_atoms_differ_on_multibyte() {
    let s = "é";
    assert_eq!(byte_tokens(s).len(), 2);
    assert_eq!(char_tokens(s), vec![0xe9]);
    let bytes = get_runner(Atom::Byte, Metric::Lev).run("é", "e");
    let chars = get_runner(Atom::Char, Metric::Lev).run("é", "e");
    assert_eq!(bytes, Score { distance: 2, longest: 2 });
    assert_eq!(chars, Score { distance: 1, longest: 1 });
}

#[test]
fn word_atom_collapses_white_space() {
    let a: Vec<u32> = vec!['a' as u32];
    let b: Vec<u32> = vec!['b' as u32];
    assert_eq!(word_tokens("a  b"), vec![a.clone(), b.clone()]);
    assert_eq!(word_tokens("a b"), vec![a.clone(), b.clone()]);
    assert_eq!(word_tokens("  a \t\n b  "), vec![a, b]);
    assert_eq!(word_tokens(""), Vec::<Vec<u32>>::new());
    assert_eq!(word_tokens("   "), Vec::<Vec<u32>>::new());
    assert_eq!(get_runner(Atom::Word, Metric::Lev).run("a  b", "a b").distance, 0);
    let r = get_runner(Atom::Word, Metric::OSA).run("the quick fox", "quick the fox");
    assert_eq!(r, Score { distance: 1, longest: 3 });
    let r = get_runner(Atom::Word, Metric::Lev).run("the quick fox", "quick the fox");
    assert_eq!(r, Score { distance: 2, longest: 3 });
}

#[test]
fn kitten_sitting_end_to_end() {
    let (x, y) = split_record("kitten\tsitting", '\t').unwrap();
    let r = get_runner(Atom::Char, Metric::Lev).run(x, y);
    assert_eq!(r, Score { distance: 3, longest: 7 });
    assert!((ratio(r) - 3.0 / 7.0).abs() < 1e-12);
    assert!((ratio(r) - 0.4286).abs() < 1e-4);
}

#[test]
fn ab_ba_end_to_end() {
    let (x, y) = split_record("ab\tba", '\t').unwrap();
    let osa = get_runner(Atom::Char, Metric::OSA).run(x, y);
    assert_eq!(osa, Score { distance: 1, longest: 2 });
    assert_eq!(ratio(osa), 0.5);
    let lev = get_runner(Atom::Char, Metric::Lev).run(x, y);
    assert_eq!(lev, Score { distance: 2, longest: 2 });
    assert_eq!(ratio(lev), 1.0);
}

#[test]
fn malformed_records_are_skipped() {
    let lines = ["kitten\tsitting", "no separator", "a\tb\tc", "ab\tba", ""];
    let runner = get_runner(Atom::Char, Metric::Lev);
    let mut out: Vec<usize> = Vec::new();
    for line in lines {
        if let Some((x, y)) = split_record(line, '\t') {
            out.push(runner.run(x, y).distance);
        }
    }
    assert_eq!(out, vec![3, 2]);
}

#[test]
fn split_record_fields() {
    assert_eq!(split_record("a,b", ','), Some(("a", "b")));
    assert_eq!(split_record(",", ','), Some(("", "")));
    assert_eq!(split_record("héllo|wörld", '|'), Some(("héllo", "wörld")));
    assert_eq!(split_record("a,b", '\t'), None);
    assert_eq!(split_record("a,,b", ','), None);
}

#[test]
fn char_tokens_are_scalar_values() {
    assert_eq!(char_tokens("aé€😀"), vec![0x61, 0xe9, 0x20ac, 0x1f600]);
    assert_eq!(byte_tokens("aé€😀").len(), 1 + 2 + 3 + 4);
}

#[test]
fn metric_distances_on_bytes() {
    assert_eq!(get_runner(Atom::Byte, Metric::Lev).run("kitten", "sitting"), Score { distance: 3, longest: 7 });
    assert_eq!(get_runner(Atom::Byte, Metric::OSA).run("ab", "ba"), Score { distance: 1, longest: 2 });
    assert_eq!(get_runner(Atom::Byte, Metric::Lev).run("flaw", "lawn"), Score { distance: 2, longest: 4 });
}

#[test]
fn helpers_fill_the_memo() {
    let x = b"kitten";
    let y = b"sitting";
    let mut memo = vec![usize::MAX; x.len() * y.len()];
    assert_eq!(levenshtein_distance_helper(x, y, &mut memo, y.len()), 3);
    assert_eq!(memo[x.len() * y.len() - 1], 3);
    // A second call reads the stored cell.
    assert_eq!(levenshtein_distance_helper(x, y, &mut memo, y.len()), 3);

    let x = b"abcd";
    let y = b"badc";
    let mut memo = vec![usize::MAX; x.len() * y.len()];
    assert_eq!(osa_distance_helper(x, y, &mut memo, y.len()), 2);
    assert_eq!(memo[x.len() * y.len() - 1], 2);
}

#[test]
fn generic_over_token_type() {
    let x: Vec<u32> = vec![1, 2, 3];
    let y: Vec<u32> = vec![1, 3, 2];
    assert_eq!(levenshtein_distance(&x, &y), 2);
    assert_eq!(osa_distance(&x, &y), 1);
    let w1: Vec<Vec<u32>> = vec![vec![1], vec![2, 2]];
    let w2: Vec<Vec<u32>> = vec![vec![2, 2]];
    assert_eq!(levenshtein_distance(&w1, &w2), 1);
}
