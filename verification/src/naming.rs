//! Destination names: splitting a file name into stem and extension,
//! building the destination name from the formatted timestamp, and the
//! numeric disambiguation that avoids overwriting an existing file.

use vstd::prelude::*;
use crate::text::{dec_spec, push_char, render_dec, views_of, contains_token};

verus! {

/// How many disambiguation attempts are made before a file is recorded
/// as a failure instead.
pub const MAX_DISAMBIGUATION: u32 = 1000;

/// The index of the last `.` that separates a stem from an extension,
/// or -1 when the name has no such dot. A dot at position 0 (a hidden
/// file) does not begin an extension.
pub open spec fn last_dot(n: Seq<char>) -> int
    decreases n.len(),
{
    if n.len() <= 1 {
        -1
    } else if n.last() == '.' {
        n.len() - 1
    } else {
        last_dot(n.drop_last())
    }
}

/// The stem of a file name: everything before the extension dot, or the
/// whole name when there is none.
pub open spec fn stem_of(n: Seq<char>) -> Seq<char> {
    if last_dot(n) < 0 {
        n
    } else {
        n.subrange(0, last_dot(n))
    }
}

/// The extension of a file name: everything after the extension dot, or
/// empty when there is none.
pub open spec fn ext_of(n: Seq<char>) -> Seq<char> {
    if last_dot(n) < 0 {
        Seq::empty()
    } else {
        n.subrange(last_dot(n) + 1, n.len() as int)
    }
}

proof fn lemma_last_dot_range(n: Seq<char>)
    ensures
        last_dot(n) == -1 || 1 <= last_dot(n) < n.len(),
    decreases n.len(),
{
    if n.len() > 1 && n.last() != '.' {
        lemma_last_dot_range(n.drop_last());
    }
}

fn copy_range(s: &str, from: usize, to: usize) -> (r: String)
    requires
        from <= to <= s@.len(),
    ensures
        r@ == s@.subrange(from as int, to as int),
{
    let mut out = String::new();
    let mut j: usize = from;
    while j < to
        invariant
            from <= j <= to <= s@.len(),
            out@ == s@.subrange(from as int, j as int),
        decreases to - j,
    {
        let c = s.get_char(j);
        proof {
            assert(s@.subrange(from as int, j + 1) =~= s@.subrange(from as int, j as int).push(
                s@[j as int],
            ));
        }
        push_char(&mut out, c);
        j = j + 1;
    }
    out
}

/// Split a file name into stem and extension.
pub fn split_extension(name: &str) -> (r: (String, String))
    ensures
        r.0@ == stem_of(name@),
        r.1@ == ext_of(name@),
{
    let n: usize = name.unicode_len();
    proof {
        lemma_last_dot_range(name@);
    }
    let mut j: usize = n;
    proof {
        assert(name@.subrange(0, n as int) =~= name@);
    }
    while j > 1 && name.get_char(j - 1) != '.'
        invariant
            j <= n,
            n == name@.len(),
            n > 1 ==> j >= 1,
            last_dot(name@) == last_dot(name@.subrange(0, j as int)),
        decreases j,
    {
        proof {
            assert(name@.subrange(0, j as int).drop_last() =~= name@.subrange(0, j - 1));
            assert(name@.subrange(0, j as int).last() == name@[j - 1]);
        }
        j = j - 1;
    }
    proof {
        lemma_last_dot_range(name@.subrange(0, j as int));
    }
    if j > 1 {
        // name[j - 1] is the extension dot
        proof {
            assert(name@.subrange(0, j as int).last() == name@[j - 1]);
            assert(last_dot(name@) == j - 1);
        }
        let stem = copy_range(name, 0, j - 1);
        let ext = copy_range(name, j, n);
        (stem, ext)
    } else {
        proof {
            if j == 1 {
                assert(name@.subrange(0, 1).len() == 1);
            } else {
                assert(name@.subrange(0, 0).len() == 0);
            }
            assert(last_dot(name@) == -1);
            assert(name@.subrange(0, n as int) =~= name@);
        }
        let stem = copy_range(name, 0, n);
        (stem, String::new())
    }
}

/// The stem of the destination name: the formatted timestamp, with the
/// original stem appended after a space when names are preserved.
pub open spec fn dest_stem_spec(formatted: Seq<char>, original: Seq<char>, preserve: bool) -> Seq<
    char,
> {
    if preserve {
        formatted + seq![' '] + stem_of(original)
    } else {
        formatted
    }
}

/// The `n`-th candidate destination name: the stem, then ` (n)` for
/// n >= 1, then the dot and extension when there is an extension.
pub open spec fn candidate_spec(stem: Seq<char>, ext: Seq<char>, n: nat) -> Seq<char> {
    let base = if n == 0 {
        stem
    } else {
        stem + seq![' ', '('] + dec_spec(n) + seq![')']
    };
    if ext.len() > 0 {
        base + seq!['.'] + ext
    } else {
        base
    }
}

/// The first candidate name, counting up from `n`, that is not yet
/// taken; `None` once the budget of attempts is spent.
pub open spec fn first_free_spec(
    stem: Seq<char>,
    ext: Seq<char>,
    used: Seq<Seq<char>>,
    n: nat,
    budget: nat,
) -> Option<Seq<char>>
    decreases budget,
{
    if budget == 0 {
        None
    } else if !used.contains(candidate_spec(stem, ext, n)) {
        Some(candidate_spec(stem, ext, n))
    } else {
        first_free_spec(stem, ext, used, n + 1, (budget - 1) as nat)
    }
}

/// A name that the search returns is not among the taken ones.
pub proof fn lemma_first_free_fresh(
    stem: Seq<char>,
    ext: Seq<char>,
    used: Seq<Seq<char>>,
    n: nat,
    budget: nat,
)
    ensures
        first_free_spec(stem, ext, used, n, budget) matches Some(d) ==> !used.contains(d),
    decreases budget,
{
    if budget > 0 && used.contains(candidate_spec(stem, ext, n)) {
        lemma_first_free_fresh(stem, ext, used, n + 1, (budget - 1) as nat);
    }
}

fn build_candidate(stem: &str, ext: &str, n: u32) -> (r: String)
    ensures
        r@ == candidate_spec(stem@, ext@, n as nat),
{
    let mut s = String::from_str(stem);
    if n > 0 {
        push_char(&mut s, ' ');
        push_char(&mut s, '(');
        let digits = render_dec(n);
        s.append(digits.as_str());
        push_char(&mut s, ')');
        proof {
            assert(s@ =~= stem@ + seq![' ', '('] + dec_spec(n as nat) + seq![')']);
        }
    }
    if ext.unicode_len() > 0 {
        let ghost base = s@;
        push_char(&mut s, '.');
        s.append(ext);
        proof {
            assert(s@ =~= base + seq!['.'] + ext@);
        }
    }
    s
}

/// Find a destination name not yet taken: the plain name first, then
/// numeric disambiguators counting up, giving up after the configured
/// number of attempts.
pub fn pick_fresh_name(stem: &str, ext: &str, used: &Vec<String>) -> (r: Option<String>)
    ensures
        match r {
            Some(name) => first_free_spec(
                stem@,
                ext@,
                views_of(used@),
                0,
                MAX_DISAMBIGUATION as nat,
            ) == Some(name@),
            None => first_free_spec(stem@, ext@, views_of(used@), 0, MAX_DISAMBIGUATION as nat)
                is None,
        },
{
    let mut n: u32 = 0;
    while n < MAX_DISAMBIGUATION
        invariant
            n <= MAX_DISAMBIGUATION,
            first_free_spec(stem@, ext@, views_of(used@), 0, MAX_DISAMBIGUATION as nat)
                == first_free_spec(
                stem@,
                ext@,
                views_of(used@),
                n as nat,
                (MAX_DISAMBIGUATION - n) as nat,
            ),
        decreases MAX_DISAMBIGUATION - n,
    {
        let cand = build_candidate(stem, ext, n);
        if !contains_token(used, &cand) {
            return Some(cand);
        }
        n = n + 1;
    }
    None
}

} // verus!
