//! Character and string helpers shared by the extension filter and the
//! destination-name builder: whitespace removal, leading-dot stripping,
//! ASCII lower-casing, comma splitting and decimal rendering.

use vstd::prelude::*;

verus! {

/// The whitespace characters that are removed from extension tokens:
/// the Unicode White_Space set.
pub open spec fn is_space_char(c: char) -> bool {
    ||| '\u{0009}' <= c <= '\u{000D}'
    ||| c == ' '
    ||| c == '\u{0085}'
    ||| c == '\u{00A0}'
    ||| c == '\u{1680}'
    ||| '\u{2000}' <= c <= '\u{200A}'
    ||| c == '\u{2028}'
    ||| c == '\u{2029}'
    ||| c == '\u{202F}'
    ||| c == '\u{205F}'
    ||| c == '\u{3000}'
}

/// ASCII lower-casing of a single character; anything outside `A`..`Z`
/// is left unchanged.
pub open spec fn lower_char(c: char) -> char {
    if 'A' <= c && c <= 'Z' {
        ((c as u8) + 32) as char
    } else {
        c
    }
}

/// `s` with every whitespace character removed.
pub open spec fn strip_space(s: Seq<char>) -> Seq<char>
    decreases s.len(),
{
    if s.len() == 0 {
        Seq::empty()
    } else {
        let pre = strip_space(s.drop_last());
        if is_space_char(s.last()) {
            pre
        } else {
            pre.push(s.last())
        }
    }
}

/// `s` with every leading `.` removed.
pub open spec fn strip_dots(s: Seq<char>) -> Seq<char>
    decreases s.len(),
{
    if s.len() > 0 && s[0] == '.' {
        strip_dots(s.drop_first())
    } else {
        s
    }
}

/// `s` lower-cased character by character.
pub open spec fn lower_seq(s: Seq<char>) -> Seq<char> {
    Seq::new(s.len(), |i: int| lower_char(s[i]))
}

/// The normal form of an extension token: whitespace removed, leading
/// dots stripped, ASCII letters lower-cased. The empty sequence stands
/// for "no extension".
pub open spec fn normalize_spec(s: Seq<char>) -> Seq<char> {
    lower_seq(strip_dots(strip_space(s)))
}

/// Relies on String::push: appends exactly the given character.
#[verifier::external_body]
pub(crate) fn push_char(s: &mut String, c: char)
    ensures
        final(s)@ == old(s)@.push(c),
{
    s.push(c)
}

fn lower_char_exec(c: char) -> (r: char)
    ensures
        r == lower_char(c),
{
    if 'A' <= c && c <= 'Z' {
        ((c as u8) + 32) as char
    } else {
        c
    }
}

fn is_space_exec(c: char) -> (r: bool)
    ensures
        r == is_space_char(c),
{
    ('\u{0009}' <= c && c <= '\u{000D}') || c == ' ' || c == '\u{0085}' || c == '\u{00A0}' || c
        == '\u{1680}' || ('\u{2000}' <= c && c <= '\u{200A}') || c == '\u{2028}' || c == '\u{2029}'
        || c == '\u{202F}' || c == '\u{205F}' || c == '\u{3000}'
}

fn remove_spaces(s: &str) -> (r: String)
    ensures
        r@ == strip_space(s@),
{
    let n: usize = s.unicode_len();
    let mut out = String::new();
    let mut i: usize = 0;
    while i < n
        invariant
            i <= n,
            n == s@.len(),
            out@ == strip_space(s@.subrange(0, i as int)),
        decreases n - i,
    {
        let c = s.get_char(i);
        proof {
            assert(s@.subrange(0, i + 1).drop_last() =~= s@.subrange(0, i as int));
            assert(s@.subrange(0, i + 1).last() == s@[i as int]);
        }
        if !is_space_exec(c) {
            push_char(&mut out, c);
        }
        i = i + 1;
    }
    proof {
        assert(s@.subrange(0, n as int) =~= s@);
    }
    out
}

fn strip_leading_dots(s: &str) -> (r: String)
    ensures
        r@ == strip_dots(s@),
{
    let n: usize = s.unicode_len();
    let mut idx: usize = 0;
    proof {
        assert(s@.skip(0) =~= s@);
    }
    while idx < n && s.get_char(idx) == '.'
        invariant
            idx <= n,
            n == s@.len(),
            strip_dots(s@) == strip_dots(s@.skip(idx as int)),
        decreases n - idx,
    {
        proof {
            assert(s@.skip(idx as int)[0] == s@[idx as int]);
            assert(s@.skip(idx as int).drop_first() =~= s@.skip(idx + 1));
        }
        idx = idx + 1;
    }
    proof {
        if idx < n {
            assert(s@.skip(idx as int)[0] == s@[idx as int]);
            assert(strip_dots(s@.skip(idx as int)) == s@.skip(idx as int));
        } else {
            assert(s@.skip(idx as int) =~= Seq::<char>::empty());
        }
    }
    let mut out = String::new();
    let mut j: usize = idx;
    while j < n
        invariant
            idx <= j <= n,
            n == s@.len(),
            out@ == s@.subrange(idx as int, j as int),
        decreases n - j,
    {
        let c = s.get_char(j);
        proof {
            assert(s@.subrange(idx as int, j + 1) =~= s@.subrange(idx as int, j as int).push(
                s@[j as int],
            ));
        }
        push_char(&mut out, c);
        j = j + 1;
    }
    proof {
        assert(s@.subrange(idx as int, n as int) =~= s@.skip(idx as int));
    }
    out
}

fn to_lower(s: &str) -> (r: String)
    ensures
        r@ == lower_seq(s@),
{
    let n: usize = s.unicode_len();
    let mut out = String::new();
    let mut i: usize = 0;
    while i < n
        invariant
            i <= n,
            n == s@.len(),
            out@ == lower_seq(s@.subrange(0, i as int)),
        decreases n - i,
    {
        let c = lower_char_exec(s.get_char(i));
        push_char(&mut out, c);
        proof {
            assert(lower_seq(s@.subrange(0, i + 1)) =~= lower_seq(s@.subrange(0, i as int)).push(
                lower_char(s@[i as int]),
            ));
        }
        i = i + 1;
    }
    proof {
        assert(lower_seq(s@.subrange(0, n as int)) =~= lower_seq(s@));
    }
    out
}

/// Normalize one extension token: remove whitespace, strip leading dots,
/// lower-case ASCII letters.
pub fn normalize_extension(s: &str) -> (r: String)
    ensures
        r@ == normalize_spec(s@),
{
    let no_space = remove_spaces(s);
    let no_dots = strip_leading_dots(no_space.as_str());
    to_lower(no_dots.as_str())
}

pub proof fn lemma_strip_space_no_space(s: Seq<char>)
    ensures
        forall|i: int| 0 <= i < strip_space(s).len() ==> !is_space_char(strip_space(s)[i]),
    decreases s.len(),
{
    if s.len() > 0 {
        lemma_strip_space_no_space(s.drop_last());
        let pre = strip_space(s.drop_last());
        assert forall|i: int| 0 <= i < strip_space(s).len() implies !is_space_char(
            strip_space(s)[i],
        ) by {
            if is_space_char(s.last()) {
                assert(strip_space(s) == pre);
                assert(!is_space_char(pre[i]));
            } else if i < pre.len() {
                assert(strip_space(s)[i] == pre[i]);
                assert(!is_space_char(pre[i]));
            } else {
                assert(strip_space(s)[i] == s.last());
            }
        }
    }
}

pub proof fn lemma_strip_space_id(s: Seq<char>)
    requires
        forall|i: int| 0 <= i < s.len() ==> !is_space_char(s[i]),
    ensures
        strip_space(s) == s,
    decreases s.len(),
{
    if s.len() == 0 {
        assert(strip_space(s) =~= s);
    } else {
        lemma_strip_space_id(s.drop_last());
        assert(strip_space(s) =~= s);
    }
}

pub proof fn lemma_strip_dots_no_leading(s: Seq<char>)
    ensures
        strip_dots(s).len() == 0 || strip_dots(s)[0] != '.',
    decreases s.len(),
{
    if s.len() > 0 && s[0] == '.' {
        lemma_strip_dots_no_leading(s.drop_first());
    }
}

pub proof fn lemma_strip_dots_no_space(s: Seq<char>)
    requires
        forall|i: int| 0 <= i < s.len() ==> !is_space_char(s[i]),
    ensures
        forall|i: int| 0 <= i < strip_dots(s).len() ==> !is_space_char(strip_dots(s)[i]),
    decreases s.len(),
{
    if s.len() > 0 && s[0] == '.' {
        assert(forall|i: int|
            0 <= i < s.drop_first().len() ==> !is_space_char(#[trigger] s.drop_first()[i]));
        lemma_strip_dots_no_space(s.drop_first());
        assert forall|i: int| 0 <= i < strip_dots(s).len() implies !is_space_char(
            strip_dots(s)[i],
        ) by {
            assert(strip_dots(s) == strip_dots(s.drop_first()));
            assert(!is_space_char(strip_dots(s.drop_first())[i]));
        }
    }
}

pub proof fn lemma_strip_dots_id(s: Seq<char>)
    requires
        s.len() == 0 || s[0] != '.',
    ensures
        strip_dots(s) == s,
{
}

proof fn lemma_lower_char_fixed(c: char)
    ensures
        lower_char(lower_char(c)) == lower_char(c),
        is_space_char(lower_char(c)) == is_space_char(c),
        (lower_char(c) == '.') == (c == '.'),
{
}

/// Extension normalization is idempotent: a token already in normal form
/// is left unchanged by a second normalization.
pub proof fn lemma_normalize_idempotent(s: Seq<char>)
    ensures
        normalize_spec(normalize_spec(s)) == normalize_spec(s),
{
    let a = strip_space(s);
    let b = strip_dots(a);
    let c = lower_seq(b);
    lemma_strip_space_no_space(s);
    lemma_strip_dots_no_space(a);
    lemma_strip_dots_no_leading(a);
    assert forall|i: int| 0 <= i < c.len() implies !is_space_char(c[i]) by {
        lemma_lower_char_fixed(b[i]);
    }
    lemma_strip_space_id(c);
    if c.len() > 0 {
        lemma_lower_char_fixed(b[0]);
    }
    lemma_strip_dots_id(c);
    assert forall|i: int| 0 <= i < c.len() implies lower_char(c[i]) == c[i] by {
        lemma_lower_char_fixed(b[i]);
    }
    assert(lower_seq(c) =~= c);
}

/// The views of a sequence of strings.
pub open spec fn views_of(v: Seq<String>) -> Seq<Seq<char>> {
    Seq::new(v.len(), |i: int| v[i]@)
}

/// `s` split on commas, empty tokens kept. Splitting the empty string
/// yields one empty token.
pub open spec fn split_commas(s: Seq<char>) -> Seq<Seq<char>>
    decreases s.len(),
{
    if s.len() == 0 {
        seq![Seq::<char>::empty()]
    } else {
        let pre = split_commas(s.drop_last());
        if s.last() == ',' {
            pre.push(Seq::empty())
        } else {
            pre.update(pre.len() - 1, pre.last().push(s.last()))
        }
    }
}

pub proof fn lemma_split_commas_nonempty(s: Seq<char>)
    ensures
        split_commas(s).len() >= 1,
    decreases s.len(),
{
    if s.len() > 0 {
        lemma_split_commas_nonempty(s.drop_last());
    }
}

fn split_commas_exec(s: &str) -> (r: Vec<String>)
    ensures
        views_of(r@) == split_commas(s@),
{
    let n: usize = s.unicode_len();
    let mut toks: Vec<String> = Vec::new();
    let mut cur = String::new();
    let mut i: usize = 0;
    while i < n
        invariant
            i <= n,
            n == s@.len(),
            views_of(toks@).push(cur@) =~= split_commas(s@.subrange(0, i as int)),
        decreases n - i,
    {
        let c = s.get_char(i);
        proof {
            assert(s@.subrange(0, i + 1).drop_last() =~= s@.subrange(0, i as int));
            assert(s@.subrange(0, i + 1).last() == s@[i as int]);
            lemma_split_commas_nonempty(s@.subrange(0, i as int));
        }
        if c == ',' {
            let ghost old_toks = toks@;
            let ghost old_cur = cur@;
            toks.push(cur);
            cur = String::new();
            proof {
                assert(views_of(toks@).push(cur@) =~= views_of(old_toks).push(old_cur).push(
                    Seq::empty(),
                ));
            }
        } else {
            let ghost old_all = views_of(toks@).push(cur@);
            push_char(&mut cur, c);
            proof {
                assert(views_of(toks@).push(cur@) =~= old_all.update(
                    old_all.len() - 1,
                    old_all.last().push(c),
                ));
            }
        }
        i = i + 1;
    }
    proof {
        assert(s@.subrange(0, n as int) =~= s@);
    }
    toks.push(cur);
    proof {
        assert(views_of(toks@) =~= split_commas(s@));
    }
    toks
}

/// The configured form of a comma-separated extension list: each token
/// normalized, empty tokens dropped.
pub open spec fn normalize_tokens(ts: Seq<Seq<char>>) -> Seq<Seq<char>>
    decreases ts.len(),
{
    if ts.len() == 0 {
        Seq::empty()
    } else {
        let pre = normalize_tokens(ts.drop_last());
        let nt = normalize_spec(ts.last());
        if nt.len() == 0 {
            pre
        } else {
            pre.push(nt)
        }
    }
}

/// What a raw comma-separated list becomes once configured.
pub open spec fn parse_list_spec(s: Seq<char>) -> Seq<Seq<char>> {
    normalize_tokens(split_commas(s))
}

/// Every token a configured list holds is non-empty and in normal form.
pub proof fn lemma_normalize_tokens_wf(ts: Seq<Seq<char>>)
    ensures
        forall|i: int|
            0 <= i < normalize_tokens(ts).len() ==> normalize_tokens(ts)[i].len() > 0
                && normalize_spec(#[trigger] normalize_tokens(ts)[i]) == normalize_tokens(ts)[i],
    decreases ts.len(),
{
    if ts.len() > 0 {
        lemma_normalize_tokens_wf(ts.drop_last());
        lemma_normalize_idempotent(ts.last());
        let pre = normalize_tokens(ts.drop_last());
        let nt = normalize_spec(ts.last());
        assert forall|i: int| 0 <= i < normalize_tokens(ts).len() implies normalize_tokens(
            ts,
        )[i].len() > 0 && normalize_spec(#[trigger] normalize_tokens(ts)[i]) == normalize_tokens(
            ts,
        )[i] by {
            if nt.len() == 0 {
                assert(normalize_tokens(ts) == pre);
                assert(pre[i].len() > 0 && normalize_spec(pre[i]) == pre[i]);
            } else if i < pre.len() {
                assert(normalize_tokens(ts)[i] == pre[i]);
                assert(pre[i].len() > 0 && normalize_spec(pre[i]) == pre[i]);
            } else {
                assert(normalize_tokens(ts)[i] == nt);
            }
        }
    }
}

/// Split a raw comma-separated extension list and normalize each token,
/// dropping tokens that normalize to nothing.
pub fn parse_type_list(s: &str) -> (r: Vec<String>)
    ensures
        views_of(r@) == parse_list_spec(s@),
{
    let toks = split_commas_exec(s);
    let m = toks.len();
    let mut out: Vec<String> = Vec::new();
    let mut i: usize = 0;
    while i < m
        invariant
            i <= m,
            m == toks@.len(),
            views_of(toks@) == split_commas(s@),
            views_of(out@) =~= normalize_tokens(views_of(toks@).subrange(0, i as int)),
        decreases m - i,
    {
        let nt = normalize_extension(toks[i].as_str());
        proof {
            assert(views_of(toks@).subrange(0, i + 1).drop_last() =~= views_of(toks@).subrange(
                0,
                i as int,
            ));
            assert(views_of(toks@).subrange(0, i + 1).last() == toks@[i as int]@);
        }
        if nt.as_str().unicode_len() > 0 {
            let ghost old_out = views_of(out@);
            out.push(nt);
            proof {
                assert(views_of(out@) =~= old_out.push(normalize_spec(toks@[i as int]@)));
            }
        }
        i = i + 1;
    }
    proof {
        assert(views_of(toks@).subrange(0, m as int) =~= views_of(toks@));
    }
    out
}

/// Whether the list holds the given token.
pub fn contains_token(v: &Vec<String>, s: &String) -> (r: bool)
    ensures
        r == views_of(v@).contains(s@),
{
    let n = v.len();
    let mut i: usize = 0;
    while i < n
        invariant
            i <= n,
            n == v@.len(),
            forall|j: int| 0 <= j < i ==> v@[j]@ != s@,
        decreases n - i,
    {
        if v[i] == *s {
            proof {
                assert(views_of(v@)[i as int] == s@);
            }
            return true;
        }
        i = i + 1;
    }
    proof {
        assert forall|j: int| 0 <= j < views_of(v@).len() implies views_of(v@)[j] != s@ by {}
    }
    false
}

/// The character for one decimal digit.
pub open spec fn digit_char(d: int) -> char {
    ((48 + d) as u8) as char
}

/// The decimal rendering of a non-negative number, no padding.
pub open spec fn dec_spec(n: nat) -> Seq<char>
    decreases n,
{
    if n < 10 {
        seq![digit_char(n as int)]
    } else {
        dec_spec((n / 10) as nat).push(digit_char((n % 10) as int))
    }
}

fn digit_exec(d: u32) -> (r: char)
    requires
        d < 10,
    ensures
        r == digit_char(d as int),
{
    ((48 + d) as u8) as char
}

/// Render a number in decimal.
pub fn render_dec(n: u32) -> (r: String)
    ensures
        r@ == dec_spec(n as nat),
    decreases n,
{
    if n < 10 {
        let mut s = String::new();
        push_char(&mut s, digit_exec(n));
        s
    } else {
        let mut s = render_dec(n / 10);
        push_char(&mut s, digit_exec(n % 10));
        s
    }
}

} // verus!
