//! Characters and lines of source text.
use vstd::prelude::*;
use vstd::string::StrSliceExecFns;

verus! {

/// The character that starts a line comment.
pub const COMMENT_CHAR: char = '?';

/// The character that separates an instruction's arguments.
pub const ARGUMENT_CHAR: char = ';';

/// Unicode's White_Space property, which `char::is_whitespace` tests.
pub open spec fn is_space(c: char) -> bool {
    ('\u{9}' <= c <= '\u{d}') || c == ' ' || c == '\u{85}' || c == '\u{a0}' || c == '\u{1680}'
        || ('\u{2000}' <= c <= '\u{200a}') || c == '\u{2028}' || c == '\u{2029}' || c
        == '\u{202f}' || c == '\u{205f}' || c == '\u{3000}'
}

pub fn is_space_char(c: char) -> (r: bool)
    ensures
        r == is_space(c),
{
    ('\u{9}' <= c && c <= '\u{d}') || c == ' ' || c == '\u{85}' || c == '\u{a0}' || c
        == '\u{1680}' || ('\u{2000}' <= c && c <= '\u{200a}') || c == '\u{2028}' || c
        == '\u{2029}' || c == '\u{202f}' || c == '\u{205f}' || c == '\u{3000}'
}

pub open spec fn trim_start(s: Seq<char>) -> Seq<char>
    decreases s.len(),
{
    if s.len() > 0 && is_space(s[0]) {
        trim_start(s.drop_first())
    } else {
        s
    }
}

pub open spec fn trim_end(s: Seq<char>) -> Seq<char>
    decreases s.len(),
{
    if s.len() > 0 && is_space(s.last()) {
        trim_end(s.drop_last())
    } else {
        s
    }
}

/// `s` without leading and trailing white space.
pub open spec fn trim(s: Seq<char>) -> Seq<char> {
    trim_end(trim_start(s))
}

/// `s` up to its first comment character.
pub open spec fn strip_comment(s: Seq<char>) -> Seq<char>
    decreases s.len(),
{
    if s.len() == 0 {
        s
    } else if s[0] == COMMENT_CHAR {
        Seq::empty()
    } else {
        seq![s[0]] + strip_comment(s.drop_first())
    }
}

/// The first stage of compiling a line: its comment cut off, then its white space.
pub open spec fn clean_line(s: Seq<char>) -> Seq<char> {
    trim(strip_comment(s))
}

/// The characters of `s`.
pub fn chars_of(s: &str) -> (r: Vec<char>)
    ensures
        r@ == s@,
{
    let n = s.unicode_len();
    let mut r: Vec<char> = Vec::new();
    let mut i: usize = 0;
    while i < n
        invariant
            n == s@.len(),
            i <= n,
            r@ =~= s@.subrange(0, i as int),
        decreases n - i,
    {
        r.push(s.get_char(i));
        i = i + 1;
    }
    assert(r@ =~= s@);
    r
}

/// Relies on `FromIterator<char>` for `String`: the string of the characters, in order.
#[verifier::external_body]
pub fn string_of(v: &Vec<char>) -> (r: String)
    ensures
        r@ == v@,
{
    v.iter().collect::<String>()
}

pub proof fn lemma_trim_start_skip(s: Seq<char>, i: int)
    requires
        0 <= i <= s.len(),
        forall|j: int| 0 <= j < i ==> is_space(#[trigger] s[j]),
    ensures
        trim_start(s) == trim_start(s.subrange(i, s.len() as int)),
    decreases i,
{
    if i > 0 {
        assert(s.drop_first().subrange(i - 1, s.drop_first().len() as int) =~= s.subrange(
            i,
            s.len() as int,
        ));
        lemma_trim_start_skip(s.drop_first(), i - 1);
    } else {
        assert(s.subrange(0, s.len() as int) =~= s);
    }
}

proof fn lemma_trim_end_cut(s: Seq<char>, k: int)
    requires
        0 <= k <= s.len(),
        forall|j: int| k <= j < s.len() ==> is_space(#[trigger] s[j]),
    ensures
        trim_end(s) == trim_end(s.subrange(0, k)),
    decreases s.len() - k,
{
    if k < s.len() {
        lemma_trim_end_cut(s.drop_last(), k);
        assert(s.drop_last().subrange(0, k) =~= s.subrange(0, k));
    } else {
        assert(s.subrange(0, k) =~= s);
    }
}

/// `s` without leading and trailing white space.
pub fn trim_chars(s: &Vec<char>) -> (r: Vec<char>)
    ensures
        r@ == trim(s@),
{
    let n = s.len();
    let mut i: usize = 0;
    while i < n && is_space_char(s[i])
        invariant
            n == s@.len(),
            i <= n,
            forall|j: int| 0 <= j < i ==> is_space(#[trigger] s@[j]),
        decreases n - i,
    {
        i = i + 1;
    }
    let mut k: usize = n;
    while k > i && is_space_char(s[k - 1])
        invariant
            n == s@.len(),
            i <= k <= n,
            forall|j: int| k <= j < n ==> is_space(#[trigger] s@[j]),
        decreases k,
    {
        k = k - 1;
    }
    let mut r: Vec<char> = Vec::new();
    let mut m: usize = i;
    while m < k
        invariant
            i <= m <= k <= n,
            n == s@.len(),
            r@ =~= s@.subrange(i as int, m as int),
        decreases k - m,
    {
        r.push(s[m]);
        m = m + 1;
    }
    proof {
        lemma_trim_start_skip(s@, i as int);
        let t = s@.subrange(i as int, n as int);
        assert(trim_start(t) == t);
        lemma_trim_end_cut(t, k - i);
        assert(t.subrange(0, k - i) =~= r@);
        assert(trim_end(r@) == r@);
    }
    r
}

proof fn lemma_strip_comment_skip(s: Seq<char>, i: int)
    requires
        0 <= i <= s.len(),
        forall|j: int| 0 <= j < i ==> #[trigger] s[j] != COMMENT_CHAR,
    ensures
        strip_comment(s) == s.subrange(0, i) + strip_comment(s.subrange(i, s.len() as int)),
    decreases i,
{
    if i > 0 {
        let t = s.drop_first();
        assert(t.subrange(i - 1, t.len() as int) =~= s.subrange(i, s.len() as int));
        lemma_strip_comment_skip(t, i - 1);
        assert(s.subrange(0, i) =~= seq![s[0]] + t.subrange(0, i - 1));
    } else {
        assert(s.subrange(0, s.len() as int) =~= s);
        assert(s.subrange(0, 0) + strip_comment(s) =~= strip_comment(s));
    }
}

/// `s` up to its first comment character.
pub fn remove_comments(s: &Vec<char>) -> (r: Vec<char>)
    ensures
        r@ == strip_comment(s@),
{
    let mut r: Vec<char> = Vec::new();
    let mut i: usize = 0;
    while i < s.len() && s[i] != COMMENT_CHAR
        invariant
            i <= s@.len(),
            forall|j: int| 0 <= j < i ==> #[trigger] s@[j] != COMMENT_CHAR,
            r@ =~= s@.subrange(0, i as int),
        decreases s@.len() - i,
    {
        r.push(s[i]);
        i = i + 1;
    }
    proof {
        lemma_strip_comment_skip(s@, i as int);
        let rest = s@.subrange(i as int, s@.len() as int);
        assert(strip_comment(rest) =~= Seq::<char>::empty());
        assert(r@ + Seq::<char>::empty() =~= r@);
    }
    r
}

proof fn lemma_strip_comment_free(s: Seq<char>)
    ensures
        forall|j: int| 0 <= j < strip_comment(s).len() ==> #[trigger] strip_comment(s)[j]
            != COMMENT_CHAR,
        strip_comment(s).len() <= s.len(),
    decreases s.len(),
{
    if s.len() > 0 && s[0] != COMMENT_CHAR {
        lemma_strip_comment_free(s.drop_first());
        let t = strip_comment(s.drop_first());
        assert forall|j: int| 0 <= j < strip_comment(s).len() implies #[trigger] strip_comment(
            s,
        )[j] != COMMENT_CHAR by {
            if j > 0 {
                assert(strip_comment(s)[j] == t[j - 1]);
            }
        }
    }
}

proof fn lemma_strip_comment_id(s: Seq<char>)
    requires
        forall|j: int| 0 <= j < s.len() ==> #[trigger] s[j] != COMMENT_CHAR,
    ensures
        strip_comment(s) == s,
{
    lemma_strip_comment_skip(s, s.len() as int);
    assert(s.subrange(s.len() as int, s.len() as int) =~= Seq::<char>::empty());
    assert(s.subrange(0, s.len() as int) =~= s);
    assert(s + Seq::<char>::empty() =~= s);
}

proof fn lemma_trim_start_sub(s: Seq<char>)
    ensures
        exists|i: int| 0 <= i <= s.len() && trim_start(s) == s.subrange(i, s.len() as int),
        trim_start(s).len() == 0 || !is_space(trim_start(s)[0]),
    decreases s.len(),
{
    if s.len() > 0 && is_space(s[0]) {
        lemma_trim_start_sub(s.drop_first());
        let i = choose|i: int|
            0 <= i <= s.drop_first().len() && trim_start(s.drop_first()) == s.drop_first().subrange(
                i,
                s.drop_first().len() as int,
            );
        assert(s.drop_first().subrange(i, s.drop_first().len() as int) =~= s.subrange(
            i + 1,
            s.len() as int,
        ));
    } else {
        assert(s.subrange(0, s.len() as int) =~= s);
    }
}

proof fn lemma_trim_end_sub(s: Seq<char>)
    ensures
        exists|k: int| 0 <= k <= s.len() && trim_end(s) == s.subrange(0, k),
        trim_end(s).len() == 0 || !is_space(trim_end(s).last()),
    decreases s.len(),
{
    if s.len() > 0 && is_space(s.last()) {
        lemma_trim_end_sub(s.drop_last());
        let k = choose|k: int|
            0 <= k <= s.drop_last().len() && trim_end(s.drop_last()) == s.drop_last().subrange(
                0,
                k,
            );
        assert(s.drop_last().subrange(0, k) =~= s.subrange(0, k));
    } else {
        assert(s.subrange(0, s.len() as int) =~= s);
    }
}

proof fn lemma_trim_id(s: Seq<char>)
    ensures
        trim(trim(s)) == trim(s),
        forall|j: int| 0 <= j < trim(s).len() ==> exists|i: int| 0 <= i < s.len() && #[trigger] trim(s)[j] == s[i],
{
    let a = trim_start(s);
    lemma_trim_start_sub(s);
    lemma_trim_end_sub(a);
    let t = trim_end(a);
    let i = choose|i: int| 0 <= i <= s.len() && a == s.subrange(i, s.len() as int);
    let k = choose|k: int| 0 <= k <= a.len() && t == a.subrange(0, k);
    if t.len() > 0 {
        assert(t[0] == a[0]);
        assert(trim_start(t) == t);
    } else {
        assert(trim_start(t) == t);
    }
    assert(trim_end(t) == t);
    assert forall|j: int| 0 <= j < t.len() implies exists|m: int| 0 <= m < s.len() && #[trigger] t[j] == s[m] by {
        assert(t[j] == s[i + j]);
    }
}

pub proof fn lemma_trim_len(s: Seq<char>)
    ensures
        trim(s).len() <= s.len(),
{
    lemma_trim_start_sub(s);
    lemma_trim_end_sub(trim_start(s));
}

/// A trimmed text starts with a character other than white space.
pub proof fn lemma_trim_first(s: Seq<char>)
    ensures
        trim(s).len() > 0 ==> !is_space(trim(s)[0]),
{
    let a = trim_start(s);
    lemma_trim_start_sub(s);
    lemma_trim_end_sub(a);
    let k = choose|k: int| 0 <= k <= a.len() && trim_end(a) == a.subrange(0, k);
    if trim(s).len() > 0 {
        assert(trim(s)[0] == a[0]);
    }
}

/// Cleaning a line that was already cleaned changes nothing.
pub proof fn lemma_clean_line_idempotent(s: Seq<char>)
    ensures
        clean_line(clean_line(s)) == clean_line(s),
{
    let c = strip_comment(s);
    lemma_strip_comment_free(s);
    lemma_trim_id(c);
    let t = trim(c);
    assert forall|j: int| 0 <= j < t.len() implies #[trigger] t[j] != COMMENT_CHAR by {
        let m = choose|m: int| 0 <= m < c.len() && t[j] == c[m];
    }
    lemma_strip_comment_id(t);
}

/// `s` without leading white space.
pub fn trim_start_chars(s: &Vec<char>) -> (r: Vec<char>)
    ensures
        r@ == trim_start(s@),
{
    let n = s.len();
    let mut i: usize = 0;
    while i < n && is_space_char(s[i])
        invariant
            n == s@.len(),
            i <= n,
            forall|j: int| 0 <= j < i ==> is_space(#[trigger] s@[j]),
        decreases n - i,
    {
        i = i + 1;
    }
    let mut r: Vec<char> = Vec::new();
    let mut m: usize = i;
    while m < n
        invariant
            i <= m <= n,
            n == s@.len(),
            r@ =~= s@.subrange(i as int, m as int),
        decreases n - m,
    {
        r.push(s[m]);
        m = m + 1;
    }
    proof {
        lemma_trim_start_skip(s@, i as int);
    }
    r
}

/// The characters of `t` before its first white space.
pub open spec fn head_word(t: Seq<char>) -> Seq<char>
    decreases t.len(),
{
    if t.len() == 0 || is_space(t[0]) {
        Seq::empty()
    } else {
        seq![t[0]] + head_word(t.drop_first())
    }
}

proof fn lemma_head_word_at(t: Seq<char>, i: int)
    requires
        0 <= i <= t.len(),
        forall|j: int| 0 <= j < i ==> !is_space(#[trigger] t[j]),
        i == t.len() || is_space(t[i]),
    ensures
        head_word(t) == t.subrange(0, i),
    decreases i,
{
    if i > 0 {
        let u = t.drop_first();
        assert forall|j: int| 0 <= j < i - 1 implies !is_space(#[trigger] u[j]) by {
            assert(u[j] == t[j + 1]);
        }
        lemma_head_word_at(u, i - 1);
        assert(t.subrange(0, i) =~= seq![t[0]] + u.subrange(0, i - 1));
    } else {
        assert(t.subrange(0, 0) =~= Seq::<char>::empty());
    }
}

/// The length of `head_word(t)`.
pub fn head_word_len(t: &Vec<char>) -> (r: usize)
    ensures
        r <= t@.len(),
        head_word(t@) == t@.subrange(0, r as int),
{
    let mut i: usize = 0;
    while i < t.len() && !is_space_char(t[i])
        invariant
            i <= t@.len(),
            forall|j: int| 0 <= j < i ==> !is_space(#[trigger] t@[j]),
        decreases t@.len() - i,
    {
        i = i + 1;
    }
    proof {
        lemma_head_word_at(t@, i as int);
    }
    i
}

} // verus!
