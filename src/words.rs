//! Splitting a line into words and arguments, and substituting defines.
use vstd::prelude::*;

use crate::text::{is_space, is_space_char, trim, trim_chars, ARGUMENT_CHAR};

verus! {

/// Whether `c` ends a piece: white space where `space` holds, else the argument separator.
pub open spec fn ends_piece(c: char, space: bool) -> bool {
    if space {
        is_space(c)
    } else {
        c == ARGUMENT_CHAR
    }
}

/// The pieces finished so far, and the one being read.
pub struct Pieces {
    pub done: Seq<Seq<char>>,
    pub cur: Seq<char>,
}

pub open spec fn pieces_state(s: Seq<char>, space: bool) -> Pieces
    decreases s.len(),
{
    if s.len() == 0 {
        Pieces { done: Seq::empty(), cur: Seq::empty() }
    } else {
        let st = pieces_state(s.drop_last(), space);
        if ends_piece(s.last(), space) {
            Pieces { done: st.done.push(st.cur), cur: Seq::empty() }
        } else {
            Pieces { done: st.done, cur: st.cur.push(s.last()) }
        }
    }
}

/// `s` cut at each separator; `n` separators give `n + 1` pieces.
pub open spec fn pieces(s: Seq<char>, space: bool) -> Seq<Seq<char>> {
    let st = pieces_state(s, space);
    st.done.push(st.cur)
}

/// The non-empty runs of characters between white space.
pub open spec fn words(s: Seq<char>) -> Seq<Seq<char>> {
    pieces(s, true).filter(|w: Seq<char>| w.len() > 0)
}

/// The arguments of an instruction: the pieces between separators, trimmed, empty ones dropped.
pub open spec fn arguments(s: Seq<char>) -> Seq<Seq<char>> {
    pieces(s, false).map_values(|p: Seq<char>| trim(p)).filter(|w: Seq<char>| w.len() > 0)
}

/// `ws` joined with single spaces.
pub open spec fn join(ws: Seq<Seq<char>>) -> Seq<char>
    decreases ws.len(),
{
    if ws.len() == 0 {
        Seq::empty()
    } else if ws.len() == 1 {
        ws[0]
    } else {
        join(ws.drop_last()) + seq![' '] + ws.last()
    }
}

/// The pieces of `s`, as `pieces` says.
pub fn split_pieces(s: &Vec<char>, space: bool) -> (r: Vec<Vec<char>>)
    ensures
        r@.map_values(|p: Vec<char>| p@) == pieces(s@, space),
{
    let mut done: Vec<Vec<char>> = Vec::new();
    let mut cur: Vec<char> = Vec::new();
    let mut i: usize = 0;
    proof {
        assert(s@.subrange(0, 0) =~= Seq::<char>::empty());
        assert(done@.map_values(|p: Vec<char>| p@) =~= Seq::<Seq<char>>::empty());
    }
    while i < s.len()
        invariant
            i <= s@.len(),
            (Pieces { done: done@.map_values(|p: Vec<char>| p@), cur: cur@ }) == pieces_state(
                s@.subrange(0, i as int),
                space,
            ),
        decreases s@.len() - i,
    {
        let c = s[i];
        proof {
            assert(s@.subrange(0, i + 1).drop_last() =~= s@.subrange(0, i as int));
        }
        let sep = if space { is_space_char(c) } else { c == ARGUMENT_CHAR };
        if sep {
            let ghost before = done@;
            let piece = cur;
            cur = Vec::new();
            done.push(piece);
            proof {
                assert(done@.map_values(|p: Vec<char>| p@) =~= before.map_values(|p: Vec<char>| p@).push(piece@));
            }
        } else {
            cur.push(c);
        }
        i = i + 1;
    }
    proof {
        assert(s@.subrange(0, s@.len() as int) =~= s@);
    }
    let ghost before = done@;
    let ghost cur_view = cur@;
    done.push(cur);
    proof {
        assert(done@.map_values(|p: Vec<char>| p@) =~= before.map_values(|p: Vec<char>| p@).push(cur_view));
    }
    done
}

/// Characters at which define substitution cuts a line; they stay in the line.
pub open spec fn is_define_sep(c: char) -> bool {
    is_space(c) || c == ',' || c == '[' || c == ']' || c == ':' || c == '-' || c == '<' || c
        == '>'
}

/// The replacement of the first define named `w`; `w` itself where there is none.
pub open spec fn lookup(defs: Seq<(Seq<char>, Seq<char>)>, w: Seq<char>) -> Seq<char>
    decreases defs.len(),
{
    if defs.len() == 0 {
        w
    } else if defs[0].0 == w {
        defs[0].1
    } else {
        lookup(defs.drop_first(), w)
    }
}

/// The line substituted so far, and the word being read.
pub struct Subst {
    pub done: Seq<char>,
    pub word: Seq<char>,
}

pub open spec fn subst_state(defs: Seq<(Seq<char>, Seq<char>)>, s: Seq<char>) -> Subst
    decreases s.len(),
{
    if s.len() == 0 {
        Subst { done: Seq::empty(), word: Seq::empty() }
    } else {
        let st = subst_state(defs, s.drop_last());
        if is_define_sep(s.last()) {
            Subst { done: st.done + lookup(defs, st.word) + seq![s.last()], word: Seq::empty() }
        } else {
            Subst { done: st.done, word: st.word.push(s.last()) }
        }
    }
}

/// `s` with each word between separators replaced as `lookup` says, the separators kept.
pub open spec fn substitute(defs: Seq<(Seq<char>, Seq<char>)>, s: Seq<char>) -> Seq<char> {
    let st = subst_state(defs, s);
    st.done + lookup(defs, st.word)
}

pub open spec fn defs_view(d: Seq<(Vec<char>, Vec<char>)>) -> Seq<(Seq<char>, Seq<char>)> {
    d.map_values(|p: (Vec<char>, Vec<char>)| (p.0@, p.1@))
}

pub fn same_chars(a: &Vec<char>, b: &Vec<char>) -> (r: bool)
    ensures
        r == (a@ == b@),
{
    if a.len() != b.len() {
        return false;
    }
    let mut i: usize = 0;
    while i < a.len()
        invariant
            i <= a@.len(),
            a@.len() == b@.len(),
            forall|j: int| 0 <= j < i ==> a@[j] == b@[j],
        decreases a@.len() - i,
    {
        if a[i] != b[i] {
            return false;
        }
        i = i + 1;
    }
    assert(a@ =~= b@);
    true
}

pub fn append_chars(out: &mut Vec<char>, x: &Vec<char>)
    ensures
        final(out)@ == old(out)@ + x@,
{
    let mut i: usize = 0;
    while i < x.len()
        invariant
            i <= x@.len(),
            out@ =~= old(out)@ + x@.subrange(0, i as int),
        decreases x@.len() - i,
    {
        out.push(x[i]);
        i = i + 1;
    }
    assert(x@.subrange(0, x@.len() as int) =~= x@);
}

fn copy_chars(x: &Vec<char>) -> (r: Vec<char>)
    ensures
        r@ == x@,
{
    let mut r: Vec<char> = Vec::new();
    append_chars(&mut r, x);
    r
}

/// The replacement that `lookup` gives for `w`.
pub fn lookup_define(defs: &Vec<(Vec<char>, Vec<char>)>, w: &Vec<char>) -> (r: Vec<char>)
    ensures
        r@ == lookup(defs_view(defs@), w@),
{
    let ghost dv = defs_view(defs@);
    let mut i: usize = 0;
    proof {
        assert(dv.subrange(0, dv.len() as int) =~= dv);
    }
    while i < defs.len()
        invariant
            i <= defs@.len(),
            dv == defs_view(defs@),
            lookup(dv, w@) == lookup(dv.subrange(i as int, dv.len() as int), w@),
        decreases defs@.len() - i,
    {
        proof {
            let rest = dv.subrange(i as int, dv.len() as int);
            assert(rest.drop_first() =~= dv.subrange(i + 1, dv.len() as int));
            assert(rest[0] == (defs@[i as int].0@, defs@[i as int].1@));
        }
        if same_chars(&defs[i].0, w) {
            return copy_chars(&defs[i].1);
        }
        i = i + 1;
    }
    copy_chars(w)
}

/// Substitutes the defines `defs` in `l`.
pub fn parse_defines(defs: &Vec<(Vec<char>, Vec<char>)>, l: &Vec<char>) -> (r: Vec<char>)
    ensures
        r@ == substitute(defs_view(defs@), l@),
{
    let ghost dv = defs_view(defs@);
    let mut done: Vec<char> = Vec::new();
    let mut word: Vec<char> = Vec::new();
    let mut i: usize = 0;
    while i < l.len()
        invariant
            i <= l@.len(),
            dv == defs_view(defs@),
            (Subst { done: done@, word: word@ }) == subst_state(dv, l@.subrange(0, i as int)),
        decreases l@.len() - i,
    {
        let c = l[i];
        proof {
            assert(l@.subrange(0, i + 1).drop_last() =~= l@.subrange(0, i as int));
        }
        if is_space_char(c) || c == ',' || c == '[' || c == ']' || c == ':' || c == '-' || c == '<'
            || c == '>' {
            let ghost prev = done@;
            let rep = lookup_define(defs, &word);
            append_chars(&mut done, &rep);
            done.push(c);
            word = Vec::new();
            proof {
                assert(word@ =~= Seq::<char>::empty());
                assert(done@ =~= prev + rep@ + seq![c]);
            }
        } else {
            word.push(c);
        }
        i = i + 1;
    }
    proof {
        assert(l@.subrange(0, l@.len() as int) =~= l@);
    }
    let rep = lookup_define(defs, &word);
    append_chars(&mut done, &rep);
    done
}

/// Keeps the non-empty entries of `ws`, trimmed first where `trimmed` holds.
fn keep_nonempty(ws: Vec<Vec<char>>, trimmed: bool) -> (r: Vec<Vec<char>>)
    ensures
        r@.map_values(|p: Vec<char>| p@) == (if trimmed {
            ws@.map_values(|p: Vec<char>| trim(p@))
        } else {
            ws@.map_values(|p: Vec<char>| p@)
        }).filter(|w: Seq<char>| w.len() > 0),
{
    let ghost src = if trimmed {
        ws@.map_values(|p: Vec<char>| trim(p@))
    } else {
        ws@.map_values(|p: Vec<char>| p@)
    };
    let mut r: Vec<Vec<char>> = Vec::new();
    let mut i: usize = 0;
    proof {
        reveal(Seq::filter);
        assert(src.subrange(0, 0) =~= Seq::<Seq<char>>::empty());
        assert(r@.map_values(|p: Vec<char>| p@) =~= Seq::<Seq<char>>::empty());
    }
    while i < ws.len()
        invariant
            i <= ws@.len(),
            src.len() == ws@.len(),
            src == (if trimmed {
                ws@.map_values(|p: Vec<char>| trim(p@))
            } else {
                ws@.map_values(|p: Vec<char>| p@)
            }),
            r@.map_values(|p: Vec<char>| p@) == src.subrange(0, i as int).filter(
                |w: Seq<char>| w.len() > 0,
            ),
        decreases ws@.len() - i,
    {
        let w = if trimmed { trim_chars(&ws[i]) } else { copy_chars(&ws[i]) };
        proof {
            reveal(Seq::filter);
            assert(src.subrange(0, i + 1).drop_last() =~= src.subrange(0, i as int));
            assert(src[i as int] == w@);
        }
        if w.len() > 0 {
            let ghost before = r@;
            r.push(w);
            proof {
                assert(r@.map_values(|p: Vec<char>| p@) =~= before.map_values(|p: Vec<char>| p@).push(src[i as int]));
            }
        }
        i = i + 1;
    }
    proof {
        assert(src.subrange(0, ws@.len() as int) =~= src);
    }
    r
}

/// The words of `s`, as `words` says.
pub fn split_words(s: &Vec<char>) -> (r: Vec<Vec<char>>)
    ensures
        r@.map_values(|p: Vec<char>| p@) == words(s@),
{
    let ps = split_pieces(s, true);
    proof {
        assert(ps@.map_values(|p: Vec<char>| p@) == pieces(s@, true));
    }
    keep_nonempty(ps, false)
}

/// The arguments of `s`, as `arguments` says.
pub fn split_arguments(s: &Vec<char>) -> (r: Vec<Vec<char>>)
    ensures
        r@.map_values(|p: Vec<char>| p@) == arguments(s@),
{
    let ps = split_pieces(s, false);
    proof {
        let a = ps@.map_values(|p: Vec<char>| trim(p@));
        let b = pieces(s@, false).map_values(|p: Seq<char>| trim(p));
        assert(a.len() == b.len());
        assert forall|j: int| 0 <= j < a.len() implies a[j] == b[j] by {
            assert(ps@.map_values(|p: Vec<char>| p@)[j] == ps@[j]@);
        }
        assert(a =~= b);
    }
    keep_nonempty(ps, true)
}

/// A define table whose names and texts are non-empty and whose texts start with a character
/// other than white space, as `#define` makes them.
pub open spec fn defs_wf(defs: Seq<(Seq<char>, Seq<char>)>) -> bool {
    forall|k: int|
        0 <= k < defs.len() ==> #[trigger] defs[k].0.len() > 0 && defs[k].1.len() > 0
            && !is_space(defs[k].1[0])
}

pub proof fn lemma_pieces_no_sep(s: Seq<char>, space: bool)
    ensures
        ({
            let st = pieces_state(s, space);
            &&& forall|k: int, j: int|
                0 <= k < st.done.len() && 0 <= j < st.done[k].len() ==> !ends_piece(
                    #[trigger] st.done[k][j],
                    space,
                )
            &&& forall|j: int| 0 <= j < st.cur.len() ==> !ends_piece(#[trigger] st.cur[j], space)
        }),
    decreases s.len(),
{
    if s.len() > 0 {
        lemma_pieces_no_sep(s.drop_last(), space);
        let prev = pieces_state(s.drop_last(), space);
        let st = pieces_state(s, space);
        if ends_piece(s.last(), space) {
            assert forall|k: int, j: int|
                0 <= k < st.done.len() && 0 <= j < st.done[k].len() implies !ends_piece(
                #[trigger] st.done[k][j],
                space,
            ) by {
                if k < prev.done.len() {
                    assert(st.done[k] == prev.done[k]);
                } else {
                    assert(st.done[k] == prev.cur);
                }
            }
        } else {
            assert forall|j: int| 0 <= j < st.cur.len() implies !ends_piece(#[trigger] st.cur[j], space) by {
                if j < prev.cur.len() {
                    assert(st.cur[j] == prev.cur[j]);
                }
            }
        }
    }
}

proof fn lemma_filter_words(ps: Seq<Seq<char>>)
    requires
        forall|k: int, j: int| 0 <= k < ps.len() && 0 <= j < ps[k].len() ==> !is_space(#[trigger] ps[k][j]),
    ensures
        ({
            let f = ps.filter(|w: Seq<char>| w.len() > 0);
            forall|k: int| 0 <= k < f.len() ==> #[trigger] f[k].len() > 0 && forall|j: int|
                0 <= j < f[k].len() ==> !is_space(#[trigger] f[k][j])
        }),
    decreases ps.len(),
{
    reveal(Seq::filter);
    if ps.len() > 0 {
        let d = ps.drop_last();
        assert forall|k: int, j: int| 0 <= k < d.len() && 0 <= j < d[k].len() implies !is_space(
            #[trigger] d[k][j],
        ) by {
            assert(d[k] == ps[k]);
        }
        lemma_filter_words(d);
        let f = ps.filter(|w: Seq<char>| w.len() > 0);
        let fd = d.filter(|w: Seq<char>| w.len() > 0);
        assert forall|k: int| 0 <= k < f.len() implies #[trigger] f[k].len() > 0 && forall|j: int|
            0 <= j < f[k].len() ==> !is_space(#[trigger] f[k][j]) by {
            if k < fd.len() {
                assert(f[k] == fd[k]);
            } else {
                assert(f[k] == ps.last());
                assert forall|j: int| 0 <= j < f[k].len() implies !is_space(#[trigger] f[k][j]) by {
                    assert(f[k][j] == ps[ps.len() - 1][j]);
                }
            }
        }
    }
}

/// Each word is non-empty and holds no white space.
pub proof fn lemma_words_shape(s: Seq<char>)
    ensures
        forall|k: int| 0 <= k < words(s).len() ==> #[trigger] words(s)[k].len() > 0 && forall|j: int|
            0 <= j < words(s)[k].len() ==> !is_space(#[trigger] words(s)[k][j]),
{
    lemma_pieces_no_sep(s, true);
    let st = pieces_state(s, true);
    let ps = pieces(s, true);
    assert forall|k: int, j: int| 0 <= k < ps.len() && 0 <= j < ps[k].len() implies !is_space(
        #[trigger] ps[k][j],
    ) by {
        if k < st.done.len() {
            assert(ps[k] == st.done[k]);
            assert(!ends_piece(st.done[k][j], true));
        } else {
            assert(ps[k] == st.cur);
            assert(!ends_piece(st.cur[j], true));
        }
    }
    lemma_filter_words(ps);
}

/// Joined words start with the first word's first character.
pub proof fn lemma_join_first(ws: Seq<Seq<char>>)
    requires
        ws.len() >= 1,
        ws[0].len() > 0,
    ensures
        join(ws).len() > 0,
        join(ws)[0] == ws[0][0],
    decreases ws.len(),
{
    if ws.len() > 1 {
        lemma_join_first(ws.drop_last());
    }
}

proof fn lemma_lookup_shape(defs: Seq<(Seq<char>, Seq<char>)>, w: Seq<char>)
    requires
        defs_wf(defs),
    ensures
        w.len() == 0 ==> lookup(defs, w) == w,
        w.len() > 0 && !is_space(w[0]) ==> lookup(defs, w).len() > 0 && !is_space(lookup(defs, w)[0]),
    decreases defs.len(),
{
    if defs.len() > 0 {
        assert(defs[0].0.len() > 0 && defs[0].1.len() > 0 && !is_space(defs[0].1[0]));
        let d = defs.drop_first();
        assert forall|k: int| 0 <= k < d.len() implies #[trigger] d[k].0.len() > 0 && d[k].1.len() > 0
            && !is_space(d[k].1[0]) by {
            assert(d[k] == defs[k + 1]);
        }
        lemma_lookup_shape(d, w);
    }
}

proof fn lemma_subst_state_first(defs: Seq<(Seq<char>, Seq<char>)>, s: Seq<char>)
    requires
        defs_wf(defs),
        s.len() > 0,
        !is_space(s[0]),
    ensures
        ({
            let st = subst_state(defs, s);
            &&& st.done.len() == 0 ==> st.word.len() > 0 && st.word[0] == s[0]
            &&& st.done.len() > 0 ==> !is_space(st.done[0])
        }),
    decreases s.len(),
{
    let st = subst_state(defs, s);
    if s.len() == 1 {
        let prev = subst_state(defs, s.drop_last());
        assert(s.drop_last().len() == 0);
        lemma_lookup_shape(defs, prev.word);
        if is_define_sep(s.last()) {
            assert(st.done =~= seq![s[0]]);
        }
    } else {
        let t = s.drop_last();
        assert(t[0] == s[0]);
        lemma_subst_state_first(defs, t);
        let prev = subst_state(defs, t);
        lemma_lookup_shape(defs, prev.word);
        if is_define_sep(s.last()) {
            let l = lookup(defs, prev.word);
            if prev.done.len() > 0 {
                assert(st.done[0] == prev.done[0]);
            } else {
                assert(st.done[0] == l[0]);
            }
        } else if prev.done.len() == 0 {
            assert(st.word[0] == prev.word[0]);
        }
    }
}

/// Substituting well-formed defines in a line that starts with other than white space gives
/// a line that does too.
pub proof fn lemma_substitute_first(defs: Seq<(Seq<char>, Seq<char>)>, s: Seq<char>)
    requires
        defs_wf(defs),
        s.len() > 0,
        !is_space(s[0]),
    ensures
        substitute(defs, s).len() > 0,
        !is_space(substitute(defs, s)[0]),
{
    lemma_subst_state_first(defs, s);
    let st = subst_state(defs, s);
    lemma_lookup_shape(defs, st.word);
    if st.done.len() > 0 {
        assert(substitute(defs, s)[0] == st.done[0]);
    }
}

/// Substituting defines in an empty line leaves it empty.
pub proof fn lemma_substitute_empty(defs: Seq<(Seq<char>, Seq<char>)>)
    requires
        defs_wf(defs),
    ensures
        substitute(defs, Seq::empty()) == Seq::<char>::empty(),
{
    lemma_lookup_shape(defs, Seq::empty());
    assert(subst_state(defs, Seq::empty()).done + Seq::<char>::empty() =~= Seq::<char>::empty());
}

} // verus!
