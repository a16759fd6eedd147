//! The line-oriented buffer through which the names are edited.
use vstd::prelude::*;
use crate::text::{
    chars_of, is_trimmed_nonempty, string_of, trim, trim_chars, trim_end, trim_start, views,
};

verus! {

/// No character of `s` is a line break.
pub open spec fn newline_free(s: Seq<char>) -> bool {
    forall|k: int| 0 <= k < s.len() ==> s[k] != '\n'
}

/// The pieces of `s` between line breaks, in order; the last piece follows the
/// last line break and may be empty.
pub open spec fn pieces(s: Seq<char>) -> Seq<Seq<char>>
    decreases s.len(),
{
    if s.len() == 0 {
        seq![Seq::<char>::empty()]
    } else {
        let p = pieces(s.drop_last());
        if s.last() == '\n' {
            p.push(Seq::<char>::empty())
        } else {
            p.update(p.len() - 1, p.last().push(s.last()))
        }
    }
}

/// The lines of `ls`, trimmed, without those that are empty once trimmed.
pub open spec fn keep_names(ls: Seq<Seq<char>>) -> Seq<Seq<char>>
    decreases ls.len(),
{
    if ls.len() == 0 {
        Seq::<Seq<char>>::empty()
    } else {
        let r = keep_names(ls.drop_last());
        if trim(ls.last()).len() > 0 {
            r.push(trim(ls.last()))
        } else {
            r
        }
    }
}

/// The names that an edited buffer holds: each line trimmed, blank lines left out.
pub open spec fn edited_names(content: Seq<char>) -> Seq<Seq<char>> {
    keep_names(pieces(content))
}

/// The buffer that holds `names`: each name followed by a line break.
pub open spec fn encoded(names: Seq<Seq<char>>) -> Seq<char>
    decreases names.len(),
{
    if names.len() == 0 {
        Seq::<char>::empty()
    } else {
        encoded(names.drop_last()) + names.last() + seq!['\n']
    }
}

/// Each name holds no line break.
pub open spec fn all_newline_free(names: Seq<Seq<char>>) -> bool {
    forall|i: int| 0 <= i < names.len() ==> newline_free(#[trigger] names[i])
}

/// Each name is non-empty, holds no line break, and has no white space at
/// either end.
pub open spec fn all_clean(names: Seq<Seq<char>>) -> bool {
    forall|i: int|
        0 <= i < names.len() ==> newline_free(#[trigger] names[i]) && is_trimmed_nonempty(
            names[i],
        )
}

proof fn lemma_pieces_push(s: Seq<char>, c: char)
    ensures
        pieces(s.push(c)) == (if c == '\n' {
            pieces(s).push(Seq::<char>::empty())
        } else {
            pieces(s).update(pieces(s).len() - 1, pieces(s).last().push(c))
        }),
{
    assert(s.push(c).drop_last() =~= s);
}

proof fn lemma_pieces_nonempty(s: Seq<char>)
    ensures
        pieces(s).len() >= 1,
    decreases s.len(),
{
    if s.len() > 0 {
        lemma_pieces_nonempty(s.drop_last());
    }
}

proof fn lemma_pieces_extend(x: Seq<char>, w: Seq<char>)
    requires
        newline_free(w),
    ensures
        pieces(x + w) == pieces(x).update(pieces(x).len() - 1, pieces(x).last() + w),
    decreases w.len(),
{
    lemma_pieces_nonempty(x);
    if w.len() == 0 {
        assert(x + w =~= x);
        assert(pieces(x).last() + w =~= pieces(x).last());
        assert(pieces(x).update(pieces(x).len() - 1, pieces(x).last()) =~= pieces(x));
    } else {
        let w0 = w.drop_last();
        lemma_pieces_extend(x, w0);
        assert(x + w =~= (x + w0).push(w.last()));
        lemma_pieces_push(x + w0, w.last());
        assert(pieces(x).last() + w0 + seq![w.last()] =~= pieces(x).last() + w);
        assert((pieces(x).last() + w0).push(w.last()) =~= pieces(x).last() + w);
        assert(pieces(x + w) =~= pieces(x).update(pieces(x).len() - 1, pieces(x).last() + w));
    }
}

/// The buffer written for `names` holds exactly one line per name, in order,
/// each line being the name itself, and a line break after the last one.
pub proof fn lemma_pieces_of_encoded(names: Seq<Seq<char>>)
    requires
        all_newline_free(names),
    ensures
        pieces(encoded(names)) == names.push(Seq::<char>::empty()),
    decreases names.len(),
{
    if names.len() == 0 {
        assert(pieces(encoded(names)) =~= names.push(Seq::<char>::empty()));
    } else {
        let front = names.drop_last();
        assert(all_newline_free(front)) by {
            assert forall|i: int| 0 <= i < front.len() implies newline_free(#[trigger] front[i]) by {
                assert(front[i] == names[i]);
            }
        }
        lemma_pieces_of_encoded(front);
        assert(newline_free(names[names.len() - 1]));
        lemma_pieces_extend(encoded(front), names.last());
        let e = encoded(front) + names.last();
        assert(encoded(names) =~= e.push('\n'));
        lemma_pieces_push(e, '\n');
        assert(Seq::<char>::empty() + names.last() =~= names.last());
        assert(pieces(encoded(names)) =~= names.push(Seq::<char>::empty()));
    }
}

proof fn lemma_trim_clean(s: Seq<char>)
    requires
        is_trimmed_nonempty(s),
    ensures
        trim(s) == s,
{
    assert(trim_start(s) == s);
    assert(trim_end(s) == s);
}

proof fn lemma_keep_clean(names: Seq<Seq<char>>)
    requires
        all_clean(names),
    ensures
        keep_names(names) == names,
    decreases names.len(),
{
    if names.len() > 0 {
        let front = names.drop_last();
        assert(all_clean(front)) by {
            assert forall|i: int| 0 <= i < front.len() implies newline_free(#[trigger] front[i])
                && is_trimmed_nonempty(front[i]) by {
                assert(front[i] == names[i]);
            }
        }
        lemma_keep_clean(front);
        assert(is_trimmed_nonempty(names[names.len() - 1]));
        lemma_trim_clean(names.last());
        assert(front.push(names.last()) =~= names);
    }
}

/// Reading back an unedited buffer gives the names that were written, provided
/// each name is non-empty, holds no line break and has no white space at
/// either end.
pub proof fn lemma_unedited_round_trip(names: Seq<Seq<char>>)
    requires
        all_clean(names),
    ensures
        edited_names(encoded(names)) == names,
{
    assert(all_newline_free(names)) by {
        assert forall|i: int| 0 <= i < names.len() implies newline_free(#[trigger] names[i]) by {
            assert(newline_free(names[i]));
        }
    }
    lemma_pieces_of_encoded(names);
    let p = names.push(Seq::<char>::empty());
    assert(p.drop_last() =~= names);
    assert(trim_start(Seq::<char>::empty()) == Seq::<char>::empty());
    assert(trim_end(Seq::<char>::empty()) == Seq::<char>::empty());
    lemma_keep_clean(names);
}

/// The buffer that holds `names`, one per line, each line ended by a line break.
pub fn encode_names(names: &Vec<String>) -> (r: String)
    ensures
        r@ == encoded(views(names@)),
{
    let mut out: Vec<char> = Vec::new();
    let mut i: usize = 0;
    while i < names.len()
        invariant
            i <= names@.len(),
            out@ == encoded(views(names@.subrange(0, i as int))),
        decreases names@.len() - i,
    {
        let cs = chars_of(names[i].as_str());
        let ghost before = out@;
        let mut k: usize = 0;
        while k < cs.len()
            invariant
                k <= cs@.len(),
                out@ == before + cs@.subrange(0, k as int),
            decreases cs@.len() - k,
        {
            out.push(cs[k]);
            k = k + 1;
            assert(out@ =~= before + cs@.subrange(0, k as int));
        }
        out.push('\n');
        proof {
            let vs = views(names@.subrange(0, i + 1));
            assert(vs.drop_last() =~= views(names@.subrange(0, i as int)));
            assert(vs.last() == names@[i as int]@);
            assert(cs@.subrange(0, k as int) =~= cs@);
            assert(out@ =~= encoded(vs));
        }
        i = i + 1;
    }
    assert(names@.subrange(0, i as int) =~= names@);
    string_of(out.as_slice())
}

/// The names that an edited buffer holds: the lines of `content`, each trimmed
/// of white space, leaving out the lines that are then empty.
pub fn decode_names(content: &str) -> (r: Vec<String>)
    ensures
        views(r@) == edited_names(content@),
{
    let s = chars_of(content);
    let mut out: Vec<String> = Vec::new();
    let mut cur: Vec<char> = Vec::new();
    let ghost mut done: Seq<Seq<char>> = Seq::empty();
    let mut j: usize = 0;
    assert(s@.subrange(0, 0) =~= Seq::<char>::empty());
    while j < s.len()
        invariant
            j <= s@.len(),
            pieces(s@.subrange(0, j as int)) == done.push(cur@),
            views(out@) == keep_names(done),
        decreases s@.len() - j,
    {
        let c = s[j];
        proof {
            assert(s@.subrange(0, j + 1) =~= s@.subrange(0, j as int).push(c));
            lemma_pieces_push(s@.subrange(0, j as int), c);
        }
        if c == '\n' {
            let t = trim_chars(&cur);
            proof {
                let nd = done.push(cur@);
                assert(nd.drop_last() =~= done);
            }
            if t.len() > 0 {
                let name = string_of(t.as_slice());
                out.push(name);
                proof {
                    assert(views(out@) =~= keep_names(done.push(cur@)));
                }
            }
            proof {
                done = done.push(cur@);
            }
            cur = Vec::new();
            assert(pieces(s@.subrange(0, j + 1)) =~= done.push(cur@));
        } else {
            cur.push(c);
            assert(pieces(s@.subrange(0, j + 1)) =~= done.push(cur@));
        }
        j = j + 1;
    }
    assert(s@.subrange(0, j as int) =~= content@);
    let t = trim_chars(&cur);
    proof {
        let nd = done.push(cur@);
        assert(nd.drop_last() =~= done);
    }
    if t.len() > 0 {
        let name = string_of(t.as_slice());
        out.push(name);
        assert(views(out@) =~= keep_names(done.push(cur@)));
    }
    out
}

} // verus!
